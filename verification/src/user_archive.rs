//! Export of a user's files as one compressed archive.
//!
//! The archive is built in memory. The caller lists the user's directory,
//! reads the files that `is_member` accepts, and writes the finished archive
//! back into the directory.
//!
//! Every file is entered as a large file, so that the container takes a
//! file of any size. On a buffer in memory the building of an archive then
//! has no reason to fail, and an export fails only for a user name that is
//! not safe, where there is nothing to export, and where a file could not
//! be read.
use vstd::prelude::*;
use vstd::string::*;

use crate::errors::ArchiveError;
use crate::pins::is_safe_name;
use crate::pins::pin_directory_path;
use crate::pins::safe_name;
use crate::pins::BackingStore;
use crate::sequences::lemma_filter_push;

verus! {

/// One entry of an archive: a directory, or a file with its content.
pub ghost struct ArchiveEntry {
    pub name: Seq<char>,
    pub directory: bool,
    pub data: Seq<u8>,
}

/// An archive under construction, in memory.
#[verifier::external_body]
pub struct ArchiveWriter {
    inner: zip::ZipWriter<std::io::Cursor<Vec<u8>>>,
}

#[verifier::external_type_specification]
#[verifier::external_body]
pub struct ExZipError(zip::result::ZipError);

#[verifier::external_type_specification]
#[verifier::external_body]
pub struct ExIoError(std::io::Error);

/// The entries that were put into an archive so far, in order: for each
/// its name, whether it was entered as a directory, and the bytes written
/// to it.
pub uninterp spec fn archive_entries(writer: ArchiveWriter) -> Seq<ArchiveEntry>;

/// The bytes of the finished archive that holds the given entries, each
/// file entered as a large file with its content written in one piece,
/// under the writer's default options otherwise.
pub uninterp spec fn archive_bytes(entries: Seq<ArchiveEntry>) -> Seq<u8>;

/// The name under which a directory is entered: the given name, with a `/`
/// behind it unless it ends in `/` or `\`.
pub open spec fn directory_name(name: Seq<char>) -> Seq<char> {
    if name.len() > 0 && (name.last() == '/' || name.last() == '\\') {
        name
    } else {
        name + seq!['/']
    }
}

/// `zip::ZipWriter::new` over an empty buffer in memory. Trusted: the new
/// archive has no entries.
#[verifier::external_body]
fn new_archive() -> (writer: ArchiveWriter)
    ensures
        archive_entries(writer) == Seq::<ArchiveEntry>::empty(),
{
    ArchiveWriter { inner: zip::ZipWriter::new(std::io::Cursor::new(Vec::new())) }
}

/// `ZipWriter::add_directory` with `FileOptions::default()`. The writer
/// first closes the entry put in last; a directory and a large file can
/// always be closed, and a buffer in memory takes every write. Trusted: the
/// call succeeds, and the archive then has one more entry, a directory
/// under its directory name.
#[verifier::external_body]
fn add_directory(writer: ArchiveWriter, name: &str) -> (added: Result<
    ArchiveWriter,
    zip::result::ZipError,
>)
    ensures
        added is Ok,
        added matches Ok(after) ==> archive_entries(after) == archive_entries(writer).push(
            ArchiveEntry { name: directory_name(name@), directory: true, data: Seq::empty() },
        ),
{
    let mut writer = writer;
    writer.inner.add_directory(name, zip::write::FileOptions::default())?;
    Ok(writer)
}

/// `ZipWriter::start_file` with `FileOptions::default().large_file(true)`.
/// The writer first closes the entry put in last; a directory and a large
/// file can always be closed, and a buffer in memory takes every write.
/// Trusted: the call succeeds, and the archive then has one more entry, a
/// file of that name without content.
#[verifier::external_body]
fn start_file(writer: ArchiveWriter, name: &str) -> (started: Result<
    ArchiveWriter,
    zip::result::ZipError,
>)
    ensures
        started is Ok,
        started matches Ok(after) ==> archive_entries(after) == archive_entries(writer).push(
            ArchiveEntry { name: name@, directory: false, data: Seq::empty() },
        ),
{
    let mut writer = writer;
    writer.inner.start_file(name, zip::write::FileOptions::default().large_file(true))?;
    Ok(writer)
}

/// `std::io::Write::write_all` on the `ZipWriter`. It is called once for a
/// file, right after the file was started. The writer sets no limit to the
/// bytes of a large file. Trusted: the call succeeds, and the bytes are
/// then the file's content.
#[verifier::external_body]
fn write_content(writer: ArchiveWriter, data: &Vec<u8>) -> (written: Result<
    ArchiveWriter,
    std::io::Error,
>)
    requires
        archive_entries(writer).len() > 0,
        !archive_entries(writer).last().directory,
        archive_entries(writer).last().data.len() == 0,
    ensures
        written is Ok,
        written matches Ok(after) ==> archive_entries(after) == archive_entries(
            writer,
        ).drop_last().push(
            ArchiveEntry {
                name: archive_entries(writer).last().name,
                directory: false,
                data: data@,
            },
        ),
{
    let mut writer = writer;
    std::io::Write::write_all(&mut writer.inner, data.as_slice())?;
    Ok(writer)
}

/// `ZipWriter::finish`, and the buffer out of the cursor it returns. The
/// writer first closes the entry put in last; a directory and a large file
/// can always be closed, and a buffer in memory takes every write.
/// Trusted: the call succeeds, and the bytes are those of the archive that
/// holds the entries put in.
#[verifier::external_body]
fn finish_archive(writer: ArchiveWriter) -> (finished: Result<Vec<u8>, zip::result::ZipError>)
    ensures
        finished is Ok,
        finished matches Ok(bytes) ==> bytes@ == archive_bytes(archive_entries(writer)),
{
    let mut writer = writer;
    Ok(writer.inner.finish()?.into_inner())
}

/// A file of the user's directory: its name and, where it could be read,
/// its content.
#[derive(Debug)]
pub struct UserFile {
    pub name: String,
    pub content: Option<Vec<u8>>,
}

/// A file as plain text and bytes.
pub ghost struct UserFileView {
    pub name: Seq<char>,
    pub content: Option<Seq<u8>>,
}

impl View for UserFile {
    type V = UserFileView;

    open spec fn view(&self) -> UserFileView {
        UserFileView {
            name: self.name@,
            content: match self.content {
                Some(content) => Some(content@),
                None => None,
            },
        }
    }
}

/// The files of a vector as plain text and bytes.
pub open spec fn file_views(files: Seq<UserFile>) -> Seq<UserFileView> {
    files.map_values(|file: UserFile| file@)
}

/// The files of an optional listing as plain text and bytes.
pub open spec fn optional_files(files: Option<Vec<UserFile>>) -> Option<Seq<UserFileView>> {
    match files {
        Some(files) => Some(file_views(files@)),
        None => None,
    }
}

/// A finished archive: the directory and the name under which it is to be
/// written, and its bytes.
#[derive(Debug)]
pub struct Archive {
    pub directory: String,
    pub filename: String,
    pub bytes: Vec<u8>,
}

/// The folder inside the archive that holds all files.
pub open spec fn archive_folder() -> Seq<char> {
    "recense_data"@
}

/// The name of a user's archive.
pub open spec fn archive_name(username: Seq<char>) -> Seq<char> {
    "recense_archive_"@ + username + ".zip"@
}

/// The test for files that go into a user's archive: all but an archive
/// made earlier.
pub open spec fn member_of(username: Seq<char>) -> spec_fn(UserFileView) -> bool {
    |file: UserFileView| file.name != archive_name(username)
}

/// The files that go into a user's archive, in directory order.
pub open spec fn members(username: Seq<char>, files: Seq<UserFileView>) -> Seq<UserFileView> {
    files.filter(member_of(username))
}

/// Every file could be read.
pub open spec fn all_read(files: Seq<UserFileView>) -> bool {
    forall|i: int| 0 <= i < files.len() ==> (#[trigger] files[i]).content is Some
}

/// The entry of a file that was read: the file under its name inside the
/// archive's folder.
pub open spec fn entry_of(file: UserFileView) -> ArchiveEntry {
    ArchiveEntry {
        name: archive_folder() + seq!['/'] + file.name,
        directory: false,
        data: file.content->0,
    }
}

/// The entries of an archive of the given files: the archive's folder,
/// then the files in order.
pub open spec fn packed(files: Seq<UserFileView>) -> Seq<ArchiveEntry> {
    seq![
        ArchiveEntry {
            name: directory_name(archive_folder()),
            directory: true,
            data: Seq::empty(),
        },
    ] + files.map_values(|file: UserFileView| entry_of(file))
}

/// What is returned of an export, for what the directory holds.
///
/// A user name that is no safe name is refused. Without a directory there
/// is nothing to export. With one, a member that could not be read fails
/// the export. In every other case the export gives the archive of the
/// members, to be written into the user's directory under the archive's
/// name.
pub open spec fn is_export(
    username: Seq<char>,
    listing: Option<Seq<UserFileView>>,
    outcome: Result<Archive, ArchiveError>,
) -> bool {
    if !safe_name(username) {
        outcome == Err::<Archive, ArchiveError>(ArchiveError::UnsafeName)
    } else {
        match listing {
            None => outcome == Err::<Archive, ArchiveError>(ArchiveError::NoData),
            Some(files) => {
                let chosen = members(username, files);
                if !all_read(chosen) {
                    outcome == Err::<Archive, ArchiveError>(ArchiveError::Io)
                } else {
                    &&& outcome matches Ok(archive)
                    &&& archive.directory@ == pin_directory_path(username)
                    &&& archive.filename@ == archive_name(username)
                    &&& archive.bytes@ == archive_bytes(packed(chosen))
                }
            },
        }
    }
}

/// The name of a user's archive.
pub fn archive_filename(username: &str) -> (name: String)
    ensures
        name@ == archive_name(username@),
{
    let mut name = String::from_str("recense_archive_");
    name.append(username);
    name.append(".zip");
    name
}

/// Whether a file of the user's directory goes into the archive.
pub fn is_member(username: &str, name: &str) -> (yes: bool)
    ensures
        yes == (name@ != archive_name(username@)),
{
    let archive = archive_filename(username);
    !(String::from_str(name) == archive)
}

/// Puts the members into the archive, each under the archive's folder.
fn pack(writer: ArchiveWriter, files: Vec<UserFile>, archive: &String, Ghost(username): Ghost<
    Seq<char>,
>) -> (packed_all: Result<ArchiveWriter, ArchiveError>)
    requires
        archive@ == archive_name(username),
        all_read(members(username, file_views(files@))),
        archive_entries(writer) == packed(Seq::<UserFileView>::empty()),
    ensures
        packed_all matches Ok(after) && archive_entries(after) == packed(
            members(username, file_views(files@)),
        ),
{
    let ghost all = file_views(files@);
    let mut writer = writer;
    proof {
        reveal(Seq::filter);
        assert(all.take(0) =~= Seq::empty());
    }
    for file in it: files
        invariant
            all == file_views(it.seq()),
            archive@ == archive_name(username),
            all_read(members(username, all)),
            archive_entries(writer) == packed(members(username, all.take(it.index() as int))),
    {
        let ghost k = it.index() as int;
        let ghost chosen = members(username, all.take(k));
        proof {
            assert(all[k] == file@);
            assert(all.take(k + 1) =~= all.take(k).push(file@));
            lemma_filter_push(all.take(k), file@, member_of(username));
        }
        if !(file.name == *archive) {
            let content = match file.content {
                Some(content) => content,
                None => {
                    proof {
                        lemma_unread(username, all, k);
                    }
                    return Err(ArchiveError::Io);
                },
            };
            let mut name = String::from_str("recense_data/");
            name.append(file.name.as_str());
            proof {
                reveal_strlit("recense_data/");
                reveal_strlit("recense_data");
                assert("recense_data/"@ =~= archive_folder() + seq!['/']);
                assert(name@ =~= archive_folder() + seq!['/'] + file.name@);
            }
            writer = match start_file(writer, name.as_str()) {
                Ok(after) => after,
                Err(_) => {
                    return Err(ArchiveError::Io);
                },
            };
            writer = match write_content(writer, &content) {
                Ok(after) => after,
                Err(_) => {
                    return Err(ArchiveError::Io);
                },
            };
            proof {
                let longer = chosen.push(file@);
                assert(packed(longer) =~= packed(chosen).push(entry_of(file@)));
                assert(packed(chosen).push(
                    ArchiveEntry { name: name@, directory: false, data: Seq::empty() },
                ).drop_last() =~= packed(chosen));
            }
        }
    }
    proof {
        assert(all.take(all.len() as int) =~= all);
    }
    Ok(writer)
}

/// A member without content contradicts that all members were read.
proof fn lemma_unread(username: Seq<char>, files: Seq<UserFileView>, k: int)
    requires
        0 <= k < files.len(),
        files[k].name != archive_name(username),
        files[k].content is None,
    ensures
        !all_read(members(username, files)),
{
    let keep = member_of(username);
    assert(keep(files[k]));
    files.lemma_filter_contains(keep, k);
    let chosen = members(username, files);
    let at = choose|at: int| 0 <= at < chosen.len() && chosen[at] == files[k];
    assert(chosen[at].content is None);
}

/// Whether every member among the files was read.
fn members_read(files: &Vec<UserFile>, archive: &String, Ghost(username): Ghost<Seq<char>>) -> (yes:
    bool)
    requires
        archive@ == archive_name(username),
    ensures
        yes == all_read(members(username, file_views(files@))),
{
    let ghost all = file_views(files@);
    let mut k: usize = 0;
    proof {
        reveal(Seq::filter);
        assert(all.take(0) =~= Seq::empty());
    }
    while k < files.len()
        invariant
            k <= files@.len(),
            all == file_views(files@),
            archive@ == archive_name(username),
            all_read(members(username, all.take(k as int))),
        decreases files@.len() - k,
    {
        let file = &files[k];
        let ghost chosen = members(username, all.take(k as int));
        proof {
            assert(all[k as int] == file@);
            assert(all.take(k + 1) =~= all.take(k as int).push(file@));
            lemma_filter_push(all.take(k as int), file@, member_of(username));
        }
        if !(file.name == *archive) {
            if file.content.is_none() {
                proof {
                    lemma_unread(username, all, k as int);
                }
                return false;
            }
            proof {
                let longer = chosen.push(file@);
                assert forall|i: int| 0 <= i < longer.len() implies (#[trigger] longer[i]).content is Some by {
                    if i < chosen.len() {
                        assert(longer[i] == chosen[i]);
                    }
                }
            }
        }
        k += 1;
    }
    proof {
        assert(all.take(k as int) =~= all);
    }
    true
}

/// Builds the archive of a user's files. `listing` is `None` where the user
/// has no directory; else it holds the files of the directory in directory
/// order, the members with their content.
pub fn generate_zip_file(username: &str, listing: Option<Vec<UserFile>>) -> (outcome: Result<
    Archive,
    ArchiveError,
>)
    ensures
        is_export(username@, optional_files(listing), outcome),
{
    if !is_safe_name(username) {
        return Err(ArchiveError::UnsafeName);
    }
    let files = match listing {
        None => {
            return Err(ArchiveError::NoData);
        },
        Some(files) => files,
    };
    let archive = archive_filename(username);
    if !members_read(&files, &archive, Ghost(username@)) {
        return Err(ArchiveError::Io);
    }
    let writer = new_archive();
    let writer = match add_directory(writer, "recense_data") {
        Ok(after) => after,
        Err(_) => {
            return Err(ArchiveError::Io);
        },
    };
    proof {
        assert(archive_entries(writer) =~= packed(Seq::<UserFileView>::empty()));
    }
    let writer = match pack(writer, files, &archive, Ghost(username@)) {
        Ok(after) => after,
        Err(error) => {
            return Err(error);
        },
    };
    match finish_archive(writer) {
        Ok(bytes) => Ok(
            Archive { directory: BackingStore::pin_directory(username), filename: archive, bytes },
        ),
        Err(_) => Err(ArchiveError::Io),
    }
}

} // verus!
