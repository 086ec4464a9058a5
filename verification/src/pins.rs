//! Pins and the record store.
//!
//! A pin is kept as one file per user and id. The store decides where a
//! record lives, what is written for it and what a directory listing means;
//! the caller reads and writes the files.
//!
//! Every operation of the store comes in two halves. The first names the
//! files that the caller is to read, write or remove; the second, `finish`,
//! takes what the caller found and gives the operation's result.
//!
//! The names of users and the ids of pins go into paths as they are.
//! Every operation that takes them refuses a name that is not safe, before
//! it names any file.
use vstd::prelude::*;
use vstd::string::*;

use crate::downloader::DownloadRequest;
use crate::downloader::RequestView;
use crate::errors::StoreError;
use crate::htmlrenderer::markdown_html;
use crate::htmlrenderer::render_markdown_string;
use crate::text::chars_of;
use crate::text::decimal;
use crate::text::decimal_string;
use crate::text::starts_with;
use crate::text::string_views;

verus! {

/// A moment on the UTC time line: whole seconds since the start of 1970 and
/// the nanoseconds within the second. During a leap second the nanoseconds
/// run past 999,999,999.
#[derive(Debug, Clone, Copy, PartialEq, Eq, Structural)]
pub struct Timestamp {
    pub secs: i64,
    pub nanos: u32,
}

impl Timestamp {
    /// `self` is strictly earlier than `other`.
    pub open spec fn precedes(self, other: Timestamp) -> bool {
        self.secs < other.secs || (self.secs == other.secs && self.nanos < other.nanos)
    }

    /// Nanoseconds since the start of 1970.
    pub open spec fn nanoseconds(self) -> int {
        self.secs * 1_000_000_000 + self.nanos
    }

    /// Whether `self` is strictly earlier than `other`.
    pub fn is_before(&self, other: &Timestamp) -> (earlier: bool)
        ensures
            earlier == self.precedes(*other),
    {
        self.secs < other.secs || (self.secs == other.secs && self.nanos < other.nanos)
    }
}

/// A saved bookmark.
#[derive(Debug)]
pub struct Pin {
    pub id: String,
    pub title: String,
    pub urls: Vec<String>,
    pub description: String,
    pub rendered_description: Option<String>,
    pub tags: Vec<String>,
    pub created: Timestamp,
}

/// A pin as plain text.
pub ghost struct PinView {
    pub id: Seq<char>,
    pub title: Seq<char>,
    pub urls: Seq<Seq<char>>,
    pub description: Seq<char>,
    pub rendered_description: Option<Seq<char>>,
    pub tags: Seq<Seq<char>>,
    pub created: Timestamp,
}

/// The text of an optional string.
pub open spec fn optional_view(text: Option<String>) -> Option<Seq<char>> {
    match text {
        Some(text) => Some(text@),
        None => None,
    }
}

impl View for Pin {
    type V = PinView;

    open spec fn view(&self) -> PinView {
        PinView {
            id: self.id@,
            title: self.title@,
            urls: string_views(self.urls@),
            description: self.description@,
            rendered_description: optional_view(self.rendered_description),
            tags: string_views(self.tags@),
            created: self.created,
        }
    }
}

/// The pins of a vector as plain text.
pub open spec fn pin_views(pins: Seq<Pin>) -> Seq<PinView> {
    pins.map_values(|pin: Pin| pin@)
}

/// A copy of a vector of strings.
pub fn copy_strings(items: &Vec<String>) -> (copy: Vec<String>)
    ensures
        copy@ == items@,
{
    let mut copy: Vec<String> = Vec::new();
    let mut i: usize = 0;
    while i < items.len()
        invariant
            i <= items@.len(),
            copy@ == items@.take(i as int),
        decreases items@.len() - i,
    {
        copy.push(items[i].clone());
        assert(copy@ =~= items@.take(i + 1));
        i += 1;
    }
    assert(items@.take(i as int) =~= items@);
    copy
}

impl Clone for Pin {
    fn clone(&self) -> (copy: Pin)
        ensures
            copy@ == self@,
    {
        let rendered_description = match &self.rendered_description {
            Some(html) => Some(html.clone()),
            None => None,
        };
        Pin {
            id: self.id.clone(),
            title: self.title.clone(),
            urls: copy_strings(&self.urls),
            description: self.description.clone(),
            rendered_description,
            tags: copy_strings(&self.tags),
            created: self.created,
        }
    }
}

/// An ASCII letter or digit.
pub open spec fn ascii_alphanumeric(c: char) -> bool {
    ||| '0' <= c <= '9'
    ||| 'a' <= c <= 'z'
    ||| 'A' <= c <= 'Z'
}

/// A name that can go into a path as it is: not empty, and made of ASCII
/// letters and digits only, so that it names exactly one file or directory
/// right where it is put.
pub open spec fn safe_name(name: Seq<char>) -> bool {
    &&& name.len() > 0
    &&& forall|i: int| 0 <= i < name.len() ==> ascii_alphanumeric(#[trigger] name[i])
}

/// Forty lowercase hexadecimal digits.
pub open spec fn is_hex_digest(text: Seq<char>) -> bool {
    &&& text.len() == 40
    &&& forall|i: int|
        0 <= i < text.len() ==> ('0' <= #[trigger] text[i] <= '9' || 'a' <= text[i] <= 'f')
}

/// A digest is a safe name.
pub proof fn lemma_digest_is_safe(text: Seq<char>)
    requires
        is_hex_digest(text),
    ensures
        safe_name(text),
{
}

/// Whether a name can go into a path as it is. The names of users and the
/// ids of pins are put into paths unchanged, so the store tests them
/// first.
pub fn is_safe_name(name: &str) -> (yes: bool)
    ensures
        yes == safe_name(name@),
{
    let chars = chars_of(name);
    if chars.len() == 0 {
        return false;
    }
    let mut i: usize = 0;
    while i < chars.len()
        invariant
            i <= chars@.len(),
            chars@ == name@,
            chars@.len() > 0,
            forall|j: int| 0 <= j < i ==> ascii_alphanumeric(#[trigger] chars@[j]),
        decreases chars@.len() - i,
    {
        let c = chars[i];
        if !(('0' <= c && c <= '9') || ('a' <= c && c <= 'z') || ('A' <= c && c <= 'Z')) {
            assert(!ascii_alphanumeric(name@[i as int]));
            return false;
        }
        i += 1;
    }
    true
}

/// The SHA-1 digest of the UTF-8 bytes of a text, as forty lowercase
/// hexadecimal digits.
pub uninterp spec fn sha1_hex(text: Seq<char>) -> Seq<char>;

/// Feeds the bytes of `text` to `sha1::Sha1::from` and takes `hexdigest`.
/// Trusted: the digest depends on the text alone, so it is the named
/// digest; it is printed as five words of eight lowercase hexadecimal
/// digits each.
#[verifier::external_body]
fn sha1_hexdigest(text: &str) -> (hex: String)
    ensures
        hex@ == sha1_hex(text@),
        is_hex_digest(hex@),
{
    sha1::Sha1::from(text).hexdigest()
}

/// Reads the clock with `chrono::Utc::now` and takes the reading apart with
/// `timestamp` and `timestamp_subsec_nanos`. Nothing is promised of the
/// reading. `Utc::now` gives up on a machine whose clock stands before 1970.
#[verifier::external_body]
pub(crate) fn utc_now() -> (now: Timestamp) {
    let now = chrono::Utc::now();
    Timestamp { secs: now.timestamp(), nanos: now.timestamp_subsec_nanos() }
}

/// The pin that is made at the moment `now`: empty but for its id, which is
/// the digest of the moment's nanoseconds in decimal, and its creation time.
pub open spec fn fresh_pin(now: Timestamp) -> PinView {
    PinView {
        id: sha1_hex(decimal(now.nanoseconds())),
        title: Seq::empty(),
        urls: Seq::empty(),
        description: Seq::empty(),
        rendered_description: Some(Seq::empty()),
        tags: Seq::empty(),
        created: now,
    }
}

impl Pin {
    /// An empty pin made now. Whatever the clock says, the pin is the fresh
    /// pin of the moment it carries; its id is a digest of forty
    /// hexadecimal digits, and so a safe name.
    pub fn new() -> (pin: Pin)
        ensures
            pin@ == fresh_pin(pin.created),
            is_hex_digest(pin.id@),
            safe_name(pin.id@),
    {
        Pin::created_at(utc_now())
    }

    /// An empty pin made at the moment `now`. Its id is a digest of forty
    /// hexadecimal digits, and so a safe name.
    pub fn created_at(now: Timestamp) -> (pin: Pin)
        ensures
            pin@ == fresh_pin(now),
            is_hex_digest(pin.id@),
            safe_name(pin.id@),
    {
        let nanoseconds: i128 = (now.secs as i128) * 1_000_000_000 + (now.nanos as i128);
        let stamp = decimal_string(nanoseconds);
        let pin = Pin {
            id: sha1_hexdigest(stamp.as_str()),
            title: String::new(),
            urls: Vec::new(),
            description: String::new(),
            rendered_description: Some(String::new()),
            tags: Vec::new(),
            created: now,
        };
        assert(pin@.urls =~= Seq::empty());
        assert(pin@.tags =~= Seq::empty());
        pin
    }
}

/// The directory that holds a user's records.
pub open spec fn pin_directory_path(username: Seq<char>) -> Seq<char> {
    "pins/"@ + username + "/"@
}

/// The file that holds one pin of a user. `_v0` is the record's format
/// version; no other is written.
pub open spec fn pin_file_path(extension: Seq<char>, username: Seq<char>, id: Seq<char>) -> Seq<
    char,
> {
    "pins/"@ + username + "/"@ + id + "_v0."@ + extension
}

/// The address names its scheme.
pub open spec fn has_scheme(url: Seq<char>) -> bool {
    "http://"@.is_prefix_of(url) || "https://"@.is_prefix_of(url)
}

/// An address as it is stored: an address without `http://` or `https://`
/// in front gets `http://`; an empty one stays empty.
pub open spec fn normalized_url(url: Seq<char>) -> Seq<char> {
    if url.len() == 0 || has_scheme(url) {
        url
    } else {
        "http://"@ + url
    }
}

/// The addresses of a pin as they are stored: the first is normalized, the
/// others are kept.
pub open spec fn stored_urls(urls: Seq<Seq<char>>) -> Seq<Seq<char>> {
    if urls.len() == 0 {
        urls
    } else {
        urls.update(0, normalized_url(urls[0]))
    }
}

/// A pin as it is stored: the first address normalized, an empty title
/// replaced by that address, the description rendered anew.
pub open spec fn stored_form(pin: PinView) -> PinView {
    let urls = stored_urls(pin.urls);
    PinView {
        id: pin.id,
        title: if pin.title.len() == 0 && urls.len() > 0 {
            urls[0]
        } else {
            pin.title
        },
        urls,
        description: pin.description,
        rendered_description: Some(markdown_html(pin.description)),
        tags: pin.tags,
        created: pin.created,
    }
}

/// The request that follows a write: for the first stored address, if the
/// pin has one.
pub open spec fn request_for(username: Seq<char>, stored: PinView) -> Option<RequestView> {
    if stored.urls.len() > 0 {
        Some(RequestView { url: stored.urls[0], pin_id: stored.id, username })
    } else {
        None
    }
}

/// The text of an optional request.
pub open spec fn optional_request(request: Option<DownloadRequest>) -> Option<RequestView> {
    match request {
        Some(request) => Some(request@),
        None => None,
    }
}

/// Normalizes one address.
pub fn normalize_url(url: &str) -> (stored: String)
    ensures
        stored@ == normalized_url(url@),
{
    let chars = chars_of(url);
    if chars.len() == 0 {
        return String::from_str(url);
    }
    let plain = chars_of("http://");
    let secure = chars_of("https://");
    if starts_with(&chars, &plain) || starts_with(&chars, &secure) {
        String::from_str(url)
    } else {
        let mut stored = String::from_str("http://");
        stored.append(url);
        stored
    }
}

/// A record that is to be written: the directory to make, the file to
/// write, the pin as it is stored, and the snapshot request that follows a
/// successful write.
#[derive(Debug)]
pub struct PinWrite {
    pub directory: String,
    pub filename: String,
    pub pin: Pin,
    pub request: Option<DownloadRequest>,
}

/// The record store.
#[derive(Debug, Clone, Copy)]
pub struct BackingStore {}

impl BackingStore {
    /// The store. It keeps nothing itself: all that is stored lies in the
    /// files.
    pub fn new() -> (store: BackingStore) {
        BackingStore {  }
    }

    /// The file of a pin, for the given extension.
    pub fn pin_filename(extension: &str, username: &str, id: &str) -> (path: String)
        ensures
            path@ == pin_file_path(extension@, username@, id@),
    {
        let mut path = String::from_str("pins/");
        path.append(username);
        path.append("/");
        path.append(id);
        path.append("_v0.");
        path.append(extension);
        path
    }

    /// The directory of a user's records.
    pub fn pin_directory(username: &str) -> (path: String)
        ensures
            path@ == pin_directory_path(username@),
    {
        let mut path = String::from_str("pins/");
        path.append(username);
        path.append("/");
        path
    }

    /// Prepares the write of a pin: normalizes the first address, fills an
    /// empty title with it, renders the description, and names the file and
    /// the request that follows. A user name or an id that is no safe name
    /// is refused, and nothing is to be written.
    pub fn add_pin(&self, username: String, pin: Pin) -> (write: Result<PinWrite, StoreError>)
        ensures
            safe_name(username@) && safe_name(pin.id@) ==> ({
                &&& write matches Ok(w)
                &&& w.pin@ == stored_form(pin@)
                &&& w.directory@ == pin_directory_path(username@)
                &&& w.filename@ == pin_file_path("json"@, username@, pin.id@)
                &&& optional_request(w.request) == request_for(username@, stored_form(pin@))
            }),
            !(safe_name(username@) && safe_name(pin.id@)) ==> write == Err::<
                PinWrite,
                StoreError,
            >(StoreError::UnsafeName),
    {
        if !is_safe_name(username.as_str()) || !is_safe_name(pin.id.as_str()) {
            return Err(StoreError::UnsafeName);
        }
        let mut pin = pin;
        let ghost given = pin@;
        if pin.urls.len() > 0 {
            let stored = normalize_url(pin.urls[0].as_str());
            pin.urls.set(0, stored);
        }
        assert(string_views(pin.urls@) =~= stored_urls(given.urls));
        if pin.title.as_str().unicode_len() == 0 && pin.urls.len() > 0 {
            pin.title = pin.urls[0].clone();
        }
        pin.rendered_description = Some(render_markdown_string(pin.description.as_str()));
        let directory = BackingStore::pin_directory(username.as_str());
        let filename = BackingStore::pin_filename("json", username.as_str(), pin.id.as_str());
        let request = if pin.urls.len() > 0 {
            Some(
                DownloadRequest {
                    url: pin.urls[0].clone(),
                    pin_id: pin.id.clone(),
                    username,
                },
            )
        } else {
            None
        };
        Ok(PinWrite { directory, filename, pin, request })
    }
}

impl PinWrite {
    /// Closes a write. `written` says whether the directory exists and the
    /// file was written. A failed write is a persistence error; after a
    /// successful one the request, if any, is to be handed to the worker.
    pub fn finish(self, written: bool) -> (outcome: Result<Option<DownloadRequest>, StoreError>)
        ensures
            written ==> outcome == Ok::<Option<DownloadRequest>, StoreError>(self.request),
            !written ==> outcome == Err::<Option<DownloadRequest>, StoreError>(
                StoreError::Persistence,
            ),
    {
        if written {
            Ok(self.request)
        } else {
            Err(StoreError::Persistence)
        }
    }
}

/// What a read of a record file gave.
#[derive(Debug)]
pub enum RecordFile {
    /// There is no such file, or it could not be read.
    Missing,
    /// The file does not hold a pin.
    Malformed,
    /// The file holds this pin.
    Record(Pin),
}

/// A read of a record file as plain text.
pub ghost enum FileView {
    Missing,
    Malformed,
    Record(PinView),
}

impl View for RecordFile {
    type V = FileView;

    open spec fn view(&self) -> FileView {
        match self {
            RecordFile::Missing => FileView::Missing,
            RecordFile::Malformed => FileView::Malformed,
            RecordFile::Record(pin) => FileView::Record(pin@),
        }
    }
}

/// One entry of a user's directory: the file's name and what reading it
/// gave. The read counts only where the name is that of a record.
#[derive(Debug)]
pub struct DirEntry {
    pub name: String,
    pub file: RecordFile,
}

/// A directory entry as plain text.
pub ghost struct EntryView {
    pub name: Seq<char>,
    pub file: FileView,
}

impl View for DirEntry {
    type V = EntryView;

    open spec fn view(&self) -> EntryView {
        EntryView { name: self.name@, file: self.file@ }
    }
}

/// What a lookup gives for a read of the pin's file: the pin it holds, not
/// found where there is no file, corrupt where the file holds no pin.
pub open spec fn looked_up(file: FileView) -> Result<PinView, StoreError> {
    match file {
        FileView::Missing => Err(StoreError::NotFound),
        FileView::Malformed => Err(StoreError::Corrupt),
        FileView::Record(pin) => Ok(pin),
    }
}

/// The outcome of a lookup as plain text.
pub open spec fn pin_outcome(outcome: Result<Pin, StoreError>) -> Result<PinView, StoreError> {
    match outcome {
        Ok(pin) => Ok(pin@),
        Err(error) => Err(error),
    }
}

/// What a removal gives: not found where the file did not exist before, a
/// persistence error where it existed and could not be removed.
pub open spec fn removal_outcome(existed: bool, removed: bool) -> Result<(), StoreError> {
    if !existed {
        Err(StoreError::NotFound)
    } else if !removed {
        Err(StoreError::Persistence)
    } else {
        Ok(())
    }
}

/// A lookup that awaits the read of its file.
#[derive(Debug)]
pub struct PinLookup {
    pub filename: String,
}

impl PinLookup {
    /// Closes a lookup with what reading `filename` gave.
    pub fn finish(self, file: RecordFile) -> (outcome: Result<Pin, StoreError>)
        ensures
            pin_outcome(outcome) == looked_up(file@),
    {
        match file {
            RecordFile::Missing => Err(StoreError::NotFound),
            RecordFile::Malformed => Err(StoreError::Corrupt),
            RecordFile::Record(pin) => Ok(pin),
        }
    }
}

/// A removal that awaits the check for its file and, where the file exists,
/// its removal.
#[derive(Debug)]
pub struct PinRemoval {
    pub filename: String,
}

impl PinRemoval {
    /// Closes a removal. `existed` says whether `filename` existed before
    /// anything was removed; `removed` whether it was then removed.
    pub fn finish(self, existed: bool, removed: bool) -> (outcome: Result<(), StoreError>)
        ensures
            outcome == removal_outcome(existed, removed),
    {
        if !existed {
            Err(StoreError::NotFound)
        } else if !removed {
            Err(StoreError::Persistence)
        } else {
            Ok(())
        }
    }
}

impl BackingStore {
    /// Starts the removal of a pin. A user name or an id that is no safe
    /// name is refused.
    pub fn delete_pin(&self, username: &str, id: &str) -> (removal: Result<PinRemoval, StoreError>)
        ensures
            safe_name(username@) && safe_name(id@) ==> ({
                &&& removal matches Ok(r)
                &&& r.filename@ == pin_file_path("json"@, username@, id@)
            }),
            !(safe_name(username@) && safe_name(id@)) ==> removal == Err::<
                PinRemoval,
                StoreError,
            >(StoreError::UnsafeName),
    {
        if !is_safe_name(username) || !is_safe_name(id) {
            return Err(StoreError::UnsafeName);
        }
        Ok(PinRemoval { filename: BackingStore::pin_filename("json", username, id) })
    }

    /// Starts the lookup of a pin. A user name or an id that is no safe
    /// name is refused.
    pub fn get_pin(&self, username: &str, id: &str) -> (lookup: Result<PinLookup, StoreError>)
        ensures
            safe_name(username@) && safe_name(id@) ==> ({
                &&& lookup matches Ok(l)
                &&& l.filename@ == pin_file_path("json"@, username@, id@)
            }),
            !(safe_name(username@) && safe_name(id@)) ==> lookup == Err::<PinLookup, StoreError>(
                StoreError::UnsafeName,
            ),
    {
        if !is_safe_name(username) || !is_safe_name(id) {
            return Err(StoreError::UnsafeName);
        }
        let filename = BackingStore::pin_filename("json", username, id);
        Ok(self.get_pin_from_filename(filename.as_str()))
    }

    /// Starts the lookup of the pin in a given file.
    pub fn get_pin_from_filename(&self, filename: &str) -> (lookup: PinLookup)
        ensures
            lookup.filename@ == filename@,
    {
        PinLookup { filename: String::from_str(filename) }
    }
}

/// What reading `path` gives where the files hold `files`.
pub open spec fn file_at(files: Map<Seq<char>, FileView>, path: Seq<char>) -> FileView {
    if files.dom().contains(path) {
        files[path]
    } else {
        FileView::Missing
    }
}

/// The files after the write that `add_pin` prepares for `pin`.
pub open spec fn after_add(files: Map<Seq<char>, FileView>, username: Seq<char>, pin: PinView) -> Map<
    Seq<char>,
    FileView,
> {
    files.insert(pin_file_path("json"@, username, pin.id), FileView::Record(stored_form(pin)))
}

/// The files after the removal that `delete_pin` asks for, where it is
/// carried out.
pub open spec fn after_delete(files: Map<Seq<char>, FileView>, username: Seq<char>, id: Seq<char>) -> Map<
    Seq<char>,
    FileView,
> {
    files.remove(pin_file_path("json"@, username, id))
}

/// What `get_pin` gives where the files hold `files`.
pub open spec fn got(files: Map<Seq<char>, FileView>, username: Seq<char>, id: Seq<char>) -> Result<
    PinView,
    StoreError,
> {
    looked_up(file_at(files, pin_file_path("json"@, username, id)))
}

/// The request that follows the write of a pin under safe names carries
/// those names: the worker admits it.
pub proof fn lemma_request_carries_safe_names(username: Seq<char>, pin: PinView)
    requires
        safe_name(username),
        safe_name(pin.id),
    ensures
        request_for(username, stored_form(pin)) matches Some(request) ==> safe_name(
            request.username,
        ) && safe_name(request.pin_id),
{
}

/// A character that separates the parts of a path, or steps within one.
pub open spec fn path_mark(c: char) -> bool {
    c == '/' || c == '\\' || c == '.'
}

/// Under safe names a pin's file lies right in the user's directory, and
/// that right under `pins/`: the file's path is the directory's path and a
/// file name after it; the user name holds no mark of a path, and the file
/// name holds none but the dot before its extension.
pub proof fn lemma_file_lies_in_directory(username: Seq<char>, id: Seq<char>)
    requires
        safe_name(username),
        safe_name(id),
    ensures
        pin_directory_path(username) == "pins/"@ + username + "/"@,
        forall|i: int| 0 <= i < username.len() ==> !path_mark(#[trigger] username[i]),
        pin_file_path("json"@, username, id) == pin_directory_path(username) + (id + "_v0.json"@),
        forall|i: int|
            0 <= i < (id + "_v0.json"@).len() && i != id.len() + 3 ==> !path_mark(
                #[trigger] (id + "_v0.json"@)[i],
            ),
{
    reveal_strlit("pins/");
    reveal_strlit("/");
    reveal_strlit("_v0.");
    reveal_strlit("json");
    reveal_strlit("_v0.json");
    assert("_v0."@ + "json"@ =~= "_v0.json"@);
    assert(pin_file_path("json"@, username, id) =~= pin_directory_path(username) + (id
        + "_v0.json"@));
    let name = id + "_v0.json"@;
    assert forall|i: int| 0 <= i < name.len() && i != id.len() + 3 implies !path_mark(
        #[trigger] name[i],
    ) by {
        if i < id.len() {
            assert(name[i] == id[i]);
            assert(ascii_alphanumeric(id[i]));
        } else {
            assert(name[i] == "_v0.json"@[i - id.len()]);
        }
    }
    assert forall|i: int| 0 <= i < username.len() implies !path_mark(#[trigger] username[i]) by {
        assert(ascii_alphanumeric(username[i]));
    }
}

/// One file per pin. Under safe user names, two pins share a file only
/// where they are one pin of one user: no user's record lies in another
/// user's directory or under another id.
pub proof fn lemma_one_file_per_pin(
    extension: Seq<char>,
    username: Seq<char>,
    id: Seq<char>,
    other_user: Seq<char>,
    other_id: Seq<char>,
)
    requires
        safe_name(username),
        safe_name(other_user),
        pin_file_path(extension, username, id) == pin_file_path(extension, other_user, other_id),
    ensures
        username == other_user,
        id == other_id,
{
    reveal_strlit("pins/");
    reveal_strlit("/");
    reveal_strlit("_v0.");
    let path = pin_file_path(extension, username, id);
    let other = pin_file_path(extension, other_user, other_id);
    let n = username.len() as int;
    let m = other_user.len() as int;
    assert forall|i: int| 0 <= i < n implies path[5 + i] == username[i] by {}
    assert forall|i: int| 0 <= i < m implies other[5 + i] == other_user[i] by {}
    assert(path[5 + n] == '/');
    assert(other[5 + m] == '/');
    if n < m {
        assert(other[5 + n] == other_user[n]);
        assert(ascii_alphanumeric(other_user[n]));
    }
    if m < n {
        assert(path[5 + m] == username[m]);
        assert(ascii_alphanumeric(username[m]));
    }
    assert(n == m);
    assert(username =~= other_user) by {
        assert forall|i: int| 0 <= i < n implies username[i] == other_user[i] by {
            assert(path[5 + i] == other[5 + i]);
        }
    }
    assert(path.len() == 5 + n + 1 + id.len() + 4 + extension.len());
    assert(other.len() == 5 + m + 1 + other_id.len() + 4 + extension.len());
    assert(id =~= other_id) by {
        assert forall|i: int| 0 <= i < id.len() implies id[i] == other_id[i] by {
            assert(path[6 + n + i] == id[i]);
            assert(other[6 + m + i] == other_id[i]);
        }
    }
}

/// Adding a pin touches no other pin. Under safe user names, every pin of
/// every user but the one added is got as it was got before.
pub proof fn lemma_add_leaves_the_rest(
    files: Map<Seq<char>, FileView>,
    username: Seq<char>,
    pin: PinView,
    other_user: Seq<char>,
    other_id: Seq<char>,
)
    requires
        safe_name(username),
        safe_name(other_user),
        username != other_user || pin.id != other_id,
    ensures
        got(after_add(files, username, pin), other_user, other_id) == got(
            files,
            other_user,
            other_id,
        ),
{
    if pin_file_path("json"@, username, pin.id) == pin_file_path("json"@, other_user, other_id) {
        lemma_one_file_per_pin("json"@, username, pin.id, other_user, other_id);
    }
}

/// Deleting a pin touches no other pin. Under safe user names, every pin of
/// every user but the one deleted is got as it was got before.
pub proof fn lemma_delete_leaves_the_rest(
    files: Map<Seq<char>, FileView>,
    username: Seq<char>,
    id: Seq<char>,
    other_user: Seq<char>,
    other_id: Seq<char>,
)
    requires
        safe_name(username),
        safe_name(other_user),
        username != other_user || id != other_id,
    ensures
        got(after_delete(files, username, id), other_user, other_id) == got(
            files,
            other_user,
            other_id,
        ),
{
    if pin_file_path("json"@, username, id) == pin_file_path("json"@, other_user, other_id) {
        lemma_one_file_per_pin("json"@, username, id, other_user, other_id);
    }
}

/// A pin that was added is got back in its stored form, whatever the files
/// held before.
pub proof fn lemma_get_after_add(files: Map<Seq<char>, FileView>, username: Seq<char>, pin: PinView)
    ensures
        got(after_add(files, username, pin), username, pin.id) == Ok::<PinView, StoreError>(
            stored_form(pin),
        ),
{
}

/// The stored form of a pin is the pin but for what is filled in or
/// derived: the first address, an empty title, and the rendering.
pub proof fn lemma_stored_form_keeps(pin: PinView)
    ensures
        stored_form(pin).id == pin.id,
        stored_form(pin).description == pin.description,
        stored_form(pin).tags == pin.tags,
        stored_form(pin).created == pin.created,
        stored_form(pin).urls.len() == pin.urls.len(),
        forall|i: int| 1 <= i < pin.urls.len() ==> stored_form(pin).urls[i] == pin.urls[i],
        pin.urls.len() > 0 ==> stored_form(pin).urls[0] == normalized_url(pin.urls[0]),
        pin.title.len() > 0 ==> stored_form(pin).title == pin.title,
        pin.title.len() == 0 && pin.urls.len() > 0 ==> stored_form(pin).title == normalized_url(
            pin.urls[0],
        ),
        stored_form(pin).rendered_description == Some(markdown_html(pin.description)),
{
}

/// Storing a pin that is in stored form changes nothing: a pin that was got
/// can be added again as it is.
pub proof fn lemma_stored_form_settles(pin: PinView)
    ensures
        stored_form(stored_form(pin)) == stored_form(pin),
{
    let once = stored_form(pin);
    if pin.urls.len() > 0 {
        let url = pin.urls[0];
        if !(url.len() == 0 || has_scheme(url)) {
            let full = "http://"@ + url;
            assert(full.subrange(0, "http://"@.len() as int) =~= "http://"@);
            assert(has_scheme(full));
        }
        assert(normalized_url(normalized_url(url)) == normalized_url(url));
        assert(stored_urls(once.urls) =~= once.urls);
    }
}

/// After a pin's file was removed the pin is not found.
pub proof fn lemma_get_after_delete(files: Map<Seq<char>, FileView>, username: Seq<char>, id: Seq<
    char,
>)
    ensures
        got(after_delete(files, username, id), username, id) == Err::<PinView, StoreError>(
            StoreError::NotFound,
        ),
{
}

/// The removal of a pin that has no file gives not found, whatever else is
/// reported.
pub proof fn lemma_delete_absent(removed: bool)
    ensures
        removal_outcome(false, removed) == Err::<(), StoreError>(StoreError::NotFound),
{
}

} // verus!
