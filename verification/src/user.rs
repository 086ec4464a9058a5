//! User accounts: where they are kept and what a signup must satisfy.
use vstd::prelude::*;
use vstd::string::*;
use vstd::utf8::encode_utf8;

use crate::errors::SignupError;
use crate::pins::ascii_alphanumeric;
use crate::pins::safe_name;
use crate::pins::utc_now;
use crate::pins::Timestamp;
use crate::text::chars_of;
use crate::text::string_of;

verus! {

/// What is kept of a user.
#[derive(Debug)]
pub struct UserInfo {
    pub username: String,
    pub email: String,
    pub hash_session: Vec<u8>,
    pub email_validated: bool,
}

/// `rest` appended to the path `base`, by the rules of Unix paths: a `rest`
/// that starts at the root replaces `base`; otherwise a `/` is put between
/// the two unless `base` is empty or ends in one.
pub open spec fn joined(base: Seq<char>, rest: Seq<char>) -> Seq<char> {
    if rest.len() > 0 && rest[0] == '/' {
        rest
    } else if base.len() == 0 || base.last() == '/' {
        base + rest
    } else {
        base + seq!['/'] + rest
    }
}

/// Appends `rest` to the path `base`.
pub fn join_path(base: &str, rest: &str) -> (path: String)
    ensures
        path@ == joined(base@, rest@),
{
    let tail = chars_of(rest);
    if tail.len() > 0 && tail[0] == '/' {
        return String::from_str(rest);
    }
    let mut path = chars_of(base);
    if path.len() > 0 && path[path.len() - 1] != '/' {
        path.push('/');
    }
    let mut i: usize = 0;
    while i < tail.len()
        invariant
            i <= tail@.len(),
            tail@ == rest@,
            path@ + tail@.skip(i as int) == joined(base@, rest@),
        decreases tail@.len() - i,
    {
        let ghost before = path@;
        path.push(tail[i]);
        assert(path@ + tail@.skip(i + 1) =~= before + tail@.skip(i as int));
        i += 1;
    }
    assert(path@ + tail@.skip(i as int) =~= path@);
    string_of(&path)
}

impl UserInfo {
    /// The directory of a user's account.
    pub fn user_dir(username: &str) -> (path: String)
        ensures
            path@ == joined("users"@, username@),
    {
        join_path("users", username)
    }

    /// The file that holds a user's account.
    pub fn user_file(username: &str) -> (path: String)
        ensures
            path@ == joined(joined("users"@, username@), "userinfo.json"@),
    {
        let directory = UserInfo::user_dir(username);
        join_path(directory.as_str(), "userinfo.json")
    }
}

/// The bytes that the generator yields when it is started from `seed`.
pub uninterp spec fn pcg_bytes(seed: u128, count: nat) -> Seq<u8>;

/// The hashing session for a password and a salt, in its encoded form.
pub uninterp spec fn argon2_encoded(password: Seq<u8>, salt: Seq<u8>) -> Seq<u8>;

/// Starts `rand_pcg::Mcg128Xsl64::new(seed)` and fills `count` bytes from
/// it with `fill_bytes`. Trusted: the bytes depend on the seed and the
/// count alone, so they are the named ones; there are `count` of them.
#[verifier::external_body]
fn random_bytes(seed: u128, count: usize) -> (bytes: Vec<u8>)
    ensures
        bytes@ == pcg_bytes(seed, count as nat),
        bytes@.len() == count,
{
    let mut bytes = vec![0u8; count];
    rand_pcg::rand_core::Rng::fill_bytes(&mut rand_pcg::Mcg128Xsl64::new(seed), &mut bytes);
    bytes
}

/// Hashes with `argon2rs::verifier::Encoded::new` under the default Argon2i
/// parameters, without key and associated data, and encodes the session
/// with `to_u8`. The hash function gives up on a salt of fewer than eight
/// bytes and on inputs of 4 GiB and more, which `requires` leaves out.
/// Trusted: the encoded session depends on password and salt alone.
#[verifier::external_body]
fn encode_session(password: &[u8], salt: &[u8]) -> (encoded: Vec<u8>)
    requires
        password@.len() <= 0xffff_ffff,
        8 <= salt@.len() <= 0xffff_ffff,
    ensures
        encoded@ == argon2_encoded(password@, salt@),
{
    argon2rs::verifier::Encoded::new(
        argon2rs::Argon2::default(argon2rs::Variant::Argon2i),
        password,
        salt,
        &[],
        &[],
    ).to_u8()
}

/// The number of bytes of a salt.
pub const SALT_LENGTH: usize = 64;

/// What is added to the moment of a signup to seed the salt.
pub const SALT_BASE: u64 = 0xcafe_f00d_d15e_a5e5;

/// The number of bytes of the key for session cookies.
pub const COOKIE_KEY_LENGTH: usize = 32;

/// What is added to the moment at which the key for session cookies is made
/// to seed it.
pub const COOKIE_KEY_BASE: u64 = 0x1337_f00d_d15e_a5e5;

/// Every character is an ASCII letter or digit. A user name names the
/// user's directories, so it may hold nothing else.
pub open spec fn username_chars(username: Seq<char>) -> bool {
    forall|i: int| 0 <= i < username.len() ==> ascii_alphanumeric(#[trigger] username[i])
}

/// A user name that passes the tests of a signup is a safe name.
pub proof fn lemma_valid_username_is_safe(username: Seq<char>)
    requires
        username.len() > 0,
        username_chars(username),
    ensures
        safe_name(username),
{
}

/// What a signup must satisfy, in the order in which it is tested: a
/// password of eight bytes or more, a user name that is not empty and holds
/// ASCII letters and digits only, and no account of that name.
pub open spec fn signup_check(username: Seq<char>, password_len: nat, exists: bool) -> Result<
    (),
    SignupError,
> {
    if password_len < 8 {
        Err(SignupError::ShortPassword)
    } else if username.len() == 0 {
        Err(SignupError::EmptyUsername)
    } else if !username_chars(username) {
        Err(SignupError::InvalidUsername)
    } else if exists {
        Err(SignupError::UserExists)
    } else {
        Ok(())
    }
}

/// The seed that is drawn from a moment: `base` and the moment's
/// nanoseconds, added up in 128 bits.
pub open spec fn seed_from(base: u64, now: Timestamp) -> u128 {
    let sum = base + now.nanoseconds();
    if sum >= 0 {
        sum as u128
    } else {
        (sum + 0x1_0000_0000_0000_0000_0000_0000_0000_0000) as u128
    }
}

/// The seed of the salt for an account made at `now`.
pub open spec fn salt_seed(now: Timestamp) -> u128 {
    seed_from(SALT_BASE, now)
}

/// The key that signs the session cookies, when it is made at `now`.
pub open spec fn cookie_key_for(now: Timestamp) -> Seq<u8> {
    pcg_bytes(seed_from(COOKIE_KEY_BASE, now), COOKIE_KEY_LENGTH as nat)
}

/// The account that a signup at `now` makes.
pub open spec fn signed_up(
    username: Seq<char>,
    email: Seq<char>,
    password: Seq<u8>,
    now: Timestamp,
) -> UserView {
    UserView {
        username,
        email,
        hash_session: argon2_encoded(password, pcg_bytes(salt_seed(now), SALT_LENGTH as nat)),
        email_validated: false,
    }
}

/// An account as plain text and bytes.
pub ghost struct UserView {
    pub username: Seq<char>,
    pub email: Seq<char>,
    pub hash_session: Seq<u8>,
    pub email_validated: bool,
}

impl View for UserInfo {
    type V = UserView;

    open spec fn view(&self) -> UserView {
        UserView {
            username: self.username@,
            email: self.email@,
            hash_session: self.hash_session@,
            email_validated: self.email_validated,
        }
    }
}

/// An account that is to be written: the directory to make, the file to
/// write, and the account.
#[derive(Debug)]
pub struct Signup {
    pub directory: String,
    pub filename: String,
    pub user: UserInfo,
}

/// The outcome of a signup at `now`: the account with its directory and
/// file, or the reason to refuse.
pub open spec fn is_signup(
    outcome: Result<Signup, SignupError>,
    username: Seq<char>,
    email: Seq<char>,
    password: Seq<char>,
    now: Timestamp,
    exists: bool,
) -> bool {
    match signup_check(username, encode_utf8(password).len(), exists) {
        Ok(_) => {
            &&& outcome matches Ok(signup)
            &&& signup.user@ == signed_up(username, email, encode_utf8(password), now)
            &&& signup.directory@ == joined("users"@, username)
            &&& signup.filename@ == joined(joined("users"@, username), "userinfo.json"@)
        },
        Err(error) => outcome matches Err(refused) && refused == error,
    }
}

fn is_username_char(c: char) -> (yes: bool)
    ensures
        yes == ascii_alphanumeric(c),
{
    ('0' <= c && c <= '9') || ('a' <= c && c <= 'z') || ('A' <= c && c <= 'Z')
}

/// Tests a signup. `exists` says whether the user's directory exists.
pub fn check_signup(username: &str, password: &str, exists: bool) -> (checked: Result<
    (),
    SignupError,
>)
    ensures
        checked == signup_check(username@, encode_utf8(password@).len(), exists),
{
    if password.as_bytes().len() < 8 {
        return Err(SignupError::ShortPassword);
    }
    let chars = chars_of(username);
    if chars.len() == 0 {
        return Err(SignupError::EmptyUsername);
    }
    let mut i: usize = 0;
    while i < chars.len()
        invariant
            i <= chars@.len(),
            chars@ == username@,
            chars@.len() > 0,
            encode_utf8(password@).len() >= 8,
            forall|j: int| 0 <= j < i ==> ascii_alphanumeric(#[trigger] chars@[j]),
        decreases chars@.len() - i,
    {
        if !is_username_char(chars[i]) {
            assert(!ascii_alphanumeric(username@[i as int]));
            return Err(SignupError::InvalidUsername);
        }
        i += 1;
    }
    if exists {
        return Err(SignupError::UserExists);
    }
    Ok(())
}

/// The seed that is drawn from a moment.
fn seed_at(base: u64, now: Timestamp) -> (seed: u128)
    ensures
        seed == seed_from(base, now),
{
    let nanoseconds: i128 = (now.secs as i128) * 1_000_000_000 + (now.nanos as i128);
    let sum: i128 = (base as i128) + nanoseconds;
    if sum >= 0 {
        sum as u128
    } else {
        u128::MAX - ((-(sum + 1)) as u128)
    }
}

/// Makes the key for session cookies at the moment `now`.
pub fn cookie_key_at(now: Timestamp) -> (key: Vec<u8>)
    ensures
        key@ == cookie_key_for(now),
        key@.len() == COOKIE_KEY_LENGTH,
{
    random_bytes(seed_at(COOKIE_KEY_BASE, now), COOKIE_KEY_LENGTH)
}

/// Makes the key for session cookies now. Whatever the clock says, the key
/// is that of some moment.
pub fn generate_cookie_key() -> (key: Vec<u8>)
    ensures
        exists|now: Timestamp| key@ == cookie_key_for(now),
        key@.len() == COOKIE_KEY_LENGTH,
{
    let now = utc_now();
    let key = cookie_key_at(now);
    assert(key@ == cookie_key_for(now));
    key
}

impl UserInfo {
    /// Makes the account of a signup at the moment `now`. `exists` says
    /// whether the user's directory exists. The password is hashed before
    /// anything is tested, so it must be short enough to be hashed.
    pub fn signup_at(
        username: String,
        email: String,
        password: String,
        now: Timestamp,
        exists: bool,
    ) -> (outcome: Result<Signup, SignupError>)
        requires
            encode_utf8(password@).len() <= 0xffff_ffff,
        ensures
            is_signup(outcome, username@, email@, password@, now, exists),
    {
        let salt = random_bytes(seed_at(SALT_BASE, now), SALT_LENGTH);
        let hash_session = encode_session(password.as_str().as_bytes(), salt.as_slice());
        match check_signup(username.as_str(), password.as_str(), exists) {
            Ok(_) => {},
            Err(error) => {
                return Err(error);
            },
        }
        let directory = UserInfo::user_dir(username.as_str());
        let filename = UserInfo::user_file(username.as_str());
        Ok(
            Signup {
                directory,
                filename,
                user: UserInfo { username, email, hash_session, email_validated: false },
            },
        )
    }

    /// Makes the account of a signup now. Whatever the clock says, the
    /// outcome is that of a signup at some moment.
    pub fn new_user(username: String, email: String, password: String, exists: bool) -> (outcome:
        Result<Signup, SignupError>)
        requires
            encode_utf8(password@).len() <= 0xffff_ffff,
        ensures
            exists|now: Timestamp|
                is_signup(outcome, username@, email@, password@, now, exists),
    {
        let now = utc_now();
        let outcome = UserInfo::signup_at(username, email, password, now, exists);
        assert(is_signup(outcome, username@, email@, password@, now, exists));
        outcome
    }
}

} // verus!
