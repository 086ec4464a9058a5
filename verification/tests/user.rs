use recense::errors::SignupError;
use recense::pins::Timestamp;
use recense::user::check_signup;
use recense::user::join_path;
use recense::user::UserInfo;
use rand_pcg::rand_core::Rng;

fn signup(username: &str, password: &str, now: Timestamp, exists: bool) -> Result<recense::user::Signup, SignupError> {
    UserInfo::signup_at(
        String::from(username),
        String::from("alice@example.com"),
        String::from(password),
        now,
        exists,
    )
}

#[test]
fn paths_are_joined_like_unix_paths() {
    assert_eq!(join_path("users", "alice"), "users/alice");
    assert_eq!(join_path("users/", "alice"), "users/alice");
    assert_eq!(join_path("users", ""), "users/");
    assert_eq!(join_path("", "alice"), "alice");
    assert_eq!(join_path("users", "/etc"), "/etc");
    assert_eq!(join_path("users", "a/b"), "users/a/b");
    for (base, rest) in [("users", "alice"), ("users/", "x"), ("users", ""), ("", "alice"), ("users", "/etc")] {
        let expected = std::path::Path::new(base).join(rest);
        assert_eq!(join_path(base, rest), expected.to_str().unwrap());
    }
}

#[test]
fn accounts_live_under_users() {
    assert_eq!(UserInfo::user_dir("alice"), "users/alice");
    assert_eq!(UserInfo::user_file("alice"), "users/alice/userinfo.json");
    assert_eq!(UserInfo::user_file(""), "users/userinfo.json");
}

#[test]
fn a_signup_is_tested_in_order() {
    assert_eq!(check_signup("alice", "1234567", false), Err(SignupError::ShortPassword));
    assert_eq!(check_signup("", "1234567", true), Err(SignupError::ShortPassword));
    assert_eq!(check_signup("", "12345678", true), Err(SignupError::EmptyUsername));
    assert_eq!(check_signup("al ice", "12345678", true), Err(SignupError::InvalidUsername));
    assert_eq!(check_signup("alice", "12345678", true), Err(SignupError::UserExists));
    assert_eq!(check_signup("alice", "12345678", false), Ok(()));
}

#[test]
fn user_names_hold_ascii_letters_and_digits_only() {
    assert_eq!(check_signup("Al1ce", "12345678", false), Ok(()));
    assert_eq!(check_signup("azAZ09", "12345678", false), Ok(()));
    for bad in [
        "al/ice", "alice!", "älice", "a@b", "a`", "a{", "a[", "a:", "../x", "a b", "a.b", "a-b",
        "a_b", ".", "..",
    ] {
        assert_eq!(check_signup(bad, "12345678", false), Err(SignupError::InvalidUsername));
    }
}

#[test]
fn a_user_that_may_sign_up_may_use_the_store() {
    for name in ["alice", "Al1ce", "azAZ09", "0"] {
        assert_eq!(check_signup(name, "12345678", false), Ok(()));
        assert!(recense::pins::is_safe_name(name));
    }
}

#[test]
fn the_password_is_measured_in_bytes() {
    assert_eq!(check_signup("alice", "ääää", false), Ok(()));
    assert_eq!(check_signup("alice", "äää", false), Err(SignupError::ShortPassword));
}

#[test]
fn a_signup_makes_the_account_and_names_its_file() {
    let now = Timestamp { secs: 1_600_000_000, nanos: 7 };
    let made = signup("alice", "correct horse", now, false).unwrap();
    assert_eq!(made.directory, "users/alice");
    assert_eq!(made.filename, "users/alice/userinfo.json");
    assert_eq!(made.user.username, "alice");
    assert_eq!(made.user.email, "alice@example.com");
    assert!(!made.user.email_validated);
    let session = argon2rs::verifier::Encoded::from_u8(&made.user.hash_session).unwrap();
    assert!(session.verify(b"correct horse"));
    assert!(!session.verify(b"correct horsf"));
}

#[test]
fn the_salt_comes_from_the_moment_of_the_signup() {
    let now = Timestamp { secs: 1_600_000_000, nanos: 7 };
    let mut salt = vec![0u8; 64];
    rand_pcg::Mcg128Xsl64::new(0xcafef00dd15ea5e5u128 + 1_600_000_000_000_000_007u128).fill_bytes(&mut salt);
    let expected = argon2rs::verifier::Encoded::new(
        argon2rs::Argon2::default(argon2rs::Variant::Argon2i),
        b"correct horse",
        &salt,
        &[],
        &[],
    )
    .to_u8();
    let made = signup("alice", "correct horse", now, false).unwrap();
    assert_eq!(made.user.hash_session, expected);
    let later = signup("alice", "correct horse", Timestamp { secs: 1_600_000_000, nanos: 9 }, false).unwrap();
    assert_ne!(later.user.hash_session, expected);
}

#[test]
fn a_refused_signup_makes_no_account() {
    let now = Timestamp { secs: 1_600_000_000, nanos: 7 };
    assert_eq!(signup("alice", "short", now, false).unwrap_err(), SignupError::ShortPassword);
    assert_eq!(signup("", "long enough", now, false).unwrap_err(), SignupError::EmptyUsername);
    assert_eq!(signup("a b", "long enough", now, false).unwrap_err(), SignupError::InvalidUsername);
    assert_eq!(signup("alice", "long enough", now, true).unwrap_err(), SignupError::UserExists);
}

#[test]
fn a_signup_now_makes_an_account() {
    let made = UserInfo::new_user(
        String::from("bob"),
        String::from("bob@example.com"),
        String::from("long enough"),
        false,
    )
    .unwrap();
    assert_eq!(made.filename, "users/bob/userinfo.json");
    let session = argon2rs::verifier::Encoded::from_u8(&made.user.hash_session).unwrap();
    assert!(session.verify(b"long enough"));
}
