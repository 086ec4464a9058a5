use recense::pins::Timestamp;
use recense::site::font_size;
use recense::site::next_theme;
use recense::site::tag_cloud;
use recense::user::cookie_key_at;
use recense::user::generate_cookie_key;
use rand_pcg::rand_core::Rng;

#[test]
fn font_sizes_grow_by_two_for_every_occurrence() {
    assert_eq!(font_size(0), 12);
    assert_eq!(font_size(1), 14);
    assert_eq!(font_size(3), 18);
    assert_eq!(font_size(1000), 2012);
}

#[test]
fn font_sizes_stop_at_the_largest_number() {
    assert_eq!(font_size((usize::MAX - 12) / 2), usize::MAX - 1);
    assert_eq!(font_size((usize::MAX - 12) / 2 + 1), usize::MAX);
    assert_eq!(font_size(usize::MAX), usize::MAX);
}

#[test]
fn the_tag_cloud_sizes_every_tag() {
    let tally = vec![(String::from("a"), 3), (String::from("b"), 1)];
    assert_eq!(
        tag_cloud(tally),
        vec![(String::from("a"), 3, 18), (String::from("b"), 1, 14)]
    );
    assert!(tag_cloud(vec![]).is_empty());
}

#[test]
fn themes_alternate() {
    assert_eq!(next_theme("dark"), "light");
    assert_eq!(next_theme("light"), "dark");
    assert_eq!(next_theme(""), "dark");
    assert_eq!(next_theme("Dark"), "dark");
    assert_eq!(next_theme("solarized"), "dark");
}

#[test]
fn the_cookie_key_comes_from_the_moment_it_is_made() {
    let now = Timestamp { secs: 1_600_000_000, nanos: 2 };
    let mut expected = vec![0u8; 32];
    rand_pcg::Mcg128Xsl64::new(0x1337f00dd15ea5e5u128 + 1_600_000_000_000_000_002u128)
        .fill_bytes(&mut expected);
    assert_eq!(cookie_key_at(now), expected);
    assert_ne!(cookie_key_at(Timestamp { secs: 1_600_000_001, nanos: 2 }), expected);
}

#[test]
fn a_cookie_key_has_thirty_two_bytes() {
    assert_eq!(generate_cookie_key().len(), 32);
    assert_eq!(cookie_key_at(Timestamp { secs: -5, nanos: 0 }).len(), 32);
}
