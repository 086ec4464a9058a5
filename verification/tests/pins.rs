use recense::errors::StoreError;
use recense::listing::collect_pins;
use recense::listing::collect_readable_pins;
use recense::pins::is_safe_name;
use recense::pins::normalize_url;
use recense::pins::BackingStore;
use recense::pins::DirEntry;
use recense::pins::Pin;
use recense::pins::RecordFile;
use recense::pins::Timestamp;
use std::collections::HashMap;

fn at(secs: i64) -> Timestamp {
    Timestamp { secs, nanos: 0 }
}

fn pin(id: &str, title: &str, url: Option<&str>, created: Timestamp) -> Pin {
    Pin {
        id: String::from(id),
        title: String::from(title),
        urls: url.iter().map(|url| String::from(*url)).collect(),
        description: String::new(),
        rendered_description: None,
        tags: vec![],
        created,
    }
}

fn entry(name: &str, file: RecordFile) -> DirEntry {
    DirEntry { name: String::from(name), file }
}

fn ids(pins: &Vec<Pin>) -> Vec<String> {
    pins.iter().map(|pin| pin.id.clone()).collect()
}

/// The files of a store, by path, as a caller would keep them on disk.
struct Disk {
    files: HashMap<String, Pin>,
}

impl Disk {
    fn add(&mut self, store: &BackingStore, username: &str, pin: Pin) {
        let write = store.add_pin(String::from(username), pin).unwrap();
        self.files.insert(write.filename.clone(), write.pin.clone());
        write.finish(true).unwrap();
    }

    fn get(&self, store: &BackingStore, username: &str, id: &str) -> Result<Pin, StoreError> {
        let lookup = store.get_pin(username, id).unwrap();
        let file = match self.files.get(&lookup.filename) {
            Some(pin) => RecordFile::Record(pin.clone()),
            None => RecordFile::Missing,
        };
        lookup.finish(file)
    }

    fn delete(&mut self, store: &BackingStore, username: &str, id: &str) -> Result<(), StoreError> {
        let removal = store.delete_pin(username, id).unwrap();
        let existed = self.files.contains_key(&removal.filename);
        let removed = self.files.remove(&removal.filename).is_some();
        removal.finish(existed, removed)
    }
}

#[test]
fn created_at_derives_the_id_from_the_nanoseconds() {
    let pin = Pin::created_at(Timestamp { secs: 1557000000, nanos: 123456789 });
    assert_eq!(pin.id, "e7d32fda72a0e3717d57019153d357525a4e9e10");
    assert_eq!(pin.title, "");
    assert!(pin.urls.is_empty());
    assert_eq!(pin.description, "");
    assert_eq!(pin.rendered_description, Some(String::new()));
    assert!(pin.tags.is_empty());
    assert_eq!(pin.created, Timestamp { secs: 1557000000, nanos: 123456789 });
}

#[test]
fn created_at_handles_the_epoch_and_before() {
    assert_eq!(Pin::created_at(at(0)).id, "b6589fc6ab0dc82cf12099d1c2d40ab994e8410c");
    let before = Pin::created_at(Timestamp { secs: -1, nanos: 999_999_999 });
    assert_eq!(before.id, "7984b0a0e139cabadb5afc7756d473fb34d23819");
}

#[test]
fn new_pin_is_fresh_for_its_moment() {
    let pin = Pin::new();
    assert_eq!(pin.id.len(), 40);
    assert!(pin.id.chars().all(|c| c.is_ascii_hexdigit()));
    assert!(pin.created.secs > 1_500_000_000);
    assert_eq!(pin.id, Pin::created_at(pin.created).id);
    assert_eq!(pin.rendered_description, Some(String::new()));
}

#[test]
fn timestamps_compare_by_seconds_then_nanoseconds() {
    let early = Timestamp { secs: 5, nanos: 900 };
    let late = Timestamp { secs: 6, nanos: 0 };
    assert!(early.is_before(&late));
    assert!(!late.is_before(&early));
    assert!(!early.is_before(&early));
    assert!(Timestamp { secs: 5, nanos: 1 }.is_before(&early));
    assert!(Timestamp { secs: -3, nanos: 0 }.is_before(&Timestamp { secs: -2, nanos: 0 }));
}

#[test]
fn pin_clone_copies_every_field() {
    let mut first_pin = pin("id", "title", Some("http://a"), at(3));
    first_pin.urls.push(String::from("second"));
    first_pin.description = String::from("text");
    first_pin.rendered_description = Some(String::from("<p>text</p>"));
    first_pin.tags = vec![String::from("x"), String::from("y")];
    let copy = first_pin.clone();
    assert_eq!(copy.id, first_pin.id);
    assert_eq!(copy.title, first_pin.title);
    assert_eq!(copy.urls, first_pin.urls);
    assert_eq!(copy.description, first_pin.description);
    assert_eq!(copy.rendered_description, first_pin.rendered_description);
    assert_eq!(copy.tags, first_pin.tags);
    assert_eq!(copy.created, first_pin.created);
}

#[test]
fn paths_follow_the_convention() {
    assert_eq!(BackingStore::pin_directory("alice"), "pins/alice/");
    assert_eq!(BackingStore::pin_filename("json", "alice", "abc"), "pins/alice/abc_v0.json");
    assert_eq!(BackingStore::pin_filename("bak", "", ""), "pins//_v0.bak");
}

#[test]
fn normalize_url_adds_the_default_scheme() {
    assert_eq!(normalize_url("example.com"), "http://example.com");
    assert_eq!(normalize_url("http://example.com"), "http://example.com");
    assert_eq!(normalize_url("https://example.com"), "https://example.com");
    assert_eq!(normalize_url("ftp://example.com"), "http://ftp://example.com");
    assert_eq!(normalize_url("HTTP://example.com"), "http://HTTP://example.com");
    assert_eq!(normalize_url("http:/"), "http://http:/");
    assert_eq!(normalize_url(""), "");
}

#[test]
fn adding_a_pin_without_scheme_stores_it_with_http() {
    let store = BackingStore::new();
    let write = store.add_pin(String::from("alice"), pin("one", "Example", Some("example.com"), at(1))).unwrap();
    assert_eq!(write.pin.urls, vec!["http://example.com"]);
    assert_eq!(write.directory, "pins/alice/");
    assert_eq!(write.filename, "pins/alice/one_v0.json");
    let request = write.request.as_ref().unwrap();
    assert_eq!(request.url, "http://example.com");
    assert_eq!(request.pin_id, "one");
    assert_eq!(request.username, "alice");
}

#[test]
fn adding_normalizes_only_the_first_address() {
    let store = BackingStore::new();
    let mut given = pin("one", "t", Some("first.org"), at(1));
    given.urls.push(String::from("second.org"));
    let write = store.add_pin(String::from("alice"), given).unwrap();
    assert_eq!(write.pin.urls, vec!["http://first.org", "second.org"]);
}

#[test]
fn adding_fills_an_empty_title_with_the_first_address() {
    let store = BackingStore::new();
    let write = store.add_pin(String::from("alice"), pin("one", "", Some("example.com"), at(1))).unwrap();
    assert_eq!(write.pin.title, "http://example.com");
    let write = store.add_pin(String::from("alice"), pin("one", "Mine", Some("example.com"), at(1))).unwrap();
    assert_eq!(write.pin.title, "Mine");
    let write = store.add_pin(String::from("alice"), pin("one", "", None, at(1))).unwrap();
    assert_eq!(write.pin.title, "");
}

#[test]
fn adding_renders_the_description() {
    let store = BackingStore::new();
    let mut given = pin("one", "t", None, at(1));
    given.description = String::from("hello *world*");
    given.rendered_description = Some(String::from("stale"));
    let write = store.add_pin(String::from("alice"), given).unwrap();
    assert_eq!(write.pin.description, "hello *world*");
    assert_eq!(
        write.pin.rendered_description,
        Some(String::from("<p>hello <em>world</em></p>\n"))
    );
}

#[test]
fn adding_a_pin_without_address_requests_no_snapshot() {
    let store = BackingStore::new();
    let write = store.add_pin(String::from("alice"), pin("one", "t", None, at(1))).unwrap();
    assert!(write.request.is_none());
    assert!(write.pin.urls.is_empty());
    assert_eq!(write.finish(true).unwrap().map(|request| request.url), None);
}

#[test]
fn adding_a_pin_with_an_empty_address_keeps_it_empty() {
    let store = BackingStore::new();
    let write = store.add_pin(String::from("alice"), pin("one", "t", Some(""), at(1))).unwrap();
    assert_eq!(write.pin.urls, vec![""]);
    assert_eq!(write.request.as_ref().unwrap().url, "");
}

#[test]
fn a_failed_write_is_a_persistence_error() {
    let store = BackingStore::new();
    let write = store.add_pin(String::from("alice"), pin("one", "t", Some("a.org"), at(1))).unwrap();
    match write.finish(false) {
        Err(error) => assert_eq!(error, StoreError::Persistence),
        Ok(_) => panic!("a failed write must not succeed"),
    }
    let write = store.add_pin(String::from("alice"), pin("one", "t", Some("a.org"), at(1))).unwrap();
    let request = write.finish(true).unwrap().unwrap();
    assert_eq!(request.url, "http://a.org");
}

#[test]
fn lookup_names_the_file_and_judges_the_read() {
    let store = BackingStore::new();
    assert_eq!(store.get_pin("alice", "one").unwrap().filename, "pins/alice/one_v0.json");
    assert_eq!(store.get_pin_from_filename("somewhere/x.json").filename, "somewhere/x.json");
    match store.get_pin("alice", "one").unwrap().finish(RecordFile::Missing) {
        Err(error) => assert_eq!(error, StoreError::NotFound),
        Ok(_) => panic!("a missing file holds no pin"),
    }
    match store.get_pin("alice", "one").unwrap().finish(RecordFile::Malformed) {
        Err(error) => assert_eq!(error, StoreError::Corrupt),
        Ok(_) => panic!("a malformed file holds no pin"),
    }
    let found = store.get_pin("alice", "one").unwrap().finish(RecordFile::Record(pin("one", "t", None, at(9))));
    assert_eq!(found.unwrap().created, at(9));
}

#[test]
fn get_after_add_returns_the_stored_pin() {
    let store = BackingStore::new();
    let mut disk = Disk { files: HashMap::new() };
    let mut given = pin("one", "", Some("example.com"), at(42));
    given.description = String::from("# Head");
    given.tags = vec![String::from("a"), String::from("a")];
    disk.add(&store, "alice", given);
    let got = disk.get(&store, "alice", "one").unwrap();
    assert_eq!(got.id, "one");
    assert_eq!(got.title, "http://example.com");
    assert_eq!(got.urls, vec!["http://example.com"]);
    assert_eq!(got.description, "# Head");
    assert_eq!(got.rendered_description, Some(String::from("<h1>Head</h1>\n")));
    assert_eq!(got.tags, vec!["a", "a"]);
    assert_eq!(got.created, at(42));
    assert_eq!(disk.get(&store, "bob", "one").unwrap_err(), StoreError::NotFound);
}

#[test]
fn adding_what_was_got_changes_nothing() {
    let store = BackingStore::new();
    let mut disk = Disk { files: HashMap::new() };
    disk.add(&store, "alice", pin("one", "", Some("example.com"), at(42)));
    let first = disk.get(&store, "alice", "one").unwrap();
    disk.add(&store, "alice", first.clone());
    let second = disk.get(&store, "alice", "one").unwrap();
    assert_eq!(second.title, first.title);
    assert_eq!(second.urls, first.urls);
    assert_eq!(second.rendered_description, first.rendered_description);
}

#[test]
fn delete_of_a_missing_pin_is_not_found() {
    let store = BackingStore::new();
    let mut disk = Disk { files: HashMap::new() };
    assert_eq!(disk.delete(&store, "alice", "nope"), Err(StoreError::NotFound));
    assert_eq!(store.delete_pin("alice", "p").unwrap().filename, "pins/alice/p_v0.json");
    assert_eq!(store.delete_pin("alice", "p").unwrap().finish(false, true), Err(StoreError::NotFound));
    assert_eq!(store.delete_pin("alice", "p").unwrap().finish(true, false), Err(StoreError::Persistence));
    assert_eq!(store.delete_pin("alice", "p").unwrap().finish(true, true), Ok(()));
}

#[test]
fn get_after_delete_is_not_found() {
    let store = BackingStore::new();
    let mut disk = Disk { files: HashMap::new() };
    disk.add(&store, "alice", pin("one", "t", Some("example.com"), at(1)));
    disk.add(&store, "alice", pin("two", "t", Some("example.org"), at(2)));
    assert_eq!(disk.delete(&store, "alice", "one"), Ok(()));
    assert_eq!(disk.get(&store, "alice", "one").unwrap_err(), StoreError::NotFound);
    assert_eq!(disk.get(&store, "alice", "two").unwrap().id, "two");
    assert_eq!(disk.delete(&store, "alice", "one"), Err(StoreError::NotFound));
}

#[test]
fn record_names_have_the_json_extension() {
    assert!(BackingStore::is_record_file("abc_v0.json"));
    assert!(BackingStore::is_record_file("a.json"));
    assert!(BackingStore::is_record_file("..json"));
    assert!(BackingStore::is_record_file("a.b.json"));
    assert!(!BackingStore::is_record_file(".json"));
    assert!(!BackingStore::is_record_file("json"));
    assert!(!BackingStore::is_record_file("a.JSON"));
    assert!(!BackingStore::is_record_file("a.json.bak"));
    assert!(!BackingStore::is_record_file("recense_archive_alice.zip"));
    assert!(!BackingStore::is_record_file(""));
}

#[test]
fn listing_a_missing_directory_is_empty() {
    let store = BackingStore::new();
    let listing = store.get_all_pins("alice").unwrap();
    assert_eq!(listing.directory, "pins/alice/");
    assert!(listing.finish(None).unwrap().is_empty());
    assert!(collect_pins(Some(vec![])).unwrap().is_empty());
}

#[test]
fn listing_returns_pins_newest_first() {
    let store = BackingStore::new();
    let entries = vec![
        entry("b_v0.json", RecordFile::Record(pin("b", "", None, at(20)))),
        entry("d_v0.json", RecordFile::Record(pin("d", "", None, at(40)))),
        entry("a_v0.json", RecordFile::Record(pin("a", "", None, at(10)))),
        entry("e_v0.json", RecordFile::Record(pin("e", "", None, Timestamp { secs: 40, nanos: 1 }))),
        entry("c_v0.json", RecordFile::Record(pin("c", "", None, at(30)))),
    ];
    let pins = store.get_all_pins("alice").unwrap().finish(Some(entries)).unwrap();
    assert_eq!(ids(&pins), vec!["e", "d", "c", "b", "a"]);
    for pair in pins.windows(2) {
        assert!(pair[1].created.is_before(&pair[0].created));
    }
}

#[test]
fn listing_keeps_the_order_of_pins_of_one_age() {
    let entries = vec![
        entry("x_v0.json", RecordFile::Record(pin("x", "", None, at(5)))),
        entry("y_v0.json", RecordFile::Record(pin("y", "", None, at(7)))),
        entry("z_v0.json", RecordFile::Record(pin("z", "", None, at(5)))),
        entry("w_v0.json", RecordFile::Record(pin("w", "", None, at(7)))),
    ];
    let pins = collect_pins(Some(entries)).unwrap();
    assert_eq!(ids(&pins), vec!["y", "w", "x", "z"]);
}

#[test]
fn listing_passes_over_files_that_are_no_records() {
    let entries = vec![
        entry("recense_archive_alice.zip", RecordFile::Malformed),
        entry("a_v0.json", RecordFile::Record(pin("a", "", None, at(10)))),
        entry("notes.txt", RecordFile::Missing),
        entry(".json", RecordFile::Malformed),
        entry("b.jpg", RecordFile::Record(pin("not-listed", "", None, at(99)))),
    ];
    let pins = collect_pins(Some(entries)).unwrap();
    assert_eq!(ids(&pins), vec!["a"]);
}

#[test]
fn one_corrupt_record_fails_the_whole_listing() {
    let entries = vec![
        entry("a_v0.json", RecordFile::Record(pin("a", "", None, at(10)))),
        entry("b_v0.json", RecordFile::Malformed),
        entry("c_v0.json", RecordFile::Record(pin("c", "", None, at(30)))),
    ];
    assert_eq!(collect_pins(Some(entries)).unwrap_err(), StoreError::Corrupt);
    let entries = vec![entry("gone_v0.json", RecordFile::Missing)];
    assert_eq!(collect_pins(Some(entries)).unwrap_err(), StoreError::Corrupt);
}

#[test]
fn safe_names_are_made_of_ascii_letters_and_digits() {
    assert!(is_safe_name("alice"));
    assert!(is_safe_name("Alice42"));
    assert!(is_safe_name("e7d32fda72a0e3717d57019153d357525a4e9e10"));
    assert!(is_safe_name("azAZ09"));
    for bad in ["", ".", "..", "a/b", "../etc", "a b", "a-b", "a_b", "a.b", "ä", "a\0", "/", "a\\b", "`", "{", "[", "@", ":"] {
        assert!(!is_safe_name(bad), "{:?}", bad);
    }
}

#[test]
fn fresh_ids_are_safe_names() {
    assert!(is_safe_name(&Pin::new().id));
    assert!(is_safe_name(&Pin::created_at(at(0)).id));
    assert!(is_safe_name(&Pin::created_at(Timestamp { secs: i64::MIN, nanos: u32::MAX }).id));
    assert!(is_safe_name(&Pin::created_at(Timestamp { secs: i64::MAX, nanos: u32::MAX }).id));
}

#[test]
fn a_forgiving_listing_passes_over_corrupt_records() {
    let entries = vec![
        entry("a_v0.json", RecordFile::Record(pin("a", "", None, at(10)))),
        entry("b_v0.json", RecordFile::Malformed),
        entry("notes.txt", RecordFile::Malformed),
        entry("c_v0.json", RecordFile::Record(pin("c", "", None, at(30)))),
        entry("d_v0.json", RecordFile::Missing),
    ];
    let readable = collect_readable_pins(Some(entries));
    assert_eq!(ids(&readable.pins), vec!["c", "a"]);
    assert_eq!(readable.skipped, vec!["b_v0.json", "d_v0.json"]);
}

#[test]
fn a_forgiving_listing_agrees_with_a_strict_one_that_succeeds() {
    let make = || {
        vec![
            entry("x_v0.json", RecordFile::Record(pin("x", "", None, at(5)))),
            entry("y_v0.json", RecordFile::Record(pin("y", "", None, at(7)))),
            entry("z_v0.json", RecordFile::Record(pin("z", "", None, at(5)))),
            entry("skip.me", RecordFile::Malformed),
        ]
    };
    let store = BackingStore::new();
    let strict = store.get_all_pins("alice").unwrap().finish(Some(make())).unwrap();
    let forgiving = store.get_all_pins("alice").unwrap().finish_readable(Some(make()));
    assert_eq!(ids(&forgiving.pins), ids(&strict));
    assert!(forgiving.skipped.is_empty());
    let nothing = collect_readable_pins(None);
    assert!(nothing.pins.is_empty() && nothing.skipped.is_empty());
}

#[test]
fn record_names_are_those_with_the_extension_json() {
    let names = [
        "a.json", ".json", "..json", "json", "a.json.", "a.JSON", "a.b.json", "é.json", "a.jsonx",
        "ajson", ".a.json", "a..json", "", "x", "a.json/",
    ];
    for name in names.iter() {
        let extension = std::path::Path::new(name).extension();
        let expected = match extension {
            Some(extension) => extension == "json" && !name.ends_with('/'),
            None => false,
        };
        assert_eq!(BackingStore::is_record_file(name), expected, "{:?}", name);
    }
}

#[test]
fn the_store_refuses_names_that_are_not_safe() {
    let store = BackingStore::new();
    for bad in ["", "..", "a/../b", "a b", "a.b", "a-b", "ä", "/etc"] {
        let refused = store.add_pin(String::from(bad), pin("abc", "t", Some("a.org"), at(1)));
        assert_eq!(refused.unwrap_err(), StoreError::UnsafeName, "{:?}", bad);
        assert_eq!(store.get_pin(bad, "abc").unwrap_err(), StoreError::UnsafeName);
        assert_eq!(store.delete_pin(bad, "abc").unwrap_err(), StoreError::UnsafeName);
        assert_eq!(store.get_all_pins(bad).unwrap_err(), StoreError::UnsafeName);
    }
    for bad in ["", "../../x", "a/b", "x_v0", "a.json", "id 1"] {
        let refused = store.add_pin(String::from("alice"), pin(bad, "t", Some("a.org"), at(1)));
        assert_eq!(refused.unwrap_err(), StoreError::UnsafeName, "{:?}", bad);
        assert_eq!(store.get_pin("alice", bad).unwrap_err(), StoreError::UnsafeName);
        assert_eq!(store.delete_pin("alice", bad).unwrap_err(), StoreError::UnsafeName);
    }
}

#[test]
fn a_fresh_pin_of_a_safe_user_is_accepted() {
    let store = BackingStore::new();
    let fresh = Pin::new();
    let id = fresh.id.clone();
    assert_eq!(id.len(), 40);
    let write = store.add_pin(String::from("Alice42"), fresh).unwrap();
    assert_eq!(write.filename, format!("pins/Alice42/{}_v0.json", id));
    assert!(write.filename.starts_with(&write.directory));
    assert!(!write.filename[write.directory.len()..].contains('/'));
}
