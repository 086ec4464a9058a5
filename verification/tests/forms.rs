use recense::forms::parse_tags;
use recense::forms::EditPinInfo;
use recense::forms::PinInfo;
use recense::pins::Pin;
use recense::pins::Timestamp;

fn fresh() -> Pin {
    Pin::created_at(Timestamp { secs: 1_600_000_000, nanos: 5 })
}

#[test]
fn tags_are_split_at_whitespace() {
    assert_eq!(parse_tags("rust web  links"), vec!["rust", "web", "links"]);
    assert_eq!(parse_tags("  one\ttwo\nthree "), vec!["one", "two", "three"]);
    assert_eq!(parse_tags(""), Vec::<String>::new());
    assert_eq!(parse_tags("   "), Vec::<String>::new());
}

#[test]
fn tags_are_lowercased() {
    assert_eq!(parse_tags("Rust WEB_Dev"), vec!["rust", "web_dev"]);
    assert_eq!(parse_tags("ÄÖ Straße"), vec!["äö", "straße"]);
    assert_eq!(parse_tags("İ"), vec!["i"]);
}

#[test]
fn tags_lose_what_is_no_letter_digit_or_underscore() {
    assert_eq!(parse_tags("c++ c# node.js"), vec!["c", "c", "nodejs"]);
    assert_eq!(parse_tags("-- ++"), Vec::<String>::new());
    assert_eq!(parse_tags("a-b a_b 42"), vec!["ab", "a_b", "42"]);
    assert_eq!(parse_tags("tag,other"), vec!["tagother"]);
}

#[test]
fn tags_may_repeat() {
    assert_eq!(parse_tags("a a b A"), vec!["a", "a", "b", "a"]);
}

#[test]
fn a_form_fills_the_fields_that_were_sent() {
    let info = PinInfo {
        title: Some(String::from("Title")),
        url: Some(String::from("example.com")),
        description: Some(String::from("About")),
        tags: Some(String::from("One two")),
    };
    let base = fresh();
    let id = base.id.clone();
    let made = info.fill(base);
    assert_eq!(made.id, id);
    assert_eq!(made.title, "Title");
    assert_eq!(made.urls, vec!["example.com"]);
    assert_eq!(made.description, "About");
    assert_eq!(made.tags, vec!["one", "two"]);
    assert_eq!(made.rendered_description, Some(String::new()));
    assert_eq!(made.created, Timestamp { secs: 1_600_000_000, nanos: 5 });
}

#[test]
fn a_form_leaves_the_fields_that_were_not_sent() {
    let info = PinInfo { title: None, url: None, description: None, tags: None };
    let mut base = fresh();
    base.title = String::from("kept");
    base.urls = vec![String::from("a"), String::from("b")];
    base.tags = vec![String::from("Kept")];
    let made = info.fill(base);
    assert_eq!(made.title, "kept");
    assert_eq!(made.urls, vec!["a", "b"]);
    assert_eq!(made.description, "");
    assert_eq!(made.tags, vec!["Kept"]);
}

#[test]
fn an_edit_carries_the_id_of_the_pin() {
    let info = EditPinInfo {
        id: String::from("existing"),
        title: Some(String::from("New")),
        url: None,
        description: None,
        tags: Some(String::from("x")),
    };
    let made = info.fill(fresh());
    assert_eq!(made.id, "existing");
    assert_eq!(made.title, "New");
    assert!(made.urls.is_empty());
    assert_eq!(made.tags, vec!["x"]);
}
