//! What a user submits to add or edit a pin, and the pin made of it.
use vstd::prelude::*;
use vstd::string::*;

use crate::pins::optional_view;
use crate::pins::Pin;
use crate::pins::PinView;
use crate::sequences::lemma_filter_push;
use crate::text::alphanumeric;
use crate::text::char_lowercase;
use crate::text::chars_of;
use crate::text::is_alphanumeric;
use crate::text::is_whitespace;
use crate::text::is_word;
use crate::text::lemma_words_are_words;
use crate::text::lowercase_of_char;
use crate::text::split_whitespace;
use crate::text::string_of;
use crate::text::string_views;
use crate::text::views;
use crate::text::whitespace;
use crate::text::words;

verus! {

/// The fields of the form that adds a pin. A field that was not sent is
/// `None`.
#[derive(Debug)]
pub struct PinInfo {
    pub title: Option<String>,
    pub url: Option<String>,
    pub description: Option<String>,
    /// The tags in one line, separated by whitespace.
    pub tags: Option<String>,
}

/// The fields of the form that edits a pin: those of `PinInfo` and the id of
/// the pin that is edited.
#[derive(Debug)]
pub struct EditPinInfo {
    pub id: String,
    pub title: Option<String>,
    pub url: Option<String>,
    pub description: Option<String>,
    pub tags: Option<String>,
}

/// A form as plain text.
pub ghost struct PinInfoView {
    pub title: Option<Seq<char>>,
    pub url: Option<Seq<char>>,
    pub description: Option<Seq<char>>,
    pub tags: Option<Seq<char>>,
}

impl View for PinInfo {
    type V = PinInfoView;

    open spec fn view(&self) -> PinInfoView {
        PinInfoView {
            title: optional_view(self.title),
            url: optional_view(self.url),
            description: optional_view(self.description),
            tags: optional_view(self.tags),
        }
    }
}

/// Every character replaced by its lowercase expansion.
pub open spec fn lowered_chars(text: Seq<char>) -> Seq<char>
    decreases text.len(),
{
    if text.len() == 0 {
        Seq::empty()
    } else {
        lowered_chars(text.drop_last()) + char_lowercase(text.last())
    }
}

/// A character that a line of tags keeps: a letter, a digit, whitespace or
/// an underscore.
pub open spec fn tag_char(c: char) -> bool {
    alphanumeric(c) || whitespace(c) || c == '_'
}

/// The test for characters that a line of tags keeps.
pub open spec fn kept_in_tags() -> spec_fn(char) -> bool {
    |c: char| tag_char(c)
}

/// The tags of a line: the line in lowercase, without the characters that
/// tags cannot hold, split at whitespace.
pub open spec fn parsed_tags(line: Seq<char>) -> Seq<Seq<char>> {
    words(lowered_chars(line).filter(kept_in_tags()))
}

/// A tag: not empty, and made of letters, digits and underscores that are
/// not whitespace.
pub open spec fn is_tag(tag: Seq<char>) -> bool {
    &&& tag.len() > 0
    &&& forall|i: int|
        0 <= i < tag.len() ==> (alphanumeric(#[trigger] tag[i]) || tag[i] == '_') && !whitespace(
            tag[i],
        )
}

/// Every character of a word of `text` is a character of `text`.
proof fn lemma_word_chars(text: Seq<char>)
    ensures
        forall|k: int, i: int|
            0 <= k < words(text).len() && 0 <= i < words(text)[k].len() ==> text.contains(
                #[trigger] words(text)[k][i],
            ),
{
    lemma_scan_chars(text);
    let (done, current) = crate::text::word_scan(text);
    assert forall|k: int, i: int|
        0 <= k < words(text).len() && 0 <= i < words(text)[k].len() implies text.contains(
        #[trigger] words(text)[k][i],
    ) by {
        if k < done.len() {
            assert(words(text)[k] == done[k]);
        } else {
            assert(words(text)[k] == current);
        }
    }
}

/// Every character that a scan holds is a character of the text scanned.
proof fn lemma_scan_chars(text: Seq<char>)
    ensures
        forall|k: int, i: int|
            0 <= k < crate::text::word_scan(text).0.len() && 0 <= i < crate::text::word_scan(
                text,
            ).0[k].len() ==> text.contains(#[trigger] crate::text::word_scan(text).0[k][i]),
        forall|i: int|
            0 <= i < crate::text::word_scan(text).1.len() ==> text.contains(
                #[trigger] crate::text::word_scan(text).1[i],
            ),
    decreases text.len(),
{
    if text.len() > 0 {
        let rest = text.drop_last();
        lemma_scan_chars(rest);
        let (done, current) = crate::text::word_scan(rest);
        let (done2, current2) = crate::text::word_scan(text);
        assert forall|c: char| rest.contains(c) implies text.contains(c) by {
            let m = choose|m: int| 0 <= m < rest.len() && rest[m] == c;
            assert(text[m] == c);
        }
        assert(text.contains(text.last())) by {
            assert(text[text.len() - 1] == text.last());
        }
        assert forall|k: int, i: int|
            0 <= k < done2.len() && 0 <= i < done2[k].len() implies text.contains(
            #[trigger] done2[k][i],
        ) by {
            if k < done.len() {
                assert(done2[k] == done[k]);
                assert(rest.contains(done[k][i]));
            } else {
                assert(done2[k] == current);
                assert(rest.contains(current[i]));
            }
        }
        assert forall|i: int| 0 <= i < current2.len() implies text.contains(
            #[trigger] current2[i],
        ) by {
            if i < current.len() && current2.len() == current.len() + 1 {
                assert(current2[i] == current[i]);
                assert(rest.contains(current[i]));
            } else if current2.len() == current.len() + 1 {
                assert(current2[i] == text.last());
            }
        }
    }
}

/// Whatever the line, each of its tags is a tag.
pub proof fn lemma_parsed_tags_are_tags(line: Seq<char>)
    ensures
        forall|k: int| 0 <= k < parsed_tags(line).len() ==> is_tag(#[trigger] parsed_tags(line)[k]),
{
    let kept = lowered_chars(line).filter(kept_in_tags());
    lemma_words_are_words(kept);
    lemma_word_chars(kept);
    assert forall|k: int| 0 <= k < parsed_tags(line).len() implies is_tag(
        #[trigger] parsed_tags(line)[k],
    ) by {
        let tag = parsed_tags(line)[k];
        assert(is_word(tag));
        assert forall|i: int| 0 <= i < tag.len() implies (alphanumeric(#[trigger] tag[i]) || tag[i]
            == '_') && !whitespace(tag[i]) by {
            assert(kept.contains(words(kept)[k][i]));
            let m = choose|m: int| 0 <= m < kept.len() && kept[m] == tag[i];
            lowered_chars(line).lemma_filter_pred(kept_in_tags(), m);
            assert(tag_char(tag[i]));
        }
    }
}

/// Splits a line of tags.
pub fn parse_tags(line: &str) -> (tags: Vec<String>)
    ensures
        string_views(tags@) == parsed_tags(line@),
{
    let given = chars_of(line);
    let mut kept: Vec<char> = Vec::new();
    let mut i: usize = 0;
    proof {
        reveal(Seq::filter);
        assert(given@.take(0) =~= Seq::empty());
    }
    while i < given.len()
        invariant
            i <= given@.len(),
            kept@ == lowered_chars(given@.take(i as int)).filter(kept_in_tags()),
        decreases given@.len() - i,
    {
        let lower = lowercase_of_char(given[i]);
        let ghost done = lowered_chars(given@.take(i as int));
        proof {
            assert(given@.take(i + 1).drop_last() =~= given@.take(i as int));
            assert(given@.take(i + 1).last() == given@[i as int]);
            assert(lowered_chars(given@.take(i + 1)) == done + lower@);
        }
        let mut j: usize = 0;
        proof {
            assert(lower@.take(0) =~= Seq::empty());
            assert(done + lower@.take(0) =~= done);
        }
        while j < lower.len()
            invariant
                j <= lower@.len(),
                kept@ == (done + lower@.take(j as int)).filter(kept_in_tags()),
            decreases lower@.len() - j,
        {
            let c = lower[j];
            proof {
                assert(done + lower@.take(j + 1) =~= (done + lower@.take(j as int)).push(c));
                lemma_filter_push(done + lower@.take(j as int), c, kept_in_tags());
            }
            if is_alphanumeric(c) || is_whitespace(c) || c == '_' {
                kept.push(c);
            }
            j += 1;
        }
        proof {
            assert(lower@.take(j as int) =~= lower@);
        }
        i += 1;
    }
    proof {
        assert(given@.take(i as int) =~= given@);
    }
    let parts = split_whitespace(&kept);
    let mut tags: Vec<String> = Vec::new();
    let mut k: usize = 0;
    while k < parts.len()
        invariant
            k <= parts@.len(),
            string_views(tags@) == views(parts@).take(k as int),
        decreases parts@.len() - k,
    {
        let ghost before = string_views(tags@);
        tags.push(string_of(&parts[k]));
        proof {
            assert(string_views(tags@) =~= before.push(parts@[k as int]@));
            assert(views(parts@).take(k + 1) =~= views(parts@).take(k as int).push(
                parts@[k as int]@,
            ));
        }
        k += 1;
    }
    proof {
        assert(views(parts@).take(k as int) =~= views(parts@));
    }
    tags
}

/// A pin with the fields of a form put in. A field that was not sent leaves
/// the pin's own; an address that was sent becomes the pin's only address.
pub open spec fn filled(pin: PinView, info: PinInfoView) -> PinView {
    PinView {
        id: pin.id,
        title: match info.title {
            Some(title) => title,
            None => pin.title,
        },
        urls: match info.url {
            Some(url) => seq![url],
            None => pin.urls,
        },
        description: match info.description {
            Some(description) => description,
            None => pin.description,
        },
        rendered_description: pin.rendered_description,
        tags: match info.tags {
            Some(line) => parsed_tags(line),
            None => pin.tags,
        },
        created: pin.created,
    }
}

/// The form that edits a pin as plain text: the id of the pin that is
/// edited, and the fields that the form shares with the form that adds one.
pub ghost struct EditPinInfoView {
    pub id: Seq<char>,
    pub info: PinInfoView,
}

impl View for EditPinInfo {
    type V = EditPinInfoView;

    open spec fn view(&self) -> EditPinInfoView {
        EditPinInfoView {
            id: self.id@,
            info: PinInfoView {
                title: optional_view(self.title),
                url: optional_view(self.url),
                description: optional_view(self.description),
                tags: optional_view(self.tags),
            },
        }
    }
}

/// The pin `filled` with the fields of an edit, under the id of the pin
/// that is edited.
pub open spec fn edited(pin: PinView, edit: EditPinInfoView) -> PinView {
    PinView { id: edit.id, ..filled(pin, edit.info) }
}

impl PinInfo {
    /// Puts the fields of the form into `pin`.
    pub fn fill(self, pin: Pin) -> (made: Pin)
        ensures
            made@ == filled(pin@, self@),
    {
        let mut made = pin;
        if let Some(title) = self.title {
            made.title = title;
        }
        if let Some(url) = self.url {
            let mut urls: Vec<String> = Vec::new();
            urls.push(url);
            assert(string_views(urls@) =~= seq![url@]);
            made.urls = urls;
        }
        if let Some(description) = self.description {
            made.description = description;
        }
        if let Some(line) = self.tags {
            made.tags = parse_tags(line.as_str());
        }
        made
    }
}

impl EditPinInfo {
    /// Puts the id and the fields of the form into `pin`.
    pub fn fill(self, pin: Pin) -> (made: Pin)
        ensures
            made@ == edited(pin@, self@),
    {
        let mut pin = pin;
        pin.id = self.id;
        let info = PinInfo {
            title: self.title,
            url: self.url,
            description: self.description,
            tags: self.tags,
        };
        info.fill(pin)
    }
}

} // verus!
