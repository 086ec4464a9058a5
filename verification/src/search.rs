//! Search over pins and the tally of their tags.
use vstd::prelude::*;
use vstd::string::*;

use crate::errors::StoreError;
use crate::listing::collect_pins;
use crate::listing::descending;
use crate::listing::lemma_newest_first_descending;
use crate::listing::listed;
use crate::listing::optional_entries;
use crate::pins::is_safe_name;
use crate::pins::pin_directory_path;
use crate::pins::pin_views;
use crate::pins::safe_name;
use crate::listing::pins_held;
use crate::listing::pins_outcome;
use crate::listing::record_entries;
use crate::pins::BackingStore;
use crate::pins::DirEntry;
use crate::pins::EntryView;
use crate::pins::Pin;
use crate::pins::PinView;
use crate::sequences::lemma_filter_push;
use crate::text::chars_of;
use crate::text::contains;
use crate::text::lemma_lex_transitive;
use crate::text::lemma_lex_trichotomy;
use crate::text::lex_less;
use crate::text::lex_order;
use crate::text::lowercase;
use crate::text::occurs_in;
use crate::text::split_whitespace;
use crate::text::string_of;
use crate::text::string_views;
use crate::text::to_lowercase;
use crate::text::views;
use crate::text::words;

verus! {

/// Every term is a part of `hay`. Without terms this holds.
pub open spec fn all_terms_in(terms: Seq<Seq<char>>, hay: Seq<char>) -> bool {
    forall|k: int| 0 <= k < terms.len() ==> occurs_in(#[trigger] terms[k], hay)
}

/// One of the texts holds every term.
pub open spec fn any_holds_terms(texts: Seq<Seq<char>>, terms: Seq<Seq<char>>) -> bool {
    exists|i: int| 0 <= i < texts.len() && all_terms_in(terms, #[trigger] texts[i])
}

/// What a search reads of a pin, in lowercase.
#[derive(Debug)]
pub struct SearchFields {
    pub title: Vec<char>,
    pub urls: Vec<Vec<char>>,
    pub description: Vec<char>,
    pub tags: Vec<Vec<char>>,
}

/// The fields of a search as plain text.
pub ghost struct FieldsView {
    pub title: Seq<char>,
    pub urls: Seq<Seq<char>>,
    pub description: Seq<char>,
    pub tags: Seq<Seq<char>>,
}

impl View for SearchFields {
    type V = FieldsView;

    open spec fn view(&self) -> FieldsView {
        FieldsView {
            title: self.title@,
            urls: views(self.urls@),
            description: self.description@,
            tags: views(self.tags@),
        }
    }
}

/// The fields answer a pattern with its terms: the whole pattern is a part
/// of the title, or one address holds every term, or the description does,
/// or one tag does.
pub open spec fn fields_match(fields: FieldsView, pattern: Seq<char>, terms: Seq<Seq<char>>) -> bool {
    ||| occurs_in(pattern, fields.title)
    ||| any_holds_terms(fields.urls, terms)
    ||| all_terms_in(terms, fields.description)
    ||| any_holds_terms(fields.tags, terms)
}

/// Every text in lowercase.
pub open spec fn lowercase_all(texts: Seq<Seq<char>>) -> Seq<Seq<char>> {
    texts.map_values(|text: Seq<char>| lowercase(text))
}

/// What a search reads of a pin: title, addresses, description and tags,
/// all in lowercase.
pub open spec fn search_fields(pin: PinView) -> FieldsView {
    FieldsView {
        title: lowercase(pin.title),
        urls: lowercase_all(pin.urls),
        description: lowercase(pin.description),
        tags: lowercase_all(pin.tags),
    }
}

/// A pin answers a query where its fields, in lowercase, answer the query
/// in lowercase with the words of that as terms.
pub open spec fn pin_matches(pin: PinView, query: Seq<char>) -> bool {
    fields_match(search_fields(pin), lowercase(query), words(lowercase(query)))
}

/// The test for pins that answer `query`.
pub open spec fn answering(query: Seq<char>) -> spec_fn(PinView) -> bool {
    |pin: PinView| pin_matches(pin, query)
}

/// The pins that answer `query`, in the order given.
pub open spec fn found(pins: Seq<PinView>, query: Seq<char>) -> Seq<PinView> {
    pins.filter(answering(query))
}

/// A query without words is answered by every pin. The empty query is one.
pub proof fn lemma_blank_query_finds_all(pins: Seq<PinView>, query: Seq<char>)
    requires
        words(lowercase(query)).len() == 0,
    ensures
        found(pins, query) == pins,
    decreases pins.len(),
{
    reveal(Seq::filter);
    if pins.len() > 0 {
        lemma_blank_query_finds_all(pins.drop_last(), query);
        assert(all_terms_in(words(lowercase(query)), lowercase(pins.last().description)));
        assert(pin_matches(pins.last(), query));
        assert(pins =~= pins.drop_last().push(pins.last()));
    }
}

/// The characters of a text in lowercase.
fn lowered(text: &str) -> (chars: Vec<char>)
    ensures
        chars@ == lowercase(text@),
        text@.len() == 0 ==> chars@.len() == 0,
{
    let lower = to_lowercase(text);
    chars_of(lower.as_str())
}

/// The characters of every text in lowercase.
fn lowered_all(texts: &Vec<String>) -> (lower: Vec<Vec<char>>)
    ensures
        views(lower@) == lowercase_all(string_views(texts@)),
{
    let ghost wanted = lowercase_all(string_views(texts@));
    let mut lower: Vec<Vec<char>> = Vec::new();
    let mut i: usize = 0;
    proof {
        assert(views(lower@) =~= wanted.take(0));
    }
    while i < texts.len()
        invariant
            i <= texts@.len(),
            wanted == lowercase_all(string_views(texts@)),
            views(lower@) == wanted.take(i as int),
        decreases texts@.len() - i,
    {
        let ghost before = views(lower@);
        lower.push(lowered(texts[i].as_str()));
        proof {
            assert(views(lower@) =~= before.push(wanted[i as int]));
            assert(wanted.take(i + 1) =~= wanted.take(i as int).push(wanted[i as int]));
        }
        i += 1;
    }
    proof {
        assert(wanted.take(i as int) =~= wanted);
    }
    lower
}

/// Whether every term is a part of `hay`.
pub fn holds_all(hay: &Vec<char>, terms: &Vec<Vec<char>>) -> (yes: bool)
    ensures
        yes == all_terms_in(views(terms@), hay@),
{
    let mut k: usize = 0;
    while k < terms.len()
        invariant
            k <= terms@.len(),
            forall|j: int| 0 <= j < k ==> occurs_in(#[trigger] views(terms@)[j], hay@),
        decreases terms@.len() - k,
    {
        if !contains(hay, &terms[k]) {
            assert(views(terms@)[k as int] == terms@[k as int]@);
            return false;
        }
        assert(views(terms@)[k as int] == terms@[k as int]@);
        k += 1;
    }
    true
}

/// Whether one of the texts holds every term.
pub fn any_holds(texts: &Vec<Vec<char>>, terms: &Vec<Vec<char>>) -> (yes: bool)
    ensures
        yes == any_holds_terms(views(texts@), views(terms@)),
{
    let mut i: usize = 0;
    while i < texts.len()
        invariant
            i <= texts@.len(),
            forall|j: int|
                0 <= j < i ==> !all_terms_in(views(terms@), #[trigger] views(texts@)[j]),
        decreases texts@.len() - i,
    {
        assert(views(texts@)[i as int] == texts@[i as int]@);
        if holds_all(&texts[i], terms) {
            return true;
        }
        i += 1;
    }
    false
}

/// Whether the fields answer a pattern with its terms. Fields, pattern and
/// terms are compared as they are given.
pub fn answers(fields: &SearchFields, pattern: &Vec<char>, terms: &Vec<Vec<char>>) -> (yes: bool)
    ensures
        yes == fields_match(fields@, pattern@, views(terms@)),
{
    contains(&fields.title, pattern) || any_holds(&fields.urls, terms) || holds_all(
        &fields.description,
        terms,
    ) || any_holds(&fields.tags, terms)
}

/// What a search reads of a pin.
pub fn fields_of(pin: &Pin) -> (fields: SearchFields)
    ensures
        fields@ == search_fields(pin@),
{
    SearchFields {
        title: lowered(pin.title.as_str()),
        urls: lowered_all(&pin.urls),
        description: lowered(pin.description.as_str()),
        tags: lowered_all(&pin.tags),
    }
}

/// Keeps the pins that answer `query`, in the order given. The empty query
/// keeps them all.
pub fn search(pins: Vec<Pin>, query: &str) -> (hits: Vec<Pin>)
    ensures
        pin_views(hits@) == found(pin_views(pins@), query@),
        query@.len() == 0 ==> pin_views(hits@) == pin_views(pins@),
{
    let pattern = lowered(query);
    let terms = split_whitespace(&pattern);
    let ghost all = pin_views(pins@);
    let mut hits: Vec<Pin> = Vec::new();
    proof {
        reveal(Seq::filter);
        assert(all.take(0) =~= Seq::empty());
        assert(pin_views(hits@) =~= Seq::empty());
    }
    for pin in it: pins
        invariant
            all == pin_views(it.seq()),
            pattern@ == lowercase(query@),
            views(terms@) == words(pattern@),
            pin_views(hits@) == found(all.take(it.index() as int), query@),
    {
        let ghost k = it.index() as int;
        proof {
            assert(all[k] == pin@);
            assert(all.take(k + 1) =~= all.take(k).push(pin@));
            lemma_filter_push(all.take(k), pin@, answering(query@));
        }
        let fields = fields_of(&pin);
        if answers(&fields, &pattern, &terms) {
            let ghost before = pin_views(hits@);
            hits.push(pin);
            assert(pin_views(hits@) =~= before.push(pin@));
        }
    }
    proof {
        assert(all.take(all.len() as int) =~= all);
        if query@.len() == 0 {
            lemma_blank_query_finds_all(all, query@);
        }
    }
    hits
}

/// The tags of all pins, pin by pin.
pub open spec fn all_tags(pins: Seq<PinView>) -> Seq<Seq<char>>
    decreases pins.len(),
{
    if pins.len() == 0 {
        Seq::empty()
    } else {
        all_tags(pins.drop_last()) + pins.last().tags
    }
}

/// How often `tag` stands in `tags`.
pub open spec fn occurrences(tags: Seq<Seq<char>>, tag: Seq<char>) -> nat
    decreases tags.len(),
{
    if tags.len() == 0 {
        0
    } else {
        occurrences(tags.drop_last(), tag) + if tags.last() == tag {
            1nat
        } else {
            0nat
        }
    }
}

/// `tally` has an entry for `tag`.
pub open spec fn has_entry(tally: Seq<(Seq<char>, nat)>, tag: Seq<char>) -> bool {
    exists|i: int| 0 <= i < tally.len() && (#[trigger] tally[i]).0 == tag
}

/// `tally` is the count of `tags`: every entry names a tag with the number
/// of times it occurs, which is not zero; the entries stand in strictly
/// ascending order of their tags; and every tag has an entry.
pub open spec fn is_tally(tags: Seq<Seq<char>>, tally: Seq<(Seq<char>, nat)>) -> bool {
    &&& forall|i: int|
        0 <= i < tally.len() ==> (#[trigger] tally[i]).1 == occurrences(tags, tally[i].0)
            && tally[i].1 > 0
    &&& forall|i: int, j: int|
        0 <= i < j < tally.len() ==> lex_less((#[trigger] tally[i]).0, (#[trigger] tally[j]).0)
    &&& forall|k: int| 0 <= k < tags.len() ==> has_entry(tally, #[trigger] tags[k])
}

/// A tally as plain text and numbers.
pub open spec fn tally_views(tally: Seq<(String, usize)>) -> Seq<(Seq<char>, nat)> {
    tally.map_values(|entry: (String, usize)| (entry.0@, entry.1 as nat))
}

/// A tag that occurs stands somewhere, and no tag occurs more often than
/// there are tags.
pub proof fn lemma_occurrences(tags: Seq<Seq<char>>, tag: Seq<char>)
    ensures
        occurrences(tags, tag) <= tags.len(),
        occurrences(tags, tag) > 0 ==> exists|k: int| 0 <= k < tags.len() && tags[k] == tag,
        (exists|k: int| 0 <= k < tags.len() && tags[k] == tag) ==> occurrences(tags, tag) > 0,
    decreases tags.len(),
{
    if tags.len() > 0 {
        let rest = tags.drop_last();
        lemma_occurrences(rest, tag);
        if occurrences(tags, tag) > 0 {
            if tags.last() == tag {
                assert(tags[tags.len() - 1] == tag);
            } else {
                let k = choose|k: int| 0 <= k < rest.len() && rest[k] == tag;
                assert(tags[k] == tag);
            }
        }
        if exists|k: int| 0 <= k < tags.len() && tags[k] == tag {
            let k = choose|k: int| 0 <= k < tags.len() && tags[k] == tag;
            if k < tags.len() - 1 {
                assert(rest[k] == tag);
            }
        }
    }
}

/// The tags of a tally, in order.
pub open spec fn tally_tags(tally: Seq<(Seq<char>, nat)>) -> Seq<Seq<char>> {
    tally.map_values(|entry: (Seq<char>, nat)| entry.0)
}

/// The texts stand in strictly ascending order.
pub open spec fn ascending(texts: Seq<Seq<char>>) -> bool {
    forall|i: int, j: int|
        0 <= i < j < texts.len() ==> lex_less(#[trigger] texts[i], #[trigger] texts[j])
}

/// Two ascending lists that hold the same texts are one list.
pub proof fn lemma_ascending_lists_agree(a: Seq<Seq<char>>, b: Seq<Seq<char>>)
    requires
        ascending(a),
        ascending(b),
        forall|i: int| 0 <= i < a.len() ==> b.contains(#[trigger] a[i]),
        forall|j: int| 0 <= j < b.len() ==> a.contains(#[trigger] b[j]),
    ensures
        a == b,
    decreases a.len(),
{
    if a.len() == 0 {
        if b.len() > 0 {
            assert(a.contains(b[0]));
        }
        assert(a =~= b);
    } else {
        assert(b.contains(a[a.len() - 1]));
        let in_b = choose|m: int| 0 <= m < b.len() && b[m] == a.last();
        assert(a.contains(b[b.len() - 1]));
        let in_a = choose|m: int| 0 <= m < a.len() && a[m] == b.last();
        lemma_lex_trichotomy(a.last(), b.last());
        if in_b < b.len() - 1 {
            assert(lex_less(b[in_b], b[b.len() - 1]));
        }
        if in_a < a.len() - 1 {
            assert(lex_less(a[in_a], a[a.len() - 1]));
        }
        assert(a.last() == b.last());
        let a_rest = a.drop_last();
        let b_rest = b.drop_last();
        assert forall|i: int| 0 <= i < a_rest.len() implies b_rest.contains(
            #[trigger] a_rest[i],
        ) by {
            assert(b.contains(a[i]));
            let m = choose|m: int| 0 <= m < b.len() && b[m] == a[i];
            assert(lex_less(a[i], a[a.len() - 1]));
            lemma_lex_trichotomy(a[i], a.last());
            assert(b_rest[m] == a_rest[i]);
        }
        assert forall|j: int| 0 <= j < b_rest.len() implies a_rest.contains(
            #[trigger] b_rest[j],
        ) by {
            assert(a.contains(b[j]));
            let m = choose|m: int| 0 <= m < a.len() && a[m] == b[j];
            assert(lex_less(b[j], b[b.len() - 1]));
            lemma_lex_trichotomy(b[j], b.last());
            assert(a_rest[m] == b_rest[j]);
        }
        assert(ascending(a_rest)) by {
            assert forall|i: int, j: int| 0 <= i < j < a_rest.len() implies lex_less(
                #[trigger] a_rest[i],
                #[trigger] a_rest[j],
            ) by {
                assert(lex_less(a[i], a[j]));
            }
        }
        assert(ascending(b_rest)) by {
            assert forall|i: int, j: int| 0 <= i < j < b_rest.len() implies lex_less(
                #[trigger] b_rest[i],
                #[trigger] b_rest[j],
            ) by {
                assert(lex_less(b[i], b[j]));
            }
        }
        lemma_ascending_lists_agree(a_rest, b_rest);
        assert(a =~= a_rest.push(a.last()));
        assert(b =~= b_rest.push(b.last()));
    }
}

/// A list of tags has one tally: `is_tally` leaves nothing open.
pub proof fn lemma_tally_is_unique(
    tags: Seq<Seq<char>>,
    a: Seq<(Seq<char>, nat)>,
    b: Seq<(Seq<char>, nat)>,
)
    requires
        is_tally(tags, a),
        is_tally(tags, b),
    ensures
        a == b,
{
    let a_tags = tally_tags(a);
    let b_tags = tally_tags(b);
    assert forall|i: int| 0 <= i < a_tags.len() implies b_tags.contains(#[trigger] a_tags[i]) by {
        lemma_occurrences(tags, a[i].0);
        let k = choose|k: int| 0 <= k < tags.len() && tags[k] == a[i].0;
        assert(has_entry(b, tags[k]));
        let m = choose|m: int| 0 <= m < b.len() && (#[trigger] b[m]).0 == tags[k];
        assert(b_tags[m] == a_tags[i]);
    }
    assert forall|j: int| 0 <= j < b_tags.len() implies a_tags.contains(#[trigger] b_tags[j]) by {
        lemma_occurrences(tags, b[j].0);
        let k = choose|k: int| 0 <= k < tags.len() && tags[k] == b[j].0;
        assert(has_entry(a, tags[k]));
        let m = choose|m: int| 0 <= m < a.len() && (#[trigger] a[m]).0 == tags[k];
        assert(a_tags[m] == b_tags[j]);
    }
    assert(ascending(a_tags)) by {
        assert forall|i: int, j: int| 0 <= i < j < a_tags.len() implies lex_less(
            #[trigger] a_tags[i],
            #[trigger] a_tags[j],
        ) by {
            assert(lex_less(a[i].0, a[j].0));
        }
    }
    assert(ascending(b_tags)) by {
        assert forall|i: int, j: int| 0 <= i < j < b_tags.len() implies lex_less(
            #[trigger] b_tags[i],
            #[trigger] b_tags[j],
        ) by {
            assert(lex_less(b[i].0, b[j].0));
        }
    }
    lemma_ascending_lists_agree(a_tags, b_tags);
    assert(a_tags.len() == a.len() && b_tags.len() == b.len());
    assert forall|i: int| 0 <= i < a.len() implies a[i] == b[i] by {
        assert(a_tags[i] == b_tags[i]);
        assert(a[i].0 == b[i].0);
        assert(a[i].1 == occurrences(tags, a[i].0));
        assert(b[i].1 == occurrences(tags, b[i].0));
    }
    assert(a =~= b);
}

/// The tally kept while counting: tags and their numbers side by side.
spec fn paired(names: Seq<Vec<char>>, numbers: Seq<usize>) -> Seq<(Seq<char>, nat)> {
    Seq::new(names.len(), |i: int| (names[i]@, numbers[i] as nat))
}

/// Counts one more tag into a tally.
fn count_tag(names: &mut Vec<Vec<char>>, numbers: &mut Vec<usize>, tag: Vec<char>, Ghost(seen): Ghost<
    Seq<Seq<char>>,
>)
    requires
        old(names)@.len() == old(numbers)@.len(),
        is_tally(seen, paired(old(names)@, old(numbers)@)),
        seen.len() < usize::MAX,
    ensures
        final(names)@.len() == final(numbers)@.len(),
        is_tally(seen.push(tag@), paired(final(names)@, final(numbers)@)),
{
    let ghost before = paired(names@, numbers@);
    let ghost longer = seen.push(tag@);
    proof {
        assert(longer.drop_last() =~= seen);
        assert forall|x: Seq<char>| #[trigger]
            occurrences(longer, x) == occurrences(seen, x) + if x == tag@ {
                1nat
            } else {
                0nat
            } by {}
    }
    let mut at: usize = 0;
    let mut sign: i8 = 1;
    while at < names.len()
        invariant
            at <= names@.len(),
            names@.len() == numbers@.len(),
            before == paired(names@, numbers@),
            forall|i: int| 0 <= i < at ==> lex_less(#[trigger] before[i].0, tag@),
        ensures
            at <= names@.len(),
            at < names@.len() ==> (sign <= 0 && (sign == 0 <==> before[at as int].0 == tag@) && (sign
                < 0 <==> lex_less(tag@, before[at as int].0))),
            forall|i: int| 0 <= i < at ==> lex_less(#[trigger] before[i].0, tag@),
        decreases names@.len() - at,
    {
        sign = lex_order(&tag, &names[at]);
        if sign <= 0 {
            break ;
        }
        at += 1;
    }
    if at < names.len() && sign == 0 {
        proof {
            lemma_occurrences(seen, tag@);
        }
        let number: usize = numbers[at] + 1;
        numbers.set(at, number);
        proof {
            let after = paired(names@, numbers@);
            assert forall|i: int| 0 <= i < after.len() implies (#[trigger] after[i]).1
                == occurrences(longer, after[i].0) && after[i].1 > 0 by {
                assert(after[i].0 == before[i].0);
                if i != at {
                    assert(after[i].1 == before[i].1);
                    if i < at {
                        assert(lex_less(before[i].0, before[at as int].0));
                    } else {
                        assert(lex_less(before[at as int].0, before[i].0));
                    }
                    lemma_lex_trichotomy(before[i].0, tag@);
                }
            }
            assert forall|i: int, j: int| 0 <= i < j < after.len() implies lex_less(
                (#[trigger] after[i]).0,
                (#[trigger] after[j]).0,
            ) by {
                assert(after[i].0 == before[i].0 && after[j].0 == before[j].0);
            }
            assert forall|k: int| 0 <= k < longer.len() implies has_entry(
                after,
                #[trigger] longer[k],
            ) by {
                if k < seen.len() {
                    assert(has_entry(before, seen[k]));
                    let i = choose|i: int| 0 <= i < before.len() && (#[trigger] before[i]).0 == seen[k];
                    assert(after[i].0 == longer[k]);
                } else {
                    assert(after[at as int].0 == longer[k]);
                }
            }
        }
    } else {
        proof {
            lemma_occurrences(seen, tag@);
            // no entry names the tag, so it has not been seen
            assert forall|i: int| 0 <= i < before.len() implies (#[trigger] before[i]).0 != tag@ by {
                lemma_lex_trichotomy(before[i].0, tag@);
                if i >= at {
                    lemma_lex_trichotomy(tag@, before[at as int].0);
                    if i > at {
                        assert(lex_less(before[at as int].0, before[i].0));
                        lemma_lex_transitive(tag@, before[at as int].0, before[i].0);
                    }
                }
            }
            if occurrences(seen, tag@) > 0 {
                let k = choose|k: int| 0 <= k < seen.len() && seen[k] == tag@;
                assert(has_entry(before, seen[k]));
                let i = choose|i: int| 0 <= i < before.len() && (#[trigger] before[i]).0 == seen[k];
                assert(false);
            }
        }
        let ghost name = tag@;
        names.insert(at, tag);
        numbers.insert(at, 1);
        proof {
            let after = paired(names@, numbers@);
            assert forall|i: int| 0 <= i < after.len() implies (#[trigger] after[i]).1
                == occurrences(longer, after[i].0) && after[i].1 > 0 by {
                if i < at {
                    assert(after[i] == before[i]);
                } else if i > at {
                    assert(after[i] == before[i - 1]);
                }
            }
            assert forall|i: int, j: int| 0 <= i < j < after.len() implies lex_less(
                (#[trigger] after[i]).0,
                (#[trigger] after[j]).0,
            ) by {
                if j < at {
                    assert(after[i] == before[i] && after[j] == before[j]);
                } else if j == at {
                    assert(after[i] == before[i]);
                } else if i < at {
                    assert(after[i] == before[i] && after[j] == before[j - 1]);
                } else if i == at {
                    assert(after[j] == before[j - 1]);
                    lemma_lex_trichotomy(name, before[at as int].0);
                    if j - 1 > at {
                        assert(lex_less(before[at as int].0, before[j - 1].0));
                        lemma_lex_transitive(name, before[at as int].0, before[j - 1].0);
                    }
                } else {
                    assert(after[i] == before[i - 1] && after[j] == before[j - 1]);
                }
            }
            assert forall|k: int| 0 <= k < longer.len() implies has_entry(
                after,
                #[trigger] longer[k],
            ) by {
                if k < seen.len() {
                    assert(has_entry(before, seen[k]));
                    let i = choose|i: int| 0 <= i < before.len() && (#[trigger] before[i]).0 == seen[k];
                    if i < at {
                        assert(after[i].0 == longer[k]);
                    } else {
                        assert(after[i + 1] == before[i]);
                        assert(after[i + 1].0 == longer[k]);
                    }
                } else {
                    assert(after[at as int].0 == longer[k]);
                }
            }
        }
    }
}

/// The tags of all pins as character vectors, pin by pin.
fn flatten_tags(pins: &Vec<Pin>) -> (tags: Vec<Vec<char>>)
    ensures
        views(tags@) == all_tags(pin_views(pins@)),
{
    let mut tags: Vec<Vec<char>> = Vec::new();
    let mut p: usize = 0;
    proof {
        assert(pin_views(pins@).take(0) =~= Seq::empty());
        assert(views(tags@) =~= Seq::empty());
    }
    while p < pins.len()
        invariant
            p <= pins@.len(),
            views(tags@) == all_tags(pin_views(pins@).take(p as int)),
        decreases pins@.len() - p,
    {
        let pin = &pins[p];
        let ghost base = views(tags@);
        let mut t: usize = 0;
        while t < pin.tags.len()
            invariant
                t <= pin.tags@.len(),
                views(tags@) == base + string_views(pin.tags@).take(t as int),
            decreases pin.tags@.len() - t,
        {
            let ghost before = views(tags@);
            tags.push(chars_of(pin.tags[t].as_str()));
            proof {
                assert(views(tags@) =~= before.push(pin.tags@[t as int]@));
                assert(string_views(pin.tags@).take(t + 1) =~= string_views(pin.tags@).take(
                    t as int,
                ).push(pin.tags@[t as int]@));
            }
            t += 1;
        }
        proof {
            assert(string_views(pin.tags@).take(t as int) =~= pin@.tags);
            let seen = pin_views(pins@).take(p + 1);
            assert(seen.drop_last() =~= pin_views(pins@).take(p as int));
            assert(seen.last() == pin@);
        }
        p += 1;
    }
    proof {
        assert(pin_views(pins@).take(p as int) =~= pin_views(pins@));
    }
    tags
}

/// Counts the tags of all pins. The result lists each tag once with the
/// number of times it occurs, in ascending order of the tags.
pub fn tag_counts(pins: &Vec<Pin>) -> (tally: Vec<(String, usize)>)
    ensures
        is_tally(all_tags(pin_views(pins@)), tally_views(tally@)),
{
    let tags = flatten_tags(pins);
    let ghost all = views(tags@);
    let total: usize = tags.len();
    let mut names: Vec<Vec<char>> = Vec::new();
    let mut numbers: Vec<usize> = Vec::new();
    proof {
        assert(all.take(0) =~= Seq::empty());
    }
    for tag in it: tags
        invariant
            all == views(it.seq()),
            all.len() == total,
            names@.len() == numbers@.len(),
            is_tally(all.take(it.index() as int), paired(names@, numbers@)),
    {
        let ghost k = it.index() as int;
        proof {
            assert(all[k] == tag@);
            assert(all.take(k + 1) =~= all.take(k).push(tag@));
        }
        count_tag(&mut names, &mut numbers, tag, Ghost(all.take(k)));
    }
    proof {
        assert(all.take(all.len() as int) =~= all);
    }
    let mut tally: Vec<(String, usize)> = Vec::new();
    let mut i: usize = 0;
    while i < names.len()
        invariant
            i <= names@.len(),
            names@.len() == numbers@.len(),
            tally_views(tally@) == paired(names@, numbers@).take(i as int),
        decreases names@.len() - i,
    {
        let ghost before = tally_views(tally@);
        let name = string_of(&names[i]);
        tally.push((name, numbers[i]));
        assert(tally_views(tally@) =~= before.push((names@[i as int]@, numbers@[i as int] as nat)));
        assert(paired(names@, numbers@).take(i + 1) =~= paired(names@, numbers@).take(
            i as int,
        ).push((names@[i as int]@, numbers@[i as int] as nat)));
        i += 1;
    }
    assert(paired(names@, numbers@).take(i as int) =~= paired(names@, numbers@));
    tally
}

/// What a search gives: the listed pins that answer the query, or the
/// listing's failure.
pub open spec fn searched(entries: Option<Seq<EntryView>>, query: Seq<char>) -> Result<
    Seq<PinView>,
    StoreError,
> {
    match listed(entries) {
        Ok(pins) => Ok(found(pins, query)),
        Err(error) => Err(error),
    }
}

/// What a tally of a listing is: a tally of the tags of the listed pins, or
/// the listing's failure.
pub open spec fn is_tally_of(entries: Option<Seq<EntryView>>, outcome: Result<
    Seq<(Seq<char>, nat)>,
    StoreError,
>) -> bool {
    match listed(entries) {
        Ok(pins) => outcome matches Ok(tally) && is_tally(all_tags(pins), tally),
        Err(error) => outcome == Err::<Seq<(Seq<char>, nat)>, StoreError>(error),
    }
}

/// The outcome of a tally as plain text and numbers.
pub open spec fn tally_outcome(outcome: Result<Vec<(String, usize)>, StoreError>) -> Result<
    Seq<(Seq<char>, nat)>,
    StoreError,
> {
    match outcome {
        Ok(tally) => Ok(tally_views(tally@)),
        Err(error) => Err(error),
    }
}

/// A search that awaits the entries of its directory.
#[derive(Debug)]
pub struct PinSearch {
    pub directory: String,
    pub pattern: String,
}

impl PinSearch {
    /// Closes a search with the entries of `directory`.
    pub fn finish(self, entries: Option<Vec<DirEntry>>) -> (outcome: Result<Vec<Pin>, StoreError>)
        ensures
            pins_outcome(outcome) == searched(optional_entries(entries), self.pattern@),
            self.pattern@.len() == 0 ==> pins_outcome(outcome) == listed(optional_entries(entries)),
    {
        match collect_pins(entries) {
            Ok(pins) => Ok(search(pins, self.pattern.as_str())),
            Err(error) => Err(error),
        }
    }
}

/// A tally of tags that awaits the entries of its directory.
#[derive(Debug)]
pub struct TagListing {
    pub directory: String,
}

impl TagListing {
    /// Closes a tally with the entries of `directory`.
    pub fn finish(self, entries: Option<Vec<DirEntry>>) -> (outcome: Result<
        Vec<(String, usize)>,
        StoreError,
    >)
        ensures
            is_tally_of(optional_entries(entries), tally_outcome(outcome)),
    {
        match collect_pins(entries) {
            Ok(pins) => Ok(tag_counts(&pins)),
            Err(error) => Err(error),
        }
    }
}

impl BackingStore {
    /// Starts the tally of a user's tags. A user name that is no safe name
    /// is refused.
    pub fn get_all_tags(&self, username: &str) -> (tally: Result<TagListing, StoreError>)
        ensures
            safe_name(username@) ==> ({
                &&& tally matches Ok(t)
                &&& t.directory@ == pin_directory_path(username@)
            }),
            !safe_name(username@) ==> tally == Err::<TagListing, StoreError>(
                StoreError::UnsafeName,
            ),
    {
        if !is_safe_name(username) {
            return Err(StoreError::UnsafeName);
        }
        Ok(TagListing { directory: BackingStore::pin_directory(username) })
    }

    /// Starts a search of a user's pins. A user name that is no safe name
    /// is refused.
    pub fn search_pins(&self, username: &str, search_pattern: &str) -> (search: Result<
        PinSearch,
        StoreError,
    >)
        ensures
            safe_name(username@) ==> ({
                &&& search matches Ok(s)
                &&& s.directory@ == pin_directory_path(username@)
                &&& s.pattern@ == search_pattern@
            }),
            !safe_name(username@) ==> search == Err::<PinSearch, StoreError>(
                StoreError::UnsafeName,
            ),
    {
        if !is_safe_name(username) {
            return Err(StoreError::UnsafeName);
        }
        Ok(
            PinSearch {
                directory: BackingStore::pin_directory(username),
                pattern: String::from_str(search_pattern),
            },
        )
    }
}

/// A search without words lists everything: it gives what the listing
/// gives.
pub proof fn lemma_blank_search_lists_all(entries: Option<Seq<EntryView>>, query: Seq<char>)
    requires
        words(lowercase(query)).len() == 0,
    ensures
        searched(entries, query) == listed(entries),
{
    match listed(entries) {
        Ok(pins) => {
            lemma_blank_query_finds_all(pins, query);
        },
        Err(_) => {},
    }
}

/// A search keeps the order of the listing: its pins are never shown before
/// a newer one.
pub proof fn lemma_search_keeps_order(entries: Option<Seq<EntryView>>, query: Seq<char>)
    ensures
        searched(entries, query) matches Ok(hits) ==> descending(hits),
{
    match listed(entries) {
        Ok(pins) => {
            match entries {
                Some(given) => {
                    lemma_newest_first_descending(pins_held(record_entries(given)));
                },
                None => {},
            }
            lemma_filter_keeps_descending(pins, answering(query));
        },
        Err(_) => {},
    }
}

/// Leaving pins out of a descending sequence keeps it descending.
pub proof fn lemma_filter_keeps_descending(pins: Seq<PinView>, keep: spec_fn(PinView) -> bool)
    requires
        descending(pins),
    ensures
        descending(pins.filter(keep)),
        forall|i: int|
            0 <= i < pins.filter(keep).len() ==> pins.contains(#[trigger] pins.filter(keep)[i]),
    decreases pins.len(),
{
    reveal(Seq::filter);
    if pins.len() > 0 {
        let rest = pins.drop_last();
        assert(descending(rest)) by {
            assert forall|i: int, j: int| 0 <= i < j < rest.len() implies !(#[trigger] rest[i]).created.precedes(
                (#[trigger] rest[j]).created,
            ) by {
                assert(rest[i] == pins[i] && rest[j] == pins[j]);
            }
        }
        lemma_filter_keeps_descending(rest, keep);
        let kept = rest.filter(keep);
        let all = pins.filter(keep);
        assert forall|i: int| 0 <= i < all.len() implies pins.contains(#[trigger] all[i]) by {
            if i < kept.len() {
                assert(rest.contains(kept[i]));
                let m = choose|m: int| 0 <= m < rest.len() && rest[m] == kept[i];
                assert(pins[m] == all[i]);
            } else {
                assert(pins[pins.len() - 1] == all[i]);
            }
        }
        assert forall|i: int, j: int| 0 <= i < j < all.len() implies !(#[trigger] all[i]).created.precedes(
            (#[trigger] all[j]).created,
        ) by {
            if j < kept.len() {
                assert(all[i] == kept[i] && all[j] == kept[j]);
            } else {
                assert(all[j] == pins.last());
                assert(rest.contains(kept[i]));
                let m = choose|m: int| 0 <= m < rest.len() && rest[m] == kept[i];
                assert(pins[m] == all[i]);
                assert(pins[pins.len() - 1] == all[j]);
            }
        }
    }
}

} // verus!
