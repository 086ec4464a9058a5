//! Text as sequences of characters.
//!
//! Strings are handled through their views, `Seq<char>`. The executable
//! helpers work on `Vec<char>`, so that searching, splitting and comparing
//! are ordinary verified loops. Only what depends on the Unicode tables
//! (case mapping and character classes) is left to the standard library, and
//! each such result is given a name below.
use vstd::prelude::*;
use vstd::string::*;

verus! {

/// The lowercase form of a whole string, as `str::to_lowercase` computes it.
pub uninterp spec fn lowercase(text: Seq<char>) -> Seq<char>;

/// The lowercase expansion of one character, as `char::to_lowercase` yields it.
pub uninterp spec fn char_lowercase(c: char) -> Seq<char>;

/// Whether a character is alphabetic or numeric, as `char::is_alphanumeric` says.
pub uninterp spec fn alphanumeric(c: char) -> bool;

/// Whether a character has the Unicode `White_Space` property, as
/// `char::is_whitespace` says.
pub uninterp spec fn whitespace(c: char) -> bool;

/// Calls `str::to_lowercase`. Trusted: the result is the named lowercase form
/// of the argument, and the lowercase form of the empty string is empty.
#[verifier::external_body]
pub(crate) fn to_lowercase(text: &str) -> (lowered: String)
    ensures
        lowered@ == lowercase(text@),
        text@.len() == 0 ==> lowered@.len() == 0,
{
    text.to_lowercase()
}

/// Calls `char::to_lowercase` and collects what it yields. Trusted: the
/// characters are the named lowercase expansion of `c`, in order.
#[verifier::external_body]
pub(crate) fn lowercase_of_char(c: char) -> (lowered: Vec<char>)
    ensures
        lowered@ == char_lowercase(c),
{
    c.to_lowercase().collect()
}

/// Calls `char::is_alphanumeric`. Trusted: the answer is the named class.
#[verifier::external_body]
pub(crate) fn is_alphanumeric(c: char) -> (yes: bool)
    ensures
        yes == alphanumeric(c),
{
    c.is_alphanumeric()
}

/// Calls `char::is_whitespace`. Trusted: the answer is the named class, to
/// which the space belongs.
#[verifier::external_body]
pub(crate) fn is_whitespace(c: char) -> (yes: bool)
    ensures
        yes == whitespace(c),
        c == ' ' ==> yes,
{
    c.is_whitespace()
}

/// Collects characters into a `String` (`String: FromIterator<&char>`).
/// Trusted: the string holds exactly the given characters, in order.
#[verifier::external_body]
pub(crate) fn string_of(chars: &Vec<char>) -> (text: String)
    ensures
        text@ == chars@,
{
    chars.iter().collect()
}

/// The characters of a string, in order.
pub fn chars_of(text: &str) -> (chars: Vec<char>)
    ensures
        chars@ == text@,
{
    let mut chars: Vec<char> = Vec::new();
    for c in it: text.chars()
        invariant
            chars@ == it.seq().take(it.index() as int),
            it.seq() == text@,
    {
        chars.push(c);
    }
    chars
}

/// `needle` stands in `hay` at position `at`.
pub open spec fn occurs_at(needle: Seq<char>, hay: Seq<char>, at: int) -> bool {
    &&& 0 <= at
    &&& at + needle.len() <= hay.len()
    &&& hay.subrange(at, at + needle.len()) == needle
}

/// `needle` is a contiguous part of `hay`. The empty sequence is a part of
/// every sequence.
pub open spec fn occurs_in(needle: Seq<char>, hay: Seq<char>) -> bool {
    exists|at: int| occurs_at(needle, hay, at)
}

/// The empty text occurs in every text.
pub proof fn lemma_empty_occurs(needle: Seq<char>, hay: Seq<char>)
    requires
        needle.len() == 0,
    ensures
        occurs_in(needle, hay),
{
    assert(hay.subrange(0, 0) =~= needle);
    assert(occurs_at(needle, hay, 0));
}

/// Whether `needle` stands in `hay` at `at`; `at` must leave room for it.
fn matches_at(hay: &Vec<char>, needle: &Vec<char>, at: usize) -> (yes: bool)
    requires
        at + needle@.len() <= hay@.len(),
    ensures
        yes == occurs_at(needle@, hay@, at as int),
{
    let mut k: usize = 0;
    let size: usize = hay.len();
    while k < needle.len()
        invariant
            k <= needle@.len(),
            at + needle@.len() <= hay@.len(),
            hay@.len() == size,
            forall|j: int| 0 <= j < k ==> hay@[at + j] == needle@[j],
        decreases needle@.len() - k,
    {
        if hay[at + k] != needle[k] {
            proof {
                let part = hay@.subrange(at as int, at + needle@.len());
                assert(part[k as int] == hay@[at + k]);
            }
            return false;
        }
        k += 1;
    }
    assert(hay@.subrange(at as int, at + needle@.len()) =~= needle@);
    true
}

/// Substring test, as `str::contains` with a string pattern.
pub fn contains(hay: &Vec<char>, needle: &Vec<char>) -> (found: bool)
    ensures
        found == occurs_in(needle@, hay@),
{
    if needle.len() > hay.len() {
        return false;
    }
    let last: usize = hay.len() - needle.len();
    let mut at: usize = 0;
    loop
        invariant
            last == hay@.len() - needle@.len(),
            at <= last,
            forall|i: int| 0 <= i < at ==> !occurs_at(needle@, hay@, i),
        decreases last - at,
    {
        if matches_at(hay, needle, at) {
            return true;
        }
        if at == last {
            return false;
        }
        at += 1;
    }
}

/// Prefix test, as `str::starts_with` with a string pattern.
pub fn starts_with(text: &Vec<char>, prefix: &Vec<char>) -> (yes: bool)
    ensures
        yes == prefix@.is_prefix_of(text@),
{
    if prefix.len() > text.len() {
        return false;
    }
    let yes = matches_at(text, prefix, 0);
    assert(text@.subrange(0, prefix@.len() as int) == prefix@ <==> prefix@.is_prefix_of(text@)) by {
        if prefix@.is_prefix_of(text@) {
            assert(text@.subrange(0, prefix@.len() as int) =~= prefix@);
        }
    }
    yes
}

/// Suffix test, as `str::ends_with` with a string pattern.
pub fn ends_with(text: &Vec<char>, suffix: &Vec<char>) -> (yes: bool)
    ensures
        yes == suffix@.is_suffix_of(text@),
{
    if suffix.len() > text.len() {
        return false;
    }
    let at: usize = text.len() - suffix.len();
    let yes = matches_at(text, suffix, at);
    assert(text@.subrange(at as int, at + suffix@.len()) == suffix@ <==> suffix@.is_suffix_of(
        text@,
    )) by {
        if suffix@.is_suffix_of(text@) {
            assert(text@.subrange(at as int, at + suffix@.len()) =~= suffix@);
        }
    }
    yes
}

/// The texts that a vector of character vectors holds.
pub open spec fn views(items: Seq<Vec<char>>) -> Seq<Seq<char>> {
    items.map_values(|item: Vec<char>| item@)
}

/// The texts that a vector of strings holds.
pub open spec fn string_views(items: Seq<String>) -> Seq<Seq<char>> {
    items.map_values(|item: String| item@)
}

/// State of a left-to-right scan for words: the words that are complete and
/// the characters of the word in progress.
pub open spec fn word_scan(text: Seq<char>) -> (Seq<Seq<char>>, Seq<char>)
    decreases text.len(),
{
    if text.len() == 0 {
        (Seq::empty(), Seq::empty())
    } else {
        let (done, current) = word_scan(text.drop_last());
        if whitespace(text.last()) {
            if current.len() > 0 {
                (done.push(current), Seq::empty())
            } else {
                (done, current)
            }
        } else {
            (done, current.push(text.last()))
        }
    }
}

/// The maximal runs of non-whitespace characters of `text`, in order: what
/// `str::split_whitespace` yields.
pub open spec fn words(text: Seq<char>) -> Seq<Seq<char>> {
    let (done, current) = word_scan(text);
    if current.len() > 0 {
        done.push(current)
    } else {
        done
    }
}

/// A word: not empty, and free of whitespace.
pub open spec fn is_word(word: Seq<char>) -> bool {
    &&& word.len() > 0
    &&& forall|i: int| 0 <= i < word.len() ==> !whitespace(#[trigger] word[i])
}

/// Every run that a scan holds is a word, and the run in progress is free of
/// whitespace.
pub proof fn lemma_word_scan(text: Seq<char>)
    ensures
        forall|k: int| 0 <= k < word_scan(text).0.len() ==> is_word(#[trigger] word_scan(text).0[k]),
        forall|i: int| 0 <= i < word_scan(text).1.len() ==> !whitespace(#[trigger] word_scan(text).1[i]),
    decreases text.len(),
{
    if text.len() > 0 {
        let (done, current) = word_scan(text.drop_last());
        lemma_word_scan(text.drop_last());
        if whitespace(text.last()) {
            if current.len() > 0 {
                assert(is_word(current));
                assert forall|k: int| 0 <= k < done.push(current).len() implies is_word(
                    #[trigger] done.push(current)[k],
                ) by {
                    if k < done.len() {
                        assert(done.push(current)[k] == done[k]);
                    }
                }
            }
        } else {
            assert forall|i: int| 0 <= i < current.push(text.last()).len() implies !whitespace(
                #[trigger] current.push(text.last())[i],
            ) by {
                if i < current.len() {
                    assert(current.push(text.last())[i] == current[i]);
                }
            }
        }
    }
}

/// Every element of `words(text)` is a word.
pub proof fn lemma_words_are_words(text: Seq<char>)
    ensures
        forall|k: int| 0 <= k < words(text).len() ==> is_word(#[trigger] words(text)[k]),
{
    lemma_word_scan(text);
    let (done, current) = word_scan(text);
    assert forall|k: int| 0 <= k < words(text).len() implies is_word(#[trigger] words(text)[k]) by {
        if k < done.len() {
            assert(words(text)[k] == done[k]);
        } else {
            assert(is_word(current));
        }
    }
}

/// A text without characters has no words.
pub proof fn lemma_no_words_in_empty(text: Seq<char>)
    requires
        text.len() == 0,
    ensures
        words(text).len() == 0,
{
}

/// Splits at whitespace, dropping empty pieces, as `str::split_whitespace`.
pub fn split_whitespace(text: &Vec<char>) -> (parts: Vec<Vec<char>>)
    ensures
        views(parts@) == words(text@),
{
    let mut done: Vec<Vec<char>> = Vec::new();
    let mut current: Vec<char> = Vec::new();
    let mut i: usize = 0;
    while i < text.len()
        invariant
            i <= text@.len(),
            views(done@) == word_scan(text@.take(i as int)).0,
            current@ == word_scan(text@.take(i as int)).1,
        decreases text@.len() - i,
    {
        let c = text[i];
        proof {
            assert(text@.take(i + 1).drop_last() =~= text@.take(i as int));
            assert(text@.take(i + 1).last() == c);
        }
        if is_whitespace(c) {
            if current.len() > 0 {
                let ghost before = views(done@);
                let ghost word = current@;
                done.push(current);
                current = Vec::new();
                assert(views(done@) =~= before.push(word));
            }
        } else {
            current.push(c);
        }
        i += 1;
    }
    assert(text@.take(i as int) =~= text@);
    if current.len() > 0 {
        let ghost before = views(done@);
        let ghost word = current@;
        done.push(current);
        assert(views(done@) =~= before.push(word));
    }
    done
}

/// The character for a decimal digit.
pub open spec fn digit(d: int) -> char {
    if d == 0 {
        '0'
    } else if d == 1 {
        '1'
    } else if d == 2 {
        '2'
    } else if d == 3 {
        '3'
    } else if d == 4 {
        '4'
    } else if d == 5 {
        '5'
    } else if d == 6 {
        '6'
    } else if d == 7 {
        '7'
    } else if d == 8 {
        '8'
    } else {
        '9'
    }
}

/// The decimal digits of a natural number, most significant first, without
/// leading zeros.
pub open spec fn digits(n: nat) -> Seq<char>
    decreases n,
{
    if n < 10 {
        seq![digit(n as int)]
    } else {
        digits(n / 10).push(digit((n % 10) as int))
    }
}

/// The decimal form of an integer, with a leading `-` below zero: what
/// formatting an integer with `{}` prints.
pub open spec fn decimal(n: int) -> Seq<char> {
    if n < 0 {
        seq!['-'] + digits((-n) as nat)
    } else {
        digits(n as nat)
    }
}

fn digit_of(d: u8) -> (c: char)
    requires
        d < 10,
    ensures
        c == digit(d as int),
{
    if d == 0 {
        '0'
    } else if d == 1 {
        '1'
    } else if d == 2 {
        '2'
    } else if d == 3 {
        '3'
    } else if d == 4 {
        '4'
    } else if d == 5 {
        '5'
    } else if d == 6 {
        '6'
    } else if d == 7 {
        '7'
    } else if d == 8 {
        '8'
    } else {
        '9'
    }
}

fn push_digits(n: u128, out: &mut Vec<char>)
    ensures
        final(out)@ == old(out)@ + digits(n as nat),
    decreases n,
{
    if n >= 10 {
        push_digits(n / 10, out);
    }
    let d: u8 = (n % 10) as u8;
    out.push(digit_of(d));
    assert(final(out)@ =~= old(out)@ + digits(n as nat));
}

/// The decimal form of `n` as characters.
pub fn decimal_chars(n: i128) -> (chars: Vec<char>)
    ensures
        chars@ == decimal(n as int),
{
    let mut chars: Vec<char> = Vec::new();
    if n < 0 {
        chars.push('-');
        let magnitude: u128 = ((-(n + 1)) as u128) + 1;
        push_digits(magnitude, &mut chars);
        assert(chars@ =~= decimal(n as int));
    } else {
        push_digits(n as u128, &mut chars);
        assert(chars@ =~= decimal(n as int));
    }
    chars
}

/// The decimal form of `n` as a string.
pub fn decimal_string(n: i128) -> (text: String)
    ensures
        text@ == decimal(n as int),
{
    let chars = decimal_chars(n);
    string_of(&chars)
}

/// Strict lexicographic order by code point: the order of `str` and
/// `String`, whose byte-wise comparison of UTF-8 agrees with it.
pub open spec fn lex_less(a: Seq<char>, b: Seq<char>) -> bool
    decreases a.len(),
{
    if b.len() == 0 {
        false
    } else if a.len() == 0 {
        true
    } else if a[0] != b[0] {
        (a[0] as int) < (b[0] as int)
    } else {
        lex_less(a.drop_first(), b.drop_first())
    }
}

/// Of two texts exactly one holds: the first is less, they are equal, or the
/// second is less.
pub proof fn lemma_lex_trichotomy(a: Seq<char>, b: Seq<char>)
    ensures
        lex_less(a, b) || a == b || lex_less(b, a),
        !(lex_less(a, b) && a == b),
        !(lex_less(b, a) && a == b),
        !(lex_less(a, b) && lex_less(b, a)),
    decreases a.len(),
{
    if a.len() == 0 || b.len() == 0 {
        if a.len() == 0 && b.len() == 0 {
            assert(a =~= b);
        }
    } else if a[0] != b[0] {
    } else {
        lemma_lex_trichotomy(a.drop_first(), b.drop_first());
        if a.drop_first() == b.drop_first() {
            assert(a =~= seq![a[0]] + a.drop_first());
            assert(b =~= seq![b[0]] + b.drop_first());
        }
    }
}

/// The lexicographic order is transitive.
pub proof fn lemma_lex_transitive(a: Seq<char>, b: Seq<char>, c: Seq<char>)
    requires
        lex_less(a, b),
        lex_less(b, c),
    ensures
        lex_less(a, c),
    decreases a.len(),
{
    if a.len() == 0 {
    } else if a[0] != b[0] {
    } else if b[0] != c[0] {
    } else {
        lemma_lex_transitive(a.drop_first(), b.drop_first(), c.drop_first());
    }
}

/// Compares two texts: negative where `a` is less, zero where they are
/// equal, positive where `b` is less.
pub fn lex_order(a: &Vec<char>, b: &Vec<char>) -> (sign: i8)
    ensures
        sign < 0 <==> lex_less(a@, b@),
        sign == 0 <==> a@ == b@,
        sign > 0 <==> lex_less(b@, a@),
{
    let mut i: usize = 0;
    proof {
        assert(a@.skip(0) =~= a@);
        assert(b@.skip(0) =~= b@);
    }
    while i < a.len() && i < b.len()
        invariant
            i <= a@.len(),
            i <= b@.len(),
            a@.take(i as int) == b@.take(i as int),
            lex_less(a@, b@) == lex_less(a@.skip(i as int), b@.skip(i as int)),
            lex_less(b@, a@) == lex_less(b@.skip(i as int), a@.skip(i as int)),
        decreases a@.len() - i,
    {
        let x = a[i];
        let y = b[i];
        proof {
            assert(a@.skip(i as int)[0] == x);
            assert(b@.skip(i as int)[0] == y);
            assert(a@.skip(i as int).drop_first() =~= a@.skip(i + 1));
            assert(b@.skip(i as int).drop_first() =~= b@.skip(i + 1));
        }
        if x != y {
            proof {
                lemma_lex_trichotomy(a@, b@);
                assert(a@.take(i + 1)[i as int] == x);
                assert(b@.take(i + 1)[i as int] == y);
                if a@ == b@ {
                    assert(a@[i as int] == b@[i as int]);
                }
            }
            if x < y {
                return -1;
            } else {
                return 1;
            }
        }
        proof {
            assert(a@.take(i + 1) =~= a@.take(i as int).push(x));
            assert(b@.take(i + 1) =~= b@.take(i as int).push(y));
        }
        i += 1;
    }
    proof {
        lemma_lex_trichotomy(a@, b@);
        if a@.len() == b@.len() {
            assert(a@.take(i as int) =~= a@);
            assert(b@.take(i as int) =~= b@);
        }
    }
    if a.len() < b.len() {
        -1
    } else if a.len() > b.len() {
        1
    } else {
        0
    }
}

} // verus!
