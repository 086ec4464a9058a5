//! Listings of a user's pins.
//!
//! The caller hands over the entries of the user's directory; the listing
//! picks the records among them and orders their pins, newest first.
use vstd::prelude::*;
use vstd::string::*;

use crate::errors::StoreError;
use crate::pins::is_safe_name;
use crate::pins::pin_directory_path;
use crate::pins::pin_views;
use crate::pins::safe_name;
use crate::pins::BackingStore;
use crate::pins::DirEntry;
use crate::pins::EntryView;
use crate::pins::Pin;
use crate::pins::PinView;
use crate::pins::RecordFile;
use crate::pins::Timestamp;
use crate::sequences::lemma_filter_push;
use crate::text::chars_of;
use crate::text::ends_with;
use crate::text::string_views;

verus! {

/// The entries of a vector as plain text.
pub open spec fn entry_views(entries: Seq<DirEntry>) -> Seq<EntryView> {
    entries.map_values(|entry: DirEntry| entry@)
}

/// The file name has the extension `json`: it ends in `.json` and has at
/// least one character before that.
pub open spec fn is_record_name(name: Seq<char>) -> bool {
    ".json"@.len() < name.len() && ".json"@.is_suffix_of(name)
}

/// The test for entries that are named like records.
pub open spec fn named_like_record() -> spec_fn(EntryView) -> bool {
    |entry: EntryView| is_record_name(entry.name)
}

/// The entries that are named like records, in directory order.
pub open spec fn record_entries(entries: Seq<EntryView>) -> Seq<EntryView> {
    entries.filter(named_like_record())
}

/// Every entry holds a pin.
pub open spec fn all_hold_pins(entries: Seq<EntryView>) -> bool {
    forall|i: int| 0 <= i < entries.len() ==> (#[trigger] entries[i]).file is Record
}

/// The pins of entries that all hold one.
pub open spec fn pins_held(entries: Seq<EntryView>) -> Seq<PinView> {
    entries.map_values(|entry: EntryView| entry.file->0)
}

/// How many of the leading pins of `sorted` are not older than `created`:
/// the place at which a pin of that age is put, behind those of its own age.
pub open spec fn rank(sorted: Seq<PinView>, created: Timestamp) -> int
    decreases sorted.len(),
{
    if sorted.len() == 0 || sorted[0].created.precedes(created) {
        0
    } else {
        1 + rank(sorted.drop_first(), created)
    }
}

/// `sorted` with `pin` put in at its rank.
pub open spec fn with_pin(sorted: Seq<PinView>, pin: PinView) -> Seq<PinView> {
    sorted.insert(rank(sorted, pin.created), pin)
}

/// The pins ordered by creation time, newest first; pins of one age keep
/// the order in which they were given.
pub open spec fn newest_first(pins: Seq<PinView>) -> Seq<PinView>
    decreases pins.len(),
{
    if pins.len() == 0 {
        pins
    } else {
        with_pin(newest_first(pins.drop_last()), pins.last())
    }
}

/// What a listing gives. A missing directory lists nothing. Otherwise the
/// entries named like records are read; one that holds no pin spoils the
/// whole listing, and else their pins come newest first.
pub open spec fn listed(entries: Option<Seq<EntryView>>) -> Result<Seq<PinView>, StoreError> {
    match entries {
        None => Ok(Seq::empty()),
        Some(entries) => {
            let records = record_entries(entries);
            if all_hold_pins(records) {
                Ok(newest_first(pins_held(records)))
            } else {
                Err(StoreError::Corrupt)
            }
        },
    }
}

/// No pin stands before a newer one.
pub open spec fn descending(pins: Seq<PinView>) -> bool {
    forall|i: int, j: int|
        0 <= i < j < pins.len() ==> !(#[trigger] pins[i]).created.precedes(
            (#[trigger] pins[j]).created,
        )
}

/// Every pin is newer than all that follow it.
pub open spec fn strictly_descending(pins: Seq<PinView>) -> bool {
    forall|i: int, j: int|
        0 <= i < j < pins.len() ==> (#[trigger] pins[j]).created.precedes(
            (#[trigger] pins[i]).created,
        )
}

/// No two pins were created at the same moment.
pub open spec fn distinct_created(pins: Seq<PinView>) -> bool {
    forall|i: int, j: int|
        0 <= i < j < pins.len() ==> (#[trigger] pins[i]).created != (#[trigger] pins[j]).created
}

/// The rank lies within the sequence; the pins before it are not older than
/// `created`, and the pin at it, if there is one, is older.
pub proof fn lemma_rank(sorted: Seq<PinView>, created: Timestamp)
    ensures
        0 <= rank(sorted, created) <= sorted.len(),
        forall|i: int|
            0 <= i < rank(sorted, created) ==> !(#[trigger] sorted[i]).created.precedes(created),
        rank(sorted, created) < sorted.len() ==> sorted[rank(sorted, created)].created.precedes(
            created,
        ),
    decreases sorted.len(),
{
    if sorted.len() == 0 || sorted[0].created.precedes(created) {
    } else {
        let rest = sorted.drop_first();
        lemma_rank(rest, created);
        assert forall|i: int| 0 <= i < rank(sorted, created) implies !(#[trigger] sorted[i]).created.precedes(
            created,
        ) by {
            if i > 0 {
                assert(sorted[i] == rest[i - 1]);
            }
        }
        if rank(sorted, created) < sorted.len() {
            assert(sorted[rank(sorted, created)] == rest[rank(rest, created)]);
        }
    }
}

/// Putting a pin into a descending sequence keeps it descending.
pub proof fn lemma_with_pin_descending(sorted: Seq<PinView>, pin: PinView)
    requires
        descending(sorted),
    ensures
        descending(with_pin(sorted, pin)),
{
    lemma_rank(sorted, pin.created);
    let at = rank(sorted, pin.created);
    let longer = with_pin(sorted, pin);
    assert forall|i: int, j: int| 0 <= i < j < longer.len() implies !(#[trigger] longer[i]).created.precedes(
        (#[trigger] longer[j]).created,
    ) by {
        if j < at {
            assert(longer[i] == sorted[i] && longer[j] == sorted[j]);
        } else if j == at {
            assert(longer[i] == sorted[i]);
        } else if i < at {
            assert(longer[i] == sorted[i] && longer[j] == sorted[j - 1]);
        } else if i == at {
            assert(longer[j] == sorted[j - 1]);
            if at < j - 1 {
                assert(!sorted[at].created.precedes(sorted[j - 1].created));
            }
        } else {
            assert(longer[i] == sorted[i - 1] && longer[j] == sorted[j - 1]);
        }
    }
}

/// A listing never shows a pin before a newer one.
pub proof fn lemma_newest_first_descending(pins: Seq<PinView>)
    ensures
        descending(newest_first(pins)),
    decreases pins.len(),
{
    if pins.len() > 0 {
        lemma_newest_first_descending(pins.drop_last());
        lemma_with_pin_descending(newest_first(pins.drop_last()), pins.last());
    }
}

/// Ordering changes no pin: the ordered pins are the given pins, each as
/// often as it was given.
pub proof fn lemma_newest_first_permutes(pins: Seq<PinView>)
    ensures
        newest_first(pins).to_multiset() == pins.to_multiset(),
        newest_first(pins).len() == pins.len(),
    decreases pins.len(),
{
    broadcast use vstd::seq_lib::group_to_multiset_ensures;

    if pins.len() > 0 {
        let before = newest_first(pins.drop_last());
        lemma_newest_first_permutes(pins.drop_last());
        lemma_rank(before, pins.last().created);
        let at = rank(before, pins.last().created);
        vstd::seq_lib::to_multiset_insert(before, at, pins.last());
        assert(pins =~= pins.drop_last().push(pins.last()));
    }
}

/// Pins created at distinct moments are listed with every pin strictly
/// newer than all that follow it.
pub proof fn lemma_distinct_pins_strictly_descending(pins: Seq<PinView>)
    requires
        distinct_created(pins),
    ensures
        strictly_descending(newest_first(pins)),
{
    lemma_newest_first_descending(pins);
    lemma_newest_first_permutes(pins);
    let sorted = newest_first(pins);
    assert forall|i: int, j: int| 0 <= i < j < sorted.len() implies (#[trigger] sorted[j]).created.precedes(
        (#[trigger] sorted[i]).created,
    ) by {
        if sorted[i].created == sorted[j].created {
            lemma_same_moment_twice(pins, sorted, i, j);
        }
    }
}

/// Two places of a rearrangement that show one moment come from two places
/// of the given pins that do.
proof fn lemma_same_moment_twice(pins: Seq<PinView>, sorted: Seq<PinView>, i: int, j: int)
    requires
        sorted.to_multiset() == pins.to_multiset(),
        0 <= i < j < sorted.len(),
        sorted[i].created == sorted[j].created,
    ensures
        !distinct_created(pins),
{
    broadcast use vstd::seq_lib::group_to_multiset_ensures;

    let a = sorted[i];
    let b = sorted[j];
    if a == b {
        // one pin, at least twice in `sorted`, so at least twice in `pins`
        let rest = sorted.remove(i);
        assert(rest[j - 1] == b);
        assert(rest.contains(b));
        vstd::seq_lib::to_multiset_remove(sorted, i);
        assert(rest.to_multiset().count(b) >= 1);
        assert(sorted.to_multiset().count(a) >= 2);
        assert(pins.to_multiset().count(a) >= 2);
        assert(pins.contains(a));
        let m = choose|m: int| 0 <= m < pins.len() && pins[m] == a;
        let others = pins.remove(m);
        vstd::seq_lib::to_multiset_remove(pins, m);
        assert(others.to_multiset().count(a) >= 1);
        assert(others.contains(a));
        let n = choose|n: int| 0 <= n < others.len() && others[n] == a;
        let n2 = if n < m { n } else { n + 1 };
        assert(pins[n2] == a);
        if n2 < m {
            assert(pins[n2].created == pins[m].created);
        } else {
            assert(pins[m].created == pins[n2].created);
        }
    } else {
        assert(sorted.contains(a));
        assert(sorted.contains(b));
        assert(pins.to_multiset().count(a) >= 1);
        assert(pins.to_multiset().count(b) >= 1);
        assert(pins.contains(a));
        assert(pins.contains(b));
        let m = choose|m: int| 0 <= m < pins.len() && pins[m] == a;
        let n = choose|n: int| 0 <= n < pins.len() && pins[n] == b;
        if m < n {
            assert(pins[m].created == pins[n].created);
        } else {
            assert(pins[n].created == pins[m].created);
        }
    }
}

/// Puts `pin` into `pins` at its rank.
fn put_in_order(pins: &mut Vec<Pin>, pin: Pin)
    ensures
        pin_views(final(pins)@) == with_pin(pin_views(old(pins)@), pin@),
{
    let ghost before = pin_views(pins@);
    let mut at: usize = 0;
    proof {
        assert(before.skip(0) =~= before);
    }
    while at < pins.len() && !pins[at].created.is_before(&pin.created)
        invariant
            at <= pins@.len(),
            before == pin_views(pins@),
            rank(before, pin.created) == at + rank(before.skip(at as int), pin.created),
        decreases pins@.len() - at,
    {
        proof {
            let rest = before.skip(at as int);
            assert(rest[0] == pins@[at as int]@);
            assert(rest.drop_first() =~= before.skip(at + 1));
        }
        at += 1;
    }
    proof {
        let rest = before.skip(at as int);
        if at < pins@.len() {
            assert(rest[0] == pins@[at as int]@);
        }
        assert(rank(rest, pin.created) == 0);
    }
    pins.insert(at, pin);
    assert(pin_views(pins@) =~= before.insert(at as int, pin@));
}

/// Gathers the pins of a directory listing, newest first. The entries are
/// given in directory order; those not named like records are passed over.
pub fn collect_pins(entries: Option<Vec<DirEntry>>) -> (outcome: Result<Vec<Pin>, StoreError>)
    ensures
        pins_outcome(outcome) == listed(optional_entries(entries)),
        outcome matches Ok(pins) ==> descending(pin_views(pins@)),
{
    let ghost given = optional_entries(entries);
    let listing = match entries {
        None => {
            let pins: Vec<Pin> = Vec::new();
            assert(pin_views(pins@) =~= Seq::empty());
            return Ok(pins);
        },
        Some(listing) => listing,
    };
    let ghost all = entry_views(listing@);
    let mut pins: Vec<Pin> = Vec::new();
    proof {
        reveal(Seq::filter);
        assert(all.take(0) =~= Seq::empty());
        assert(pins_held(record_entries(all.take(0))) =~= Seq::empty());
        assert(pin_views(pins@) =~= Seq::empty());
    }
    for entry in it: listing
        invariant
            given == optional_entries(entries),
            given == Some(all),
            all == entry_views(it.seq()),
            all_hold_pins(record_entries(all.take(it.index() as int))),
            pin_views(pins@) == newest_first(
                pins_held(record_entries(all.take(it.index() as int))),
            ),
    {
        let ghost k = it.index() as int;
        let ghost seen = all.take(k);
        let ghost kept = record_entries(seen);
        proof {
            assert(all[k] == entry@);
            assert(all.take(k + 1) =~= seen.push(entry@));
            lemma_filter_push(seen, entry@, named_like_record());
        }
        if BackingStore::is_record_file(entry.name.as_str()) {
            match entry.file {
                RecordFile::Record(pin) => {
                    proof {
                        let longer = kept.push(entry@);
                        assert(all_hold_pins(longer)) by {
                            assert forall|i: int| 0 <= i < longer.len() implies (#[trigger] longer[i]).file is Record by {
                                if i < kept.len() {
                                    assert(longer[i] == kept[i]);
                                }
                            }
                        }
                        assert(pins_held(longer) =~= pins_held(kept).push(pin@));
                        assert(pins_held(longer).drop_last() =~= pins_held(kept));
                    }
                    put_in_order(&mut pins, pin);
                },
                _ => {
                    proof {
                        lemma_spoiled(all, k);
                    }
                    return Err(StoreError::Corrupt);
                },
            }
        }
    }
    proof {
        assert(all.take(all.len() as int) =~= all);
        lemma_newest_first_descending(pins_held(record_entries(all)));
    }
    Ok(pins)
}

/// An entry that is named like a record and holds no pin spoils the
/// listing.
proof fn lemma_spoiled(entries: Seq<EntryView>, k: int)
    requires
        0 <= k < entries.len(),
        is_record_name(entries[k].name),
        !(entries[k].file is Record),
    ensures
        !all_hold_pins(record_entries(entries)),
{
    let keep = named_like_record();
    assert(keep(entries[k]));
    entries.lemma_filter_contains(keep, k);
    let records = record_entries(entries);
    let at = choose|at: int| 0 <= at < records.len() && records[at] == entries[k];
    assert(!(records[at].file is Record));
}

/// The outcome of a listing as plain text.
pub open spec fn pins_outcome(outcome: Result<Vec<Pin>, StoreError>) -> Result<
    Seq<PinView>,
    StoreError,
> {
    match outcome {
        Ok(pins) => Ok(pin_views(pins@)),
        Err(error) => Err(error),
    }
}

/// The entries of an optional listing as plain text.
pub open spec fn optional_entries(entries: Option<Vec<DirEntry>>) -> Option<Seq<EntryView>> {
    match entries {
        Some(entries) => Some(entry_views(entries@)),
        None => None,
    }
}

impl BackingStore {
    /// Whether a file of a user's directory is named like a record.
    pub fn is_record_file(name: &str) -> (yes: bool)
        ensures
            yes == is_record_name(name@),
    {
        let chars = chars_of(name);
        let extension = chars_of(".json");
        extension.len() < chars.len() && ends_with(&chars, &extension)
    }
}

/// The test for entries that hold a pin.
pub open spec fn holding_pin() -> spec_fn(EntryView) -> bool {
    |entry: EntryView| entry.file is Record
}

/// The test for entries that hold no pin.
pub open spec fn without_pin() -> spec_fn(EntryView) -> bool {
    |entry: EntryView| !(entry.file is Record)
}

/// The names of entries, in order.
pub open spec fn entry_names(entries: Seq<EntryView>) -> Seq<Seq<char>> {
    entries.map_values(|entry: EntryView| entry.name)
}

/// What a forgiving listing gives: the pins of the records that hold one,
/// newest first. Records that hold none are passed over.
pub open spec fn listed_readable(entries: Option<Seq<EntryView>>) -> Seq<PinView> {
    match entries {
        None => Seq::empty(),
        Some(entries) => newest_first(pins_held(record_entries(entries).filter(holding_pin()))),
    }
}

/// The names of the records that a forgiving listing passes over, in
/// directory order.
pub open spec fn skipped_records(entries: Option<Seq<EntryView>>) -> Seq<Seq<char>> {
    match entries {
        None => Seq::empty(),
        Some(entries) => entry_names(record_entries(entries).filter(without_pin())),
    }
}

/// A forgiving listing: the pins that could be read, and the names of the
/// records that could not.
#[derive(Debug)]
pub struct ReadablePins {
    pub pins: Vec<Pin>,
    pub skipped: Vec<String>,
}

/// Entries that all hold pins are kept whole by the test for pins, and none
/// of them is without one.
pub proof fn lemma_all_hold_pins(entries: Seq<EntryView>)
    requires
        all_hold_pins(entries),
    ensures
        entries.filter(holding_pin()) == entries,
        entries.filter(without_pin()).len() == 0,
    decreases entries.len(),
{
    reveal(Seq::filter);
    if entries.len() > 0 {
        let rest = entries.drop_last();
        assert(all_hold_pins(rest)) by {
            assert forall|i: int| 0 <= i < rest.len() implies (#[trigger] rest[i]).file is Record by {
                assert(rest[i] == entries[i]);
            }
        }
        lemma_all_hold_pins(rest);
        assert(entries[entries.len() - 1].file is Record);
        assert(entries =~= rest.push(entries.last()));
    }
}

/// Where the strict listing succeeds, the forgiving listing gives the same
/// pins and passes over nothing.
pub proof fn lemma_forgiving_agrees_with_strict(entries: Option<Seq<EntryView>>)
    requires
        listed(entries) is Ok,
    ensures
        listed(entries) == Ok::<Seq<PinView>, StoreError>(listed_readable(entries)),
        skipped_records(entries).len() == 0,
{
    match entries {
        Some(given) => {
            lemma_all_hold_pins(record_entries(given));
        },
        None => {},
    }
}

/// Gathers the pins of a directory listing, newest first, and passes over
/// the records that hold none.
pub fn collect_readable_pins(entries: Option<Vec<DirEntry>>) -> (readable: ReadablePins)
    ensures
        pin_views(readable.pins@) == listed_readable(optional_entries(entries)),
        string_views(readable.skipped@) == skipped_records(optional_entries(entries)),
        descending(pin_views(readable.pins@)),
{
    let mut pins: Vec<Pin> = Vec::new();
    let mut skipped: Vec<String> = Vec::new();
    let listing = match entries {
        None => {
            assert(pin_views(pins@) =~= Seq::empty());
            assert(string_views(skipped@) =~= Seq::empty());
            return ReadablePins { pins, skipped };
        },
        Some(listing) => listing,
    };
    let ghost all = entry_views(listing@);
    proof {
        reveal(Seq::filter);
        assert(all.take(0) =~= Seq::empty());
        assert(pins_held(record_entries(all.take(0)).filter(holding_pin())) =~= Seq::empty());
        assert(entry_names(record_entries(all.take(0)).filter(without_pin())) =~= Seq::empty());
        assert(pin_views(pins@) =~= Seq::empty());
        assert(string_views(skipped@) =~= Seq::empty());
    }
    for entry in it: listing
        invariant
            optional_entries(entries) == Some(all),
            all == entry_views(it.seq()),
            pin_views(pins@) == newest_first(
                pins_held(record_entries(all.take(it.index() as int)).filter(holding_pin())),
            ),
            string_views(skipped@) == entry_names(
                record_entries(all.take(it.index() as int)).filter(without_pin()),
            ),
    {
        let ghost k = it.index() as int;
        let ghost seen = all.take(k);
        let ghost records = record_entries(seen);
        proof {
            assert(all[k] == entry@);
            assert(all.take(k + 1) =~= seen.push(entry@));
            lemma_filter_push(seen, entry@, named_like_record());
            lemma_filter_push(records, entry@, holding_pin());
            lemma_filter_push(records, entry@, without_pin());
        }
        if BackingStore::is_record_file(entry.name.as_str()) {
            match entry.file {
                RecordFile::Record(pin) => {
                    proof {
                        let kept = records.filter(holding_pin());
                        assert(pins_held(kept.push(entry@)) =~= pins_held(kept).push(pin@));
                        assert(pins_held(kept.push(entry@)).drop_last() =~= pins_held(kept));
                    }
                    put_in_order(&mut pins, pin);
                },
                _ => {
                    let ghost before = string_views(skipped@);
                    skipped.push(entry.name);
                    proof {
                        let left = records.filter(without_pin());
                        assert(string_views(skipped@) =~= before.push(entry@.name));
                        assert(entry_names(left.push(entry@)) =~= entry_names(left).push(
                            entry@.name,
                        ));
                    }
                },
            }
        }
    }
    proof {
        assert(all.take(all.len() as int) =~= all);
        lemma_newest_first_descending(pins_held(record_entries(all).filter(holding_pin())));
    }
    ReadablePins { pins, skipped }
}

/// A listing that awaits the entries of its directory: `None` where the
/// directory does not exist, else all its entries in directory order, each
/// entry that is named like a record with what reading it gave.
#[derive(Debug)]
pub struct PinListing {
    pub directory: String,
}

impl PinListing {
    /// Closes a listing with the entries of `directory`. One record that
    /// holds no pin fails the listing.
    pub fn finish(self, entries: Option<Vec<DirEntry>>) -> (outcome: Result<Vec<Pin>, StoreError>)
        ensures
            pins_outcome(outcome) == listed(optional_entries(entries)),
            outcome matches Ok(pins) ==> descending(pin_views(pins@)),
    {
        collect_pins(entries)
    }

    /// Closes a listing with the entries of `directory`, passing over the
    /// records that hold no pin.
    pub fn finish_readable(self, entries: Option<Vec<DirEntry>>) -> (readable: ReadablePins)
        ensures
            pin_views(readable.pins@) == listed_readable(optional_entries(entries)),
            string_views(readable.skipped@) == skipped_records(optional_entries(entries)),
    {
        collect_readable_pins(entries)
    }
}

impl BackingStore {
    /// Starts the listing of a user's pins. A user name that is no safe
    /// name is refused.
    pub fn get_all_pins(&self, username: &str) -> (listing: Result<PinListing, StoreError>)
        ensures
            safe_name(username@) ==> ({
                &&& listing matches Ok(l)
                &&& l.directory@ == pin_directory_path(username@)
            }),
            !safe_name(username@) ==> listing == Err::<PinListing, StoreError>(
                StoreError::UnsafeName,
            ),
    {
        if !is_safe_name(username) {
            return Err(StoreError::UnsafeName);
        }
        Ok(PinListing { directory: BackingStore::pin_directory(username) })
    }
}

} // verus!
