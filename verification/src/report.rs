//! The report encoder: from the keys of one scan cycle to a keyboard report.

use vstd::prelude::*;

use crate::keycode::NO_EVENT;

verus! {

/// Number of keycode slots of a boot keyboard report.
pub const BOOT_REPORT_CAPACITY: usize = 6;

/// The keys of `keys` without repetitions and without `NO_EVENT`, each at the
/// place of its first occurrence.
pub open spec fn distinct_keys(keys: Seq<u8>) -> Seq<u8>
    decreases keys.len(),
{
    if keys.len() == 0 {
        Seq::empty()
    } else {
        let earlier = distinct_keys(keys.drop_last());
        let key = keys.last();
        if key == NO_EVENT || earlier.contains(key) {
            earlier
        } else {
            earlier.push(key)
        }
    }
}

/// The keys that a report of `capacity` slots keeps: the first `capacity`
/// distinct keys, or all of them if they fit.
pub open spec fn retained_keys(keys: Seq<u8>, capacity: nat) -> Seq<u8> {
    let distinct = distinct_keys(keys);
    if distinct.len() <= capacity {
        distinct
    } else {
        distinct.take(capacity as int)
    }
}

/// Whether `keys` holds more distinct keys than a report of `capacity` slots
/// can carry.
pub open spec fn overflows(keys: Seq<u8>, capacity: nat) -> bool {
    distinct_keys(keys).len() > capacity
}

/// The members of `kept` whose usage id is less than `below`, in ascending
/// order.
pub open spec fn ascending_members(kept: Set<u8>, below: int) -> Seq<u8>
    decreases below,
{
    if below <= 0 {
        Seq::empty()
    } else {
        let smaller = ascending_members(kept, below - 1);
        let key = (below - 1) as u8;
        if kept.contains(key) {
            smaller.push(key)
        } else {
            smaller
        }
    }
}

/// The slots of the report for `keys`: the retained keys in ascending order,
/// then `NO_EVENT` up to `capacity` slots.
pub open spec fn report_slots(keys: Seq<u8>, capacity: nat) -> Seq<u8> {
    let kept = ascending_members(retained_keys(keys, capacity).to_set(), 256);
    kept + Seq::new((capacity - kept.len()) as nat, |slot: int| NO_EVENT)
}

/// What a report says: its slots, and whether keys had to be left out.
pub struct ReportView {
    pub slots: Seq<u8>,
    pub overflow: bool,
}

/// The report for `keys` at `capacity` slots.
pub open spec fn encoded(keys: Seq<u8>, capacity: nat) -> ReportView {
    ReportView { slots: report_slots(keys, capacity), overflow: overflows(keys, capacity) }
}

/// Each element is smaller than the next.
pub open spec fn strictly_ascending(keys: Seq<u8>) -> bool {
    forall|i: int, j: int| 0 <= i < j < keys.len() ==> keys[i] < keys[j]
}

/// A key is among the distinct keys exactly if it occurs and is not
/// `NO_EVENT`.
pub proof fn lemma_distinct_members(keys: Seq<u8>, key: u8)
    ensures
        distinct_keys(keys).contains(key) <==> key != NO_EVENT && keys.contains(key),
    decreases keys.len(),
{
    if keys.len() > 0 {
        let earlier_keys = keys.drop_last();
        let earlier = distinct_keys(earlier_keys);
        lemma_distinct_members(earlier_keys, key);
        if keys.contains(key) {
            let at = choose|at: int| 0 <= at < keys.len() && keys[at] == key;
            if at < keys.len() - 1 {
                assert(earlier_keys[at] == key);
            }
        }
        if earlier_keys.contains(key) {
            let at = choose|at: int| 0 <= at < earlier_keys.len() && earlier_keys[at] == key;
            assert(keys[at] == key);
        }
        if !(keys.last() == NO_EVENT || earlier.contains(keys.last())) {
            let grown = earlier.push(keys.last());
            assert(grown[earlier.len() as int] == keys.last());
            assert(keys[keys.len() - 1] == keys.last());
            if grown.contains(key) && key != keys.last() {
                let at = choose|at: int| 0 <= at < grown.len() && grown[at] == key;
                assert(earlier[at] == key);
            }
            if earlier.contains(key) {
                let at = choose|at: int| 0 <= at < earlier.len() && earlier[at] == key;
                assert(grown[at] == key);
            }
        }
    }
}

/// No key occurs twice among the distinct keys.
pub proof fn lemma_distinct_no_duplicates(keys: Seq<u8>)
    ensures
        distinct_keys(keys).no_duplicates(),
    decreases keys.len(),
{
    if keys.len() > 0 {
        lemma_distinct_no_duplicates(keys.drop_last());
    }
}

/// The distinct keys of a prefix are a prefix of the distinct keys.
pub proof fn lemma_distinct_prefix(keys: Seq<u8>, len: int)
    requires
        0 <= len <= keys.len(),
    ensures
        distinct_keys(keys.take(len)).is_prefix_of(distinct_keys(keys)),
    decreases keys.len(),
{
    if len == keys.len() {
        assert(keys.take(len) == keys);
    } else {
        lemma_distinct_prefix(keys.drop_last(), len);
        assert(keys.drop_last().take(len) == keys.take(len));
    }
}

/// An ascending run of keys is the ascending listing of its own members.
/// Returns how many of the keys lie below `below`.
proof fn lemma_ascending_members_below(keys: Seq<u8>, kept: Set<u8>, below: int) -> (count: int)
    requires
        strictly_ascending(keys),
        forall|key: u8| keys.contains(key) <==> kept.contains(key),
        0 <= below <= 256,
    ensures
        0 <= count <= keys.len(),
        ascending_members(kept, below) == keys.take(count),
        forall|i: int| 0 <= i < count ==> keys[i] < below,
        forall|i: int| count <= i < keys.len() ==> keys[i] >= below,
    decreases below,
{
    if below == 0 {
        assert(keys.take(0) == Seq::<u8>::empty());
        0
    } else {
        let count = lemma_ascending_members_below(keys, kept, below - 1);
        let key = (below - 1) as u8;
        if kept.contains(key) {
            assert(keys.contains(key));
            let at = choose|at: int| 0 <= at < keys.len() && keys[at] == key;
            assert(at >= count);
            assert(keys[count] >= key);
            assert(at == count);
            assert(keys.take(count).push(key) == keys.take(count + 1));
            count + 1
        } else {
            assert forall|i: int| count <= i < keys.len() implies keys[i] >= below by {
                assert(keys.contains(keys[i]));
            }
            count
        }
    }
}

/// The ascending listing of a set of keys is the only strictly ascending
/// sequence with exactly those members.
pub proof fn lemma_ascending_unique(keys: Seq<u8>, kept: Set<u8>)
    requires
        strictly_ascending(keys),
        forall|key: u8| keys.contains(key) <==> kept.contains(key),
    ensures
        ascending_members(kept, 256) == keys,
{
    let count = lemma_ascending_members_below(keys, kept, 256);
    if count < keys.len() {
        assert(keys[count] >= 256);
    }
    assert(keys.take(count) == keys);
}

/// The ascending listing of a set is strictly ascending and lists exactly the
/// members below the bound.
pub proof fn lemma_ascending_members_listing(kept: Set<u8>, below: int)
    requires
        0 <= below <= 256,
    ensures
        strictly_ascending(ascending_members(kept, below)),
        forall|key: u8|
            #![trigger ascending_members(kept, below).contains(key)]
            #![trigger kept.contains(key)]
            ascending_members(kept, below).contains(key) <==> kept.contains(key) && key < below,
    decreases below,
{
    if below > 0 {
        let smaller = ascending_members(kept, below - 1);
        let listing = ascending_members(kept, below);
        let last = (below - 1) as u8;
        lemma_ascending_members_listing(kept, below - 1);
        assert forall|i: int| 0 <= i < smaller.len() implies smaller[i] < below - 1 by {
            let key = smaller[i];
            assert(smaller.contains(key));
        }
        assert forall|key: u8|
            #![trigger listing.contains(key)]
            #![trigger kept.contains(key)]
            listing.contains(key) <==> kept.contains(key) && key < below by {
            if listing.contains(key) {
                let i = choose|i: int| 0 <= i < listing.len() && listing[i] == key;
                if i < smaller.len() {
                    assert(smaller[i] == key);
                    assert(smaller.contains(key));
                }
            }
            if kept.contains(key) && key < below {
                if key == last {
                    assert(listing[smaller.len() as int] == key);
                } else {
                    assert(smaller.contains(key));
                    let i = choose|i: int| 0 <= i < smaller.len() && smaller[i] == key;
                    assert(listing[i] == key);
                }
            }
        }
    }
}

/// As many slots are taken as keys are retained, and never more than the
/// report has.
pub proof fn lemma_kept_count(keys: Seq<u8>, capacity: nat)
    ensures
        retained_keys(keys, capacity).len() <= capacity,
        retained_keys(keys, capacity).no_duplicates(),
        ascending_members(retained_keys(keys, capacity).to_set(), 256).len() == retained_keys(
            keys,
            capacity,
        ).len(),
{
    let retained = retained_keys(keys, capacity);
    let listing = ascending_members(retained.to_set(), 256);
    lemma_distinct_no_duplicates(keys);
    lemma_ascending_members_listing(retained.to_set(), 256);
    assert(listing.to_set() =~= retained.to_set());
    listing.unique_seq_to_set();
    retained.unique_seq_to_set();
}

/// A report has `capacity` slots: first the retained keys in ascending order,
/// then `NO_EVENT` in every slot that is left.
pub proof fn lemma_report_shape(keys: Seq<u8>, capacity: nat)
    ensures
        report_slots(keys, capacity).len() == capacity,
        strictly_ascending(
            report_slots(keys, capacity).take(retained_keys(keys, capacity).len() as int),
        ),
        forall|slot: int|
            0 <= slot < retained_keys(keys, capacity).len() ==> retained_keys(
                keys,
                capacity,
            ).contains(#[trigger] report_slots(keys, capacity)[slot]),
        forall|slot: int|
            retained_keys(keys, capacity).len() <= slot < capacity ==> #[trigger] report_slots(
                keys,
                capacity,
            )[slot] == NO_EVENT,
        forall|key: u8|
            retained_keys(keys, capacity).contains(key) ==> report_slots(keys, capacity).contains(
                key,
            ),
{
    let retained = retained_keys(keys, capacity);
    let listing = ascending_members(retained.to_set(), 256);
    let slots = report_slots(keys, capacity);
    lemma_kept_count(keys, capacity);
    lemma_ascending_members_listing(retained.to_set(), 256);
    assert(slots.take(retained.len() as int) == listing);
    assert forall|slot: int| 0 <= slot < retained.len() implies retained.contains(
        #[trigger] slots[slot],
    ) by {
        let key = listing[slot];
        assert(slots[slot] == key);
        assert(listing.contains(key));
        assert(retained.to_set().contains(key));
    }
    assert forall|key: u8| retained.contains(key) implies slots.contains(key) by {
        assert(retained.to_set().contains(key));
        assert(listing.contains(key));
        let slot = choose|slot: int| 0 <= slot < listing.len() && listing[slot] == key;
        assert(slots[slot] == key);
    }
}

/// The report does not depend on the order in which the keys are given: two
/// runs of keys that hold the same keys encode to the same report, provided
/// that the same keys are retained where not all fit.
pub proof fn lemma_encode_ignores_order(first: Seq<u8>, second: Seq<u8>, capacity: nat)
    requires
        forall|key: u8| key != NO_EVENT ==> (first.contains(key) <==> second.contains(key)),
        overflows(first, capacity) ==> retained_keys(first, capacity).to_set() == retained_keys(
            second,
            capacity,
        ).to_set(),
    ensures
        encoded(first, capacity) == encoded(second, capacity),
{
    let distinct_first = distinct_keys(first);
    let distinct_second = distinct_keys(second);
    assert forall|key: u8| distinct_first.contains(key) <==> distinct_second.contains(key) by {
        lemma_distinct_members(first, key);
        lemma_distinct_members(second, key);
    }
    assert(distinct_first.to_set() =~= distinct_second.to_set());
    lemma_distinct_no_duplicates(first);
    lemma_distinct_no_duplicates(second);
    distinct_first.unique_seq_to_set();
    distinct_second.unique_seq_to_set();
}

/// Too many keys never make the encoder fail: the report is flagged, every
/// slot is taken, and the slots hold exactly the first `capacity` distinct
/// keys.
pub proof fn lemma_encode_truncates(keys: Seq<u8>, capacity: nat)
    requires
        overflows(keys, capacity),
    ensures
        encoded(keys, capacity).overflow,
        encoded(keys, capacity).slots.len() == capacity,
        forall|slot: int|
            0 <= slot < capacity ==> #[trigger] encoded(keys, capacity).slots[slot] != NO_EVENT,
        forall|key: u8|
            encoded(keys, capacity).slots.contains(key) <==> distinct_keys(keys).take(
                capacity as int,
            ).contains(key),
{
    let retained = retained_keys(keys, capacity);
    let slots = report_slots(keys, capacity);
    lemma_report_shape(keys, capacity);
    assert(retained == distinct_keys(keys).take(capacity as int));
    assert forall|key: u8| retained.contains(key) implies key != NO_EVENT by {
        let i = choose|i: int| 0 <= i < retained.len() && retained[i] == key;
        assert(distinct_keys(keys)[i] == key);
        lemma_distinct_members(keys, key);
    }
    assert forall|key: u8| slots.contains(key) implies retained.contains(key) by {
        let slot = choose|slot: int| 0 <= slot < slots.len() && slots[slot] == key;
        assert(retained.contains(slots[slot]));
    }
}

/// While the keys fit, none is lost: the slots hold exactly the keys given,
/// and the report is not flagged.
pub proof fn lemma_encode_keeps_all(keys: Seq<u8>, capacity: nat)
    requires
        !overflows(keys, capacity),
    ensures
        !encoded(keys, capacity).overflow,
        forall|key: u8|
            key != NO_EVENT ==> (encoded(keys, capacity).slots.contains(key) <==> keys.contains(
                key,
            )),
{
    let retained = retained_keys(keys, capacity);
    let slots = report_slots(keys, capacity);
    lemma_report_shape(keys, capacity);
    assert forall|key: u8| key != NO_EVENT implies (slots.contains(key) <==> keys.contains(
        key,
    )) by {
        lemma_distinct_members(keys, key);
        if slots.contains(key) {
            let slot = choose|slot: int| 0 <= slot < slots.len() && slots[slot] == key;
            if slot < retained.len() {
                assert(retained.contains(slots[slot]));
            }
        }
    }
}

/// Without keys every slot of the report is `NO_EVENT`.
pub proof fn lemma_encode_idle(capacity: nat)
    ensures
        encoded(Seq::<u8>::empty(), capacity) == (ReportView {
            slots: Seq::new(capacity, |slot: int| NO_EVENT),
            overflow: false,
        }),
{
    let retained = retained_keys(Seq::<u8>::empty(), capacity);
    assert(retained == Seq::<u8>::empty());
    lemma_ascending_unique(Seq::<u8>::empty(), retained.to_set());
    assert(report_slots(Seq::<u8>::empty(), capacity) == Seq::new(capacity, |slot: int| NO_EVENT));
}

/// The retained keys are among the distinct keys.
proof fn lemma_retained_are_distinct(keys: Seq<u8>, capacity: nat)
    ensures
        forall|key: u8|
            retained_keys(keys, capacity).contains(key) ==> distinct_keys(keys).contains(key),
{
    let retained = retained_keys(keys, capacity);
    assert forall|key: u8| retained.contains(key) implies distinct_keys(keys).contains(key) by {
        let i = choose|i: int| 0 <= i < retained.len() && retained[i] == key;
        assert(distinct_keys(keys)[i] == key);
    }
}

/// Appending a key adds exactly that key.
proof fn lemma_push_members(keys: Seq<u8>, key: u8)
    ensures
        forall|other: u8|
            #![trigger keys.push(key).contains(other)]
            keys.push(key).contains(other) <==> (keys.contains(other) || other == key),
{
    let grown = keys.push(key);
    assert forall|other: u8|
        #![trigger grown.contains(other)]
        grown.contains(other) <==> (keys.contains(other) || other == key) by {
        if grown.contains(other) {
            let i = choose|i: int| 0 <= i < grown.len() && grown[i] == other;
            if i < keys.len() {
                assert(keys[i] == other);
            }
        }
        if keys.contains(other) {
            let i = choose|i: int| 0 <= i < keys.len() && keys[i] == other;
            assert(grown[i] == other);
        }
        assert(grown[keys.len() as int] == key);
    }
}

/// Putting a new key at its place in an ascending run keeps the run ascending
/// and adds exactly that key.
proof fn lemma_insert_in_order(kept: Seq<u8>, at: int, key: u8)
    requires
        strictly_ascending(kept),
        0 <= at <= kept.len(),
        forall|i: int| 0 <= i < at ==> kept[i] < key,
        forall|i: int| at <= i < kept.len() ==> kept[i] > key,
    ensures
        strictly_ascending(kept.insert(at, key)),
        kept.insert(at, key).len() == kept.len() + 1,
        forall|other: u8|
            #![trigger kept.insert(at, key).contains(other)]
            kept.insert(at, key).contains(other) <==> (kept.contains(other) || other == key),
{
    let grown = kept.insert(at, key);
    kept.insert_ensures(at, key);
    assert forall|i: int, j: int| 0 <= i < j < grown.len() implies grown[i] < grown[j] by {
        if i > at {
            assert(grown[(i - 1) + 1] == kept[i - 1]);
        }
        if j > at {
            assert(grown[(j - 1) + 1] == kept[j - 1]);
        }
    }
    assert forall|other: u8| grown.contains(other) <==> (kept.contains(other) || other
        == key) by {
        if grown.contains(other) {
            let i = choose|i: int| 0 <= i < grown.len() && grown[i] == other;
            if i > at {
                assert(grown[(i - 1) + 1] == kept[i - 1]);
            }
        }
        if kept.contains(other) {
            let i = choose|i: int| 0 <= i < kept.len() && kept[i] == other;
            if i < at {
                assert(grown[i] == other);
            } else {
                assert(grown[i + 1] == other);
            }
        }
        assert(grown[at] == key);
    }
}

/// Where `key` belongs in an ascending run: after everything smaller and
/// before everything else.
fn place_of(kept: &Vec<u8>, key: u8) -> (at: usize)
    requires
        strictly_ascending(kept@),
    ensures
        at <= kept@.len(),
        forall|i: int| 0 <= i < at ==> kept@[i] < key,
        forall|i: int| at <= i < kept@.len() ==> kept@[i] >= key,
{
    let mut at: usize = 0;
    while at < kept.len() && kept[at] < key
        invariant
            at <= kept@.len(),
            strictly_ascending(kept@),
            forall|i: int| 0 <= i < at ==> kept@[i] < key,
        decreases kept@.len() - at,
    {
        at += 1;
    }
    at
}

/// A keyboard report: a fixed number of keycode slots, and a flag that tells
/// whether keys were left out for want of slots.
#[derive(Clone, Debug, PartialEq, Eq)]
pub struct Report {
    slots: Vec<u8>,
    overflow: bool,
}

impl View for Report {
    type V = ReportView;

    closed spec fn view(&self) -> ReportView {
        ReportView { slots: self.slots@, overflow: self.overflow }
    }
}

impl Report {
    /// The keycode slots; a slot that holds no key is `NO_EVENT`.
    pub fn slots(&self) -> (slots: &[u8])
        ensures
            slots@ == self@.slots,
    {
        self.slots.as_slice()
    }

    /// The number of slots.
    pub fn capacity(&self) -> (capacity: usize)
        ensures
            capacity == self@.slots.len(),
    {
        self.slots.len()
    }

    /// Whether keys were left out because more were held than there are
    /// slots.
    pub fn overflowed(&self) -> (overflow: bool)
        ensures
            overflow == self@.overflow,
    {
        self.overflow
    }

    /// Whether no slot holds a key.
    pub fn is_empty(&self) -> (empty: bool)
        ensures
            empty <==> forall|slot: int|
                0 <= slot < self@.slots.len() ==> self@.slots[slot] == NO_EVENT,
    {
        let mut slot: usize = 0;
        while slot < self.slots.len()
            invariant
                slot <= self.slots@.len(),
                forall|seen: int| 0 <= seen < slot ==> self.slots@[seen] == NO_EVENT,
            decreases self.slots@.len() - slot,
        {
            if self.slots[slot] != NO_EVENT {
                assert(self@.slots[slot as int] != NO_EVENT);
                return false;
            }
            slot += 1;
        }
        true
    }
}

/// Encodes the keys of one scan cycle, given in the order of their switch
/// lines, into a report of `capacity` slots.
///
/// Repeated keys and `NO_EVENT` take no slot. If more distinct keys are held
/// than there are slots, the ones that come first are kept, the rest are left
/// out and the report is flagged. The kept keys are stored in ascending order,
/// so that the report does not depend on the order in which they were given.
pub fn encode(keys: &[u8], capacity: usize) -> (report: Report)
    ensures
        report@ == encoded(keys@, capacity as nat),
{
    let mut kept: Vec<u8> = Vec::new();
    let mut overflow = false;
    let mut next: usize = 0;
    while next < keys.len()
        invariant
            next <= keys@.len(),
            strictly_ascending(kept@),
            kept@.len() == retained_keys(keys@.take(next as int), capacity as nat).len(),
            forall|key: u8|
                kept@.contains(key) <==> retained_keys(
                    keys@.take(next as int),
                    capacity as nat,
                ).contains(key),
            overflow == overflows(keys@.take(next as int), capacity as nat),
        decreases keys@.len() - next,
    {
        let key = keys[next];
        let ghost distinct = distinct_keys(keys@.take(next as int));
        let ghost retained = retained_keys(keys@.take(next as int), capacity as nat);
        let ghost after = retained_keys(keys@.take(next + 1), capacity as nat);
        proof {
            assert(keys@.take(next + 1).drop_last() == keys@.take(next as int));
            assert(keys@.take(next + 1).last() == key);
            lemma_retained_are_distinct(keys@.take(next as int), capacity as nat);
        }
        if key != NO_EVENT {
            let at = place_of(&kept, key);
            proof {
                if kept@.contains(key) {
                    let held = choose|held: int| 0 <= held < kept@.len() && kept@[held] == key;
                    assert(kept@[at as int] <= kept@[held]);
                }
            }
            if at < kept.len() && kept[at] == key {
                assert(kept@.contains(key));
            } else if kept.len() < capacity {
                let ghost before = kept@;
                proof {
                    lemma_insert_in_order(before, at as int, key);
                    lemma_push_members(distinct, key);
                }
                kept.insert(at, key);
                assert forall|other: u8| kept@.contains(other) <==> after.contains(other) by {
                    assert(before.contains(other) <==> distinct.contains(other));
                }
            } else {
                overflow = true;
                proof {
                    if !distinct.contains(key) {
                        assert(distinct.push(key).take(capacity as int) == distinct.take(
                            capacity as int,
                        ));
                    }
                    assert(after == retained);
                }
            }
        }
        next += 1;
    }
    proof {
        assert(keys@.take(next as int) == keys@);
        lemma_ascending_unique(kept@, retained_keys(keys@, capacity as nat).to_set());
    }
    let ghost ascending = kept@;
    let mut slots = kept;
    while slots.len() < capacity
        invariant
            ascending.len() <= slots@.len() <= capacity,
            slots@ == ascending + Seq::new(
                (slots@.len() - ascending.len()) as nat,
                |slot: int| NO_EVENT,
            ),
        decreases capacity - slots@.len(),
    {
        slots.push(NO_EVENT);
    }
    Report { slots, overflow }
}

} // verus!
