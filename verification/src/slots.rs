//! Slot assignment for hash-addressed method tables: linear-probing open
//! addressing, with slot 0 reserved for the dropper and, in closure classes,
//! a fixed two-slot layout.
use vstd::arithmetic::div_mod::{
    lemma_fundamental_div_mod, lemma_mod_bound, lemma_mod_multiples_vanish, lemma_small_mod,
};
use vstd::prelude::*;

verus! {

/// What slot placement reads of one method: whether its name is the dropper
/// name, and its hash.
#[derive(Clone, Copy, PartialEq, Eq, Structural, Debug)]
pub struct PlaceKey {
    /// Whether the method's name is the dropper name.
    pub dropper: bool,
    /// The method's hash.
    pub hash: u64,
}

/// The method's home slot: where probing starts.
pub open spec fn home_slot(key: PlaceKey, len: int) -> int {
    (key.hash as int) % len
}

/// The first free slot at probe offset `j` or later from `start`, scanning
/// cyclically; `-1` if every slot within one full scan is occupied.
pub open spec fn probe_from(buckets: Seq<bool>, start: int, j: nat) -> int
    decreases buckets.len() - j,
{
    if j >= buckets.len() {
        -1
    } else if !buckets[(start + j) % (buckets.len() as int)] {
        (start + j) % (buckets.len() as int)
    } else {
        probe_from(buckets, start, (j + 1) as nat)
    }
}

/// The slot a method lands in, given the table occupancy when it is placed.
/// In a closure class the dropper and `call` take the two reserved slots; in
/// any other class the dropper takes slot 0 and every other method probes
/// linearly from its home slot.
pub open spec fn place_slot(closure: bool, key: PlaceKey, buckets: Seq<bool>) -> int {
    if closure {
        if key.dropper {
            0
        } else {
            1
        }
    } else if key.dropper {
        0
    } else {
        probe_from(buckets, home_slot(key, buckets.len() as int), 0)
    }
}

/// Whether placing the method displaced it: it probed and found its home
/// slot occupied.
pub open spec fn place_collision(closure: bool, key: PlaceKey, buckets: Seq<bool>) -> bool {
    &&& !closure
    &&& !key.dropper
    &&& buckets[home_slot(key, buckets.len() as int)]
}

/// The table with `slot` marked occupied; a slot outside the table marks
/// nothing.
pub open spec fn mark(buckets: Seq<bool>, slot: int) -> Seq<bool> {
    if 0 <= slot < buckets.len() {
        buckets.update(slot, true)
    } else {
        buckets
    }
}

/// The table occupancy after the first `n` methods of the list were placed.
pub open spec fn buckets_after(closure: bool, init: Seq<bool>, keys: Seq<PlaceKey>, n: nat) -> Seq<
    bool,
>
    decreases n,
{
    if n == 0 {
        init
    } else {
        let prev = buckets_after(closure, init, keys, (n - 1) as nat);
        mark(prev, place_slot(closure, keys[n - 1], prev))
    }
}

/// The slot assigned to method `i` of the list.
pub open spec fn slot_at(closure: bool, init: Seq<bool>, keys: Seq<PlaceKey>, i: int) -> int {
    place_slot(closure, keys[i], buckets_after(closure, init, keys, i as nat))
}

/// The collision flag of method `i` of the list.
pub open spec fn collision_at(closure: bool, init: Seq<bool>, keys: Seq<PlaceKey>, i: int) -> bool {
    place_collision(closure, keys[i], buckets_after(closure, init, keys, i as nat))
}

/// How many slots of the table are occupied.
pub open spec fn count_true(buckets: Seq<bool>) -> nat
    decreases buckets.len(),
{
    if buckets.len() == 0 {
        0
    } else {
        count_true(buckets.drop_last()) + if buckets.last() {
            1nat
        } else {
            0nat
        }
    }
}

/// A table counting fewer occupied slots than its length has a free slot.
proof fn lemma_count_exists_free(buckets: Seq<bool>)
    requires
        count_true(buckets) < buckets.len(),
    ensures
        exists|t: int| 0 <= t < buckets.len() && !buckets[t],
    decreases buckets.len(),
{
    let last = (buckets.len() - 1) as int;
    if !buckets[last] {
        assert(0 <= last < buckets.len() && !buckets[last]);
    } else {
        lemma_count_exists_free(buckets.drop_last());
        let t = choose|t: int| 0 <= t < buckets.drop_last().len() && !buckets.drop_last()[t];
        assert(0 <= t < buckets.len() && !buckets[t]);
    }
}

/// Marking one slot raises the occupancy count by at most one.
proof fn lemma_count_update(buckets: Seq<bool>, i: int)
    requires
        0 <= i < buckets.len(),
    ensures
        count_true(buckets.update(i, true)) <= count_true(buckets) + 1,
    decreases buckets.len(),
{
    let upd = buckets.update(i, true);
    if i == buckets.len() - 1 {
        assert(upd.drop_last() =~= buckets.drop_last());
    } else {
        assert(upd.drop_last() =~= buckets.drop_last().update(i, true));
        lemma_count_update(buckets.drop_last(), i);
    }
}

/// From any start, one cyclic scan of the table reaches any chosen slot.
proof fn lemma_offset_reaches(start: int, t: int, len: int)
    requires
        0 <= start < len,
        0 <= t < len,
    ensures
        0 <= (t - start) % len < len,
        (start + (t - start) % len) % len == t,
{
    lemma_mod_bound(t - start, len);
    lemma_fundamental_div_mod(t - start, len);
    let q = (t - start) / len;
    assert(start + (t - start) % len == len * (-q) + t) by (nonlinear_arith)
        requires
            t - start == len * q + (t - start) % len,
    ;
    lemma_mod_multiples_vanish(-q, t, len);
    lemma_small_mod(t as nat, len as nat);
}

/// A probe that has a free slot somewhere ahead of it finds a free slot.
proof fn lemma_probe_finds_free(buckets: Seq<bool>, start: int, j: nat)
    requires
        0 <= start < buckets.len(),
        exists|jj: int|
            j <= jj < buckets.len() && !(#[trigger] buckets[(start + jj) % (buckets.len()
                as int)]),
    ensures
        ({
            let r = probe_from(buckets, start, j);
            0 <= r < buckets.len() && !buckets[r]
        }),
    decreases buckets.len() - j,
{
    let len = buckets.len() as int;
    let jj = choose|jj: int| j <= jj < len && !(#[trigger] buckets[(start + jj) % len]);
    assert(j < buckets.len());
    lemma_mod_bound(start + j, len);
    if buckets[(start + j) % len] {
        assert(j < jj);
        lemma_probe_finds_free(buckets, start, (j + 1) as nat);
    }
}

/// A free slot somewhere in the table means every probe succeeds.
proof fn lemma_probe_of_free_slot(buckets: Seq<bool>, start: int)
    requires
        0 <= start < buckets.len(),
        exists|t: int| 0 <= t < buckets.len() && !buckets[t],
    ensures
        ({
            let r = probe_from(buckets, start, 0);
            0 <= r < buckets.len() && !buckets[r]
        }),
{
    let len = buckets.len() as int;
    let t = choose|t: int| 0 <= t < len && !buckets[t];
    lemma_offset_reaches(start, t, len);
    let jj = (t - start) % len;
    assert(0 <= jj < len && !buckets[(start + jj) % len]);
    lemma_probe_finds_free(buckets, start, 0);
}

/// Any probe of a table with spare room finds a free slot.
pub proof fn lemma_probe_succeeds(buckets: Seq<bool>, start: int)
    requires
        0 <= start < buckets.len(),
        count_true(buckets) < buckets.len(),
    ensures
        ({
            let r = probe_from(buckets, start, 0);
            0 <= r < buckets.len() && !buckets[r]
        }),
{
    lemma_count_exists_free(buckets);
    lemma_probe_of_free_slot(buckets, start);
}

/// The requirements under which a method list can be placed: the table
/// starts with only the reserved dropper slot occupied, it has room for one
/// more slot than there are methods, at most one method is the dropper, and
/// in a closure class at most one method is not the dropper.
pub open spec fn placeable(closure: bool, init: Seq<bool>, keys: Seq<PlaceKey>) -> bool {
    &&& init.len() >= 2
    &&& init[0]
    &&& count_true(init) == 1
    &&& keys.len() + 1 <= init.len()
    &&& forall|i: int, j: int|
        0 <= i < j < keys.len() ==> !(#[trigger] keys[i].dropper && #[trigger] keys[j].dropper)
    &&& closure ==> forall|i: int, j: int|
        0 <= i < j < keys.len() ==> (#[trigger] keys[i].dropper || #[trigger] keys[j].dropper)
}

/// Placement never changes the table's length.
pub proof fn lemma_buckets_len(closure: bool, init: Seq<bool>, keys: Seq<PlaceKey>, n: nat)
    ensures
        buckets_after(closure, init, keys, n).len() == init.len(),
    decreases n,
{
    if n > 0 {
        lemma_buckets_len(closure, init, keys, (n - 1) as nat);
    }
}

/// An occupied slot stays occupied through every later placement step.
pub proof fn lemma_occupied_persists(
    closure: bool,
    init: Seq<bool>,
    keys: Seq<PlaceKey>,
    t: int,
    n1: nat,
    n2: nat,
)
    requires
        n1 <= n2,
        0 <= t < init.len(),
        buckets_after(closure, init, keys, n1)[t],
    ensures
        buckets_after(closure, init, keys, n2)[t],
    decreases n2 - n1,
{
    if n1 < n2 {
        lemma_occupied_persists(closure, init, keys, t, n1, (n2 - 1) as nat);
        lemma_buckets_len(closure, init, keys, (n2 - 1) as nat);
    }
}

/// The facts that hold of every step of a placement: the table keeps its
/// length and its reserved slot, the occupancy count stays bounded, every
/// assigned slot is in range and is occupied from the next step on, and a
/// probed-for slot was free when taken.
pub proof fn lemma_placement_invariants(
    closure: bool,
    init: Seq<bool>,
    keys: Seq<PlaceKey>,
    n: nat,
)
    requires
        placeable(closure, init, keys),
        n <= keys.len(),
    ensures
        buckets_after(closure, init, keys, n).len() == init.len(),
        count_true(buckets_after(closure, init, keys, n)) <= 1 + n,
        buckets_after(closure, init, keys, n)[0],
        forall|i: int|
            0 <= i < n ==> 0 <= #[trigger] slot_at(closure, init, keys, i) < init.len(),
        forall|i: int|
            0 <= i < n ==> buckets_after(closure, init, keys, (i + 1) as nat)[#[trigger] slot_at(
                closure,
                init,
                keys,
                i,
            )],
        forall|i: int|
            0 <= i < n && !closure && !keys[i].dropper ==> !buckets_after(
                closure,
                init,
                keys,
                i as nat,
            )[#[trigger] slot_at(closure, init, keys, i)],
    decreases n,
{
    if n > 0 {
        let m = (n - 1) as nat;
        lemma_placement_invariants(closure, init, keys, m);
        let prev = buckets_after(closure, init, keys, m);
        let slot = place_slot(closure, keys[m as int], prev);
        if closure || keys[m as int].dropper {
            assert(0 <= slot < init.len());
        } else {
            lemma_count_exists_free(prev);
            lemma_mod_bound(keys[m as int].hash as int, prev.len() as int);
            lemma_probe_of_free_slot(prev, home_slot(keys[m as int], prev.len() as int));
        }
        lemma_count_update(prev, slot);
        assert(buckets_after(closure, init, keys, n) == mark(prev, slot));
        assert(slot_at(closure, init, keys, m as int) == slot);
    }
}

/// Every method of a placeable list gets its own slot: the assignment is
/// duplicate-free, the dropper (if present) sits in slot 0, and a closure
/// class uses only the two reserved slots.
pub proof fn lemma_slots_unique(closure: bool, init: Seq<bool>, keys: Seq<PlaceKey>)
    requires
        placeable(closure, init, keys),
    ensures
        forall|i: int|
            0 <= i < keys.len() ==> 0 <= #[trigger] slot_at(closure, init, keys, i) < init.len(),
        forall|i: int, j: int|
            0 <= i < j < keys.len() ==> #[trigger] slot_at(closure, init, keys, i)
                != #[trigger] slot_at(closure, init, keys, j),
        forall|i: int|
            0 <= i < keys.len() && keys[i].dropper ==> #[trigger] slot_at(closure, init, keys, i)
                == 0,
        closure ==> forall|i: int|
            0 <= i < keys.len() && !keys[i].dropper ==> #[trigger] slot_at(closure, init, keys, i)
                == 1,
{
    lemma_placement_invariants(closure, init, keys, keys.len());
    assert forall|i: int, j: int| 0 <= i < j < keys.len() implies #[trigger] slot_at(
        closure,
        init,
        keys,
        i,
    ) != #[trigger] slot_at(closure, init, keys, j) by {
        lemma_placement_invariants(closure, init, keys, j as nat);
        lemma_placement_invariants(closure, init, keys, (i + 1) as nat);
        let si = slot_at(closure, init, keys, i);
        let sj = slot_at(closure, init, keys, j);
        if closure {
            // One of the two is the dropper and sits in slot 0; the other is
            // not and sits in slot 1.
            assert(keys[i].dropper || keys[j].dropper);
            assert(!(keys[i].dropper && keys[j].dropper));
        } else if keys[i].dropper {
            // Slot 0 is occupied from the start, so `j` probed past it.
            assert(si == 0);
            assert(buckets_after(closure, init, keys, j as nat)[0]);
            assert(!buckets_after(closure, init, keys, j as nat)[sj]);
        } else if keys[j].dropper {
            assert(sj == 0);
            assert(buckets_after(closure, init, keys, i as nat)[0]) by {
                lemma_placement_invariants(closure, init, keys, i as nat);
            }
            assert(!buckets_after(closure, init, keys, i as nat)[si]);
        } else {
            // `i`'s slot is occupied from step `i + 1` on, while `j` probed
            // to a slot still free at step `j`.
            assert(buckets_after(closure, init, keys, (i + 1) as nat)[si]);
            lemma_occupied_persists(closure, init, keys, si, (i + 1) as nat, j as nat);
            assert(buckets_after(closure, init, keys, j as nat)[si]);
            assert(!buckets_after(closure, init, keys, j as nat)[sj]);
        }
    }
}

} // verus!
