//! The mathematical model of the cache: what a set holds, which slot an access
//! touches, and how one access changes the state.

use crate::address::{lemma_set_index_in_range, set_index_of, tag_of, ADDRESS_BITS};
use vstd::arithmetic::power2::{lemma_pow2_pos, pow2};
use vstd::prelude::*;

verus! {

/// One slot of a set. An invalid line is unoccupied; `recency` is the logical time of
/// the last access to the block that the line holds.
pub struct Line {
    pub valid: bool,
    pub tag: nat,
    pub recency: nat,
}

/// The line that an access with `tag` at logical time `stamp` leaves behind.
pub open spec fn fresh_line(tag: nat, stamp: nat) -> Line {
    Line { valid: true, tag, recency: stamp }
}

/// An unoccupied line.
pub open spec fn empty_line() -> Line {
    Line { valid: false, tag: 0, recency: 0 }
}

/// Slot `i` of `lines` is occupied by the block with `tag`.
pub open spec fn holds_at(lines: Seq<Line>, i: int, tag: nat) -> bool {
    0 <= i < lines.len() && lines[i].valid && lines[i].tag == tag
}

/// The block with `tag` occupies some slot of `lines`.
pub open spec fn resident(lines: Seq<Line>, tag: nat) -> bool {
    exists|i: int| holds_at(lines, i, tag)
}

/// Slot `i` is the first slot of `lines` occupied by the block with `tag`.
pub open spec fn is_first_holder(lines: Seq<Line>, i: int, tag: nat) -> bool {
    holds_at(lines, i, tag) && forall|j: int| 0 <= j < i ==> !holds_at(lines, j, tag)
}

/// The slot of `lines` that the block with `tag` occupies, where it is resident: the
/// first one, though a well-formed set has no second.
pub open spec fn slot_of(lines: Seq<Line>, tag: nat) -> int {
    choose|i: int| is_first_holder(lines, i, tag)
}

/// No two occupied slots of `lines` hold the same tag.
pub open spec fn tags_distinct(lines: Seq<Line>) -> bool {
    forall|i: int, j: int|
        0 <= i < j < lines.len() && (#[trigger] lines[i]).valid && (#[trigger] lines[j]).valid
            ==> lines[i].tag != lines[j].tag
}

/// Every slot of `lines` is occupied.
pub open spec fn full(lines: Seq<Line>) -> bool {
    forall|i: int| 0 <= i < lines.len() ==> (#[trigger] lines[i]).valid
}

/// Slot `i` is the first unoccupied slot of `lines`.
pub open spec fn is_first_free(lines: Seq<Line>, i: int) -> bool {
    &&& 0 <= i < lines.len()
    &&& !lines[i].valid
    &&& forall|j: int| 0 <= j < i ==> (#[trigger] lines[j]).valid
}

/// The first unoccupied slot of `lines`, where there is one.
pub open spec fn first_free(lines: Seq<Line>) -> int {
    choose|i: int| is_first_free(lines, i)
}

/// Slot `i` holds the smallest recency of `lines`, and is the first slot to do so.
pub open spec fn is_least_recent(lines: Seq<Line>, i: int) -> bool {
    &&& 0 <= i < lines.len()
    &&& forall|j: int| 0 <= j < i ==> (#[trigger] lines[j]).recency > lines[i].recency
    &&& forall|j: int| i <= j < lines.len() ==> (#[trigger] lines[j]).recency >= lines[i].recency
}

/// The first slot of `lines` among those with the smallest recency.
pub open spec fn least_recent(lines: Seq<Line>) -> int {
    choose|i: int| is_least_recent(lines, i)
}

/// The slot that a missing block is installed in: the first unoccupied slot, or, in a
/// full set, the least recently used one.
pub open spec fn victim(lines: Seq<Line>) -> int {
    if full(lines) {
        least_recent(lines)
    } else {
        first_free(lines)
    }
}

/// The slot that an access with `tag` touches: the one that holds the block, or else
/// the victim.
pub open spec fn target_slot(lines: Seq<Line>, tag: nat) -> int {
    if resident(lines, tag) {
        slot_of(lines, tag)
    } else {
        victim(lines)
    }
}

/// The set after an access with `tag` at logical time `stamp`.
pub open spec fn touch(lines: Seq<Line>, tag: nat, stamp: nat) -> Seq<Line> {
    lines.update(target_slot(lines, tag), fresh_line(tag, stamp))
}

/// The whole cache: its geometry, its sets and its three counters.
pub struct CacheState {
    /// Number of set-index bits.
    pub s: nat,
    /// Number of block-offset bits.
    pub b: nat,
    /// The sets, each a sequence of lines.
    pub sets: Seq<Seq<Line>>,
    pub hits: nat,
    pub misses: nat,
    pub evictions: nat,
}

impl CacheState {
    /// The cache of `2^s` sets of `e` unoccupied lines each, with all counters at zero.
    pub open spec fn initial(s: nat, e: nat, b: nat) -> CacheState {
        CacheState {
            s,
            b,
            sets: Seq::new(pow2(s), |k: int| Seq::new(e, |i: int| empty_line())),
            hits: 0,
            misses: 0,
            evictions: 0,
        }
    }

    /// Number of lines per set.
    pub open spec fn associativity(self) -> nat {
        self.sets[0].len()
    }

    /// The geometry is consistent, no set holds a block twice, and no eviction was
    /// charged without a miss.
    pub open spec fn wf(self) -> bool {
        &&& self.s + self.b <= ADDRESS_BITS
        &&& self.sets.len() == pow2(self.s)
        &&& self.associativity() > 0
        &&& forall|k: int|
            0 <= k < self.sets.len() ==> (#[trigger] self.sets[k]).len() == self.associativity()
        &&& forall|k: int| 0 <= k < self.sets.len() ==> tags_distinct(#[trigger] self.sets[k])
        &&& self.evictions <= self.misses
    }

    /// Index of the set that `address` maps to.
    pub open spec fn set_index(self, address: u64) -> int {
        set_index_of(address as nat, self.s, self.b) as int
    }

    /// Tag of `address`.
    pub open spec fn tag(self, address: u64) -> nat {
        tag_of(address as nat, self.s, self.b)
    }

    /// The lines of the set that `address` maps to.
    pub open spec fn set_for(self, address: u64) -> Seq<Line> {
        self.sets[self.set_index(address)]
    }

    /// The block of `address` is in the cache.
    pub open spec fn is_hit(self, address: u64) -> bool {
        resident(self.set_for(address), self.tag(address))
    }

    /// A miss on `address` would have to evict a block.
    pub open spec fn must_evict(self, address: u64) -> bool {
        !self.is_hit(address) && full(self.set_for(address))
    }

    /// The state after one access to `address`. The access touches one slot of the
    /// addressed set and stamps it with the number of hits so far. A hit adds one to
    /// `hits`; a miss adds one to `misses`, and one to `evictions` where the set was
    /// full.
    pub open spec fn after_access(self, address: u64) -> CacheState {
        let sets = self.sets.update(
            self.set_index(address),
            touch(self.set_for(address), self.tag(address), self.hits),
        );
        if self.is_hit(address) {
            CacheState { sets, hits: self.hits + 1, ..self }
        } else if self.must_evict(address) {
            CacheState { sets, misses: self.misses + 1, evictions: self.evictions + 1, ..self }
        } else {
            CacheState { sets, misses: self.misses + 1, ..self }
        }
    }
}

/// What `slot_of` means: a first holder is the slot of its block.
pub proof fn lemma_first_holder(lines: Seq<Line>, i: int, tag: nat)
    requires
        is_first_holder(lines, i, tag),
    ensures
        resident(lines, tag),
        slot_of(lines, tag) == i,
{
}

/// A resident block has a slot.
pub proof fn lemma_resident_has_slot(lines: Seq<Line>, tag: nat)
    requires
        resident(lines, tag),
    ensures
        is_first_holder(lines, slot_of(lines, tag), tag),
{
    let w = choose|i: int| holds_at(lines, i, tag);
    lemma_first_holder_upto(lines, tag, w + 1);
}

/// Among the first `n` slots, either none holds the block or one is its first holder.
proof fn lemma_first_holder_upto(lines: Seq<Line>, tag: nat, n: int)
    requires
        0 <= n <= lines.len(),
    ensures
        (forall|j: int| 0 <= j < n ==> !holds_at(lines, j, tag)) || (exists|i: int|
            0 <= i < n && is_first_holder(lines, i, tag)),
    decreases n,
{
    if n > 0 {
        lemma_first_holder_upto(lines, tag, n - 1);
        if forall|j: int| 0 <= j < n - 1 ==> !holds_at(lines, j, tag) {
            if holds_at(lines, n - 1, tag) {
                assert(is_first_holder(lines, n - 1, tag));
            }
        }
    }
}

/// A set has at most one first unoccupied slot, and has one unless it is full.
pub proof fn lemma_first_free_unique(lines: Seq<Line>, i: int)
    requires
        is_first_free(lines, i),
    ensures
        !full(lines),
        first_free(lines) == i,
{
}

/// A set has at most one least recently used slot.
pub proof fn lemma_least_recent_unique(lines: Seq<Line>, i: int)
    requires
        is_least_recent(lines, i),
    ensures
        least_recent(lines) == i,
{
    let j = least_recent(lines);
    if j < i {
        assert(lines[j].recency > lines[i].recency);
    } else if i < j {
        assert(lines[i].recency > lines[j].recency);
    }
}

/// A set that is not full has a first unoccupied slot.
pub proof fn lemma_first_free_exists(lines: Seq<Line>)
    requires
        !full(lines),
    ensures
        is_first_free(lines, first_free(lines)),
{
    let w = choose|i: int| 0 <= i < lines.len() && !(#[trigger] lines[i]).valid;
    lemma_first_free_upto(lines, w + 1);
}

/// Among the first `n` slots, either all are occupied or one is the first unoccupied slot.
proof fn lemma_first_free_upto(lines: Seq<Line>, n: int)
    requires
        0 <= n <= lines.len(),
    ensures
        (forall|j: int| 0 <= j < n ==> (#[trigger] lines[j]).valid) || (exists|i: int|
            0 <= i < n && is_first_free(lines, i)),
    decreases n,
{
    if n > 0 {
        lemma_first_free_upto(lines, n - 1);
        if forall|j: int| 0 <= j < n - 1 ==> (#[trigger] lines[j]).valid {
            if !lines[n - 1].valid {
                assert(is_first_free(lines, n - 1));
            }
        }
    }
}

/// A set with at least one slot has a least recently used slot.
pub proof fn lemma_least_recent_exists(lines: Seq<Line>)
    requires
        lines.len() > 0,
    ensures
        is_least_recent(lines, least_recent(lines)),
{
    lemma_least_recent_upto(lines, lines.len() as int);
    assert(lines.take(lines.len() as int) =~= lines);
}

/// The first `n` slots have a least recently used slot among them.
proof fn lemma_least_recent_upto(lines: Seq<Line>, n: int)
    requires
        0 < n <= lines.len(),
    ensures
        exists|i: int| is_least_recent(lines.take(n), i),
    decreases n,
{
    let head = lines.take(n);
    if n == 1 {
        assert(is_least_recent(head, 0));
    } else {
        lemma_least_recent_upto(lines, n - 1);
        let shorter = lines.take(n - 1);
        let i = choose|i: int| is_least_recent(shorter, i);
        assert forall|j: int| 0 <= j < n - 1 implies (#[trigger] head[j]) == shorter[j] by {}
        if head[n - 1].recency < head[i].recency {
            assert(is_least_recent(head, n - 1));
        } else {
            assert(is_least_recent(head, i));
        }
    }
}

/// The slot that an access touches lies within the set.
pub proof fn lemma_target_in_range(lines: Seq<Line>, tag: nat)
    requires
        lines.len() > 0,
    ensures
        0 <= target_slot(lines, tag) < lines.len(),
        resident(lines, tag) ==> is_first_holder(lines, target_slot(lines, tag), tag),
        !resident(lines, tag) && !full(lines) ==> is_first_free(lines, target_slot(lines, tag)),
        !resident(lines, tag) && full(lines) ==> is_least_recent(lines, target_slot(lines, tag)),
{
    if resident(lines, tag) {
        lemma_resident_has_slot(lines, tag);
    } else if full(lines) {
        lemma_least_recent_exists(lines);
    } else {
        lemma_first_free_exists(lines);
    }
}

/// After an access the block is resident, in the slot that the access touched, and no
/// block is held twice.
pub proof fn lemma_touch(lines: Seq<Line>, tag: nat, stamp: nat)
    requires
        lines.len() > 0,
        tags_distinct(lines),
    ensures
        touch(lines, tag, stamp).len() == lines.len(),
        tags_distinct(touch(lines, tag, stamp)),
        is_first_holder(touch(lines, tag, stamp), target_slot(lines, tag), tag),
        resident(touch(lines, tag, stamp), tag),
        slot_of(touch(lines, tag, stamp), tag) == target_slot(lines, tag),
{
    lemma_target_in_range(lines, tag);
    let slot = target_slot(lines, tag);
    let after = touch(lines, tag, stamp);
    assert forall|j: int| 0 <= j < lines.len() && j != slot implies !holds_at(lines, j, tag) by {}
    assert forall|i: int, j: int|
        0 <= i < j < after.len() && (#[trigger] after[i]).valid && (#[trigger] after[j]).valid
        implies after[i].tag != after[j].tag by {
        if i == slot {
            assert(!holds_at(lines, j, tag));
        } else if j == slot {
            assert(!holds_at(lines, i, tag));
        }
    }
    assert forall|j: int| 0 <= j < slot implies !holds_at(after, j, tag) by {
        assert(!holds_at(lines, j, tag));
    }
    lemma_first_holder(after, slot, tag);
}

/// The index of the set that an address maps to lies within the sets.
pub proof fn lemma_addressed_set(state: CacheState, address: u64)
    requires
        state.wf(),
    ensures
        0 <= state.set_index(address) < state.sets.len(),
        state.set_for(address).len() == state.associativity(),
        tags_distinct(state.set_for(address)),
{
    lemma_set_index_in_range(address as nat, state.s, state.b);
}

/// A new cache of a sound geometry is well-formed, and all its lines are unoccupied.
pub proof fn lemma_initial_wf(s: nat, e: nat, b: nat)
    requires
        e > 0,
        s + b <= ADDRESS_BITS,
    ensures
        CacheState::initial(s, e, b).wf(),
        CacheState::initial(s, e, b).associativity() == e,
        forall|address: u64| !CacheState::initial(s, e, b).is_hit(address),
{
    let state = CacheState::initial(s, e, b);
    lemma_pow2_pos(s);
    assert forall|address: u64| !state.is_hit(address) by {
        lemma_set_index_in_range(address as nat, s, b);
    }
}

/// An access leaves a well-formed cache well-formed.
pub proof fn lemma_access_preserves_wf(state: CacheState, address: u64)
    requires
        state.wf(),
    ensures
        state.after_access(address).wf(),
        state.after_access(address).s == state.s,
        state.after_access(address).b == state.b,
        state.after_access(address).associativity() == state.associativity(),
{
    let after = state.after_access(address);
    let k = state.set_index(address);
    lemma_addressed_set(state, address);
    lemma_touch(state.sets[k], state.tag(address), state.hits);
    assert forall|j: int| 0 <= j < after.sets.len() implies (#[trigger] after.sets[j]).len()
        == state.associativity() && tags_distinct(after.sets[j]) by {}
}

} // verus!
