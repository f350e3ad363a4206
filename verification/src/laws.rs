//! What holds of the cache whatever is replayed against it.

use crate::address::{
    compose, lemma_compose_as_bits, lemma_compose_decodes, lemma_compose_in_range,
    lemma_set_index_in_range, lemma_tag_in_range, set_index_of, tag_of, ADDRESS_BITS,
};
use crate::model::{
    fresh_line, full, holds_at, is_first_free, is_least_recent, lemma_access_preserves_wf,
    lemma_addressed_set, lemma_first_free_unique, lemma_initial_wf, lemma_least_recent_unique,
    lemma_target_in_range, lemma_touch, resident, slot_of, touch, victim, CacheState, Line,
};
use crate::trace::{accesses_in, AccessKind, Record};
use vstd::arithmetic::power2::pow2;
use vstd::bits::{
    lemma_u64_low_bits_mask_is_mod, lemma_u64_pow2_no_overflow,
    lemma_u64_shl_is_mul, lemma_u64_shr_is_div,
};
use vstd::prelude::*;

verus! {

/// What one access does. It keeps the cache well-formed and its geometry as it was,
/// changes no set but the one that the address maps to, and leaves its block in the
/// cache. A hit adds one to the hits and to no other counter. A miss adds one to the
/// misses, and one to the evictions exactly where the set was full.
pub proof fn law_access(state: CacheState, address: u64)
    requires
        state.wf(),
    ensures
        ({
            let after = state.after_access(address);
            let evicted: nat = if full(state.set_for(address)) {
                1
            } else {
                0
            };
            &&& after.wf()
            &&& after.s == state.s
            &&& after.b == state.b
            &&& after.sets.len() == state.sets.len()
            &&& after.associativity() == state.associativity()
            &&& forall|k: int|
                0 <= k < state.sets.len() && k != state.set_index(address) ==> #[trigger] after.sets[k]
                    == state.sets[k]
            &&& after.is_hit(address)
            &&& state.is_hit(address) ==> {
                &&& after.hits == state.hits + 1
                &&& after.misses == state.misses
                &&& after.evictions == state.evictions
            }
            &&& !state.is_hit(address) ==> {
                &&& after.hits == state.hits
                &&& after.misses == state.misses + 1
                &&& after.evictions == state.evictions + evicted
            }
        }),
{
    lemma_access_preserves_wf(state, address);
    lemma_addressed_set(state, address);
    lemma_touch(state.set_for(address), state.tag(address), state.hits);
}

/// A hit stamps the line that holds the block with the number of hits so far, and
/// changes no other line.
pub proof fn law_hit_restamps(state: CacheState, address: u64)
    requires
        state.wf(),
        state.is_hit(address),
    ensures
        ({
            let lines = state.set_for(address);
            let after = state.after_access(address).set_for(address);
            let slot = slot_of(lines, state.tag(address));
            &&& holds_at(lines, slot, state.tag(address))
            &&& after.len() == lines.len()
            &&& after[slot] == fresh_line(state.tag(address), state.hits)
            &&& forall|i: int| 0 <= i < lines.len() && i != slot ==> #[trigger] after[i] == lines[i]
        }),
{
    lemma_addressed_set(state, address);
    lemma_target_in_range(state.set_for(address), state.tag(address));
}

/// A miss installs the block, stamped with the number of hits so far, in the first
/// unoccupied line of its set; where every line is occupied, in the first of the lines
/// with the smallest stamp. It changes no other line.
pub proof fn law_miss_installs(state: CacheState, address: u64)
    requires
        state.wf(),
        !state.is_hit(address),
    ensures
        ({
            let lines = state.set_for(address);
            let after = state.after_access(address).set_for(address);
            let slot = victim(lines);
            &&& 0 <= slot < lines.len()
            &&& !full(lines) ==> is_first_free(lines, slot)
            &&& full(lines) ==> is_least_recent(lines, slot)
            &&& after.len() == lines.len()
            &&& after[slot] == fresh_line(state.tag(address), state.hits)
            &&& forall|i: int| 0 <= i < lines.len() && i != slot ==> #[trigger] after[i] == lines[i]
        }),
{
    lemma_addressed_set(state, address);
    lemma_target_in_range(state.set_for(address), state.tag(address));
}

/// In a well-formed cache a block occupies at most one line.
pub proof fn law_one_holder(state: CacheState, address: u64, i: int, j: int)
    requires
        state.wf(),
        holds_at(state.set_for(address), i, state.tag(address)),
        holds_at(state.set_for(address), j, state.tag(address)),
    ensures
        i == j,
{
    lemma_addressed_set(state, address);
    let lines = state.set_for(address);
    if i < j {
        assert(lines[i].valid && lines[j].valid);
    } else if j < i {
        assert(lines[j].valid && lines[i].valid);
    }
}

/// The counters start at zero, and after any trace there are no more evictions than
/// misses, no more misses than hits and misses together, and as many hits and misses
/// together as the trace made accesses.
pub proof fn law_counters(s: nat, e: nat, b: nat, trace: Seq<Record>)
    requires
        e > 0,
        s + b <= ADDRESS_BITS,
    ensures
        ({
            let start = CacheState::initial(s, e, b);
            let end = start.after_trace(trace);
            &&& start.hits == 0
            &&& start.misses == 0
            &&& start.evictions == 0
            &&& end.evictions <= end.misses
            &&& end.misses <= end.hits + end.misses
            &&& end.hits + end.misses == accesses_in(trace)
        }),
{
    lemma_initial_wf(s, e, b);
    law_counters_from(CacheState::initial(s, e, b), trace);
}

/// From any well-formed state, a trace leaves a well-formed state with no more
/// evictions than misses. No counter goes down, and hits and misses together go up by
/// the number of accesses that the trace made.
pub proof fn law_counters_from(state: CacheState, trace: Seq<Record>)
    requires
        state.wf(),
    ensures
        ({
            let end = state.after_trace(trace);
            &&& end.wf()
            &&& end.evictions <= end.misses
            &&& end.hits >= state.hits
            &&& end.misses >= state.misses
            &&& end.evictions >= state.evictions
            &&& end.hits + end.misses == state.hits + state.misses + accesses_in(trace)
        }),
    decreases trace.len(),
{
    if trace.len() > 0 {
        law_counters_from(state, trace.drop_last());
        let before = state.after_trace(trace.drop_last());
        let address = trace.last().address;
        law_access(before, address);
        law_access(before.after_access(address), address);
    }
}

/// The same access twice in a row, to a block that is not in the cache and a set with
/// an unoccupied line, is one miss and then one hit, without an eviction. That is so in
/// particular where the set is empty.
pub proof fn law_repeated_access(state: CacheState, address: u64)
    requires
        state.wf(),
        !state.is_hit(address),
        !full(state.set_for(address)),
    ensures
        ({
            let once = state.after_access(address);
            let twice = once.after_access(address);
            &&& once.hits == state.hits
            &&& once.misses == state.misses + 1
            &&& once.evictions == state.evictions
            &&& twice.hits == state.hits + 1
            &&& twice.misses == state.misses + 1
            &&& twice.evictions == state.evictions
        }),
{
    law_access(state, address);
    law_access(state.after_access(address), address);
}

/// The second of two accesses in a row to the same address is a hit, whatever the first
/// was.
pub proof fn law_second_access_hits(state: CacheState, address: u64)
    requires
        state.wf(),
    ensures
        ({
            let once = state.after_access(address);
            let twice = once.after_access(address);
            &&& once.is_hit(address)
            &&& twice.hits == once.hits + 1
            &&& twice.misses == once.misses
            &&& twice.evictions == once.evictions
        }),
{
    law_access(state, address);
    law_access(state.after_access(address), address);
}

/// A modify of a block that is not in the cache is one miss and one hit, with one
/// eviction exactly where the set was full. A modify of a block that is in the cache
/// is two hits.
pub proof fn law_modify(state: CacheState, address: u64)
    requires
        state.wf(),
    ensures
        ({
            let after = state.after_record(Record { kind: AccessKind::Modify, address });
            let evicted: nat = if full(state.set_for(address)) {
                1
            } else {
                0
            };
            &&& !state.is_hit(address) ==> {
                &&& after.hits == state.hits + 1
                &&& after.misses == state.misses + 1
                &&& after.evictions == state.evictions + evicted
            }
            &&& state.is_hit(address) ==> {
                &&& after.hits == state.hits + 2
                &&& after.misses == state.misses
                &&& after.evictions == state.evictions
            }
        }),
{
    law_access(state, address);
    law_access(state.after_access(address), address);
}

/// An instruction fetch changes nothing, whatever its address.
pub proof fn law_instruction_ignored(state: CacheState, address: u64)
    ensures
        state.after_record(Record { kind: AccessKind::Instruction, address }) == state,
{
}

/// Set index and tag are what shifts and a mask give: the address shifted right by
/// `b` and cut to its low `s` bits, and the address shifted right by `s + b`. A shift
/// by all 64 bits has no meaning, so `s + b` stays below that.
pub proof fn law_decode_is_shift_and_mask(address: u64, s: u64, b: u64)
    requires
        s + b < ADDRESS_BITS,
    ensures
        set_index_of(address as nat, s as nat, b as nat) == (address >> b) & (((1u64 << s)
            - 1) as u64),
        tag_of(address as nat, s as nat, b as nat) == address >> ((s + b) as u64),
{
    lemma_u64_shr_is_div(address, b);
    lemma_u64_shr_is_div(address, (s + b) as u64);
    lemma_u64_pow2_no_overflow(s as nat);
    lemma_u64_shl_is_mul(1, s);
    lemma_u64_low_bits_mask_is_mod(address >> b, s as nat);
}

/// Decoding is consistent with itself: put the tag and the set index of an address
/// back together with any block offset, and the result is an address with the same
/// tag and the same set index.
pub proof fn law_decode_recompose(address: u64, offset: nat, s: nat, b: nat)
    requires
        s + b <= ADDRESS_BITS,
        offset < pow2(b),
    ensures
        ({
            let index = set_index_of(address as nat, s, b);
            let tag = tag_of(address as nat, s, b);
            let again = compose(tag, index, offset, s, b);
            &&& again <= u64::MAX
            &&& set_index_of(again, s, b) == index
            &&& tag_of(again, s, b) == tag
        }),
{
    let tag = tag_of(address as nat, s, b);
    let index = set_index_of(address as nat, s, b);
    lemma_tag_in_range(address, s, b);
    lemma_set_index_in_range(address as nat, s, b);
    lemma_compose_decodes(tag, index, offset, s, b);
    lemma_compose_in_range(tag, index, offset, s, b);
}

/// The same with shifts: the tag shifted above the set index, joined bit by bit with
/// the set index shifted above the offset and with any offset of `b` bits, decodes to
/// the same set index and the same tag. A shift by all 64 bits has no meaning, so
/// `s + b` stays below that.
pub proof fn law_decode_recompose_bits(address: u64, offset: u64, s: u64, b: u64)
    requires
        s + b < ADDRESS_BITS,
        offset < pow2(b as nat),
    ensures
        ({
            let index = set_index_of(address as nat, s as nat, b as nat) as u64;
            let tag = tag_of(address as nat, s as nat, b as nat) as u64;
            let again = (tag << ((s + b) as u64)) | (index << b) | offset;
            &&& set_index_of(again as nat, s as nat, b as nat) == index
            &&& tag_of(again as nat, s as nat, b as nat) == tag
        }),
{
    let index = set_index_of(address as nat, s as nat, b as nat);
    let tag = tag_of(address as nat, s as nat, b as nat);
    lemma_tag_in_range(address, s as nat, b as nat);
    lemma_set_index_in_range(address as nat, s as nat, b as nat);
    vstd::arithmetic::power2::lemma2_to64_rest();
    vstd::arithmetic::power2::lemma_pow2_strictly_increases(s as nat, 64);
    lemma_compose_decodes(tag, index, offset as nat, s as nat, b as nat);
    lemma_compose_as_bits(tag as u64, index as u64, offset, s, b);
}

/// One load of each of `addresses`, in order.
pub open spec fn loads(addresses: Seq<u64>) -> Seq<Record> {
    Seq::new(addresses.len(), |i: int| Record { kind: AccessKind::Load, address: addresses[i] })
}

/// The first `n` slots of `lines` hold the blocks of the first `n` of `addresses`, in
/// that order and all stamped `stamp`, and the other slots are unoccupied.
spec fn filled_in_order(
    lines: Seq<Line>,
    state: CacheState,
    addresses: Seq<u64>,
    n: int,
    stamp: nat,
) -> bool {
    &&& 0 <= n <= lines.len()
    &&& n <= addresses.len()
    &&& forall|i: int|
        0 <= i < n ==> #[trigger] lines[i] == (Line {
            valid: true,
            tag: state.tag(addresses[i]),
            recency: stamp,
        })
    &&& forall|i: int| n <= i < lines.len() ==> !(#[trigger] lines[i]).valid
}

/// `addresses` all map to one set of `state`, which is empty, and no two of them have
/// the same tag.
pub open spec fn distinct_blocks_of_one_empty_set(state: CacheState, addresses: Seq<u64>) -> bool {
    &&& addresses.len() > 0
    &&& forall|i: int|
        0 <= i < addresses.len() ==> state.set_index(#[trigger] addresses[i]) == state.set_index(
            addresses[0],
        )
    &&& forall|i: int, j: int|
        0 <= i < j < addresses.len() ==> state.tag(#[trigger] addresses[i]) != state.tag(
            #[trigger] addresses[j],
        )
    &&& forall|slot: int|
        0 <= slot < state.set_for(addresses[0]).len() ==> !(#[trigger] state.set_for(
            addresses[0],
        )[slot]).valid
}

/// Loads of `n` distinct blocks of one empty set, `n` no more than the set has lines,
/// are `n` misses without an eviction, and fill the first `n` lines in order.
proof fn lemma_fill_in_order(state: CacheState, addresses: Seq<u64>, n: int)
    requires
        state.wf(),
        distinct_blocks_of_one_empty_set(state, addresses),
        0 <= n <= state.associativity(),
        n <= addresses.len(),
    ensures
        ({
            let after = state.after_trace(loads(addresses).take(n));
            &&& after.wf()
            &&& after.s == state.s
            &&& after.b == state.b
            &&& after.associativity() == state.associativity()
            &&& after.hits == state.hits
            &&& after.misses == state.misses + n
            &&& after.evictions == state.evictions
            &&& filled_in_order(after.set_for(addresses[0]), state, addresses, n, state.hits)
        }),
    decreases n,
{
    let trace = loads(addresses);
    lemma_addressed_set(state, addresses[0]);
    if n > 0 {
        lemma_fill_in_order(state, addresses, n - 1);
        assert(trace.take(n).drop_last() =~= trace.take(n - 1));
        assert(trace.take(n).last() == trace[n - 1]);
        let before = state.after_trace(trace.take(n - 1));
        let address = addresses[n - 1];
        let tag = state.tag(address);
        let lines = before.set_for(address);
        lemma_addressed_set(before, address);
        assert(!resident(lines, tag)) by {
            if resident(lines, tag) {
                let i = choose|i: int| holds_at(lines, i, tag);
                assert(state.tag(addresses[i]) != state.tag(addresses[n - 1]));
            }
        }
        assert(is_first_free(lines, n - 1));
        lemma_first_free_unique(lines, n - 1);
        law_access(before, address);
        let after = before.after_access(address);
        assert(after == state.after_trace(trace.take(n)));
        assert(after.set_for(addresses[0]) == touch(lines, tag, before.hits));
    }
}

/// Fill an empty set of `e` lines with `e` distinct blocks and load one more: the
/// first `e` loads miss without an eviction, the last one misses and evicts, and the
/// block that leaves is the one that came first. All the others are in the cache
/// afterwards.
pub proof fn law_fill_then_evict(state: CacheState, addresses: Seq<u64>)
    requires
        state.wf(),
        distinct_blocks_of_one_empty_set(state, addresses),
        addresses.len() == state.associativity() + 1,
    ensures
        ({
            let filled = state.after_trace(loads(addresses).drop_last());
            let end = state.after_trace(loads(addresses));
            &&& filled.hits == state.hits
            &&& filled.misses == state.misses + state.associativity()
            &&& filled.evictions == state.evictions
            &&& end.hits == state.hits
            &&& end.misses == state.misses + state.associativity() + 1
            &&& end.evictions == state.evictions + 1
            &&& !end.is_hit(addresses[0])
            &&& forall|i: int| 1 <= i < addresses.len() ==> end.is_hit(#[trigger] addresses[i])
        }),
{
    let e = state.associativity() as int;
    let trace = loads(addresses);
    lemma_fill_in_order(state, addresses, e);
    assert(trace.drop_last() =~= trace.take(e));
    let before = state.after_trace(trace.take(e));
    let address = addresses[e];
    let tag = state.tag(address);
    let lines = before.set_for(address);
    assert(trace.last() == Record { kind: AccessKind::Load, address });
    assert(before.set_index(address) == state.set_index(addresses[0]));
    lemma_addressed_set(before, address);
    assert(!resident(lines, tag)) by {
        if resident(lines, tag) {
            let i = choose|i: int| holds_at(lines, i, tag);
            assert(state.tag(addresses[i]) != state.tag(addresses[e]));
        }
    }
    assert(full(lines));
    assert(is_least_recent(lines, 0));
    lemma_least_recent_unique(lines, 0);
    law_access(before, address);
    let after = before.after_access(address);
    assert(after == state.after_trace(trace));
    let left = after.set_for(addresses[0]);
    assert(left == touch(lines, tag, before.hits));
    assert(!after.is_hit(addresses[0])) by {
        let first = state.tag(addresses[0]);
        if resident(left, first) {
            let i = choose|i: int| holds_at(left, i, first);
            if i == 0 {
                assert(state.tag(addresses[0]) != state.tag(addresses[e]));
            } else {
                assert(left[i] == lines[i]);
                assert(state.tag(addresses[0]) != state.tag(addresses[i]));
            }
        }
    }
    assert forall|i: int| 1 <= i < addresses.len() implies after.is_hit(
        #[trigger] addresses[i],
    ) by {
        assert(after.set_index(addresses[i]) == after.set_index(addresses[0]));
        if i == e {
            assert(holds_at(left, 0, state.tag(addresses[i])));
        } else {
            assert(left[i] == lines[i]);
            assert(holds_at(left, i, state.tag(addresses[i])));
        }
    }
}

} // verus!
