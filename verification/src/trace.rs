//! Access records, and replaying them against a cache.

use crate::cache::Cache;
use crate::model::{lemma_access_preserves_wf, CacheState};
use vstd::prelude::*;

verus! {

/// The kind of a memory access in a trace.
#[derive(Clone, Copy, Debug, PartialEq, Eq)]
pub enum AccessKind {
    /// An instruction fetch. It never reaches the cache.
    Instruction,
    /// A data load.
    Load,
    /// A data store.
    Store,
    /// A load followed at once by a store to the same address.
    Modify,
}

/// One record of a trace.
#[derive(Clone, Copy, Debug, PartialEq, Eq)]
pub struct Record {
    pub kind: AccessKind,
    pub address: u64,
}

impl AccessKind {
    /// Number of accesses to the cache that a record of this kind makes.
    pub open spec fn accesses(self) -> nat {
        match self {
            AccessKind::Instruction => 0,
            AccessKind::Load => 1,
            AccessKind::Store => 1,
            AccessKind::Modify => 2,
        }
    }
}

/// Number of accesses to the cache that the records of `trace` make together.
pub open spec fn accesses_in(trace: Seq<Record>) -> nat
    decreases trace.len(),
{
    if trace.len() == 0 {
        0
    } else {
        accesses_in(trace.drop_last()) + trace.last().kind.accesses()
    }
}

impl CacheState {
    /// The state after `record`: unchanged by an instruction fetch, after one access
    /// for a load or a store, after two accesses to the same address for a modify.
    pub open spec fn after_record(self, record: Record) -> CacheState {
        match record.kind {
            AccessKind::Instruction => self,
            AccessKind::Load => self.after_access(record.address),
            AccessKind::Store => self.after_access(record.address),
            AccessKind::Modify => self.after_access(record.address).after_access(record.address),
        }
    }

    /// The state after the records of `trace`, in order.
    pub open spec fn after_trace(self, trace: Seq<Record>) -> CacheState
        decreases trace.len(),
    {
        if trace.len() == 0 {
            self
        } else {
            self.after_trace(trace.drop_last()).after_record(trace.last())
        }
    }
}

/// A record leaves a well-formed cache well-formed, and no counter goes down.
pub proof fn lemma_record_preserves_wf(state: CacheState, record: Record)
    requires
        state.wf(),
    ensures
        state.after_record(record).wf(),
        state.hits <= state.after_record(record).hits,
        state.misses <= state.after_record(record).misses,
{
    lemma_access_preserves_wf(state, record.address);
    lemma_access_preserves_wf(state.after_access(record.address), record.address);
}

/// A trace leaves a well-formed cache well-formed, and no counter goes down.
pub proof fn lemma_trace_preserves_wf(state: CacheState, trace: Seq<Record>)
    requires
        state.wf(),
    ensures
        state.after_trace(trace).wf(),
        state.hits <= state.after_trace(trace).hits,
        state.misses <= state.after_trace(trace).misses,
    decreases trace.len(),
{
    if trace.len() > 0 {
        lemma_trace_preserves_wf(state, trace.drop_last());
        lemma_record_preserves_wf(state.after_trace(trace.drop_last()), trace.last());
    }
}

/// Replaying two traces one after the other is replaying them joined.
pub proof fn lemma_trace_joined(state: CacheState, first: Seq<Record>, rest: Seq<Record>)
    ensures
        state.after_trace(first + rest) == state.after_trace(first).after_trace(rest),
    decreases rest.len(),
{
    if rest.len() > 0 {
        lemma_trace_joined(state, first, rest.drop_last());
        assert((first + rest).drop_last() =~= first + rest.drop_last());
    }
}

/// On the way through a trace no counter is above what it is at the end.
pub proof fn lemma_counters_on_the_way(state: CacheState, trace: Seq<Record>, n: int)
    requires
        state.wf(),
        0 <= n <= trace.len(),
    ensures
        state.after_trace(trace.take(n)).wf(),
        state.after_trace(trace.take(n)).hits <= state.after_trace(trace).hits,
        state.after_trace(trace.take(n)).misses <= state.after_trace(trace).misses,
{
    lemma_trace_preserves_wf(state, trace.take(n));
    lemma_trace_joined(state, trace.take(n), trace.skip(n));
    assert(trace.take(n) + trace.skip(n) =~= trace);
    lemma_trace_preserves_wf(state.after_trace(trace.take(n)), trace.skip(n));
}

impl Cache {
    /// Replays one record: nothing for an instruction fetch, one access for a load or a
    /// store, two accesses to the same address for a modify. The counters are 32 bits
    /// wide, and the new counts have to fit.
    pub fn apply(&mut self, record: Record)
        requires
            old(self).wf(),
            old(self)@.after_record(record).hits <= u32::MAX,
            old(self)@.after_record(record).misses <= u32::MAX,
        ensures
            final(self).wf(),
            final(self)@ == old(self)@.after_record(record),
    {
        match record.kind {
            AccessKind::Instruction => {},
            AccessKind::Load => {
                self.access(record.address, false);
            },
            AccessKind::Store => {
                self.access(record.address, false);
            },
            AccessKind::Modify => {
                self.access(record.address, true);
                self.access(record.address, true);
            },
        }
    }

    /// Replays the records of `trace` in order. The counters are 32 bits wide, and the
    /// counts at the end have to fit.
    pub fn replay(&mut self, trace: &[Record])
        requires
            old(self).wf(),
            old(self)@.after_trace(trace@).hits <= u32::MAX,
            old(self)@.after_trace(trace@).misses <= u32::MAX,
        ensures
            final(self).wf(),
            final(self)@ == old(self)@.after_trace(trace@),
    {
        let mut done: usize = 0;
        while done < trace.len()
            invariant
                done <= trace.len(),
                self.wf(),
                self@ == old(self)@.after_trace(trace@.take(done as int)),
                old(self).wf(),
                old(self)@.after_trace(trace@).hits <= u32::MAX,
                old(self)@.after_trace(trace@).misses <= u32::MAX,
            decreases trace.len() - done,
        {
            proof {
                let with = trace@.take(done + 1);
                assert(with.drop_last() =~= trace@.take(done as int));
                lemma_counters_on_the_way(old(self)@, trace@, done + 1);
            }
            self.apply(trace[done]);
            done += 1;
        }
        assert(trace@.take(done as int) =~= trace@);
    }
}

} // verus!
