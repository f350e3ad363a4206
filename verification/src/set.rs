//! One set of the cache: a fixed row of blocks, looked up by tag and replaced least
//! recently used first.

use crate::model::{
    empty_line, full, holds_at, is_first_holder, lemma_first_free_unique,
    lemma_least_recent_unique, resident, touch, victim, Line,
};
use vstd::prelude::*;

verus! {

/// One slot of a set: whether it is occupied, by which block, and when that block was
/// last used.
#[derive(Clone, Copy, Debug)]
pub struct Block {
    pub valid: bool,
    pub tag: u64,
    pub last_used: u32,
}

impl View for Block {
    type V = Line;

    open spec fn view(&self) -> Line {
        Line { valid: self.valid, tag: self.tag as nat, recency: self.last_used as nat }
    }
}

/// What an access did to the set it went to.
#[derive(Clone, Copy, Debug, PartialEq, Eq)]
pub enum Outcome {
    /// The block was resident.
    Hit,
    /// The block was missing and took an unoccupied slot.
    Fill,
    /// The block was missing and replaced the least recently used block.
    Evict,
}

/// A set of the cache. Its number of slots never changes.
#[derive(Debug)]
pub struct CacheSet {
    blocks: Vec<Block>,
}

impl View for CacheSet {
    type V = Seq<Line>;

    closed spec fn view(&self) -> Seq<Line> {
        self.blocks@.map_values(|block: Block| block@)
    }
}

impl CacheSet {
    /// A set of `size` unoccupied slots.
    pub fn new(size: u32) -> (set: CacheSet)
        ensures
            set@ == Seq::new(size as nat, |i: int| empty_line()),
    {
        let mut blocks: Vec<Block> = Vec::new();
        let mut filled: u32 = 0;
        while filled < size
            invariant
                filled <= size,
                blocks@.len() == filled,
                forall|i: int| 0 <= i < filled ==> (#[trigger] blocks@[i])@ == empty_line(),
            decreases size - filled,
        {
            blocks.push(Block { valid: false, tag: 0, last_used: 0 });
            filled += 1;
        }
        CacheSet { blocks }
    }

    /// Number of slots.
    pub fn len(&self) -> (n: usize)
        ensures
            n == self@.len(),
    {
        self.blocks.len()
    }

    /// The first slot that holds the block with `tag`, if any does.
    pub fn find(&self, tag: u64) -> (found: Option<usize>)
        ensures
            match found {
                Some(slot) => is_first_holder(self@, slot as int, tag as nat),
                None => !resident(self@, tag as nat),
            },
    {
        let mut i: usize = 0;
        while i < self.blocks.len()
            invariant
                i <= self.blocks.len(),
                forall|j: int| 0 <= j < i ==> !holds_at(self@, j, tag as nat),
            decreases self.blocks.len() - i,
        {
            if self.blocks[i].valid && self.blocks[i].tag == tag {
                return Some(i);
            }
            i += 1;
        }
        None
    }

    /// The slot that a missing block goes to: the first unoccupied slot, or, when
    /// every slot is occupied, the first of those used least recently.
    pub fn victim(&self) -> (slot: usize)
        requires
            self@.len() > 0,
        ensures
            slot < self@.len(),
            slot == victim(self@),
            full(self@) <==> self@[slot as int].valid,
    {
        let mut i: usize = 0;
        while i < self.blocks.len()
            invariant
                i <= self.blocks.len(),
                forall|j: int| 0 <= j < i ==> (#[trigger] self@[j]).valid,
            decreases self.blocks.len() - i,
        {
            if !self.blocks[i].valid {
                proof {
                    lemma_first_free_unique(self@, i as int);
                }
                return i;
            }
            i += 1;
        }
        let mut oldest: usize = 0;
        let mut i: usize = 1;
        while i < self.blocks.len()
            invariant
                oldest < i <= self.blocks.len(),
                forall|j: int| 0 <= j < oldest ==> (#[trigger] self@[j]).recency > self@[oldest as int].recency,
                forall|j: int| oldest <= j < i ==> (#[trigger] self@[j]).recency >= self@[oldest as int].recency,
            decreases self.blocks.len() - i,
        {
            if self.blocks[i].last_used < self.blocks[oldest].last_used {
                oldest = i;
            }
            i += 1;
        }
        proof {
            lemma_least_recent_unique(self@, oldest as int);
        }
        oldest
    }

    /// Performs one access with `tag` at logical time `stamp`: touches the slot that
    /// holds the block, or installs the block in the victim slot, and says which.
    pub fn touch(&mut self, tag: u64, stamp: u32) -> (outcome: Outcome)
        requires
            old(self)@.len() > 0,
        ensures
            final(self)@ == touch(old(self)@, tag as nat, stamp as nat),
            outcome == Outcome::Hit <==> resident(old(self)@, tag as nat),
            outcome == Outcome::Evict <==> !resident(old(self)@, tag as nat) && full(old(self)@),
    {
        let block = Block { valid: true, tag, last_used: stamp };
        match self.find(tag) {
            Some(slot) => {
                self.blocks[slot] = block;
                Outcome::Hit
            },
            None => {
                let slot: usize = self.victim();
                let evicts: bool = self.blocks[slot].valid;
                self.blocks[slot] = block;
                if evicts {
                    Outcome::Evict
                } else {
                    Outcome::Fill
                }
            },
        }
    }
}

} // verus!
