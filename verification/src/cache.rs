//! The cache itself: its sets, its geometry and its three counters.

use crate::address::{decode, lemma_set_index_in_range, ADDRESS_BITS};
use crate::model::{empty_line, lemma_access_preserves_wf, lemma_initial_wf, CacheState};
use crate::set::{CacheSet, Outcome};
use vstd::bits::{lemma_u64_pow2_no_overflow, lemma_u64_shl_is_mul};
use vstd::prelude::*;

verus! {

/// The largest number of set-index bits that a cache can be built with: the number of
/// sets has to fit in 32 bits.
pub const MAX_SET_BITS: u32 = 31;

/// Why a geometry cannot be built.
#[derive(Clone, Copy, Debug, PartialEq, Eq)]
pub enum ConfigError {
    /// A set would have no line.
    ZeroAssociativity,
    /// Set-index and block-offset bits together exceed the width of an address.
    AddressWidthExceeded,
    /// More than `MAX_SET_BITS` set-index bits: the sets could not be counted.
    TooManySets,
}

/// What is wrong with the geometry `(s, e, b)`, if anything.
pub open spec fn geometry_fault(s: u32, e: u32, b: u32) -> Option<ConfigError> {
    if e == 0 {
        Some(ConfigError::ZeroAssociativity)
    } else if s + b > ADDRESS_BITS {
        Some(ConfigError::AddressWidthExceeded)
    } else if s > MAX_SET_BITS {
        Some(ConfigError::TooManySets)
    } else {
        None
    }
}

/// The three counters of a cache.
#[derive(Clone, Copy, Debug, PartialEq, Eq)]
pub struct Stats {
    pub hits: u32,
    pub misses: u32,
    pub evictions: u32,
}

/// A set-associative cache of `2^s` sets with least-recently-used replacement.
#[derive(Debug)]
pub struct Cache {
    sets: Vec<CacheSet>,
    b: u32,
    s: u32,
    hits: u32,
    misses: u32,
    evictions: u32,
}

impl View for Cache {
    type V = CacheState;

    closed spec fn view(&self) -> CacheState {
        CacheState {
            s: self.s as nat,
            b: self.b as nat,
            sets: self.sets@.map_values(|set: CacheSet| set@),
            hits: self.hits as nat,
            misses: self.misses as nat,
            evictions: self.evictions as nat,
        }
    }
}

impl Cache {
    /// The cache is in a state that `new` and `access` can leave it in.
    pub open spec fn wf(&self) -> bool {
        self@.wf()
    }

    /// Builds the cache of `2^s` sets of `e` lines each for blocks of `2^b` bytes, all
    /// lines unoccupied and all counters at zero, or says what is wrong with the
    /// geometry.
    pub fn new(s: u32, e: u32, b: u32) -> (built: Result<Cache, ConfigError>)
        ensures
            match built {
                Ok(cache) => geometry_fault(s, e, b) is None && cache.wf() && cache@
                    == CacheState::initial(s as nat, e as nat, b as nat),
                Err(fault) => geometry_fault(s, e, b) == Some(fault),
            },
    {
        if e == 0 {
            return Err(ConfigError::ZeroAssociativity);
        }
        if b > ADDRESS_BITS || s > ADDRESS_BITS - b {
            return Err(ConfigError::AddressWidthExceeded);
        }
        if s > MAX_SET_BITS {
            return Err(ConfigError::TooManySets);
        }
        proof {
            lemma_u64_pow2_no_overflow(s as nat);
            lemma_u64_shl_is_mul(1, s as u64);
        }
        let num_sets: u64 = 1u64 << s;
        let mut sets: Vec<CacheSet> = Vec::new();
        let mut built: u64 = 0;
        while built < num_sets
            invariant
                built <= num_sets,
                sets@.len() == built,
                forall|k: int|
                    0 <= k < built ==> (#[trigger] sets@[k])@ == Seq::new(
                        e as nat,
                        |i: int| empty_line(),
                    ),
            decreases num_sets - built,
        {
            sets.push(CacheSet::new(e));
            built += 1;
        }
        let cache = Cache { sets, b, s, hits: 0, misses: 0, evictions: 0 };
        proof {
            assert(cache@.sets =~= CacheState::initial(s as nat, e as nat, b as nat).sets);
            lemma_initial_wf(s as nat, e as nat, b as nat);
        }
        Ok(cache)
    }

    /// Splits `address` into the index of its set and its tag.
    pub fn extract_tag_and_set_index(&self, address: u64) -> (parts: (u64, u64))
        requires
            self.wf(),
        ensures
            parts.0 == self@.set_index(address),
            parts.1 == self@.tag(address),
            parts.0 < self@.sets.len(),
    {
        proof {
            lemma_set_index_in_range(address as nat, self.s as nat, self.b as nat);
        }
        decode(address, self.s, self.b)
    }

    /// Performs one access to `address`. A hit adds one to the hits; a miss adds one to
    /// the misses, installs the block, and adds one to the evictions where it had to
    /// replace another block. `is_modify` says that the access is one half of a modify;
    /// it changes nothing. The counters are 32 bits wide, and the new counts have to
    /// fit.
    pub fn access(&mut self, address: u64, is_modify: bool)
        requires
            old(self).wf(),
            old(self)@.after_access(address).hits <= u32::MAX,
            old(self)@.after_access(address).misses <= u32::MAX,
        ensures
            final(self).wf(),
            final(self)@ == old(self)@.after_access(address),
    {
        let (set_index, tag): (u64, u64) = self.extract_tag_and_set_index(address);
        let stamp: u32 = self.hits;
        // The index is below the number of sets, so it fits a `usize`.
        assert(set_index < self.sets.len());
        let index: usize = set_index as usize;
        match self.sets[index].touch(tag, stamp) {
            Outcome::Hit => {
                self.hits += 1;
            },
            Outcome::Fill => {
                self.misses += 1;
            },
            Outcome::Evict => {
                self.misses += 1;
                self.evictions += 1;
            },
        }
        proof {
            assert(self@.sets =~= old(self)@.after_access(address).sets);
            lemma_access_preserves_wf(old(self)@, address);
        }
    }

    /// Number of accesses that found their block in the cache.
    pub fn hits(&self) -> (n: u32)
        ensures
            n == self@.hits,
    {
        self.hits
    }

    /// Number of accesses that did not find their block in the cache.
    pub fn misses(&self) -> (n: u32)
        ensures
            n == self@.misses,
    {
        self.misses
    }

    /// Number of misses that replaced a block.
    pub fn evictions(&self) -> (n: u32)
        ensures
            n == self@.evictions,
    {
        self.evictions
    }

    /// The three counters together.
    pub fn stats(&self) -> (stats: Stats)
        ensures
            stats.hits == self@.hits,
            stats.misses == self@.misses,
            stats.evictions == self@.evictions,
    {
        Stats { hits: self.hits, misses: self.misses, evictions: self.evictions }
    }
}

} // verus!
