use cache_sim::cache::{Cache, Stats};
use cache_sim::trace::{AccessKind, Record};

/// A cache written down as plainly as possible, to hold the library against.
struct Plain {
    s: u32,
    b: u32,
    sets: Vec<Vec<(bool, u64, u32)>>,
    hits: u32,
    misses: u32,
    evictions: u32,
}

impl Plain {
    fn new(s: u32, e: u32, b: u32) -> Plain {
        Plain {
            s,
            b,
            sets: vec![vec![(false, 0, 0); e as usize]; 1 << s],
            hits: 0,
            misses: 0,
            evictions: 0,
        }
    }

    fn access(&mut self, address: u64) {
        let index = ((address >> self.b) & ((1u64 << self.s) - 1)) as usize;
        let tag = address >> (self.s + self.b);
        let stamp = self.hits;
        let set = &mut self.sets[index];
        if let Some(line) = set.iter_mut().find(|line| line.0 && line.1 == tag) {
            line.2 = stamp;
            self.hits += 1;
            return;
        }
        self.misses += 1;
        let slot = match set.iter().position(|line| !line.0) {
            Some(slot) => slot,
            None => {
                self.evictions += 1;
                let oldest = set.iter().map(|line| line.2).min().unwrap();
                set.iter().position(|line| line.2 == oldest).unwrap()
            }
        };
        set[slot] = (true, tag, stamp);
    }

    fn apply(&mut self, record: Record) {
        match record.kind {
            AccessKind::Instruction => {}
            AccessKind::Load | AccessKind::Store => self.access(record.address),
            AccessKind::Modify => {
                self.access(record.address);
                self.access(record.address);
            }
        }
    }

    fn stats(&self) -> Stats {
        Stats { hits: self.hits, misses: self.misses, evictions: self.evictions }
    }
}

fn next(seed: &mut u64) -> u64 {
    *seed ^= *seed << 13;
    *seed ^= *seed >> 7;
    *seed ^= *seed << 17;
    *seed
}

fn random_trace(seed: &mut u64, length: usize, address_bits: u32) -> Vec<Record> {
    let mut trace = Vec::new();
    for _ in 0..length {
        let kind = match next(seed) % 4 {
            0 => AccessKind::Instruction,
            1 => AccessKind::Load,
            2 => AccessKind::Store,
            _ => AccessKind::Modify,
        };
        let address = next(seed) >> (64 - address_bits);
        trace.push(Record { kind, address });
    }
    trace
}

#[test]
fn record_by_record_as_the_plain_cache() {
    let mut seed: u64 = 0x2545_f491_4f6c_dd1d;
    for (s, e, b) in [(0, 1, 0), (0, 4, 2), (1, 1, 0), (2, 2, 3), (3, 1, 1), (4, 3, 0), (2, 5, 4)] {
        let mut cache = Cache::new(s, e, b).unwrap();
        let mut plain = Plain::new(s, e, b);
        for record in random_trace(&mut seed, 3000, s + b + 3) {
            cache.apply(record);
            plain.apply(record);
            assert_eq!(cache.stats(), plain.stats(), "s={} e={} b={}", s, e, b);
        }
        assert!(cache.hits() > 0 && cache.evictions() > 0);
    }
}

#[test]
fn whole_trace_as_record_by_record() {
    let mut seed: u64 = 0x9e37_79b9_7f4a_7c15;
    let trace = random_trace(&mut seed, 2000, 9);
    let mut whole = Cache::new(2, 2, 2).unwrap();
    whole.replay(&trace);
    let mut stepwise = Cache::new(2, 2, 2).unwrap();
    for record in &trace {
        stepwise.apply(*record);
    }
    assert_eq!(whole.stats(), stepwise.stats());
    let mut plain = Plain::new(2, 2, 2);
    for record in &trace {
        plain.apply(*record);
    }
    assert_eq!(whole.stats(), plain.stats());
}

#[test]
fn hits_and_misses_count_the_accesses() {
    let mut seed: u64 = 0xdead_beef_cafe_f00d;
    let trace = random_trace(&mut seed, 1000, 12);
    let accesses: u32 = trace
        .iter()
        .map(|record| match record.kind {
            AccessKind::Instruction => 0,
            AccessKind::Load | AccessKind::Store => 1,
            AccessKind::Modify => 2,
        })
        .sum();
    let mut cache = Cache::new(3, 2, 4).unwrap();
    cache.replay(&trace);
    assert_eq!(cache.hits() + cache.misses(), accesses);
    assert!(cache.evictions() <= cache.misses());
}

#[test]
fn empty_trace_changes_nothing() {
    let mut cache = Cache::new(3, 2, 4).unwrap();
    cache.replay(&[]);
    assert_eq!(cache.stats(), Stats { hits: 0, misses: 0, evictions: 0 });
}

#[test]
fn wide_addresses_as_the_plain_cache() {
    let mut seed: u64 = 0x0123_4567_89ab_cdef;
    let mut cache = Cache::new(5, 2, 6).unwrap();
    let mut plain = Plain::new(5, 2, 6);
    let mut recent: Vec<u64> = Vec::new();
    for round in 0..2000 {
        let address = if round % 3 == 0 && !recent.is_empty() {
            recent[(next(&mut seed) % recent.len() as u64) as usize]
        } else {
            next(&mut seed)
        };
        recent.push(address);
        cache.access(address, round % 2 == 0);
        plain.access(address);
        assert_eq!(cache.stats(), plain.stats());
    }
    assert!(cache.hits() > 0);
}
