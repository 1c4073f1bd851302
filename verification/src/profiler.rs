//! Time spent in named parts of the optimizer.
use vstd::hash_map::StringHashMap;
use vstd::prelude::*;

verus! {

#[verifier::external_type_specification]
#[verifier::external_body]
pub struct ExInstant(std::time::Instant);

/// `Instant::now`: the current time (nothing is claimed of it).
#[verifier::external_body]
fn now() -> std::time::Instant {
    std::time::Instant::now()
}

/// `Instant::elapsed`: the time since `start` (nothing is claimed of it).
#[verifier::external_body]
fn elapsed(start: &std::time::Instant) -> std::time::Duration {
    start.elapsed()
}

/// `Duration::as_nanos`: the length of a duration in nanoseconds (nothing is
/// claimed of it, the duration being opaque here).
#[verifier::external_body]
fn as_nanos(d: &std::time::Duration) -> u128 {
    d.as_nanos()
}

/// The time spent in one named part, and how many times it ran.
#[derive(Clone, Copy, Debug)]
pub struct Stat {
    pub total_ns: u64,
    pub calls: u64,
}

/// The statistics of each named part, and the names in the order they were
/// first recorded.
pub struct Profiler {
    stats: StringHashMap<Stat>,
    names: Vec<String>,
}

/// `stats` after one more run of `nanos` nanoseconds of part `name` (sums
/// wrap around as an atomic `fetch_add` does).
pub open spec fn recorded(stats: Map<Seq<char>, Stat>, name: Seq<char>, nanos: u64) -> Map<Seq<char>, Stat> {
    let before = if stats.contains_key(name) {
        stats[name]
    } else {
        Stat { total_ns: 0, calls: 0 }
    };
    stats.insert(
        name,
        Stat {
            total_ns: ((before.total_ns + nanos) % 0x1_0000_0000_0000_0000) as u64,
            calls: ((before.calls + 1) % 0x1_0000_0000_0000_0000) as u64,
        },
    )
}

impl Profiler {
    /// The statistics, by part name.
    pub closed spec fn stats(&self) -> Map<Seq<char>, Stat> {
        self.stats@
    }

    /// The part names, in the order they were first recorded.
    pub closed spec fn names(&self) -> Seq<Seq<char>> {
        crate::overlay_remover::texts(self.names@)
    }

    /// The names listed are exactly the recorded parts, each once.
    pub closed spec fn wf(&self) -> bool {
        &&& forall|i: int, j: int| 0 <= i < j < self.names().len() ==> self.names()[i] != self.names()[j]
        &&& forall|k: Seq<char>| #[trigger] self.stats@.contains_key(k) <==> self.names().contains(k)
    }

    /// A profiler that has recorded nothing.
    pub fn new() -> (r: Self)
        ensures
            r.wf(),
            r.stats() == Map::<Seq<char>, Stat>::empty(),
            r.names().len() == 0,
    {
        let r = Profiler { stats: StringHashMap::new(), names: Vec::new() };
        assert(r.names() =~= Seq::<Seq<char>>::empty());
        r
    }

    /// Adds one run of part `name` that took `nanos` nanoseconds.
    pub fn record(&mut self, name: &str, nanos: u64)
        requires
            old(self).wf(),
        ensures
            final(self).wf(),
            final(self).stats() == recorded(old(self).stats(), name@, nanos),
            old(self).names().contains(name@) ==> final(self).names() == old(self).names(),
            !old(self).names().contains(name@) ==> final(self).names() == old(self).names().push(name@),
    {
        let ghost names = self.names();
        let ghost before = self.stats@;
        let known = match self.stats.get(name) {
            Some(s) => Some(*s),
            None => None,
        };
        let prev = match known {
            Some(s) => s,
            None => Stat { total_ns: 0, calls: 0 },
        };
        let next = Stat { total_ns: prev.total_ns.wrapping_add(nanos), calls: prev.calls.wrapping_add(1) };
        self.stats.insert(name.to_owned(), next);
        if known.is_none() {
            self.names.push(name.to_owned());
            assert(self.names() =~= names.push(name@));
            assert(self.names()[names.len() as int] == name@);
            assert forall|k: Seq<char>| #[trigger] self.stats@.contains_key(k) <==> self.names().contains(k) by {
                assert(before.contains_key(k) == names.contains(k));
                if self.names().contains(k) && k != name@ {
                    let j = choose|j: int| 0 <= j < self.names().len() && self.names()[j] == k;
                    assert(names[j] == k);
                }
                if names.contains(k) {
                    let j = choose|j: int| 0 <= j < names.len() && names[j] == k;
                    assert(self.names()[j] == k);
                }
            }
            assert forall|i: int, j: int| 0 <= i < j < self.names().len() implies self.names()[i] != self.names()[j] by {
                if j == names.len() {
                    assert(names.contains(names[i]));
                }
            }
        } else {
            assert forall|k: Seq<char>| #[trigger] self.stats@.contains_key(k) <==> self.names().contains(k) by {
                assert(before.contains_key(k) == names.contains(k));
            }
        }
    }

    /// The statistics of each part, in the order the parts were first
    /// recorded.
    pub fn entries(&self) -> (r: Vec<(String, Stat)>)
        requires
            self.wf(),
        ensures
            r.len() == self.names().len(),
            forall|i: int|
                0 <= i < r.len() ==> (#[trigger] r@[i]).0@ == self.names()[i] && r@[i].1 == self.stats()[self.names()[i]],
    {
        let mut out: Vec<(String, Stat)> = Vec::new();
        let mut i: usize = 0;
        while i < self.names.len()
            invariant
                i <= self.names.len(),
                self.wf(),
                out.len() == i,
                forall|q: int|
                    0 <= q < i ==> (#[trigger] out@[q]).0@ == self.names()[q] && out@[q].1 == self.stats()[self.names()[q]],
            decreases self.names.len() - i,
        {
            let name = &self.names[i];
            assert(self.names()[i as int] == name@);
            assert(self.stats@.contains_key(name@));
            let stat = match self.stats.get(name.as_str()) {
                Some(s) => *s,
                None => Stat { total_ns: 0, calls: 0 },
            };
            out.push((name.clone(), stat));
            i = i + 1;
        }
        out
    }
}

/// A running measurement of a named part.
pub struct ScopeTimer {
    name: String,
    start: std::time::Instant,
}

impl ScopeTimer {
    /// The name of the part being measured.
    pub closed spec fn part(&self) -> Seq<char> {
        self.name@
    }

    /// Starts measuring part `name`.
    pub fn new(name: &str) -> (r: Self)
        ensures
            r.part() == name@,
    {
        ScopeTimer { name: name.to_owned(), start: now() }
    }

    /// Ends the measurement and records it in `profiler`.
    pub fn finish(self, profiler: &mut Profiler)
        requires
            old(profiler).wf(),
        ensures
            final(profiler).wf(),
            exists|nanos: u64| final(profiler).stats() == recorded(old(profiler).stats(), self.part(), nanos),
    {
        let nanos = as_nanos(&elapsed(&self.start));
        let n: u64 = if nanos > u64::MAX as u128 {
            #[verifier::truncate]
            (nanos as u64)
        } else {
            nanos as u64
        };
        profiler.record(self.name.as_str(), n);
        assert(profiler.stats() == recorded(old(profiler).stats(), self.part(), n));
    }
}

} // verus!
