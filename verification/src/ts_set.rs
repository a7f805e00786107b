use vstd::prelude::*;

verus! {

/// A set of timestamps: the locks of these transactions are passed over by a
/// read.
#[derive(Debug, Clone, PartialEq, Eq)]
pub struct TsSet {
    ts: Vec<u64>,
}

impl View for TsSet {
    type V = Set<u64>;

    closed spec fn view(&self) -> Set<u64> {
        self.ts@.to_set()
    }
}

impl TsSet {
    /// The set of the timestamps in `ts`.
    pub fn new(ts: Vec<u64>) -> (set: TsSet)
        ensures
            set@ == ts@.to_set(),
    {
        TsSet { ts }
    }

    /// Whether `ts` is in the set.
    pub fn contains(&self, ts: u64) -> (found: bool)
        ensures
            found <==> self@.contains(ts),
    {
        let mut i: usize = 0;
        while i < self.ts.len()
            invariant
                i <= self.ts@.len(),
                forall|j: int| 0 <= j < i ==> self.ts@[j] != ts,
            decreases self.ts@.len() - i,
        {
            if self.ts[i] == ts {
                assert(self.ts@.contains(ts));
                return true;
            }
            i = i + 1;
        }
        assert(!self.ts@.contains(ts));
        false
    }
}

impl Default for TsSet {
    /// The empty set.
    fn default() -> (set: TsSet)
        ensures
            set@ == Set::<u64>::empty(),
    {
        let set = TsSet { ts: Vec::new() };
        assert(set.ts@.to_set() =~= Set::<u64>::empty());
        set
    }
}

} // verus!
