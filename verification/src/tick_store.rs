//! The tick store: an ordered map from tick index to tick record, kept as a
//! vector sorted by index, with point lookup, insertion, deletion and
//! nearest-neighbour queries.

use vstd::prelude::*;
use scrypto::prelude::PreciseDecimal;

verus! {

/// One initialized tick of the price grid.
///
/// `delta_liquidity` is the signed net liquidity applied when the price
/// crosses this tick moving left to right; `total_liquidity` is the unsigned
/// gross liquidity resting on the tick, used only for the capacity cap.  The
/// `*_outside` accumulators record the value of the matching global
/// accumulator on the far side of the tick, and are flipped to
/// `global - old` on every crossing.
#[derive(Clone, Copy)]
pub struct Tick {
    pub index: i32,
    pub delta_liquidity: PreciseDecimal,
    pub total_liquidity: PreciseDecimal,
    pub price_sqrt: PreciseDecimal,
    pub x_fee_outside: PreciseDecimal,
    pub y_fee_outside: PreciseDecimal,
    pub seconds_outside: u64,
}

/// The outside accumulators of a tick right after a crossing, kept for the
/// audit trail of a swap.
#[derive(Clone, Copy)]
pub struct TickOutside {
    pub index: i32,
    pub x_fee: PreciseDecimal,
    pub y_fee: PreciseDecimal,
    pub seconds: u64,
}

/// An ordered map from tick index to tick, sorted ascending by index.
pub struct TickStore {
    pub entries: Vec<Tick>,
}

impl TickStore {
    /// The stored ticks in ascending index order.
    pub open spec fn view(self) -> Seq<Tick> {
        self.entries@
    }

    /// Indices are strictly increasing along the vector.
    pub open spec fn sorted(self) -> bool {
        forall|i: int, j: int|
            0 <= i < j < self.view().len()
                ==> #[trigger] self.view()[i].index < #[trigger] self.view()[j].index
    }

    /// Whether some stored tick has this index.
    pub open spec fn contains_index(self, tick_index: int) -> bool {
        exists|i: int| 0 <= i < self.view().len() && #[trigger] self.view()[i].index == tick_index
    }

    /// An empty store.
    pub fn new() -> (r: TickStore)
        ensures
            r.view() =~= Seq::<Tick>::empty(),
            r.sorted(),
    {
        TickStore { entries: Vec::new() }
    }

    /// The number of stored ticks.
    pub fn len(&self) -> (r: usize)
        ensures
            r == self.view().len(),
    {
        self.entries.len()
    }

    /// The position of the tick with this index, if it is stored.
    #[verifier::loop_isolation(false)]
    pub fn find(&self, tick_index: i32) -> (r: Option<usize>)
        ensures
            match r {
                Some(i) => i < self.view().len() && self.view()[i as int].index == tick_index,
                None => !self.contains_index(tick_index as int),
            },
    {
        let n = self.entries.len();
        let mut i: usize = 0;
        while i < n
            invariant
                n == self.view().len(),
                i <= n,
                forall|j: int| 0 <= j < i ==> #[trigger] self.view()[j].index != tick_index,
            decreases n - i,
        {
            if self.entries[i].index == tick_index {
                return Some(i);
            }
            i = i + 1;
        }
        None
    }

    /// A copy of the tick with this index, if it is stored.
    pub fn get(&self, tick_index: i32) -> (r: Option<Tick>)
        ensures
            match r {
                Some(t) => exists|i: int|
                    0 <= i < self.view().len() && self.view()[i] == t && #[trigger] self.view()[i].index == tick_index,
                None => !self.contains_index(tick_index as int),
            },
    {
        match self.find(tick_index) {
            Some(i) => Some(self.entries[i]),
            None => None,
        }
    }

    /// Inserts a tick whose index is not yet stored, keeping the order.
    #[verifier::loop_isolation(false)]
    pub fn insert(&mut self, tick: Tick) -> (position: usize)
        requires
            old(self).sorted(),
            !old(self).contains_index(tick.index as int),
            old(self).view().len() < usize::MAX,
        ensures
            final(self).view() =~= old(self).view().insert(position as int, tick),
            position <= old(self).view().len(),
            final(self).sorted(),
            forall|j: int| 0 <= j < position ==> #[trigger] old(self).view()[j].index < tick.index,
            forall|j: int|
                position <= j < old(self).view().len()
                    ==> tick.index < #[trigger] old(self).view()[j].index,
    {
        let n = self.entries.len();
        let mut i: usize = 0;
        while i < n && self.entries[i].index < tick.index
            invariant
                n == self.view().len(),
                i <= n,
                forall|j: int| 0 <= j < i ==> #[trigger] self.view()[j].index < tick.index,
            decreases n - i,
        {
            i = i + 1;
        }
        proof {
            if i < n {
                assert(self.view()[i as int].index != tick.index) by {
                    if self.view()[i as int].index == tick.index {
                        assert(self.contains_index(tick.index as int));
                    }
                }
            }
        }
        proof {
            assert forall|j: int| i <= j < self.view().len() implies tick.index
                < #[trigger] self.view()[j].index by {
                assert(self.view()[i as int].index <= self.view()[j].index);
            }
        }
        let ghost olds = self.view();
        self.entries.insert(i, tick);
        proof {
            olds.insert_ensures(i as int, tick);
            let s = self.view();
            assert forall|a: int, b: int| 0 <= a < b < s.len() implies #[trigger] s[a].index
                < #[trigger] s[b].index by {
                if b < i {
                    assert(s[a] == olds[a] && s[b] == olds[b]);
                } else if a < i && b == i {
                    assert(s[a] == olds[a] && s[b] == tick);
                } else if a < i && b > i {
                    assert(s[a] == olds[a] && s[b] == olds[b - 1]);
                } else if a == i {
                    assert(s[a] == tick && s[b] == olds[b - 1]);
                } else {
                    assert(s[a] == olds[a - 1] && s[b] == olds[b - 1]);
                }
            }
        }
        i
    }

    /// Removes and returns the tick with this index, if it is stored.
    pub fn remove(&mut self, tick_index: i32) -> (r: Option<Tick>)
        requires
            old(self).sorted(),
        ensures
            match r {
                Some(t) => {
                    &&& t.index == tick_index
                    &&& exists|i: int|
                        0 <= i < old(self).view().len() && old(self).view()[i] == t
                            && final(self).view() =~= old(self).view().remove(i)
                },
                None => {
                    &&& !old(self).contains_index(tick_index as int)
                    &&& final(self).view() =~= old(self).view()
                },
            },
            final(self).sorted(),
            !final(self).contains_index(tick_index as int),
    {
        match self.find(tick_index) {
            Some(i) => {
                let ghost olds = self.view();
                let t = self.entries.remove(i);
                proof {
                    olds.remove_ensures(i as int);
                    let s = self.view();
                    assert forall|a: int, b: int| 0 <= a < b < s.len() implies #[trigger] s[a].index
                        < #[trigger] s[b].index by {
                        if b < i {
                            assert(s[a] == olds[a] && s[b] == olds[b]);
                        } else if a < i {
                            assert(s[a] == olds[a] && s[b] == olds[b + 1]);
                        } else {
                            assert(s[a] == olds[a + 1] && s[b] == olds[b + 1]);
                        }
                    }
                    assert forall|a: int| 0 <= a < s.len() implies #[trigger] s[a].index
                        != tick_index by {
                        if a < i {
                            assert(s[a] == olds[a]);
                            assert(olds[a].index < olds[i as int].index);
                        } else {
                            assert(s[a] == olds[a + 1]);
                            assert(olds[i as int].index < olds[a + 1].index);
                        }
                    }
                }
                Some(t)
            },
            None => None,
        }
    }


    /// The position of the tick with this index, as a mathematical value.
    pub open spec fn index_position(self, tick_index: int) -> int {
        choose|i: int| 0 <= i < self.view().len() && #[trigger] self.view()[i].index == tick_index
    }

    /// The stored tick with this index, as a mathematical value.
    pub open spec fn spec_get(self, tick_index: int) -> Option<Tick> {
        if self.contains_index(tick_index) {
            Some(self.view()[self.index_position(tick_index)])
        } else {
            None
        }
    }

    /// In a sorted store at most one position holds an index.
    pub proof fn lemma_unique_index(self, tick_index: int)
        requires
            self.sorted(),
        ensures
            forall|i: int|
                0 <= i < self.view().len() && #[trigger] self.view()[i].index == tick_index
                    ==> self.contains_index(tick_index)
                        && i == self.index_position(tick_index),
    {
        assert forall|i: int|
            0 <= i < self.view().len() && #[trigger] self.view()[i].index == tick_index
                implies self.contains_index(tick_index) && i == self.index_position(tick_index) by {
            let j = self.index_position(tick_index);
            if i != j {
                if i < j {
                    assert(self.view()[i].index < self.view()[j].index);
                } else {
                    assert(self.view()[j].index < self.view()[i].index);
                }
            }
        }
    }

    /// An element-wise copy of the store, for compute-then-commit
    /// operations.
    pub fn duplicate(&self) -> (r: TickStore)
        ensures
            r.view() =~= self.view(),
    {
        let n = self.entries.len();
        let mut entries: Vec<Tick> = Vec::new();
        let mut i: usize = 0;
        while i < n
            invariant
                i <= n,
                n == self.view().len(),
                entries@ =~= self.view().take(i as int),
            decreases n - i,
        {
            entries.push(self.entries[i]);
            proof {
                assert(entries@ =~= self.view().take(i + 1));
            }
            i = i + 1;
        }
        proof {
            assert(self.view().take(n as int) =~= self.view());
        }
        TickStore { entries }
    }

    /// The position of the greatest stored tick at or below the bound, if
    /// any tick lies there.
    #[verifier::loop_isolation(false)]
    pub fn prev_at_or_below(&self, bound: i32) -> (r: Option<usize>)
        requires
            self.sorted(),
        ensures
            match r {
                Some(i) => {
                    &&& i < self.view().len()
                    &&& self.view()[i as int].index <= bound
                    &&& forall|j: int|
                        i < j < self.view().len() ==> bound < #[trigger] self.view()[j].index
                },
                None => forall|j: int|
                    0 <= j < self.view().len() ==> bound < #[trigger] self.view()[j].index,
            },
    {
        let n = self.entries.len();
        let mut i: usize = 0;
        let mut best: Option<usize> = None;
        while i < n
            invariant
                n == self.view().len(),
                i <= n,
                self.sorted(),
                match best {
                    Some(b) => {
                        &&& b < i
                        &&& self.view()[b as int].index <= bound
                        &&& forall|j: int| b < j < i ==> bound < #[trigger] self.view()[j].index
                    },
                    None => forall|j: int| 0 <= j < i ==> bound < #[trigger] self.view()[j].index,
                },
            decreases n - i,
        {
            if self.entries[i].index <= bound {
                best = Some(i);
            }
            i = i + 1;
        }
        best
    }

    /// The position of the least stored tick strictly above the bound, if
    /// any tick lies there.
    #[verifier::loop_isolation(false)]
    pub fn first_above(&self, bound: i32) -> (r: Option<usize>)
        requires
            self.sorted(),
        ensures
            match r {
                Some(i) => {
                    &&& i < self.view().len()
                    &&& bound < self.view()[i as int].index
                    &&& forall|j: int| 0 <= j < i ==> #[trigger] self.view()[j].index <= bound
                },
                None => forall|j: int|
                    0 <= j < self.view().len() ==> #[trigger] self.view()[j].index <= bound,
            },
    {
        let n = self.entries.len();
        let mut i: usize = 0;
        while i < n
            invariant
                n == self.view().len(),
                i <= n,
                self.sorted(),
                forall|j: int| 0 <= j < i ==> #[trigger] self.view()[j].index <= bound,
            decreases n - i,
        {
            if self.entries[i].index > bound {
                return Some(i);
            }
            i = i + 1;
        }
        None
    }
}

} // verus!
