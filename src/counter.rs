//! Running item counts, each with the value it had before its last increment.
use vstd::prelude::*;

use crate::error::NgsLogActionError;
use crate::ngs_log::{NgsLog, NgsLogView, Timestamp};

verus! {

/// A count and the value it had just before its most recent increment.
#[derive(Clone, Copy, Debug, PartialEq, Eq, Structural)]
pub struct Counter {
    pub current: u32,
    pub prev: u32,
}

impl Counter {
    /// Orders two counters by their current value.
    pub fn cmp(&self, rhs: &Self) -> (r: core::cmp::Ordering)
        ensures
            r == (if self.current < rhs.current {
                core::cmp::Ordering::Less
            } else if self.current == rhs.current {
                core::cmp::Ordering::Equal
            } else {
                core::cmp::Ordering::Greater
            }),
    {
        if self.current < rhs.current {
            core::cmp::Ordering::Less
        } else if self.current == rhs.current {
            core::cmp::Ordering::Equal
        } else {
            core::cmp::Ordering::Greater
        }
    }

    /// Remembers the current value, then adds `rhs` to it.
    pub fn add_assign(&mut self, rhs: u32)
        requires
            old(self).current + rhs <= u32::MAX,
        ensures
            final(self).prev == old(self).current,
            final(self).current == old(self).current + rhs,
    {
        self.prev = self.current;
        self.current = self.current + rhs;
    }

    /// The counter passed a multiple of `every` with its last increment.
    pub fn crossed(&self, every: u32) -> (r: bool)
        requires
            every > 0,
        ensures
            r == (self.prev / every < self.current / every),
    {
        self.prev / every < self.current / every
    }
}

/// The item counts of the running session, in the order the items were
/// first counted, and when counting began.
pub struct ItemCounter {
    entries: Vec<(String, Counter)>,
    begin: Timestamp,
}

pub open spec fn entry_views(v: Seq<(String, Counter)>) -> Seq<(Seq<char>, Counter)> {
    v.map_values(|e: (String, Counter)| (e.0@, e.1))
}

/// No item name occurs twice.
pub open spec fn unique_names(s: Seq<(Seq<char>, Counter)>) -> bool {
    forall|i: int, j: int| 0 <= i < j < s.len() ==> (#[trigger] s[i]).0 != (#[trigger] s[j]).0
}

/// What a sequence of named counters holds, by name.
pub open spec fn counts_map(s: Seq<(Seq<char>, Counter)>) -> Map<Seq<char>, Counter>
    decreases s.len(),
{
    if s.len() == 0 {
        Map::empty()
    } else {
        counts_map(s.drop_last()).insert(s.last().0, s.last().1)
    }
}

/// The counter that `amount` more of an item leaves, from the one it had (a
/// fresh item starts at zero).
pub open spec fn incremented(m: Map<Seq<char>, Counter>, item: Seq<char>, amount: nat) -> Counter {
    let c = if m.contains_key(item) { m[item].current } else { 0 };
    Counter { prev: c, current: (c + amount) as u32 }
}

impl ItemCounter {
    pub closed spec fn items(&self) -> Seq<(Seq<char>, Counter)> {
        entry_views(self.entries@)
    }

    pub open spec fn counts(&self) -> Map<Seq<char>, Counter> {
        counts_map(self.items())
    }

    pub closed spec fn begin_time(&self) -> Timestamp {
        self.begin
    }

    pub open spec fn wf(&self) -> bool {
        unique_names(self.items())
    }

    /// An empty store whose counting began at `now`.
    pub fn new(now: Timestamp) -> (r: ItemCounter)
        ensures
            r.wf(),
            r.items().len() == 0,
            r.counts() == Map::<Seq<char>, Counter>::empty(),
            r.begin_time() == now,
    {
        let r = ItemCounter { entries: Vec::new(), begin: now };
        assert(r.items() =~= Seq::<(Seq<char>, Counter)>::empty());
        r
    }

    /// When counting began.
    pub fn begin(&self) -> (r: Timestamp)
        ensures
            r == self.begin_time(),
    {
        self.begin
    }

    /// The current value of `item`'s counter, zero when it was never counted.
    pub fn current_of(&self, item: &str) -> (r: u32)
        requires
            self.wf(),
        ensures
            r == (if self.counts().contains_key(item@) { self.counts()[item@].current } else { 0 }),
    {
        match self.position(item) {
            Some(i) => {
                proof {
                    lemma_counts_map_at(self.items(), i as int);
                }
                self.entries[i].1.current
            },
            None => {
                proof {
                    lemma_counts_map_absent(self.items(), item@);
                }
                0
            },
        }
    }

    fn position(&self, item: &str) -> (r: Option<usize>)
        ensures
            match r {
                Some(i) => i < self.items().len() && self.items()[i as int].0 == item@,
                None => forall|k: int| 0 <= k < self.items().len() ==> (#[trigger] self.items()[k]).0 != item@,
            },
    {
        let key = item.to_owned();
        let mut i: usize = 0;
        while i < self.entries.len()
            invariant
                i <= self.entries@.len(),
                key@ == item@,
                forall|k: int| 0 <= k < i ==> (#[trigger] self.items()[k]).0 != item@,
            decreases self.entries@.len() - i,
        {
            assert(self.items()[i as int] == (self.entries@[i as int].0@, self.entries@[i as int].1));
            if self.entries[i].0 == key {
                return Some(i);
            }
            i = i + 1;
        }
        None
    }

    /// Adds `amount` to `item`'s counter, creating it at zero first when the
    /// item was never counted; the counter's previous value is kept.
    pub fn increment(&mut self, item: &str, amount: u32)
        requires
            old(self).wf(),
            (if old(self).counts().contains_key(item@) { old(self).counts()[item@].current as nat } else { 0 }) + amount
                <= u32::MAX,
        ensures
            final(self).wf(),
            final(self).counts() == old(self).counts().insert(item@, incremented(old(self).counts(), item@, amount as nat)),
            final(self).begin_time() == old(self).begin_time(),
    {
        let ghost before = self.items();
        match self.position(item) {
            Some(i) => {
                proof {
                    lemma_counts_map_at(before, i as int);
                }
                let mut c = self.entries[i].1;
                c.add_assign(amount);
                let name = self.entries[i].0.clone();
                self.entries.set(i, (name, c));
                assert(self.items() =~= before.update(i as int, (item@, c)));
                proof {
                    lemma_counts_map_update(before, i as int, c);
                }
            },
            None => {
                proof {
                    lemma_counts_map_absent(before, item@);
                }
                let c = Counter { prev: 0, current: amount };
                self.entries.push((item.to_owned(), c));
                assert(self.items() =~= before.push((item@, c)));
                assert(self.items().drop_last() =~= before);
            },
        }
        assert(self.counts() =~= old(self).counts().insert(item@, incremented(old(self).counts(), item@, amount as nat)));
    }

    /// Counts an item entry by its count; a chat entry changes nothing.
    /// Fails, changing nothing, when the count would pass the largest `u32`.
    pub fn count(&mut self, log: &NgsLog) -> (r: Result<(), NgsLogActionError>)
        requires
            old(self).wf(),
        ensures
            final(self).wf(),
            final(self).begin_time() == old(self).begin_time(),
            match log@ {
                NgsLogView::Chat(_) => r is Ok && final(self).counts() == old(self).counts(),
                NgsLogView::Item(l) => {
                    let had = if old(self).counts().contains_key(l.item) { old(self).counts()[l.item].current as nat } else { 0 };
                    if had + l.count > u32::MAX {
                        r == Err::<(), NgsLogActionError>(NgsLogActionError::CounterOverflow)
                            && final(self).counts() == old(self).counts()
                    } else {
                        r is Ok && final(self).counts() == old(self).counts().insert(
                            l.item,
                            incremented(old(self).counts(), l.item, l.count as nat),
                        )
                    }
                },
            },
    {
        match log {
            NgsLog::ChatLog(_) => Ok(()),
            NgsLog::ItemLog(l) => {
                let had = self.current_of(l.item.as_str());
                if had as u64 + l.count as u64 > u32::MAX as u64 {
                    Err(NgsLogActionError::CounterOverflow)
                } else {
                    self.increment(l.item.as_str(), l.count);
                    Ok(())
                }
            },
        }
    }

    /// Forgets every count and starts counting again at `now`.
    pub fn reset(&mut self, now: Timestamp)
        ensures
            final(self).wf(),
            final(self).items().len() == 0,
            final(self).counts() == Map::<Seq<char>, Counter>::empty(),
            final(self).begin_time() == now,
    {
        self.entries = Vec::new();
        self.begin = now;
        assert(self.items() =~= Seq::<(Seq<char>, Counter)>::empty());
    }

    /// A copy of every named counter, in the order the items were first counted.
    pub fn snapshot(&self) -> (r: Vec<(String, Counter)>)
        ensures
            entry_views(r@) == self.items(),
    {
        let mut out: Vec<(String, Counter)> = Vec::new();
        let mut i: usize = 0;
        while i < self.entries.len()
            invariant
                i <= self.entries@.len(),
                out@.len() == i,
                entry_views(out@) == self.items().take(i as int),
            decreases self.entries@.len() - i,
        {
            let e = &self.entries[i];
            let name = e.0.clone();
            out.push((name, e.1));
            assert(self.items()[i as int] == (self.entries@[i as int].0@, self.entries@[i as int].1));
            assert(entry_views(out@)[i as int] == (name@, e.1));
            assert(entry_views(out@) =~= self.items().take(i + 1));
            i = i + 1;
        }
        assert(self.items().take(i as int) =~= self.items());
        out
    }
}

proof fn lemma_counts_map_at(s: Seq<(Seq<char>, Counter)>, i: int)
    requires
        unique_names(s),
        0 <= i < s.len(),
    ensures
        counts_map(s).contains_key(s[i].0),
        counts_map(s)[s[i].0] == s[i].1,
    decreases s.len(),
{
    if i < s.len() - 1 {
        lemma_counts_map_at(s.drop_last(), i);
        assert(s.drop_last()[i] == s[i]);
        assert(s[i].0 != s[s.len() - 1].0);
    }
}

proof fn lemma_counts_map_absent(s: Seq<(Seq<char>, Counter)>, k: Seq<char>)
    requires
        forall|j: int| 0 <= j < s.len() ==> (#[trigger] s[j]).0 != k,
    ensures
        !counts_map(s).contains_key(k),
    decreases s.len(),
{
    if s.len() > 0 {
        assert forall|j: int| 0 <= j < s.drop_last().len() implies (#[trigger] s.drop_last()[j]).0 != k by {
            assert(s.drop_last()[j] == s[j]);
        }
        lemma_counts_map_absent(s.drop_last(), k);
    }
}

proof fn lemma_counts_map_update(s: Seq<(Seq<char>, Counter)>, i: int, c: Counter)
    requires
        unique_names(s),
        0 <= i < s.len(),
    ensures
        unique_names(s.update(i, (s[i].0, c))),
        counts_map(s.update(i, (s[i].0, c))) == counts_map(s).insert(s[i].0, c),
    decreases s.len(),
{
    let t = s.update(i, (s[i].0, c));
    assert(unique_names(t)) by {
        assert forall|a: int, b: int| 0 <= a < b < t.len() implies (#[trigger] t[a]).0 != (#[trigger] t[b]).0 by {
            assert(t[a].0 == s[a].0);
            assert(t[b].0 == s[b].0);
        }
    }
    if i == s.len() - 1 {
        assert(t.drop_last() =~= s.drop_last());
        assert forall|j: int| 0 <= j < s.drop_last().len() implies (#[trigger] s.drop_last()[j]).0 != s[i].0 by {
            assert(s.drop_last()[j] == s[j]);
        }
        lemma_counts_map_absent(s.drop_last(), s[i].0);
        assert(counts_map(t) =~= counts_map(s).insert(s[i].0, c));
    } else {
        let d = s.drop_last();
        assert(unique_names(d)) by {
            assert forall|a: int, b: int| 0 <= a < b < d.len() implies (#[trigger] d[a]).0 != (#[trigger] d[b]).0 by {
                assert(d[a] == s[a]);
                assert(d[b] == s[b]);
            }
        }
        lemma_counts_map_update(d, i, c);
        assert(t.drop_last() =~= d.update(i, (d[i].0, c)));
        assert(s[i].0 != s.last().0);
        assert(counts_map(t) =~= counts_map(s).insert(s[i].0, c));
    }
}

} // verus!
