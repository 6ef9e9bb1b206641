//! The simple `Latency Distribution` block: percentile labels to latencies.
use vstd::prelude::*;
use crate::decimal::{Decimal, Numeral};
use crate::text::{chars_of, same_chars};

verus! {

/// One line of the block, such as `99%  400.00ms`.
#[derive(Clone, Debug, PartialEq, Eq)]
pub struct DistributionEntry {
    /// The percentile label as the report writes it (`"50%"`, `"99.990%"`).
    pub label: String,
    /// The latency, in milliseconds.
    pub latency: Decimal,
}

/// A mapping from percentile labels to latencies. Well formed (`wf`) when
/// each label occurs once.
#[derive(Clone, Debug, PartialEq, Eq)]
pub struct LatencyDistribution {
    pub entries: Vec<DistributionEntry>,
}

/// The map that a sequence of pairs builds when each is inserted in turn:
/// a later pair replaces an earlier one with the same key.
pub open spec fn entries_map(es: Seq<(Seq<char>, Numeral)>) -> Map<Seq<char>, Numeral>
    decreases es.len(),
{
    if es.len() == 0 {
        Map::empty()
    } else {
        entries_map(es.drop_last()).insert(es.last().0, es.last().1)
    }
}

pub open spec fn distinct_keys(es: Seq<(Seq<char>, Numeral)>) -> bool {
    forall|i: int, j: int| 0 <= i < j < es.len() ==> es[i].0 != es[j].0
}

pub proof fn lemma_entries_map(es: Seq<(Seq<char>, Numeral)>)
    requires
        distinct_keys(es),
    ensures
        forall|i: int|
            0 <= i < es.len() ==> entries_map(es).contains_key(#[trigger] es[i].0)
                && entries_map(es)[es[i].0] == es[i].1,
        forall|k: Seq<char>|
            entries_map(es).contains_key(k) ==> exists|i: int| 0 <= i < es.len() && es[i].0 == k,
    decreases es.len(),
{
    if es.len() > 0 {
        let p = es.drop_last();
        assert(distinct_keys(p));
        lemma_entries_map(p);
        assert forall|i: int| 0 <= i < es.len() implies entries_map(es).contains_key(
            #[trigger] es[i].0,
        ) && entries_map(es)[es[i].0] == es[i].1 by {
            if i < es.len() - 1 {
                assert(p[i] == es[i]);
            }
        }
        assert forall|k: Seq<char>| entries_map(es).contains_key(k) implies exists|i: int|
            0 <= i < es.len() && es[i].0 == k by {
            if k != es.last().0 {
                assert(entries_map(p).contains_key(k));
                let i = choose|i: int| 0 <= i < p.len() && p[i].0 == k;
                assert(es[i] == p[i]);
            } else {
                assert(es[es.len() - 1].0 == k);
            }
        }
    }
}

pub proof fn lemma_entries_map_update(es: Seq<(Seq<char>, Numeral)>, j: int, v: Numeral)
    requires
        distinct_keys(es),
        0 <= j < es.len(),
    ensures
        entries_map(es.update(j, (es[j].0, v))) == entries_map(es).insert(es[j].0, v),
    decreases es.len(),
{
    let k = es[j].0;
    let u = es.update(j, (k, v));
    let p = es.drop_last();
    if j == es.len() - 1 {
        assert(u.drop_last() =~= p);
        assert(entries_map(u) =~= entries_map(es).insert(k, v));
    } else {
        assert(u.drop_last() =~= p.update(j, (k, v)));
        assert(distinct_keys(p));
        lemma_entries_map_update(p, j, v);
        assert(es.last().0 != k);
        assert(entries_map(u) =~= entries_map(es).insert(k, v));
    }
}

impl LatencyDistribution {
    pub open spec fn pairs(&self) -> Seq<(Seq<char>, Numeral)> {
        Seq::new(self.entries@.len(), |i: int| (self.entries@[i].label@, self.entries@[i].latency@))
    }

    pub open spec fn wf(&self) -> bool {
        distinct_keys(self.pairs()) && forall|i: int|
            0 <= i < self.entries@.len() ==> (#[trigger] self.entries@[i]).latency.wf()
    }

    pub fn new() -> (r: LatencyDistribution)
        ensures
            r@ == Map::<Seq<char>, Numeral>::empty(),
            r.wf(),
    {
        let r = LatencyDistribution { entries: Vec::new() };
        assert(r.pairs() =~= Seq::<(Seq<char>, Numeral)>::empty());
        r
    }

    /// The entries, each label once, in the order of their first insertion.
    pub fn entries(&self) -> (r: &Vec<DistributionEntry>)
        ensures
            r@ == self.entries@,
    {
        &self.entries
    }

    pub fn is_empty(&self) -> (r: bool)
        requires
            self.wf(),
        ensures
            r == (self@ == Map::<Seq<char>, Numeral>::empty()),
    {
        proof {
            lemma_entries_map(self.pairs());
            if self.entries@.len() > 0 {
                assert(self@.contains_key(self.pairs()[0].0));
            } else {
                assert(self.pairs() =~= Seq::<(Seq<char>, Numeral)>::empty());
            }
        }
        self.entries.len() == 0
    }

    /// Maps `label` to `latency`, replacing what it mapped to before.
    pub fn insert(&mut self, label: String, latency: Decimal)
        requires
            old(self).wf(),
            latency.wf(),
        ensures
            final(self).wf(),
            final(self)@ == old(self)@.insert(label@, latency@),
    {
        let ghost before = self.pairs();
        let key = chars_of(label.as_str());
        let mut i: usize = 0;
        while i < self.entries.len()
            invariant
                i <= self.entries@.len(),
                before == self.pairs(),
                distinct_keys(before),
                old(self).wf(),
                self.entries@ == old(self).entries@,
                latency.wf(),
                key@ == label@,
                forall|j: int| 0 <= j < i ==> before[j].0 != label@,
            decreases self.entries@.len() - i,
        {
            let k = chars_of(self.entries[i].label.as_str());
            if same_chars(&k, &key) {
                self.entries.set(i, DistributionEntry { label, latency });
                proof {
                    assert(before[i as int].0 == key@);
                    assert(self.pairs() =~= before.update(i as int, (before[i as int].0, latency@)));
                    lemma_entries_map_update(before, i as int, latency@);
                }
                return;
            }
            i = i + 1;
        }
        self.entries.push(DistributionEntry { label, latency });
        proof {
            assert(self.pairs() =~= before.push((label@, latency@)));
            assert(self.pairs().drop_last() =~= before);
            assert(self.entries@.last().latency.wf());
        }
    }

    /// The latency that `label` maps to.
    pub fn get(&self, label: &str) -> (r: Option<&Decimal>)
        requires
            self.wf(),
        ensures
            match r {
                Some(d) => self@.contains_key(label@) && d@ == self@[label@],
                None => !self@.contains_key(label@),
            },
    {
        let key = chars_of(label);
        let mut i: usize = 0;
        while i < self.entries.len()
            invariant
                i <= self.entries@.len(),
                key@ == label@,
                self.wf(),
                forall|j: int| 0 <= j < i ==> self.pairs()[j].0 != label@,
            decreases self.entries@.len() - i,
        {
            let k = chars_of(self.entries[i].label.as_str());
            if same_chars(&k, &key) {
                assert(self.pairs()[i as int].0 == label@);
                proof {
                    lemma_entries_map(self.pairs());
                }
                return Some(&self.entries[i].latency);
            }
            i = i + 1;
        }
        proof {
            lemma_entries_map(self.pairs());
        }
        None
    }
}

impl View for LatencyDistribution {
    type V = Map<Seq<char>, Numeral>;

    open spec fn view(&self) -> Map<Seq<char>, Numeral> {
        entries_map(self.pairs())
    }
}

} // verus!
