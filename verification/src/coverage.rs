use vstd::prelude::*;

use crate::types::clone_types;
use crate::types::seq_model;
use crate::types::Type;
use crate::types::TypeModel;

verus! {

/// One trace token: the program counter of an executed instruction.
#[derive(Debug, Clone, Copy, PartialEq, Eq, Structural, Hash)]
pub struct CoverageData {
    pub pc: u64,
}

/// Model of a coverage record: the inputs that produced the trace, and the
/// trace itself as a sequence of program counters.
#[verifier::ext_equal]
pub struct CoverageModel {
    pub inputs: Seq<TypeModel>,
    pub pcs: Seq<u64>,
}

/// The instruction trace of one execution, paired with the inputs that
/// produced it. Identity is over the trace alone: two records with the same
/// program-counter sequence are the same coverage class, whichever inputs
/// produced them.
#[derive(Debug)]
pub struct Coverage {
    pub inputs: Vec<Type>,
    pub data: Vec<CoverageData>,
}

/// The trace of a coverage record, as plain integers.
pub open spec fn pcs_of(data: Seq<CoverageData>) -> Seq<u64> {
    data.map_values(|d: CoverageData| d.pc)
}

/// Raw trace tokens widened to the trace representation.
pub open spec fn widen_pcs(s: Seq<u16>) -> Seq<u64> {
    s.map_values(|p: u16| p as u64)
}

impl View for Coverage {
    type V = CoverageModel;

    open spec fn view(&self) -> CoverageModel {
        CoverageModel { inputs: seq_model(self.inputs@), pcs: pcs_of(self.data@) }
    }
}

impl Clone for Coverage {
    /// A clone has the same inputs and the same trace as the original.
    #[verifier::loop_isolation(false)]
    fn clone(&self) -> (r: Coverage)
        ensures
            r@ == self@,
    {
        let inputs = clone_types(&self.inputs);
        let mut data: Vec<CoverageData> = Vec::new();
        let mut i: usize = 0;
        while i < self.data.len()
            invariant
                i <= self.data@.len(),
                data@ == self.data@.take(i as int),
            decreases self.data@.len() - i,
        {
            data.push(self.data[i]);
            proof {
                assert(data@ =~= self.data@.take(i as int + 1));
            }
            i += 1;
        }
        proof {
            assert(self.data@.take(self.data@.len() as int) =~= self.data@);
        }
        let r = Coverage { inputs, data };
        proof {
            assert(r@ =~= self@);
        }
        r
    }
}

impl Coverage {
    /// Builds a coverage record from raw trace tokens.
    #[verifier::loop_isolation(false)]
    pub fn from_pcs(inputs: Vec<Type>, pcs: Vec<u16>) -> (r: Coverage)
        ensures
            r@.inputs == seq_model(inputs@),
            r@.pcs == widen_pcs(pcs@),
    {
        let mut data: Vec<CoverageData> = Vec::new();
        let mut i: usize = 0;
        while i < pcs.len()
            invariant
                i <= pcs@.len(),
                data@.len() == i,
                forall|k: int| 0 <= k < i ==> (#[trigger] data@[k]).pc == pcs@[k] as u64,
            decreases pcs@.len() - i,
        {
            data.push(CoverageData { pc: pcs[i] as u64 });
            i += 1;
        }
        let r = Coverage { inputs, data };
        proof {
            assert(r@.pcs =~= widen_pcs(pcs@));
        }
        r
    }
}

/// Whether two coverage records are the same coverage class: equality over
/// the trace alone.
#[verifier::loop_isolation(false)]
    pub fn coverage_eq(a: &Coverage, b: &Coverage) -> (r: bool)
    ensures
        r == (a@.pcs == b@.pcs),
{
    if a.data.len() != b.data.len() {
        proof {
            assert(a@.pcs.len() != b@.pcs.len());
        }
        return false;
    }
    let mut i: usize = 0;
    while i < a.data.len()
        invariant
            i <= a.data@.len(),
            a.data@.len() == b.data@.len(),
            forall|j: int| 0 <= j < i ==> a@.pcs[j] == b@.pcs[j],
        decreases a.data@.len() - i,
    {
        if a.data[i].pc != b.data[i].pc {
            proof {
                assert(a@.pcs[i as int] != b@.pcs[i as int]);
            }
            return false;
        }
        i += 1;
    }
    proof {
        assert(a@.pcs =~= b@.pcs);
    }
    true
}

/// The models of a sequence of coverage records.
pub open spec fn coverage_models(s: Seq<Coverage>) -> Seq<CoverageModel> {
    s.map_values(|c: Coverage| c@)
}

/// A set of coverage records, at most one per coverage class. The retained
/// record of a class is the first one observed.
#[derive(Debug)]
pub struct CoverageSet {
    items: Vec<Coverage>,
}

impl View for CoverageSet {
    type V = Seq<CoverageModel>;

    closed spec fn view(&self) -> Seq<CoverageModel> {
        coverage_models(self.items@)
    }
}

impl CoverageSet {
    /// At most one record per trace.
    pub open spec fn wf(&self) -> bool {
        forall|i: int, j: int|
            0 <= i < j < self@.len() ==> (#[trigger] self@[i]).pcs != (#[trigger] self@[j]).pcs
    }

    /// Whether some record of a model sequence has this trace.
    pub open spec fn seq_contains_pcs(s: Seq<CoverageModel>, p: Seq<u64>) -> bool {
        exists|i: int| 0 <= i < s.len() && (#[trigger] s[i]).pcs == p
    }

    /// Appending a record adds exactly its own trace to the held classes.
    pub proof fn lemma_contains_pcs_push(s: Seq<CoverageModel>, x: CoverageModel, p: Seq<u64>)
        ensures
            Self::seq_contains_pcs(s.push(x), p) == (Self::seq_contains_pcs(s, p) || x.pcs == p),
    {
        if Self::seq_contains_pcs(s.push(x), p) {
            let i = choose|i: int| 0 <= i < s.push(x).len() && s.push(x)[i].pcs == p;
            if i < s.len() {
                assert(s[i] == s.push(x)[i]);
                assert(Self::seq_contains_pcs(s, p));
            } else {
                assert(s.push(x)[i] == x);
            }
        }
        if Self::seq_contains_pcs(s, p) {
            let i = choose|i: int| 0 <= i < s.len() && s[i].pcs == p;
            assert(s.push(x)[i] == s[i]);
            assert(Self::seq_contains_pcs(s.push(x), p));
        }
        if x.pcs == p {
            assert(s.push(x)[s.len() as int].pcs == p);
            assert(Self::seq_contains_pcs(s.push(x), p));
        }
    }

    /// Whether some record of the set has this trace.
    pub open spec fn contains_pcs(&self, p: Seq<u64>) -> bool {
        Self::seq_contains_pcs(self@, p)
    }

    /// The traces of the set, as an abstract set.
    pub open spec fn pcs_set(&self) -> Set<Seq<u64>> {
        Set::new(|p: Seq<u64>| self.contains_pcs(p))
    }

    /// An empty set.
    pub fn new() -> (r: CoverageSet)
        ensures
            r@ == Seq::<CoverageModel>::empty(),
            r.wf(),
    {
        CoverageSet { items: Vec::new() }
    }

    /// How many coverage classes the set holds.
    pub fn len(&self) -> (r: usize)
        ensures
            r == self@.len(),
    {
        self.items.len()
    }

    /// The record at a position, in insertion order.
    pub fn get(&self, i: usize) -> (r: &Coverage)
        requires
            i < self@.len(),
        ensures
            r@ == self@[i as int],
    {
        &self.items[i]
    }

    /// Whether the set already holds this record's coverage class.
    #[verifier::loop_isolation(false)]
    pub fn contains(&self, c: &Coverage) -> (r: bool)
        ensures
            r == self.contains_pcs(c@.pcs),
    {
        let mut i: usize = 0;
        while i < self.items.len()
            invariant
                i <= self.items@.len(),
                forall|j: int| 0 <= j < i ==> (#[trigger] self@[j]).pcs != c@.pcs,
            decreases self.items@.len() - i,
        {
            if coverage_eq(&self.items[i], c) {
                proof {
                    assert(self@[i as int].pcs == c@.pcs);
                }
                return true;
            }
            i += 1;
        }
        false
    }

    /// Inserts a record unless its coverage class is already represented;
    /// reports whether it was added. A duplicate changes nothing, so the
    /// first observed input of a class is the one retained.
    pub fn insert(&mut self, c: Coverage) -> (added: bool)
        requires
            old(self).wf(),
        ensures
            final(self).wf(),
            added == !old(self).contains_pcs(c@.pcs),
            added ==> final(self)@ == old(self)@.push(c@),
            !added ==> final(self)@ == old(self)@,
    {
        if self.contains(&c) {
            false
        } else {
            proof {
                let ghost before = self@;
                assert(coverage_models(self.items@.push(c)) =~= before.push(c@));
            }
            self.items.push(c);
            true
        }
    }

    /// A copy of the whole set, record for record.
    #[verifier::loop_isolation(false)]
    pub fn duplicate(&self) -> (r: CoverageSet)
        ensures
            r@ == self@,
    {
        let mut items: Vec<Coverage> = Vec::new();
        let mut i: usize = 0;
        while i < self.items.len()
            invariant
                i <= self.items@.len(),
                coverage_models(items@) == self@.take(i as int),
            decreases self.items@.len() - i,
        {
            items.push(self.items[i].clone());
            proof {
                assert(coverage_models(items@) =~= self@.take(i as int + 1));
            }
            i += 1;
        }
        proof {
            assert(self@.take(self@.len() as int) =~= self@);
        }
        let r = CoverageSet { items };
        proof {
            assert(r@ =~= self@);
        }
        r
    }

    /// Adopts every record of `other` whose coverage class is new; existing
    /// classes are left as they are, so the set only grows.
    #[verifier::loop_isolation(false)]
    pub fn merge(&mut self, other: &CoverageSet)
        requires
            old(self).wf(),
        ensures
            final(self).wf(),
            final(self)@.take(old(self)@.len() as int) == old(self)@,
            old(self)@.len() <= final(self)@.len(),
            forall|p: Seq<u64>|
                #[trigger] final(self).contains_pcs(p) == (old(self).contains_pcs(p)
                    || other.contains_pcs(p)),
            forall|i: int|
                old(self)@.len() <= i < final(self)@.len() ==> other@.contains(
                    #[trigger] final(self)@[i],
                ),
    {
        let ghost before = self@;
        let mut j: usize = 0;
        while j < other.items.len()
            invariant
                j <= other.items@.len(),
                self.wf(),
                self@.take(before.len() as int) == before,
                before.len() <= self@.len(),
                forall|p: Seq<u64>|
                    #[trigger] CoverageSet::seq_contains_pcs(self@, p) == (
                    CoverageSet::seq_contains_pcs(before, p) || CoverageSet::seq_contains_pcs(
                        other@.take(j as int),
                        p,
                    )),
                forall|i: int|
                    before.len() <= i < self@.len() ==> other@.contains(#[trigger] self@[i]),
            decreases other.items@.len() - j,
        {
            let c = other.get(j);
            let dup = c.clone();
            let ghost seen = self@;
            let added = self.insert(dup);
            proof {
                assert(other@[j as int] == c@);
                if added {
                    assert(self@.take(before.len() as int) =~= seen.take(before.len() as int));
                }
                assert forall|p: Seq<u64>| #[trigger]
                    CoverageSet::seq_contains_pcs(self@, p) == (CoverageSet::seq_contains_pcs(
                    before,
                    p,
                ) || CoverageSet::seq_contains_pcs(other@.take(j as int + 1), p)) by {
                    assert(CoverageSet::seq_contains_pcs(seen, p)
                        == (CoverageSet::seq_contains_pcs(before, p)
                        || CoverageSet::seq_contains_pcs(other@.take(j as int), p)));
                    assert(other@.take(j as int + 1) =~= other@.take(j as int).push(
                        other@[j as int],
                    ));
                    CoverageSet::lemma_contains_pcs_push(
                        other@.take(j as int),
                        other@[j as int],
                        p,
                    );
                    if added {
                        CoverageSet::lemma_contains_pcs_push(seen, c@, p);
                    }
                }
            }
            j += 1;
        }
        proof {
            assert(other@.take(other@.len() as int) =~= other@);
            assert forall|p: Seq<u64>| #[trigger]
                self.contains_pcs(p) == (old(self).contains_pcs(p) || other.contains_pcs(p)) by {
                assert(CoverageSet::seq_contains_pcs(self@, p)
                    == (CoverageSet::seq_contains_pcs(before, p)
                    || CoverageSet::seq_contains_pcs(other@.take(other@.len() as int), p)));
            }
        }
    }

    /// Coverage de-duplication: a well-formed set holds at most one
    /// representative per coverage class, whatever order records arrived
    /// in.
    pub proof fn lemma_one_representative_per_class(set: &CoverageSet, i: int, j: int)
        requires
            set.wf(),
            0 <= i < j < set@.len(),
        ensures
            set@[i].pcs != set@[j].pcs,
    {
    }

    /// A class is held by a filtered record sequence exactly when some
    /// record passing the filter holds it.
    pub proof fn lemma_filter_membership(
        s: Seq<CoverageModel>,
        pred: spec_fn(CoverageModel) -> bool,
        p: Seq<u64>,
    )
        ensures
            Self::seq_contains_pcs(s.filter(pred), p) == exists|i: int|
                0 <= i < s.len() && (#[trigger] s[i]).pcs == p && pred(s[i]),
        decreases s.len(),
    {
        reveal(Seq::filter);
        if s.len() == 0 {
        } else {
            let q = s.drop_last();
            Self::lemma_filter_membership(q, pred, p);
            if pred(s.last()) {
                Self::lemma_contains_pcs_push(q.filter(pred), s.last(), p);
            }
            assert forall|i: int|
                0 <= i < s.len() && (#[trigger] s[i]).pcs == p && pred(s[i]) implies
                Self::seq_contains_pcs(s.filter(pred), p) by {
                if i < s.len() - 1 {
                    assert(q[i] == s[i]);
                    assert(Self::seq_contains_pcs(q.filter(pred), p));
                    if pred(s.last()) {
                    } else {
                        assert(s.filter(pred) == q.filter(pred));
                    }
                }
            }
            if Self::seq_contains_pcs(s.filter(pred), p) {
                if pred(s.last()) && s.last().pcs == p {
                } else {
                    if pred(s.last()) {
                        assert(Self::seq_contains_pcs(q.filter(pred), p));
                    }
                    if Self::seq_contains_pcs(q.filter(pred), p) {
                        let i = choose|i: int|
                            0 <= i < q.len() && (#[trigger] q[i]).pcs == p && pred(q[i]);
                        assert(s[i] == q[i]);
                    }
                }
            }
        }
    }

    /// The records of this set whose coverage class `other` does not hold,
    /// in order: what the coordinator sends back to a requesting worker.
    #[verifier::loop_isolation(false)]
    pub fn difference(&self, other: &CoverageSet) -> (r: CoverageSet)
        ensures
            r@ == self@.filter(|c: CoverageModel| !other.contains_pcs(c.pcs)),
            forall|p: Seq<u64>|
                #[trigger] r.contains_pcs(p) == (self.contains_pcs(p) && !other.contains_pcs(p)),
    {
        let mut items: Vec<Coverage> = Vec::new();
        let mut i: usize = 0;
        proof {
            reveal(Seq::filter);
        }
        while i < self.items.len()
            invariant
                i <= self.items@.len(),
                coverage_models(items@) == self@.take(i as int).filter(
                    |c: CoverageModel| !other.contains_pcs(c.pcs),
                ),
            decreases self.items@.len() - i,
        {
            let c = &self.items[i];
            let keep = !other.contains(c);
            if keep {
                items.push(c.clone());
            }
            proof {
                reveal(Seq::filter);
                let pred = |c: CoverageModel| !other.contains_pcs(c.pcs);
                let t1 = self@.take(i as int + 1);
                assert(t1.drop_last() =~= self@.take(i as int));
                assert(t1.last() == self@[i as int]);
                if keep {
                    assert(coverage_models(items@) =~= self@.take(i as int).filter(pred).push(
                        self@[i as int],
                    ));
                }
                assert(coverage_models(items@) =~= t1.filter(pred));
            }
            i += 1;
        }
        proof {
            assert(self@.take(self@.len() as int) =~= self@);
        }
        let r = CoverageSet { items };
        proof {
            let pred = |c: CoverageModel| !other.contains_pcs(c.pcs);
            assert forall|p: Seq<u64>| #[trigger]
                r.contains_pcs(p) == (self.contains_pcs(p) && !other.contains_pcs(p)) by {
                Self::lemma_filter_membership(self@, pred, p);
            }
        }
        r
    }
}

} // verus!
