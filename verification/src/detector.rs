use vstd::prelude::*;

use vstd::multiset::Multiset;

use crate::coverage::pcs_of;
use crate::coverage::Coverage;
use crate::coverage::CoverageData;
use crate::error::Error;

verus! {

/// The tags under which detectors can be requested.
#[derive(Debug, Clone, Copy, PartialEq, Eq, Structural)]
pub enum AvailableDetector {
    All,
    BasicOpCodeDetector,
}

/// A post-execution oracle: a verdict over one execution's coverage and
/// optional error.
pub trait Detector {
    /// The verdict this detector gives on a coverage/error pair.
    spec fn spec_triggered(&self, coverage: &Coverage, error: &Option<Error>) -> bool;

    /// The message this detector reports when it triggers.
    spec fn spec_message(&self) -> Seq<char>;

    /// The tag this detector answers to.
    spec fn spec_type(&self) -> AvailableDetector;

    /// Which tag this detector answers to.
    fn get_type(&self) -> (r: AvailableDetector)
        ensures
            r == self.spec_type(),
    ;

    /// Runs the detector; the verdict is accompanied by the detector's
    /// message exactly when it triggers.
    fn detect(&self, coverage: &Coverage, error: Option<Error>) -> (r: (bool, Option<String>))
        ensures
            r.0 == self.spec_triggered(coverage, &error),
            r.0 == (r.1 matches Some(_)),
            r.0 ==> (r.1 matches Some(m) && m@ == self.spec_message()),
    ;
}

/// The message the hot-opcode detector reports.
pub open spec fn hot_opcode_message() -> Seq<char> {
    "A few instructions are called more 80% more than the others, which means that there probably is recursivity or a loop in the contract."@
}

/// One counting step: the first entry for this program counter is
/// incremented, or a fresh entry with count one is appended.
pub open spec fn bump(t: Seq<(u64, int)>, pc: u64) -> Seq<(u64, int)>
    decreases t,
{
    if t.len() == 0 {
        seq![(pc, 1 as int)]
    } else if t[0].0 == pc {
        seq![(t[0].0, t[0].1 + 1)] + t.drop_first()
    } else {
        seq![t[0]] + bump(t.drop_first(), pc)
    }
}

/// The per-program-counter occurrence counts of a trace, one entry per
/// distinct counter in order of first appearance.
pub open spec fn tally(s: Seq<u64>) -> Seq<(u64, int)>
    decreases s,
{
    if s.len() == 0 {
        Seq::empty()
    } else {
        bump(tally(s.drop_last()), s.last())
    }
}

/// The counts alone, in first-appearance order.
pub open spec fn counts_list(pcs: Seq<u64>) -> Seq<int> {
    tally(pcs).map_values(|p: (u64, int)| p.1)
}

/// The integers of a vector of counters, as mathematical integers.
pub open spec fn ints(s: Seq<u64>) -> Seq<int> {
    s.map_values(|x: u64| x as int)
}

/// Non-increasing order.
pub open spec fn sorted_desc(s: Seq<int>) -> bool {
    forall|i: int, j: int| 0 <= i <= j < s.len() ==> s[i] >= s[j]
}

/// The sum of the first `k` entries.
pub open spec fn prefix_sum(s: Seq<int>, k: int) -> int
    decreases k,
{
    if k <= 0 {
        0
    } else {
        prefix_sum(s, k - 1) + s[k - 1]
    }
}

/// Whether `cs` is the occurrence-count sequence of the trace, sorted in
/// non-increasing order. There is exactly one such sequence.
pub open spec fn is_count_order(pcs: Seq<u64>, cs: Seq<int>) -> bool {
    sorted_desc(cs) && cs.to_multiset() == counts_list(pcs).to_multiset()
}

/// The hot-opcode condition: sorting the distinct program counters by
/// frequency, the top quartile accounts for more than 80% of the whole
/// trace, signaling a likely tight loop or recursion.
pub open spec fn hot_opcode_triggered(pcs: Seq<u64>) -> bool {
    exists|cs: Seq<int>|
        #[trigger] is_count_order(pcs, cs) && 5 * prefix_sum(cs, cs.len() as int / 4) > 4
            * pcs.len()
}

/// Two non-increasing sequences with the same elements are the same
/// sequence: the sorted count sequence is unique, so the hot-opcode
/// condition is well defined.
pub proof fn lemma_sorted_desc_unique(a: Seq<int>, b: Seq<int>)
    requires
        sorted_desc(a),
        sorted_desc(b),
        a.to_multiset() == b.to_multiset(),
    ensures
        a == b,
    decreases a.len(),
{
    broadcast use vstd::seq_lib::group_to_multiset_ensures;

    if a.len() == 0 {
        assert(b.to_multiset().len() == 0);
        assert(b =~= a);
    } else {
        assert(a.to_multiset().count(a[0]) > 0) by {
            assert(a.contains(a[0]));
        }
        assert(b.to_multiset().count(b[0]) > 0) by {
            assert(b.contains(b[0]));
        }
        assert(b.contains(a[0]));
        assert(a.contains(b[0]));
        let i = choose|i: int| 0 <= i < a.len() && a[i] == b[0];
        let j = choose|j: int| 0 <= j < b.len() && b[j] == a[0];
        assert(a[0] >= a[i]);
        assert(b[0] >= b[j]);
        assert(a[0] == b[0]);
        assert(a.remove(0) =~= a.drop_first());
        assert(b.remove(0) =~= b.drop_first());
        assert(a.drop_first().to_multiset() == a.to_multiset().remove(a[0]));
        assert(b.drop_first().to_multiset() == b.to_multiset().remove(b[0]));
        assert(a.len() == b.len()) by {
            vstd::seq_lib::to_multiset_len(a);
            vstd::seq_lib::to_multiset_len(b);
        }
        assert(sorted_desc(a.drop_first())) by {
            assert(forall|q: int|
                0 <= q < a.drop_first().len() ==> #[trigger] a.drop_first()[q] == a[q + 1]);
        }
        assert(sorted_desc(b.drop_first())) by {
            assert(forall|q: int|
                0 <= q < b.drop_first().len() ==> #[trigger] b.drop_first()[q] == b[q + 1]);
        }
        lemma_sorted_desc_unique(a.drop_first(), b.drop_first());
        assert forall|q: int| 0 <= q < a.len() implies a[q] == b[q] by {
            if q > 0 {
                assert(a[q] == a.drop_first()[q - 1]);
                assert(b[q] == b.drop_first()[q - 1]);
            }
        }
        assert(a =~= b);
    }
}

proof fn lemma_bump_found(t: Seq<(u64, int)>, pc: u64, k: int)
    requires
        0 <= k < t.len(),
        t[k].0 == pc,
        forall|j: int| 0 <= j < k ==> (#[trigger] t[j]).0 != pc,
    ensures
        bump(t, pc) == t.update(k, (pc, t[k].1 + 1)),
    decreases k,
{
    if k == 0 {
        assert(bump(t, pc) =~= t.update(0, (pc, t[0].1 + 1)));
    } else {
        assert(t[0].0 != pc);
        assert(t.drop_first()[k - 1].0 == pc);
        assert(forall|j: int| 0 <= j < k - 1 ==> (#[trigger] t.drop_first()[j]).0 != pc) by {
            assert(forall|j: int|
                0 <= j < k - 1 ==> #[trigger] t.drop_first()[j] == t[j + 1]);
        }
        lemma_bump_found(t.drop_first(), pc, k - 1);
        assert(bump(t, pc) =~= t.update(k, (pc, t[k].1 + 1)));
    }
}

proof fn lemma_bump_fresh(t: Seq<(u64, int)>, pc: u64)
    requires
        forall|j: int| 0 <= j < t.len() ==> (#[trigger] t[j]).0 != pc,
    ensures
        bump(t, pc) == t.push((pc, 1 as int)),
    decreases t.len(),
{
    if t.len() == 0 {
        assert(bump(t, pc) =~= t.push((pc, 1 as int)));
    } else {
        assert(forall|j: int|
            0 <= j < t.drop_first().len() ==> #[trigger] t.drop_first()[j] == t[j + 1]);
        lemma_bump_fresh(t.drop_first(), pc);
        assert(bump(t, pc) =~= t.push((pc, 1 as int)));
    }
}

proof fn lemma_tally_push(s: Seq<u64>, x: u64)
    ensures
        tally(s.push(x)) == bump(tally(s), x),
{
    assert(s.push(x).drop_last() =~= s);
    assert(s.push(x).last() == x);
}

/// What the tally of a trace is: one entry per distinct counter, each
/// carrying that counter's number of occurrences in the trace.
pub open spec fn tally_counts_trace(s: Seq<u64>, t: Seq<(u64, int)>) -> bool {
    &&& forall|k1: int, k2: int|
        0 <= k1 < k2 < t.len() ==> (#[trigger] t[k1]).0 != (#[trigger] t[k2]).0
    &&& forall|k: int| 0 <= k < t.len() ==> (#[trigger] t[k]).1 == s.to_multiset().count(t[k].0)
    &&& forall|k: int| 0 <= k < t.len() ==> s.contains((#[trigger] t[k]).0)
    &&& forall|pc: u64|
        s.contains(pc) ==> exists|k: int| 0 <= k < t.len() && (#[trigger] t[k]).0 == pc
}

/// The tally really counts the trace: its keys are exactly the distinct
/// program counters, and each carries its occurrence count.
pub proof fn lemma_tally_correct(s: Seq<u64>)
    ensures
        tally_counts_trace(s, tally(s)),
    decreases s.len(),
{
    broadcast use vstd::seq_lib::group_to_multiset_ensures;

    if s.len() == 0 {
        assert(s.to_multiset() =~= Multiset::<u64>::empty()) by {
            assert(s =~= Seq::<u64>::empty());
        }
    } else {
        let q = s.drop_last();
        let x = s.last();
        let t = tally(q);
        lemma_tally_correct(q);
        assert(s =~= q.push(x));
        assert(s.to_multiset() == q.to_multiset().insert(x));
        assert(tally(s) == bump(t, x)) by {
            lemma_tally_push(q, x);
        }
        if exists|k: int| 0 <= k < t.len() && (#[trigger] t[k]).0 == x {
            let k = choose|k: int| 0 <= k < t.len() && (#[trigger] t[k]).0 == x;
            assert(forall|j: int| 0 <= j < k ==> (#[trigger] t[j]).0 != x);
            lemma_bump_found(t, x, k);
            let t2 = t.update(k, (x, t[k].1 + 1));
            assert forall|k2: int| 0 <= k2 < t2.len() implies (#[trigger] t2[k2]).1
                == s.to_multiset().count(t2[k2].0) by {
                if k2 == k {
                    assert(s.to_multiset().count(x) == q.to_multiset().count(x) + 1);
                } else {
                    assert(t2[k2] == t[k2]);
                    assert(t[k2].0 != x);
                    assert(s.to_multiset().count(t[k2].0) == q.to_multiset().count(t[k2].0));
                }
            }
            assert forall|pc: u64|
                s.contains(pc) implies exists|k2: int|
                0 <= k2 < t2.len() && (#[trigger] t2[k2]).0 == pc by {
                if pc == x {
                    assert(t2[k].0 == pc);
                } else {
                    assert(q.contains(pc));
                    let k2 = choose|k2: int| 0 <= k2 < t.len() && (#[trigger] t[k2]).0 == pc;
                    assert(t2[k2].0 == pc);
                }
            }
        } else {
            assert(forall|j: int| 0 <= j < t.len() ==> (#[trigger] t[j]).0 != x);
            lemma_bump_fresh(t, x);
            let t2 = t.push((x, 1 as int));
            assert(!q.contains(x)) by {
                if q.contains(x) {
                    let k = choose|k: int| 0 <= k < t.len() && (#[trigger] t[k]).0 == x;
                    assert(t[k].0 == x);
                    assert(false);
                }
            }
            assert(q.to_multiset().count(x) == 0);
            assert forall|k2: int| 0 <= k2 < t2.len() implies (#[trigger] t2[k2]).1
                == s.to_multiset().count(t2[k2].0) by {
                if k2 < t.len() {
                    assert(t2[k2] == t[k2]);
                    assert(t[k2].0 != x);
                    assert(s.to_multiset().count(t[k2].0) == q.to_multiset().count(t[k2].0));
                } else {
                    assert(t2[k2] == (x, 1 as int));
                    assert(s.to_multiset().count(x) == 1);
                }
            }
            assert forall|pc: u64|
                s.contains(pc) implies exists|k2: int|
                0 <= k2 < t2.len() && (#[trigger] t2[k2]).0 == pc by {
                if pc == x {
                    assert(t2[t.len() as int].0 == pc);
                } else {
                    assert(q.contains(pc));
                    let k2 = choose|k2: int| 0 <= k2 < t.len() && (#[trigger] t[k2]).0 == pc;
                    assert(t2[k2] == t[k2]);
                }
            }
            assert forall|k2: int| 0 <= k2 < t2.len() implies s.contains(
                (#[trigger] t2[k2]).0,
            ) by {
                if k2 < t.len() {
                    assert(q.contains(t[k2].0));
                    assert(s[choose|m: int| 0 <= m < q.len() && q[m] == t[k2].0] == t[k2].0);
                } else {
                    assert(s[s.len() - 1] == x);
                }
            }
        }
    }
}

/// Counts the occurrences of each program counter of a trace, one entry
/// per distinct counter in order of first appearance: the keys and the
/// counts, aligned.
#[verifier::loop_isolation(false)]
fn tally_counts(data: &Vec<CoverageData>) -> (r: (Vec<u64>, Vec<u64>))
    ensures
        r.0@.len() == tally(pcs_of(data@)).len(),
        r.1@.len() == tally(pcs_of(data@)).len(),
        forall|k: int|
            0 <= k < r.0@.len() ==> r.0@[k] == (#[trigger] tally(pcs_of(data@))[k]).0,
        forall|k: int|
            0 <= k < r.1@.len() ==> r.1@[k] as int == (#[trigger] tally(pcs_of(data@))[k]).1,
{
    let ghost pcs = pcs_of(data@);
    let mut keys: Vec<u64> = Vec::new();
    let mut counts: Vec<u64> = Vec::new();
    let mut i: usize = 0;
    while i < data.len()
        invariant
            i <= data@.len(),
            keys@.len() == tally(pcs.take(i as int)).len(),
            counts@.len() == keys@.len(),
            forall|k: int|
                0 <= k < keys@.len() ==> keys@[k] == (#[trigger] tally(pcs.take(i as int))[k]).0,
            forall|k: int|
                0 <= k < counts@.len() ==> counts@[k] as int == (#[trigger] tally(
                    pcs.take(i as int),
                )[k]).1,
            forall|k: int| 0 <= k < counts@.len() ==> (#[trigger] counts@[k]) as int <= i,
        decreases data@.len() - i,
    {
        let pc = data[i].pc;
        proof {
            assert(pcs[i as int] == pc);
            assert(pcs.take(i as int + 1) =~= pcs.take(i as int).push(pc));
            lemma_tally_push(pcs.take(i as int), pc);
        }
        let ghost t = tally(pcs.take(i as int));
        let mut j: usize = 0;
        let mut found = false;
        while j < keys.len() && !found
            invariant
                j <= keys@.len(),
                !found ==> forall|q: int| 0 <= q < j ==> (#[trigger] t[q]).0 != pc,
                found ==> j < keys@.len() && t[j as int].0 == pc && (forall|q: int|
                    0 <= q < j ==> (#[trigger] t[q]).0 != pc),
            decreases keys@.len() - j + (if found {
                0int
            } else {
                1int
            }),
        {
            if keys[j] == pc {
                found = true;
            } else {
                j += 1;
            }
        }
        if found {
            proof {
                lemma_bump_found(t, pc, j as int);
            }
            let c = counts[j];
            counts.set(j, c + 1);
        } else {
            proof {
                lemma_bump_fresh(t, pc);
            }
            keys.push(pc);
            counts.push(1);
        }
        i += 1;
    }
    proof {
        assert(pcs.take(pcs.len() as int) =~= pcs);
    }
    (keys, counts)
}

/// Sorts counters into non-increasing order by inserting each into its
/// place; the multiset of counters is kept.
#[verifier::loop_isolation(false)]
fn sort_desc(input: &Vec<u64>) -> (r: Vec<u64>)
    ensures
        sorted_desc(ints(r@)),
        ints(r@).to_multiset() == ints(input@).to_multiset(),
{
    broadcast use vstd::seq_lib::group_to_multiset_ensures;

    let mut out: Vec<u64> = Vec::new();
    let mut i: usize = 0;
    proof {
        assert(ints(out@).to_multiset() =~= ints(input@.take(0)).to_multiset()) by {
            assert(ints(out@) =~= Seq::<int>::empty());
            assert(ints(input@.take(0)) =~= Seq::<int>::empty());
        }
    }
    while i < input.len()
        invariant
            i <= input@.len(),
            out@.len() == i,
            sorted_desc(ints(out@)),
            ints(out@).to_multiset() == ints(input@.take(i as int)).to_multiset(),
        decreases input@.len() - i,
    {
        let x = input[i];
        let mut p: usize = 0;
        while p < out.len() && out[p] >= x
            invariant
                p <= out@.len(),
                forall|q: int| 0 <= q < p ==> (#[trigger] out@[q]) >= x,
            decreases out@.len() - p,
        {
            p += 1;
        }
        let ghost before = out@;
        out.insert(p, x);
        proof {
            let a = ints(before);
            let b = ints(out@);
            assert(b =~= a.insert(p as int, x as int));
            vstd::seq_lib::to_multiset_insert(a, p as int, x as int);
            assert(ints(input@.take(i as int + 1)) =~= ints(input@.take(i as int)).push(
                x as int,
            ));
            assert(ints(input@.take(i as int + 1)).to_multiset() =~= ints(
                input@.take(i as int),
            ).to_multiset().insert(x as int));
            assert(sorted_desc(b)) by {
                assert(p < before.len() ==> before[p as int] < x);
                assert forall|q1: int, q2: int| 0 <= q1 <= q2 < b.len() implies b[q1]
                    >= b[q2] by {
                    if q1 < p {
                        assert(b[q1] == a[q1]);
                        assert(before[q1] >= x);
                    } else if q1 == p {
                        assert(b[q1] == x as int);
                    } else {
                        assert(b[q1] == a[q1 - 1]);
                    }
                    if q2 < p {
                        assert(b[q2] == a[q2]);
                        assert(before[q2] >= x);
                    } else if q2 == p {
                        assert(b[q2] == x as int);
                    } else {
                        assert(b[q2] == a[q2 - 1]);
                        assert(q2 - 1 >= p);
                        if p < before.len() {
                            assert(a[p as int] < x as int);
                            assert(a[q2 - 1] <= a[p as int]);
                        }
                    }
                }
            }
        }
        i += 1;
    }
    proof {
        assert(input@.take(input@.len() as int) =~= input@);
    }
    out
}

/// The built-in hot-opcode detector: it reports traces whose top quartile
/// of instruction frequencies covers more than 80% of the whole trace.
pub struct BasicOpCodeDetector {}

impl Default for BasicOpCodeDetector {
    /// The detector carries no state.
    fn default() -> (r: BasicOpCodeDetector) {
        BasicOpCodeDetector {  }
    }
}

impl Detector for BasicOpCodeDetector {
    /// Triggered exactly on the hot-opcode condition over the trace; the
    /// error, if any, plays no part.
    open spec fn spec_triggered(&self, coverage: &Coverage, error: &Option<Error>) -> bool {
        hot_opcode_triggered(coverage@.pcs)
    }

    open spec fn spec_message(&self) -> Seq<char> {
        hot_opcode_message()
    }

    open spec fn spec_type(&self) -> AvailableDetector {
        AvailableDetector::BasicOpCodeDetector
    }

    fn get_type(&self) -> (r: AvailableDetector) {
        AvailableDetector::BasicOpCodeDetector
    }

    #[verifier::loop_isolation(false)]
    fn detect(&self, coverage: &Coverage, error: Option<Error>) -> (r: (bool, Option<String>)) {
        let ghost pcs = pcs_of(coverage.data@);
        let tallied = tally_counts(&coverage.data);
        let counts = tallied.1;
        proof {
            assert(ints(counts@) =~= counts_list(pcs));
        }
        let sorted = sort_desc(&counts);
        let ghost cs = ints(sorted@);
        let quart = sorted.len() / 4;
        let mut sum: u128 = 0;
        let mut j: usize = 0;
        while j < quart
            invariant
                j <= quart,
                quart <= sorted@.len(),
                sum as int == prefix_sum(cs, j as int),
                sum <= j as int * 0xFFFFFFFFFFFFFFFF,
            decreases quart - j,
        {
            sum = sum + (sorted[j] as u128);
            j += 1;
        }
        let total = coverage.data.len();
        proof {
            assert(pcs.len() == coverage.data@.len());
        }
        let triggered = if sum > total as u128 {
            proof {
                assert(5 * prefix_sum(cs, cs.len() as int / 4) > 4 * pcs.len());
            }
            true
        } else {
            5 * sum > 4 * (total as u128)
        };
        proof {
            assert(is_count_order(pcs, cs));
            if triggered {
                assert(hot_opcode_triggered(pcs));
            } else {
                if hot_opcode_triggered(pcs) {
                    let other = choose|other: Seq<int>|
                        #[trigger] is_count_order(pcs, other) && 5 * prefix_sum(
                            other,
                            other.len() as int / 4,
                        ) > 4 * pcs.len();
                    lemma_sorted_desc_unique(other, cs);
                    assert(false);
                }
            }
        }
        if triggered {
            (
                true,
                Some(
                    String::from_str(
                        "A few instructions are called more 80% more than the others, which means that there probably is recursivity or a loop in the contract.",
                    ),
                ),
            )
        } else {
            (false, None)
        }
    }
}

/// Builds the detector a tag names. The `All` tag is not a concrete
/// detector and cannot be built.
pub fn new_detector(d: &AvailableDetector) -> (r: BasicOpCodeDetector)
    requires
        *d == AvailableDetector::BasicOpCodeDetector,
    ensures
        r.spec_type() == *d,
        r.spec_message() == hot_opcode_message(),
        forall|coverage: &Coverage, error: &Option<Error>|
            #[trigger] r.spec_triggered(coverage, error) == hot_opcode_triggered(
                coverage@.pcs,
            ),
{
    BasicOpCodeDetector::default()
}

} // verus!
