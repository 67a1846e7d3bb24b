use vstd::prelude::*;

use crate::error::error_eq;
use crate::error::Error;
use crate::error::ErrorModel;
use crate::types::clone_types;
use crate::types::seq_model;
use crate::types::Type;
use crate::types::TypeModel;

verus! {

/// Model of a crash record.
#[verifier::ext_equal]
pub struct CrashModel {
    pub target_module: Seq<char>,
    pub target_function: Seq<char>,
    pub inputs: Seq<TypeModel>,
    pub error: ErrorModel,
}

/// The fingerprint of a crash: the target function together with the error
/// kind and message. Different inputs reaching the same abort site in the
/// same function are one crash.
pub open spec fn crash_fingerprint(m: CrashModel) -> (Seq<char>, ErrorModel) {
    (m.target_function, m.error)
}

/// A classified VM failure: which function of which module failed, the
/// inputs that reached the failure, and the classified error.
#[derive(Debug)]
pub struct Crash {
    pub target_module: String,
    pub target_function: String,
    pub inputs: Vec<Type>,
    pub error: Error,
}

impl View for Crash {
    type V = CrashModel;

    open spec fn view(&self) -> CrashModel {
        CrashModel {
            target_module: self.target_module@,
            target_function: self.target_function@,
            inputs: seq_model(self.inputs@),
            error: self.error@,
        }
    }
}

impl Clone for Crash {
    /// A clone has the same model as the original.
    fn clone(&self) -> (r: Crash)
        ensures
            r@ == self@,
    {
        let r = Crash {
            target_module: self.target_module.clone(),
            target_function: self.target_function.clone(),
            inputs: clone_types(&self.inputs),
            error: self.error.clone(),
        };
        proof {
            assert(r@ =~= self@);
        }
        r
    }
}

impl Crash {
    /// Builds a crash record from its parts.
    pub fn new(target_module: &str, target_function: &str, inputs: &Vec<Type>, error: &Error) -> (r:
        Crash)
        ensures
            r@.target_module == target_module@,
            r@.target_function == target_function@,
            r@.inputs == seq_model(inputs@),
            r@.error == error@,
    {
        Crash {
            target_module: String::from_str(target_module),
            target_function: String::from_str(target_function),
            inputs: clone_types(inputs),
            error: error.clone(),
        }
    }
}

/// Whether two crashes are the same fingerprint: same target function and
/// same error, whatever the module or the inputs were.
pub fn crash_eq(a: &Crash, b: &Crash) -> (r: bool)
    ensures
        r == (crash_fingerprint(a@) == crash_fingerprint(b@)),
{
    let same_function = a.target_function == b.target_function;
    let same_error = error_eq(&a.error, &b.error);
    same_function && same_error
}

/// The models of a sequence of crash records.
pub open spec fn crash_models(s: Seq<Crash>) -> Seq<CrashModel> {
    s.map_values(|c: Crash| c@)
}

/// A set of crash records, at most one per fingerprint. The retained record
/// of a fingerprint is the first one observed.
#[derive(Debug)]
pub struct CrashSet {
    items: Vec<Crash>,
}

impl View for CrashSet {
    type V = Seq<CrashModel>;

    closed spec fn view(&self) -> Seq<CrashModel> {
        crash_models(self.items@)
    }
}

impl CrashSet {
    /// At most one record per fingerprint.
    pub open spec fn wf(&self) -> bool {
        forall|i: int, j: int|
            0 <= i < j < self@.len() ==> crash_fingerprint(#[trigger] self@[i])
                != crash_fingerprint(#[trigger] self@[j])
    }

    /// Whether some record of a model sequence has this fingerprint.
    pub open spec fn seq_contains_fingerprint(
        s: Seq<CrashModel>,
        fp: (Seq<char>, ErrorModel),
    ) -> bool {
        exists|i: int| 0 <= i < s.len() && crash_fingerprint(#[trigger] s[i]) == fp
    }

    /// Whether some record of the set has this fingerprint.
    pub open spec fn contains_fingerprint(&self, fp: (Seq<char>, ErrorModel)) -> bool {
        Self::seq_contains_fingerprint(self@, fp)
    }

    /// An empty set.
    pub fn new() -> (r: CrashSet)
        ensures
            r@ == Seq::<CrashModel>::empty(),
            r.wf(),
    {
        CrashSet { items: Vec::new() }
    }

    /// How many distinct fingerprints the set holds.
    pub fn len(&self) -> (r: usize)
        ensures
            r == self@.len(),
    {
        self.items.len()
    }

    /// The record at a position, in insertion order.
    pub fn get(&self, i: usize) -> (r: &Crash)
        requires
            i < self@.len(),
        ensures
            r@ == self@[i as int],
    {
        &self.items[i]
    }

    /// Whether the set already holds this crash's fingerprint.
    #[verifier::loop_isolation(false)]
    pub fn contains(&self, c: &Crash) -> (r: bool)
        ensures
            r == self.contains_fingerprint(crash_fingerprint(c@)),
    {
        let mut i: usize = 0;
        while i < self.items.len()
            invariant
                i <= self.items@.len(),
                forall|j: int|
                    0 <= j < i ==> crash_fingerprint(#[trigger] self@[j]) != crash_fingerprint(c@),
            decreases self.items@.len() - i,
        {
            if crash_eq(&self.items[i], c) {
                proof {
                    assert(crash_fingerprint(self@[i as int]) == crash_fingerprint(c@));
                }
                return true;
            }
            i += 1;
        }
        false
    }

    /// Crash de-duplication: a well-formed set holds at most one record
    /// per `(target_function, error kind, error message)` fingerprint, so
    /// at most one record per fingerprint is ever handed out for
    /// persistence.
    pub proof fn lemma_one_record_per_fingerprint(set: &CrashSet, i: int, j: int)
        requires
            set.wf(),
            0 <= i < j < set@.len(),
        ensures
            crash_fingerprint(set@[i]) != crash_fingerprint(set@[j]),
    {
    }

    /// Inserts a record unless its fingerprint is already represented;
    /// reports whether it was added. The set only grows, and never holds two
    /// records with one fingerprint.
    pub fn insert(&mut self, c: Crash) -> (added: bool)
        requires
            old(self).wf(),
        ensures
            final(self).wf(),
            added == !old(self).contains_fingerprint(crash_fingerprint(c@)),
            added ==> final(self)@ == old(self)@.push(c@),
            !added ==> final(self)@ == old(self)@,
    {
        if self.contains(&c) {
            false
        } else {
            proof {
                let ghost before = self@;
                assert(crash_models(self.items@.push(c)) =~= before.push(c@));
            }
            self.items.push(c);
            true
        }
    }
}

} // verus!
