use vstd::prelude::*;

use rand::seq::SliceRandom;

use crate::crash::crash_fingerprint;
use crate::crash::Crash;
use crate::crash::CrashSet;
use crate::error::Error;
use crate::mutator::mutable_inputs;
use crate::mutator::mutable_seq;
use crate::mutator::mutated_seq;
use crate::mutator::Mutator;
use crate::mutator::SuiMutator;
use crate::rng::spec_draw;
use crate::rng::spec_next_seed;
use crate::rng::Rng;
use crate::stats::Stats;
use crate::types::clone_types;
use crate::types::seq_model;
use crate::types::Type;
use crate::types::TypeModel;
use crate::worker::sat_inc;
use crate::worker::WorkerEvent;

verus! {

/// Relies on rand's `SliceRandom::shuffle`: a Fisher-Yates permutation
/// built from in-place swaps, so the multiset of element models is kept.
#[verifier::external_body]
fn shuffle_values(v: &mut Vec<Type>)
    ensures
        final(v)@.len() == old(v)@.len(),
        seq_model(final(v)@).to_multiset() == seq_model(old(v)@).to_multiset(),
{
    v.shuffle(&mut rand::thread_rng());
}

/// Relies on std's `str::starts_with` with a string pattern: true exactly
/// when the pattern's characters lead the string's (for valid UTF-8, a
/// byte prefix is a character prefix).
#[verifier::external_body]
fn str_has_prefix(s: &str, prefix: &str) -> (r: bool)
    ensures
        r == has_name_prefix(s@, prefix@),
{
    s.starts_with(prefix)
}

/// Whether a name begins with the prefix.
pub open spec fn has_name_prefix(name: Seq<char>, prefix: Seq<char>) -> bool {
    name.len() >= prefix.len() && name.take(prefix.len() as int) == prefix
}

/// The views of a sequence of names.
pub open spec fn name_views(s: Seq<String>) -> Seq<Seq<char>> {
    s.map_values(|n: String| n@)
}

/// Keeps exactly the names that begin with the prefix, in order: how the
/// state-mutating helper functions are discovered among a module's
/// function names.
#[verifier::loop_isolation(false)]
pub fn filter_names_with_prefix(names: &Vec<String>, prefix: &str) -> (r: Vec<String>)
    ensures
        name_views(r@) == name_views(names@).filter(
            |n: Seq<char>| has_name_prefix(n, prefix@),
        ),
{
    let mut kept: Vec<String> = Vec::new();
    let mut i: usize = 0;
    proof {
        reveal(Seq::filter);
    }
    while i < names.len()
        invariant
            i <= names@.len(),
            name_views(kept@) == name_views(names@).take(i as int).filter(
                |n: Seq<char>| has_name_prefix(n, prefix@),
            ),
        decreases names@.len() - i,
    {
        let keep = str_has_prefix(names[i].as_str(), prefix);
        let ghost prev = kept@;
        if keep {
            kept.push(names[i].clone());
        }
        proof {
            reveal(Seq::filter);
            let pred = |n: Seq<char>| has_name_prefix(n, prefix@);
            let nm = name_views(names@);
            let t1 = nm.take(i as int + 1);
            assert(t1.drop_last() =~= nm.take(i as int));
            assert(t1.last() == nm[i as int]);
            assert(keep == pred(nm[i as int]));
            if keep {
                assert forall|k: int|
                    0 <= k < name_views(kept@).len() implies name_views(kept@)[k] == nm.take(
                    i as int,
                ).filter(pred).push(nm[i as int])[k] by {
                    if k < prev.len() {
                        assert(kept@[k] == prev[k]);
                    }
                }
                assert(name_views(kept@) =~= nm.take(i as int).filter(pred).push(nm[i as int]));
            }
            assert(name_views(kept@) =~= t1.filter(pred));
        }
        i += 1;
    }
    proof {
        assert(name_views(names@).take(name_views(names@).len() as int) =~= name_views(names@));
    }
    kept
}

/// The parameter schema of a function descriptor's model; other values
/// have no parameters.
pub open spec fn params_model(m: TypeModel) -> Seq<TypeModel> {
    match m {
        TypeModel::Function(_, params, _) => params,
        _ => Seq::empty(),
    }
}

/// Whether a value is the function descriptor of the world initializer,
/// which the call-sequence generator never calls directly.
pub open spec fn is_world_init(m: TypeModel) -> bool {
    m matches TypeModel::Function(name, _, _) && name == "fuzz_init"@
}

/// The stateful fuzzing worker: it stresses randomized call sequences
/// over a shared world. The VM and the world reset stay outside: the
/// loop's owner executes each call of a generated sequence, hands the
/// result to `process_sequence_execution`, and calls the runner's
/// `setup` after each sequence.
pub struct StatefulWorker {
    /// This worker's counters; the coordinator reads a snapshot.
    pub stats: Stats,
    /// The crashes the coordinator has broadcast as globally unique.
    pub unique_crashes_set: CrashSet,
    /// The seed-derived generator drawing the sequence sizes.
    pub rng: Rng,
    /// The typed mutator.
    pub mutator: SuiMutator,
    /// The functions named on the command line to stress.
    pub target_functions: Vec<Type>,
    /// The state-mutating helpers discovered by prefix, without the world
    /// initializer.
    pub fuzz_functions: Vec<Type>,
    /// The largest number of extra calls appended to a sequence.
    pub max_call_sequence_size: u32,
    /// The module under test.
    pub target_module: String,
}

impl StatefulWorker {
    /// The worker's well-formedness.
    pub open spec fn wf(&self) -> bool {
        &&& self.unique_crashes_set.wf()
        &&& self.max_call_sequence_size > 0
        &&& self.target_functions@.len() + self.fuzz_functions@.len() > 0
    }

    /// A fresh stateful worker. The discovered helper descriptors are
    /// taken as they are, except that the world initializer is excluded:
    /// the runner's `setup` runs it between sequences instead.
    #[verifier::loop_isolation(false)]
    pub fn new(
        target_functions: Vec<Type>,
        discovered: &Vec<Type>,
        seed: u64,
        max_call_sequence_size: u32,
        target_module: String,
    ) -> (r: StatefulWorker)
        requires
            max_call_sequence_size > 0,
        ensures
            r.stats.execs == 0,
            r.stats.crashes == 0,
            r.unique_crashes_set@ == Seq::<crate::crash::CrashModel>::empty(),
            r.rng.seed == seed,
            seq_model(r.target_functions@) == seq_model(target_functions@),
            seq_model(r.fuzz_functions@) == seq_model(discovered@).filter(
                |m: TypeModel| !is_world_init(m),
            ),
            r.max_call_sequence_size == max_call_sequence_size,
            r.target_module@ == target_module@,
    {
        let init_name = String::from_str("fuzz_init");
        let mut fuzz_functions: Vec<Type> = Vec::new();
        let mut i: usize = 0;
        proof {
            reveal(Seq::filter);
        }
        while i < discovered.len()
            invariant
                i <= discovered@.len(),
                seq_model(fuzz_functions@) == seq_model(discovered@).take(i as int).filter(
                    |m: TypeModel| !is_world_init(m),
                ),
            decreases discovered@.len() - i,
        {
            proof {
                crate::types::lemma_seq_model_len(discovered@);
                crate::types::lemma_seq_model_index(discovered@, i as int);
                crate::types::lemma_model_variant_function(discovered@[i as int]);
            }
            let keep = match &discovered[i] {
                Type::Function(name, _, _) => !(*name == init_name),
                _ => true,
            };
            proof {
                reveal_strlit("fuzz_init");
            }
            let ghost prev = fuzz_functions@;
            if keep {
                fuzz_functions.push(discovered[i].clone());
            }
            proof {
                reveal(Seq::filter);
                let pred = |m: TypeModel| !is_world_init(m);
                let dm = seq_model(discovered@);
                let t1 = dm.take(i as int + 1);
                assert(t1.drop_last() =~= dm.take(i as int));
                assert(t1.last() == dm[i as int]);
                assert(keep == pred(dm[i as int]));
                if keep {
                    crate::types::lemma_seq_model_len(fuzz_functions@);
                    crate::types::lemma_seq_model_len(prev);
                    assert forall|k: int|
                        0 <= k < seq_model(fuzz_functions@).len() implies seq_model(
                        fuzz_functions@,
                    )[k] == dm.take(i as int).filter(pred).push(dm[i as int])[k] by {
                        crate::types::lemma_seq_model_index(fuzz_functions@, k);
                        if k < seq_model(fuzz_functions@).len() - 1 {
                            crate::types::lemma_seq_model_index(prev, k);
                            assert(fuzz_functions@[k] == prev[k]);
                        }
                    }
                    assert(seq_model(fuzz_functions@) =~= dm.take(i as int).filter(pred).push(
                        dm[i as int],
                    ));
                }
                assert(seq_model(fuzz_functions@) =~= t1.filter(pred));
            }
            i += 1;
        }
        proof {
            assert(seq_model(discovered@).take(seq_model(discovered@).len() as int) =~= seq_model(
                discovered@,
            ));
            crate::types::lemma_seq_model_len(discovered@);
        }
        StatefulWorker {
            stats: Stats::new(),
            unique_crashes_set: CrashSet::new(),
            rng: Rng::new(seed),
            mutator: SuiMutator::new(seed, 12),
            target_functions,
            fuzz_functions,
            max_call_sequence_size,
            target_module,
        }
    }

    /// Builds one call sequence: every helper and every target function
    /// once, then `size` extra entries each copied from a random existing
    /// entry (duplication biases the sequence toward repeated calls), the
    /// whole shuffled. Every entry of the result is one of the worker's
    /// functions, and each of them appears at least once.
    #[verifier::loop_isolation(false)]
    pub fn generate_call_sequence(&mut self, size: u32) -> (r: Vec<Type>)
        requires
            old(self).wf(),
            old(self).fuzz_functions@.len() + old(self).target_functions@.len() + size
                <= usize::MAX,
        ensures
            final(self).wf(),
            *final(self) == *old(self),
            r@.len() == old(self).fuzz_functions@.len() + old(self).target_functions@.len()
                + size,
            (seq_model(old(self).fuzz_functions@) + seq_model(
                old(self).target_functions@,
            )).to_multiset().subset_of(seq_model(r@).to_multiset()),
            forall|k: int|
                0 <= k < r@.len() ==> (seq_model(old(self).fuzz_functions@) + seq_model(
                    old(self).target_functions@,
                )).contains(#[trigger] seq_model(r@)[k]),
    {
        broadcast use vstd::seq_lib::group_to_multiset_ensures;

        let ghost base = seq_model(self.fuzz_functions@) + seq_model(self.target_functions@);
        let mut call_sequence: Vec<Type> = clone_types(&self.fuzz_functions);
        let more = clone_types(&self.target_functions);
        let mut j: usize = 0;
        while j < more.len()
            invariant
                j <= more@.len(),
                call_sequence@.len() == self.fuzz_functions@.len() + j,
                seq_model(call_sequence@) == seq_model(self.fuzz_functions@) + seq_model(
                    more@,
                ).take(j as int),
            decreases more@.len() - j,
        {
            proof {
                crate::types::lemma_seq_model_len(call_sequence@);
                crate::types::lemma_seq_model_len(more@);
                crate::types::lemma_seq_model_index(more@, j as int);
            }
            let ghost prevv = call_sequence@;
            call_sequence.push(more[j].clone());
            proof {
                crate::types::lemma_seq_model_len(call_sequence@);
                crate::types::lemma_seq_model_len(prevv);
                assert forall|k: int|
                    0 <= k < seq_model(call_sequence@).len() implies seq_model(call_sequence@)[k]
                    == (seq_model(self.fuzz_functions@) + seq_model(more@).take(j as int + 1))[k]
                by {
                    crate::types::lemma_seq_model_index(call_sequence@, k);
                    if k < prevv.len() {
                        crate::types::lemma_seq_model_index(prevv, k);
                        assert(call_sequence@[k] == prevv[k]);
                    }
                }
                assert(seq_model(call_sequence@) =~= seq_model(self.fuzz_functions@) + seq_model(
                    more@,
                ).take(j as int + 1));
            }
            j += 1;
        }
        proof {
            assert(seq_model(more@).take(seq_model(more@).len() as int) =~= seq_model(more@));
            crate::types::lemma_seq_model_len(more@);
            assert(seq_model(more@) == seq_model(self.target_functions@));
            assert(seq_model(call_sequence@) == base);
            crate::types::lemma_seq_model_len(call_sequence@);
            crate::types::lemma_seq_model_len(self.fuzz_functions@);
            crate::types::lemma_seq_model_len(self.target_functions@);
            assert(base.len() == self.fuzz_functions@.len() + self.target_functions@.len());
            assert(seq_model(call_sequence@).take(base.len() as int) =~= base);
        }
        let mut added: u32 = 0;
        while added < size
            invariant
                added <= size,
                call_sequence@.len() == base.len() + added,
                base.len() + size <= usize::MAX,
                seq_model(call_sequence@).take(base.len() as int) == base,
                forall|k: int|
                    0 <= k < seq_model(call_sequence@).len() ==> base.contains(
                        #[trigger] seq_model(call_sequence@)[k],
                    ),
                self.fuzz_functions@ == old(self).fuzz_functions@,
                self.target_functions@ == old(self).target_functions@,
                self.max_call_sequence_size == old(self).max_call_sequence_size,
                self.stats == old(self).stats,
                self.unique_crashes_set@ == old(self).unique_crashes_set@,
                self.rng == old(self).rng,
            decreases size - added,
        {
            proof {
                crate::types::lemma_seq_model_len(call_sequence@);
            }
            let n = self.mutator.generate_number(
                0,
                (call_sequence.len() - 1) as u64,
            );
            let pick = n as usize;
            proof {
                crate::types::lemma_seq_model_index(call_sequence@, pick as int);
            }
            let ghost prevv = call_sequence@;
            let copied = call_sequence[pick].clone();
            call_sequence.push(copied);
            proof {
                crate::types::lemma_seq_model_len(call_sequence@);
                crate::types::lemma_seq_model_len(prevv);
                assert forall|k: int|
                    0 <= k < seq_model(call_sequence@).len() implies base.contains(
                    #[trigger] seq_model(call_sequence@)[k],
                ) by {
                    crate::types::lemma_seq_model_index(call_sequence@, k);
                    if k < prevv.len() {
                        crate::types::lemma_seq_model_index(prevv, k);
                        assert(call_sequence@[k] == prevv[k]);
                    } else {
                        crate::types::lemma_seq_model_index(prevv, pick as int);
                        assert(seq_model(call_sequence@)[k] == seq_model(prevv)[pick as int]);
                    }
                }
                assert forall|k: int| 0 <= k < base.len() implies seq_model(call_sequence@).take(
                    base.len() as int,
                )[k] == base[k] by {
                    crate::types::lemma_seq_model_index(call_sequence@, k);
                    crate::types::lemma_seq_model_index(prevv, k);
                    assert(call_sequence@[k] == prevv[k]);
                }
                assert(seq_model(call_sequence@).take(base.len() as int) =~= base);
            }
            added += 1;
        }
        proof {
            crate::types::lemma_seq_model_len(call_sequence@);
            let m = seq_model(call_sequence@);
            assert(m =~= m.take(base.len() as int) + m.skip(base.len() as int));
            vstd::seq_lib::lemma_multiset_commutative(
                m.take(base.len() as int),
                m.skip(base.len() as int),
            );
            assert(base.to_multiset().subset_of(m.to_multiset()));
        }
        let ghost pre_shuffle = seq_model(call_sequence@);
        shuffle_values(&mut call_sequence);
        proof {
            crate::types::lemma_seq_model_len(call_sequence@);
            assert forall|k: int| 0 <= k < seq_model(call_sequence@).len() implies base.contains(
                #[trigger] seq_model(call_sequence@)[k],
            ) by {
                let m = seq_model(call_sequence@);
                assert(m.contains(m[k]));
                assert(m.to_multiset().count(m[k]) > 0);
                assert(pre_shuffle.to_multiset().count(m[k]) > 0);
                assert(pre_shuffle.contains(m[k]));
            }
        }
        call_sequence
    }

    /// Draws the number of extra entries of the next sequence, between
    /// one and the configured maximum.
    pub fn draw_sequence_size(&mut self) -> (r: u32)
        requires
            old(self).wf(),
        ensures
            final(self).wf(),
            1 <= r <= old(self).max_call_sequence_size,
            final(self).rng.seed == spec_next_seed(old(self).rng.seed),
            r as int == spec_draw(old(self).rng.seed, 1, old(self).max_call_sequence_size as u64),
            final(self).stats == old(self).stats,
            final(self).unique_crashes_set@ == old(self).unique_crashes_set@,
            final(self).fuzz_functions@ == old(self).fuzz_functions@,
            final(self).target_functions@ == old(self).target_functions@,
            final(self).max_call_sequence_size == old(self).max_call_sequence_size,
    {
        let r = self.rng.rand(1, self.max_call_sequence_size as u64);
        r as u32
    }

    /// Initializes and mutates the inputs for one call of a sequence,
    /// from the function's own parameter schema. A descriptor without a
    /// mutable schema keeps its schema values.
    pub fn prepare_inputs(&mut self, function: &Type) -> (r: Vec<Type>)
        ensures
            (*function matches Type::Function(_, _, _)) ==> (if mutable_seq(
                params_model(function@),
            ) {
                &&& mutated_seq(params_model(function@), seq_model(r@))
                &&& seq_model(r@) == old(self).mutator.mutate_spec(
                    params_model(function@),
                    4,
                ).1
                &&& final(self).mutator == old(self).mutator.mutate_spec(
                    params_model(function@),
                    4,
                ).0
            } else {
                seq_model(r@) == params_model(function@) && final(self).mutator == old(
                    self,
                ).mutator
            }),
            !(*function matches Type::Function(_, _, _)) ==> r@.len() == 0 && final(self).mutator
                == old(self).mutator,
            final(self).stats == old(self).stats,
            final(self).unique_crashes_set@ == old(self).unique_crashes_set@,
            final(self).rng == old(self).rng,
            final(self).fuzz_functions@ == old(self).fuzz_functions@,
            final(self).target_functions@ == old(self).target_functions@,
            final(self).max_call_sequence_size == old(self).max_call_sequence_size,
    {
        match function.function_params() {
            Some(params) => {
                let seeds = clone_types(params);
                if mutable_inputs(&seeds) {
                    self.mutator.mutate(&seeds, 4)
                } else {
                    seeds
                }
            },
            None => Vec::new(),
        }
    }

    /// Handles the result of one call of a sequence: counters advance,
    /// and a failure reports a crash unless its fingerprint is already
    /// known unique. No coverage steers selection in stateful mode.
    pub fn process_sequence_execution(
        &mut self,
        function_name: &str,
        inputs: &Vec<Type>,
        result: Result<Option<crate::coverage::Coverage>, (
            Option<crate::coverage::Coverage>,
            Error,
        )>,
        second_elapsed: bool,
    ) -> (crash_event: Option<WorkerEvent>)
        requires
            old(self).wf(),
        ensures
            final(self).wf(),
            final(self).stats.execs as int == sat_inc(old(self).stats.execs),
            (result matches Err(_)) ==> final(self).stats.crashes as int == sat_inc(
                old(self).stats.crashes,
            ),
            (result matches Ok(_)) ==> final(self).stats.crashes == old(self).stats.crashes,
            final(self).unique_crashes_set@ == old(self).unique_crashes_set@,
            (crash_event matches Some(_)) == (result matches Err(p)
                && !old(self).unique_crashes_set.contains_fingerprint(
                (function_name@, p.1@),
            )),
            (crash_event matches Some(ev) ==> (ev matches WorkerEvent::NewCrash(f, ins, e) && f@
                == function_name@ && seq_model(ins@) == seq_model(inputs@) && (result matches Err(
                p,
            ) && e@ == p.1@))),
            final(self).rng == old(self).rng,
            final(self).fuzz_functions@ == old(self).fuzz_functions@,
            final(self).target_functions@ == old(self).target_functions@,
            final(self).max_call_sequence_size == old(self).max_call_sequence_size,
    {
        self.stats.execs = self.stats.execs.saturating_add(1);
        if second_elapsed {
            self.stats.secs_since_last_cov = self.stats.secs_since_last_cov.saturating_add(1);
        }
        match result {
            Ok(_) => None,
            Err((_, error)) => {
                self.stats.crashes = self.stats.crashes.saturating_add(1);
                let crash = Crash::new(
                    self.target_module.as_str(),
                    function_name,
                    inputs,
                    &error,
                );
                if !self.unique_crashes_set.contains(&crash) {
                    let name = String::from_str(function_name);
                    let carried = clone_types(inputs);
                    Some(WorkerEvent::NewCrash(name, carried, error))
                } else {
                    None
                }
            },
        }
    }
}

} // verus!
