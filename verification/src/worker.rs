use vstd::prelude::*;

use crate::coverage::Coverage;
use crate::coverage::CoverageSet;
use crate::crash::crash_fingerprint;
use crate::crash::Crash;
use crate::crash::CrashSet;
use crate::detector::hot_opcode_message;
use crate::detector::hot_opcode_triggered;
use crate::detector::new_detector;
use crate::detector::AvailableDetector;
use crate::detector::Detector;
use crate::error::Error;
use crate::mutator::mutable_inputs;
use crate::mutator::mutable_seq;
use crate::mutator::mutated_seq;
use crate::mutator::Mutator;
use crate::mutator::SuiMutator;
use crate::rng::spec_draw;
use crate::rng::spec_next_seed;
use crate::rng::Rng;
use crate::stats::Stats;
use crate::types::clone_types;
use crate::types::seq_model;
use crate::types::Type;
use crate::types::TypeModel;

verus! {

/// What crosses the channel between a worker and the coordinator, in
/// either direction.
pub enum WorkerEvent {
    /// Worker to coordinator: a crash was observed, with the target
    /// function's name, the inputs that reached it, and the classified
    /// error.
    NewCrash(String, Vec<Type>, Error),
    /// Coordinator to every worker: a crash proved novel globally; workers
    /// de-duplicate against it locally.
    NewUniqueCrash(Crash),
    /// Worker to coordinator: the worker's whole coverage set, asking for
    /// the classes it lacks.
    CoverageUpdateRequest(CoverageSet),
    /// Coordinator to the requesting worker: the classes the worker
    /// lacked.
    CoverageUpdateResponse(CoverageSet),
    /// Worker to coordinator: a detector gave a positive verdict.
    DetectorTriggered(AvailableDetector, Option<String>),
}

/// A fuzzing worker: its `run` drives the feedback loop forever.
pub trait Worker {
    /// Runs the worker's loop.
    fn run(&mut self);
}

/// A counter advanced by one, stopping at the ceiling.
pub open spec fn sat_inc(x: u64) -> int {
    if x == u64::MAX {
        x as int
    } else {
        x + 1
    }
}

/// The schema-default of one typed value: integers at zero, booleans
/// true, composites recursively; a function descriptor stands unchanged.
pub open spec fn init_value(m: TypeModel) -> TypeModel
    decreases m,
{
    match m {
        TypeModel::U8(_) => TypeModel::U8(0),
        TypeModel::U16(_) => TypeModel::U16(0),
        TypeModel::U32(_) => TypeModel::U32(0),
        TypeModel::U64(_) => TypeModel::U64(0),
        TypeModel::U128(_) => TypeModel::U128(0),
        TypeModel::Bool(_) => TypeModel::Bool(true),
        TypeModel::Vector(elem, items) => TypeModel::Vector(elem, init_seq(items)),
        TypeModel::Struct(fields) => TypeModel::Struct(init_seq(fields)),
        TypeModel::Reference(mutable, referent) => TypeModel::Reference(
            mutable,
            Box::new(init_value(*referent)),
        ),
        TypeModel::Function(_, _, _) => m,
    }
}

/// The schema-default of a sequence of typed values.
pub open spec fn init_seq(s: Seq<TypeModel>) -> Seq<TypeModel>
    decreases s,
{
    if s.len() == 0 {
        Seq::empty()
    } else {
        seq![init_value(s[0])] + init_seq(s.drop_first())
    }
}

pub proof fn lemma_init_seq_len(s: Seq<TypeModel>)
    ensures
        init_seq(s).len() == s.len(),
    decreases s.len(),
{
    if s.len() > 0 {
        lemma_init_seq_len(s.drop_first());
    }
}

pub proof fn lemma_init_seq_index(s: Seq<TypeModel>, i: int)
    requires
        0 <= i < s.len(),
    ensures
        init_seq(s)[i] == init_value(s[i]),
    decreases s.len(),
{
    lemma_init_seq_len(s);
    if i > 0 {
        lemma_init_seq_index(s.drop_first(), i - 1);
    }
}

/// The coverage record carried by an execution result, if any.
pub open spec fn result_coverage(
    result: Result<Option<Coverage>, (Option<Coverage>, Error)>,
) -> Option<Coverage> {
    match result {
        Ok(c) => c,
        Err((c, _)) => c,
    }
}

/// What a worker's execution step hands back to be sent over the channel:
/// detector verdicts, at most one crash report, and at most one corpus
/// reconciliation request, in that order.
pub struct StepOutcome {
    pub detector_events: Vec<WorkerEvent>,
    pub crash_event: Option<WorkerEvent>,
    pub coverage_request: Option<WorkerEvent>,
}

/// Evaluates each configured detector on one execution's coverage and
/// optional error, collecting one event per positive verdict.
#[verifier::loop_isolation(false)]
fn evaluate_detectors(
    detectors: &Vec<AvailableDetector>,
    cov: &Coverage,
    err: Option<&Error>,
) -> (r: Vec<WorkerEvent>)
    requires
        forall|k: int|
            0 <= k < detectors@.len() ==> detectors@[k]
                == AvailableDetector::BasicOpCodeDetector,
    ensures
        hot_opcode_triggered(cov@.pcs) ==> r@.len() == detectors@.len(),
        !hot_opcode_triggered(cov@.pcs) ==> r@.len() == 0,
        forall|k: int|
            0 <= k < r@.len() ==> ((#[trigger] r@[k]) matches WorkerEvent::DetectorTriggered(
                tag,
                msg,
            ) && tag == AvailableDetector::BasicOpCodeDetector && (msg matches Some(m) && m@
                == hot_opcode_message())),
{
    let mut events: Vec<WorkerEvent> = Vec::new();
    let mut i: usize = 0;
    while i < detectors.len()
        invariant
            i <= detectors@.len(),
            hot_opcode_triggered(cov@.pcs) ==> events@.len() == i,
            !hot_opcode_triggered(cov@.pcs) ==> events@.len() == 0,
            forall|k: int|
                0 <= k < events@.len() ==> ((#[trigger] events@[k]) matches
                    WorkerEvent::DetectorTriggered(tag, msg) && tag
                    == AvailableDetector::BasicOpCodeDetector && (msg matches Some(m) && m@
                    == hot_opcode_message())),
        decreases detectors@.len() - i,
    {
        let d = new_detector(&detectors[i]);
        let carried = match err {
            Some(e) => Some(e.clone()),
            None => None,
        };
        let verdict = d.detect(cov, carried);
        if verdict.0 {
            events.push(WorkerEvent::DetectorTriggered(detectors[i], verdict.1));
        }
        i += 1;
    }
    events
}

/// The stateless fuzzing worker: the private coverage and unique-crash
/// sets, the deterministic generator and mutator, the execution counters,
/// and the current typed inputs. The VM itself stays outside: the loop's
/// owner executes the target and hands each result to
/// `process_execution`.
pub struct StatelessWorker {
    /// This worker's counters; the coordinator reads a snapshot.
    pub stats: Stats,
    /// The worker's private coverage set.
    pub coverage_set: CoverageSet,
    /// The crashes the coordinator has broadcast as globally unique.
    pub unique_crashes_set: CrashSet,
    /// The seed-derived generator used to pick the next seed input.
    pub rng: Rng,
    /// The typed mutator.
    pub mutator: SuiMutator,
    /// How many executions pass between corpus reconciliations.
    pub execs_before_cov_update: u64,
    /// The configured detector tags.
    pub detectors: Vec<AvailableDetector>,
    /// The module under test.
    pub target_module: String,
    /// The function under test.
    pub target_function: String,
    /// The inputs of the next execution.
    pub inputs: Vec<Type>,
    /// Whole seconds elapsed since this worker started.
    pub sec_elapsed: u64,
}

impl StatelessWorker {
    /// The worker's well-formedness: its sets hold one record per class,
    /// reconciliation happens at a positive interval, and every configured
    /// detector tag names the concrete detector.
    pub open spec fn wf(&self) -> bool {
        &&& self.coverage_set.wf()
        &&& self.unique_crashes_set.wf()
        &&& self.execs_before_cov_update > 0
        &&& forall|k: int|
            0 <= k < self.detectors@.len() ==> self.detectors@[k]
                == AvailableDetector::BasicOpCodeDetector
    }

    /// Derives the first inputs from the target's parameter schema:
    /// primitives go to zero or true, composites recurse.
    #[verifier::loop_isolation(false)]
    pub fn init_inputs(schema: &Vec<Type>) -> (r: Vec<Type>)
        ensures
            r@.len() == schema@.len(),
            seq_model(r@) == init_seq(seq_model(schema@)),
    {
        let mut r: Vec<Type> = Vec::new();
        let mut i: usize = 0;
        while i < schema.len()
            invariant
                i <= schema@.len(),
                r@.len() == i,
                forall|k: int|
                    0 <= k < i ==> type_model_of(#[trigger] r@[k]) == init_value(
                        seq_model(schema@)[k],
                    ),
            decreases schema@.len() - i,
        {
            proof {
                crate::types::lemma_seq_model_index(schema@, i as int);
            }
            let v = init_one(&schema[i]);
            r.push(v);
            i += 1;
        }
        proof {
            crate::types::lemma_seq_model_len(schema@);
            crate::types::lemma_seq_model_len(r@);
            lemma_init_seq_len(seq_model(schema@));
            assert forall|k: int| 0 <= k < r@.len() implies seq_model(r@)[k] == init_seq(
                seq_model(schema@),
            )[k] by {
                crate::types::lemma_seq_model_index(r@, k);
                lemma_init_seq_index(seq_model(schema@), k);
            }
            assert(seq_model(r@) =~= init_seq(seq_model(schema@)));
        }
        r
    }
}

impl StatelessWorker {
    /// A fresh worker over a snapshot of the global coverage set. The
    /// first inputs are the schema defaults; they stay in use until the
    /// first non-empty coverage arrives.
    pub fn new(
        coverage_set: CoverageSet,
        seed: u64,
        execs_before_cov_update: u64,
        detectors: Vec<AvailableDetector>,
        target_module: String,
        target_function: String,
        schema: &Vec<Type>,
    ) -> (r: StatelessWorker)
        requires
            coverage_set.wf(),
            execs_before_cov_update > 0,
            forall|k: int|
                0 <= k < detectors@.len() ==> detectors@[k]
                    == AvailableDetector::BasicOpCodeDetector,
        ensures
            r.wf(),
            r.coverage_set@ == coverage_set@,
            r.unique_crashes_set@ == Seq::<crate::crash::CrashModel>::empty(),
            r.rng.seed == seed,
            r.stats.execs == 0,
            r.stats.crashes == 0,
            r.execs_before_cov_update == execs_before_cov_update,
            r.detectors@ == detectors@,
            r.target_module@ == target_module@,
            r.target_function@ == target_function@,
            seq_model(r.inputs@) == init_seq(seq_model(schema@)),
            r.sec_elapsed == 0,
    {
        let inputs = Self::init_inputs(schema);
        StatelessWorker {
            stats: Stats::new(),
            coverage_set,
            unique_crashes_set: CrashSet::new(),
            rng: Rng::new(seed),
            mutator: SuiMutator::new(seed, 12),
            execs_before_cov_update,
            detectors,
            target_module,
            target_function,
            inputs,
            sec_elapsed: 0,
        }
    }

    /// A copy of the inputs for the next execution, to hand to the
    /// runner.
    pub fn current_inputs(&self) -> (r: Vec<Type>)
        ensures
            seq_model(r@) == seq_model(self.inputs@),
    {
        clone_types(&self.inputs)
    }

    /// One iteration of the feedback loop, after the runner executed the
    /// current inputs: counters advance; on a trace, the detectors run
    /// and a novel coverage class joins the local set; on a failure with
    /// a novel trace, a crash report goes out unless its fingerprint is
    /// already known unique; and every `execs_before_cov_update`
    /// executions a reconciliation request carries the whole local set.
    pub fn process_execution(
        &mut self,
        result: Result<Option<Coverage>, (Option<Coverage>, Error)>,
        second_elapsed: bool,
    ) -> (outcome: StepOutcome)
        requires
            old(self).wf(),
        ensures
            final(self).wf(),
            // counters
            final(self).stats.execs as int == sat_inc(old(self).stats.execs),
            (result matches Err(_)) ==> final(self).stats.crashes as int == sat_inc(
                old(self).stats.crashes,
            ),
            (result matches Ok(_)) ==> final(self).stats.crashes == old(self).stats.crashes,
            // the coverage set only grows, one class at most, deduplicated
            match result_coverage(result) {
                Some(c) => if old(self).coverage_set.contains_pcs(c@.pcs) {
                    final(self).coverage_set@ == old(self).coverage_set@
                } else {
                    final(self).coverage_set@ == old(self).coverage_set@.push(c@)
                },
                None => final(self).coverage_set@ == old(self).coverage_set@,
            },
            // the per-second tick
            second_elapsed ==> final(self).sec_elapsed as int == sat_inc(old(self).sec_elapsed),
            second_elapsed ==> final(self).stats.execs_per_sec == final(self).stats.execs
                / final(self).sec_elapsed,
            !second_elapsed ==> final(self).sec_elapsed == old(self).sec_elapsed,
            !second_elapsed ==> final(self).stats.execs_per_sec == old(self).stats.execs_per_sec,
            // the time since the last new coverage resets exactly on a novel class
            final(self).stats.secs_since_last_cov as int == (match result_coverage(result) {
                Some(c) => if !old(self).coverage_set.contains_pcs(c@.pcs) {
                    0
                } else if second_elapsed {
                    sat_inc(old(self).stats.secs_since_last_cov)
                } else {
                    old(self).stats.secs_since_last_cov as int
                },
                None => if second_elapsed {
                    sat_inc(old(self).stats.secs_since_last_cov)
                } else {
                    old(self).stats.secs_since_last_cov as int
                },
            }),
            // the unique-crash set is only changed by coordinator broadcasts
            final(self).unique_crashes_set@ == old(self).unique_crashes_set@,
            // a crash report goes out exactly for a failure with a novel
            // trace whose fingerprint is not yet known unique
            (outcome.crash_event matches Some(_)) == (result matches Err(p) && p.0 matches Some(c)
                && !old(self).coverage_set.contains_pcs(c@.pcs)
                && !old(self).unique_crashes_set.contains_fingerprint(
                (old(self).target_function@, p.1@),
            )),
            (outcome.crash_event matches Some(ev) ==> ev matches WorkerEvent::NewCrash(f, ins, e)
                && f@ == old(self).target_function@ && seq_model(ins@) == seq_model(
                old(self).inputs@,
            ) && (result matches Err(p) && e@ == p.1@)),
            // a reconciliation request goes out exactly on the interval
            (outcome.coverage_request matches Some(_)) == (final(self).stats.execs as int
                % old(self).execs_before_cov_update as int == 0),
            (outcome.coverage_request matches Some(ev) ==> ev matches
                WorkerEvent::CoverageUpdateRequest(s) && s@ == final(self).coverage_set@),
            // detectors run whenever a trace is present; each verdict event
            // carries the detector's tag and its message
            match result_coverage(result) {
                Some(c) => (hot_opcode_triggered(c@.pcs) ==> outcome.detector_events@.len()
                    == old(self).detectors@.len()) && (!hot_opcode_triggered(c@.pcs)
                    ==> outcome.detector_events@.len() == 0),
                None => outcome.detector_events@.len() == 0,
            },
            forall|k: int|
                0 <= k < outcome.detector_events@.len() ==> ((
                #[trigger] outcome.detector_events@[k]) matches WorkerEvent::DetectorTriggered(
                    tag,
                    msg,
                ) && tag == AvailableDetector::BasicOpCodeDetector && (msg matches Some(m) && m@
                    == hot_opcode_message())),
            // everything else stands
            final(self).inputs@ == old(self).inputs@,
            final(self).rng == old(self).rng,
            final(self).detectors@ == old(self).detectors@,
            final(self).target_module@ == old(self).target_module@,
            final(self).target_function@ == old(self).target_function@,
            final(self).execs_before_cov_update == old(self).execs_before_cov_update,
            final(self).stats.unique_crashes == old(self).stats.unique_crashes,
    {
        self.stats.execs = self.stats.execs.saturating_add(1);
        if second_elapsed {
            self.sec_elapsed = self.sec_elapsed.saturating_add(1);
            self.stats.secs_since_last_cov = self.stats.secs_since_last_cov.saturating_add(1);
            self.stats.execs_per_sec = self.stats.execs / self.sec_elapsed;
        }
        let mut detector_events: Vec<WorkerEvent> = Vec::new();
        let mut crash_event: Option<WorkerEvent> = None;
        match result {
            Ok(cov) => {
                match cov {
                    Some(coverage) => {
                        detector_events = evaluate_detectors(&self.detectors, &coverage, None);
                        let added = self.coverage_set.insert(coverage);
                        if added {
                            self.stats.secs_since_last_cov = 0;
                        }
                    },
                    None => {},
                }
            },
            Err((cov, error)) => {
                match cov {
                    Some(coverage) => {
                        detector_events = evaluate_detectors(
                            &self.detectors,
                            &coverage,
                            Some(&error),
                        );
                        let added = self.coverage_set.insert(coverage);
                        if added {
                            self.stats.secs_since_last_cov = 0;
                            let crash = Crash::new(
                                self.target_module.as_str(),
                                self.target_function.as_str(),
                                &self.inputs,
                                &error,
                            );
                            if !self.unique_crashes_set.contains(&crash) {
                                let name = String::from_str(self.target_function.as_str());
                                let carried = clone_types(&self.inputs);
                                crash_event = Some(WorkerEvent::NewCrash(name, carried, error));
                            }
                        }
                    },
                    None => {},
                }
                self.stats.crashes = self.stats.crashes.saturating_add(1);
            },
        }
        let coverage_request: Option<WorkerEvent> = if self.stats.execs
            % self.execs_before_cov_update == 0 {
            Some(WorkerEvent::CoverageUpdateRequest(self.coverage_set.duplicate()))
        } else {
            None
        };
        StepOutcome { detector_events, crash_event, coverage_request }
    }

    /// Takes in what the coordinator sent back: a coverage delta is
    /// merged into the local set, a broadcast unique crash joins the
    /// local fingerprints. Nothing is ever removed.
    pub fn handle_response(&mut self, event: WorkerEvent)
        requires
            old(self).wf(),
            (event matches WorkerEvent::CoverageUpdateResponse(_)) || (event matches
                WorkerEvent::NewUniqueCrash(_)),
        ensures
            final(self).wf(),
            (event matches WorkerEvent::CoverageUpdateResponse(delta) ==> {
                &&& final(self).unique_crashes_set@ == old(self).unique_crashes_set@
                &&& final(self).coverage_set@.take(old(self).coverage_set@.len() as int) == old(
                    self,
                ).coverage_set@
                &&& forall|p: Seq<u64>|
                    #[trigger] final(self).coverage_set.contains_pcs(p) == (old(
                        self,
                    ).coverage_set.contains_pcs(p) || delta.contains_pcs(p))
            }),
            (event matches WorkerEvent::NewUniqueCrash(c) ==> {
                &&& final(self).coverage_set@ == old(self).coverage_set@
                &&& if old(self).unique_crashes_set.contains_fingerprint(crash_fingerprint(c@)) {
                    final(self).unique_crashes_set@ == old(self).unique_crashes_set@
                } else {
                    final(self).unique_crashes_set@ == old(self).unique_crashes_set@.push(c@)
                }
            }),
            final(self).stats == old(self).stats,
            final(self).inputs@ == old(self).inputs@,
            final(self).rng == old(self).rng,
    {
        match event {
            WorkerEvent::CoverageUpdateResponse(delta) => {
                self.coverage_set.merge(&delta);
            },
            WorkerEvent::NewUniqueCrash(crash) => {
                let _ = self.unique_crashes_set.insert(crash);
            },
            _ => {
                proof {
                    assert(false);
                }
            },
        }
    }

    /// Picks the next seed input uniformly from the retained corpus and
    /// mutates it; with an empty corpus the current inputs stay in use,
    /// so the worker keeps fuzzing the schema defaults. A retained input
    /// outside the mutable kinds is kept as it is.
    pub fn pick_and_mutate_inputs(&mut self)
        requires
            old(self).wf(),
        ensures
            final(self).wf(),
            final(self).coverage_set@ == old(self).coverage_set@,
            final(self).unique_crashes_set@ == old(self).unique_crashes_set@,
            final(self).stats == old(self).stats,
            old(self).coverage_set@.len() == 0 ==> final(self).inputs@ == old(self).inputs@
                && final(self).rng == old(self).rng,
            old(self).coverage_set@.len() > 0 ==> {
                let idx = spec_draw(
                    old(self).rng.seed,
                    0,
                    (old(self).coverage_set@.len() - 1) as u64,
                );
                &&& final(self).rng.seed == spec_next_seed(old(self).rng.seed)
                &&& (mutable_seq(old(self).coverage_set@[idx].inputs) ==> {
                    &&& mutated_seq(
                        old(self).coverage_set@[idx].inputs,
                        seq_model(final(self).inputs@),
                    )
                    &&& seq_model(final(self).inputs@) == old(self).mutator.mutate_spec(
                        old(self).coverage_set@[idx].inputs,
                        4,
                    ).1
                    &&& final(self).mutator == old(self).mutator.mutate_spec(
                        old(self).coverage_set@[idx].inputs,
                        4,
                    ).0
                })
                &&& (!mutable_seq(old(self).coverage_set@[idx].inputs) ==> final(self).inputs@
                    == old(self).inputs@ && final(self).mutator == old(self).mutator)
            },
            old(self).coverage_set@.len() == 0 ==> final(self).mutator == old(self).mutator,
    {
        let n = self.coverage_set.len();
        if n > 0 {
            let idx = self.rng.rand_index(n);
            let record = self.coverage_set.get(idx);
            if mutable_inputs(&record.inputs) {
                let seed = clone_types(&record.inputs);
                let mutated = self.mutator.mutate(&seed, 4);
                self.inputs = mutated;
            }
        }
    }
}

/// Run-to-run reproducibility of the trace. Every decision of the loop
/// is pinned by a contract as a function of the worker's state: the
/// first inputs by `init_inputs` (the schema defaults), each corpus pick
/// by `spec_draw` over the generator seed, and each mutation by
/// `Mutator::mutate_spec`; so with one worker, a pure runner and a fixed
/// base seed, identical runs observe identical (inputs, coverage)
/// sequences. This lemma only records that restatement over the spec
/// functions; the substance lives in the contracts it names.
pub proof fn lemma_first_trace_reproducible(
    schema_a: Seq<TypeModel>,
    schema_b: Seq<TypeModel>,
    seed_a: u64,
    seed_b: u64,
    corpus_len: u64,
)
    requires
        schema_a == schema_b,
        seed_a == seed_b,
        corpus_len > 0,
    ensures
        init_seq(schema_a) == init_seq(schema_b),
        spec_draw(seed_a, 0, (corpus_len - 1) as u64) == spec_draw(
            seed_b,
            0,
            (corpus_len - 1) as u64,
        ),
        spec_next_seed(seed_a) == spec_next_seed(seed_b),
{
}

/// The model of one typed value (an alias kept short for contracts).
pub open spec fn type_model_of(t: Type) -> TypeModel {
    crate::types::type_model(t)
}

/// The schema-default of one typed value.
#[verifier::loop_isolation(false)]
fn init_one(t: &Type) -> (r: Type)
    ensures
        type_model_of(r) == init_value(type_model_of(*t)),
    decreases t,
{
    match t {
        Type::U8(_) => Type::U8(0),
        Type::U16(_) => Type::U16(0),
        Type::U32(_) => Type::U32(0),
        Type::U64(_) => Type::U64(0),
        Type::U128(_) => Type::U128(0),
        Type::Bool(_) => Type::Bool(true),
        Type::Vector(elem, items) => {
            let e = (**elem).clone();
            let vs = init_list(items);
            let r = Type::Vector(Box::new(e), vs);
            proof {
                reveal_with_fuel(crate::types::type_model, 2);
                assert(type_model_of(r) =~= init_value(type_model_of(*t)));
            }
            r
        },
        Type::Struct(fields) => {
            let vs = init_list(fields);
            let r = Type::Struct(vs);
            proof {
                assert(type_model_of(r) =~= init_value(type_model_of(*t)));
            }
            r
        },
        Type::Reference(mutable, referent) => {
            let v = init_one(referent);
            let r = Type::Reference(*mutable, Box::new(v));
            proof {
                assert(type_model_of(r) =~= init_value(type_model_of(*t)));
            }
            r
        },
        Type::Function(name, params, ret) => {
            let r = Type::Function(
                name.clone(),
                clone_types(params),
                match ret {
                    Some(b) => Some(Box::new((**b).clone())),
                    None => None,
                },
            );
            proof {
                assert(type_model_of(r) =~= init_value(type_model_of(*t)));
            }
            r
        },
    }
}

/// The schema-default of each value of a vector.
#[verifier::loop_isolation(false)]
fn init_list(v: &Vec<Type>) -> (r: Vec<Type>)
    ensures
        r@.len() == v@.len(),
        seq_model(r@) == init_seq(seq_model(v@)),
    decreases v,
{
    let mut r: Vec<Type> = Vec::new();
    let mut i: usize = 0;
    while i < v.len()
        invariant
            i <= v@.len(),
            r@.len() == i,
            forall|k: int|
                0 <= k < i ==> type_model_of(#[trigger] r@[k]) == init_value(seq_model(v@)[k]),
        decreases v@.len() - i,
    {
        proof {
            crate::types::lemma_seq_model_index(v@, i as int);
        }
        let x = init_one(&v[i]);
        r.push(x);
        i += 1;
    }
    proof {
        crate::types::lemma_seq_model_len(v@);
        crate::types::lemma_seq_model_len(r@);
        lemma_init_seq_len(seq_model(v@));
        assert forall|k: int| 0 <= k < r@.len() implies seq_model(r@)[k] == init_seq(
            seq_model(v@),
        )[k] by {
            crate::types::lemma_seq_model_index(r@, k);
            lemma_init_seq_index(seq_model(v@), k);
        }
        assert(seq_model(r@) =~= init_seq(seq_model(v@)));
    }
    r
}

} // verus!

