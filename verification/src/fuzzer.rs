use vstd::prelude::*;

use crate::config::Config;
use crate::coverage::Coverage;
use crate::coverage::CoverageModel;
use crate::coverage::CoverageSet;
use crate::crash::crash_fingerprint;
use crate::crash::Crash;
use crate::crash::CrashSet;
use crate::detector::AvailableDetector;
use crate::render::parameters_display;
use crate::stats::Stats;
use crate::types::seq_model;
use crate::types::Parameters;
use crate::types::Type;
use crate::worker::WorkerEvent;

verus! {

/// What the coordinator decides on one incoming worker event: the
/// optional coverage delta to send back, the newly adopted records to
/// persist in the corpus directory, the crash to persist and broadcast if
/// one proved globally novel, and the report line for a crash event.
pub struct HandleOutcome {
    pub response: Option<CoverageSet>,
    pub adopted: Vec<Coverage>,
    pub new_unique_crash: Option<Crash>,
    pub crash_message: Option<String>,
}

/// The fuzzing coordinator: the global coverage and unique-crash sets,
/// the aggregate counters, and the target description. Threads, channels,
/// the filesystem and the dashboard stay with the caller, which feeds
/// every received worker event to `handle_worker_event`.
pub struct Fuzzer {
    /// The run's configuration.
    pub config: Config,
    /// The aggregate counters reported to the user.
    pub global_stats: Stats,
    /// The global coverage set; it only grows.
    pub coverage_set: CoverageSet,
    /// The global unique-crash set; it only grows.
    pub unique_crashes_set: CrashSet,
    /// The module under test.
    pub target_module: String,
    /// The function under test, in stateless mode.
    pub target_function: Option<String>,
    /// The functions under test, in stateful mode.
    pub target_functions: Option<Vec<String>>,
    /// The parameter schema of the target, for reporting.
    pub target_parameters: Vec<Type>,
    /// The bound on reachable program counters, as a progress denominator.
    pub max_coverage: usize,
    /// The detector tags handed to every worker.
    pub detectors: Option<Vec<AvailableDetector>>,
    /// Whether this run fuzzes call sequences over a shared world.
    pub use_state: bool,
}

impl Fuzzer {
    /// The coordinator's well-formedness: both global sets hold one
    /// record per class.
    pub open spec fn wf(&self) -> bool {
        self.coverage_set.wf() && self.unique_crashes_set.wf()
    }

    /// A coordinator for stateless fuzzing of one function, over the
    /// corpus and crashes loaded from disk.
    pub fn new_stateless(
        config: Config,
        target_module: String,
        target_function: String,
        detectors: Option<Vec<AvailableDetector>>,
        coverage_set: CoverageSet,
        unique_crashes_set: CrashSet,
    ) -> (r: Fuzzer)
        requires
            coverage_set.wf(),
            unique_crashes_set.wf(),
        ensures
            r.wf(),
            r.coverage_set@ == coverage_set@,
            r.unique_crashes_set@ == unique_crashes_set@,
            r.target_module@ == target_module@,
            (r.target_function matches Some(f) && f@ == target_function@),
            r.target_functions matches None::<Vec<String>>,
            !r.use_state,
            r.global_stats.execs == 0,
            r.global_stats.time_running == 0,
    {
        Fuzzer {
            config,
            global_stats: Stats::new(),
            coverage_set,
            unique_crashes_set,
            target_module,
            target_function: Some(target_function),
            target_functions: None,
            target_parameters: Vec::new(),
            max_coverage: 0,
            detectors,
            use_state: false,
        }
    }

    /// A coordinator for stateful fuzzing of a list of functions, over
    /// the corpus and crashes loaded from disk.
    pub fn new_stateful(
        config: Config,
        target_module: String,
        target_functions: Vec<String>,
        detectors: Option<Vec<AvailableDetector>>,
        coverage_set: CoverageSet,
        unique_crashes_set: CrashSet,
    ) -> (r: Fuzzer)
        requires
            coverage_set.wf(),
            unique_crashes_set.wf(),
        ensures
            r.wf(),
            r.coverage_set@ == coverage_set@,
            r.unique_crashes_set@ == unique_crashes_set@,
            r.target_module@ == target_module@,
            r.target_function matches None::<String>,
            (r.target_functions matches Some(fs) && fs@ == target_functions@),
            r.use_state,
            r.global_stats.execs == 0,
            r.global_stats.time_running == 0,
    {
        Fuzzer {
            config,
            global_stats: Stats::new(),
            coverage_set,
            unique_crashes_set,
            target_module,
            target_function: None,
            target_functions: Some(target_functions),
            target_parameters: Vec::new(),
            max_coverage: 0,
            detectors,
            use_state: true,
        }
    }

    /// Consumes one worker event. A reconciliation request is answered
    /// with the classes the worker lacks, and every class the worker
    /// found first joins the global set, to be persisted. A crash report
    /// joins the global set on first observation per fingerprint, to be
    /// persisted and broadcast; a duplicate is only reported. Neither
    /// global set ever shrinks.
    #[verifier::loop_isolation(false)]
    pub fn handle_worker_event(&mut self, event: WorkerEvent) -> (outcome: HandleOutcome)
        requires
            old(self).wf(),
            (event matches WorkerEvent::CoverageUpdateRequest(s) ==> s.wf()),
            (event matches WorkerEvent::CoverageUpdateRequest(_)) || (event matches
                WorkerEvent::NewCrash(_, _, _)) || (event matches WorkerEvent::DetectorTriggered(
                _,
                _,
            )),
        ensures
            final(self).wf(),
            // monotonicity: both global sets only grow
            final(self).coverage_set@.take(old(self).coverage_set@.len() as int) == old(
                self,
            ).coverage_set@,
            old(self).coverage_set@.len() <= final(self).coverage_set@.len(),
            final(self).unique_crashes_set@.take(old(self).unique_crashes_set@.len() as int)
                == old(self).unique_crashes_set@,
            old(self).unique_crashes_set@.len() <= final(self).unique_crashes_set@.len(),
            // a reconciliation request
            (event matches WorkerEvent::CoverageUpdateRequest(remote) ==> {
                &&& final(self).unique_crashes_set@ == old(self).unique_crashes_set@
                &&& forall|p: Seq<u64>|
                    #[trigger] final(self).coverage_set.contains_pcs(p) == (old(
                        self,
                    ).coverage_set.contains_pcs(p) || remote.contains_pcs(p))
                &&& crate::coverage::coverage_models(outcome.adopted@) == remote@.filter(
                    |c: CoverageModel| !old(self).coverage_set.contains_pcs(c.pcs),
                )
                &&& (outcome.response matches Some(d) ==> (forall|p: Seq<u64>|
                    #[trigger] d.contains_pcs(p) == (old(self).coverage_set.contains_pcs(p)
                        && !remote.contains_pcs(p))))
                &&& ((outcome.response matches Some(_)) == (old(self).coverage_set@.filter(
                    |c: CoverageModel| !remote.contains_pcs(c.pcs),
                ).len() > 0))
                &&& outcome.new_unique_crash matches None::<Crash>
                &&& final(self).global_stats.unique_crashes == old(self).global_stats.unique_crashes
                &&& final(self).global_stats.coverage_size as int == if old(
                    self,
                ).global_stats.coverage_size + outcome.adopted@.len() <= u64::MAX {
                    old(self).global_stats.coverage_size + outcome.adopted@.len()
                } else {
                    u64::MAX as int
                }
                &&& final(self).global_stats.secs_since_last_cov == if outcome.adopted@.len() > 0 {
                    0
                } else {
                    old(self).global_stats.secs_since_last_cov
                }
                &&& final(self).global_stats.execs == old(self).global_stats.execs
                &&& final(self).global_stats.crashes == old(self).global_stats.crashes
                &&& final(self).global_stats.time_running == old(self).global_stats.time_running
                &&& final(self).global_stats.execs_per_sec == old(self).global_stats.execs_per_sec
            }),
            // a crash report
            (event matches WorkerEvent::NewCrash(function, inputs, error) ==> {
                let fp = (function@, error@);
                &&& final(self).coverage_set@ == old(self).coverage_set@
                &&& final(self).global_stats.coverage_size == old(self).global_stats.coverage_size
                &&& final(self).global_stats.secs_since_last_cov == old(
                    self,
                ).global_stats.secs_since_last_cov
                &&& final(self).global_stats.execs == old(self).global_stats.execs
                &&& final(self).global_stats.crashes == old(self).global_stats.crashes
                &&& final(self).global_stats.time_running == old(self).global_stats.time_running
                &&& final(self).global_stats.execs_per_sec == old(self).global_stats.execs_per_sec
                &&& outcome.adopted@.len() == 0
                &&& outcome.response matches None::<CoverageSet>
                &&& (outcome.new_unique_crash matches Some(_)) == !old(
                    self,
                ).unique_crashes_set.contains_fingerprint(fp)
                &&& (!old(self).unique_crashes_set.contains_fingerprint(fp) ==> {
                    &&& (outcome.new_unique_crash matches Some(c) && crash_fingerprint(c@) == fp
                        && c@.target_module == old(self).target_module@ && c@.inputs == seq_model(
                        inputs@,
                    ))
                    &&& final(self).unique_crashes_set@ == old(self).unique_crashes_set@.push(
                        crate::crash::CrashModel {
                            target_module: old(self).target_module@,
                            target_function: function@,
                            inputs: seq_model(inputs@),
                            error: error@,
                        },
                    )
                    &&& (outcome.crash_message matches Some(m) && m@ == parameters_display(
                        seq_model(inputs@),
                    ) + " - NEW"@)
                    &&& final(self).global_stats.unique_crashes as int == if old(
                        self,
                    ).global_stats.unique_crashes == u64::MAX {
                        u64::MAX as int
                    } else {
                        old(self).global_stats.unique_crashes + 1
                    }
                })
                &&& (old(self).unique_crashes_set.contains_fingerprint(fp) ==> {
                    &&& final(self).unique_crashes_set@ == old(self).unique_crashes_set@
                    &&& (outcome.crash_message matches Some(m) && m@ == parameters_display(
                        seq_model(inputs@),
                    ) + " - already exists, skipping"@)
                    &&& final(self).global_stats.unique_crashes == old(
                        self,
                    ).global_stats.unique_crashes
                })
            }),
            // a detector verdict changes nothing
            (event matches WorkerEvent::DetectorTriggered(_, _) ==> {
                &&& final(self).coverage_set@ == old(self).coverage_set@
                &&& final(self).unique_crashes_set@ == old(self).unique_crashes_set@
                &&& final(self).global_stats == old(self).global_stats
                &&& outcome.adopted@.len() == 0
                &&& outcome.response matches None::<CoverageSet>
                &&& outcome.new_unique_crash matches None::<Crash>
            }),
            final(self).target_module@ == old(self).target_module@,
    {
        match event {
            WorkerEvent::CoverageUpdateRequest(remote) => {
                let to_send = self.coverage_set.difference(&remote);
                let response: Option<CoverageSet> = if to_send.len() > 0 {
                    Some(to_send)
                } else {
                    None
                };
                let ghost before = self.coverage_set@;
                let ghost pred = |c: CoverageModel| !old(self).coverage_set.contains_pcs(c.pcs);
                let mut adopted: Vec<Coverage> = Vec::new();
                let mut j: usize = 0;
                proof {
                    reveal(Seq::filter);
                }
                while j < remote.len()
                    invariant
                        j <= remote@.len(),
                        self.wf(),
                        self.coverage_set@.take(before.len() as int) == before,
                        before.len() <= self.coverage_set@.len(),
                        forall|p: Seq<u64>|
                            #[trigger] CoverageSet::seq_contains_pcs(self.coverage_set@, p) == (
                            CoverageSet::seq_contains_pcs(before, p)
                                || CoverageSet::seq_contains_pcs(remote@.take(j as int), p)),
                        crate::coverage::coverage_models(adopted@) == remote@.take(
                            j as int,
                        ).filter(pred),
                        self.unique_crashes_set@ == old(self).unique_crashes_set@,
                        self.target_module@ == old(self).target_module@,
                        before == old(self).coverage_set@,
                        self.global_stats.unique_crashes == old(self).global_stats.unique_crashes,
                        self.global_stats.coverage_size as int == if old(
                            self,
                        ).global_stats.coverage_size + adopted@.len() <= u64::MAX {
                            old(self).global_stats.coverage_size + adopted@.len()
                        } else {
                            u64::MAX as int
                        },
                        self.global_stats.secs_since_last_cov == if adopted@.len() > 0 {
                            0u64
                        } else {
                            old(self).global_stats.secs_since_last_cov
                        },
                        self.global_stats.execs == old(self).global_stats.execs,
                        self.global_stats.crashes == old(self).global_stats.crashes,
                        self.global_stats.time_running == old(self).global_stats.time_running,
                        self.global_stats.execs_per_sec == old(self).global_stats.execs_per_sec,
                    decreases remote@.len() - j,
                {
                    let c = remote.get(j);
                    let dup = c.clone();
                    let ghost seen = self.coverage_set@;
                    let novel = !self.coverage_set.contains(&dup);
                    proof {
                        assert(remote@[j as int] == c@);
                        // a well-formed remote set has no duplicate classes, so
                        // novelty against the grown set equals novelty against
                        // the set as it was when the request arrived
                        assert(novel == pred(remote@[j as int])) by {
                            if CoverageSet::seq_contains_pcs(
                                remote@.take(j as int),
                                c@.pcs,
                            ) {
                                let i = choose|i: int|
                                    0 <= i < j && (#[trigger] remote@.take(j as int)[i]).pcs
                                        == c@.pcs;
                                assert(remote@[i].pcs == remote@[j as int].pcs);
                            }
                        }
                    }
                    if novel {
                        let keep = dup.clone();
                        let added = self.coverage_set.insert(dup);
                        self.global_stats.coverage_size =
                            self.global_stats.coverage_size.saturating_add(1);
                        self.global_stats.secs_since_last_cov = 0;
                        let ghost prev_adopted = adopted@;
                        adopted.push(keep);
                        proof {
                            assert(self.coverage_set@.take(before.len() as int) =~= seen.take(
                                before.len() as int,
                            ));
                            assert(crate::coverage::coverage_models(adopted@) =~= remote@.take(
                                j as int,
                            ).filter(pred).push(c@)) by {
                                assert(adopted@ =~= prev_adopted.push(keep));
                                assert forall|k: int|
                                    0 <= k < adopted@.len() implies crate::coverage::coverage_models(
                                    adopted@,
                                )[k] == remote@.take(j as int).filter(pred).push(c@)[k] by {
                                    if k < prev_adopted.len() {
                                        assert(adopted@[k] == prev_adopted[k]);
                                    } else {
                                        assert(adopted@[k] == keep);
                                    }
                                }
                            }
                        }
                    }
                    proof {
                        let t1 = remote@.take(j as int + 1);
                        assert(t1 =~= remote@.take(j as int).push(remote@[j as int]));
                        assert(t1.drop_last() =~= remote@.take(j as int));
                        assert(t1.last() == remote@[j as int]);
                        assert(crate::coverage::coverage_models(adopted@) =~= t1.filter(pred));
                        assert forall|p: Seq<u64>|
                            #[trigger] CoverageSet::seq_contains_pcs(self.coverage_set@, p) == (
                            CoverageSet::seq_contains_pcs(before, p)
                                || CoverageSet::seq_contains_pcs(t1, p)) by {
                            CoverageSet::lemma_contains_pcs_push(
                                remote@.take(j as int),
                                remote@[j as int],
                                p,
                            );
                            if novel {
                                CoverageSet::lemma_contains_pcs_push(seen, c@, p);
                            }
                        }
                    }
                    j += 1;
                }
                proof {
                    assert(remote@.take(remote@.len() as int) =~= remote@);
                    assert forall|p: Seq<u64>|
                        #[trigger] final(self).coverage_set.contains_pcs(p) == (old(
                            self,
                        ).coverage_set.contains_pcs(p) || remote.contains_pcs(p)) by {
                        assert(CoverageSet::seq_contains_pcs(self.coverage_set@, p) == (
                        CoverageSet::seq_contains_pcs(before, p) || CoverageSet::seq_contains_pcs(
                            remote@.take(remote@.len() as int),
                            p,
                        )));
                    }
                }
                HandleOutcome { response, adopted, new_unique_crash: None, crash_message: None }
            },
            WorkerEvent::NewCrash(function, inputs, error) => {
                let crash = Crash::new(
                    self.target_module.as_str(),
                    function.as_str(),
                    &inputs,
                    &error,
                );
                let params = Parameters(inputs);
                let rendered = params.display_string();
                if !self.unique_crashes_set.contains(&crash) {
                    let keep = crash.clone();
                    let _ = self.unique_crashes_set.insert(crash);
                    self.global_stats.unique_crashes =
                        self.global_stats.unique_crashes.saturating_add(1);
                    let mut message = rendered;
                    message.append(" - NEW");
                    HandleOutcome {
                        response: None,
                        adopted: Vec::new(),
                        new_unique_crash: Some(keep),
                        crash_message: Some(message),
                    }
                } else {
                    let mut message = rendered;
                    message.append(" - already exists, skipping");
                    HandleOutcome {
                        response: None,
                        adopted: Vec::new(),
                        new_unique_crash: None,
                        crash_message: Some(message),
                    }
                }
            },
            _ => {
                HandleOutcome {
                    response: None,
                    adopted: Vec::new(),
                    new_unique_crash: None,
                    crash_message: None,
                }
            },
        }
    }
}

/// Reconciliation idempotence. The hypotheses are exactly what one
/// exchange establishes: `handle_worker_event` makes the global classes
/// the union of what both sides held, and the worker's merge of the
/// returned delta does the same to the local classes. After that single
/// round both sides hold the same classes, and a second exchange without
/// new executions finds nothing to send in either direction.
pub proof fn lemma_reconciliation_idempotent(
    local_before: Set<Seq<u64>>,
    global_before: Set<Seq<u64>>,
    local_after: Set<Seq<u64>>,
    global_after: Set<Seq<u64>>,
)
    requires
        forall|p: Seq<u64>|
            #[trigger] global_after.contains(p) == (global_before.contains(p)
                || local_before.contains(p)),
        forall|p: Seq<u64>|
            #[trigger] local_after.contains(p) == (local_before.contains(p) || (
            global_before.contains(p) && !local_before.contains(p))),
    ensures
        local_after == global_after,
        local_after == local_before.union(global_before),
        global_after.difference(local_after) == Set::<Seq<u64>>::empty(),
        local_after.difference(global_after) == Set::<Seq<u64>>::empty(),
{
    assert(local_after =~= global_after);
    assert(local_after =~= local_before.union(global_before));
    assert(global_after.difference(local_after) =~= Set::<Seq<u64>>::empty());
    assert(local_after.difference(global_after) =~= Set::<Seq<u64>>::empty());
}

} // verus!
