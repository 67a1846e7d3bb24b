use sui_fuzzer::Config;
use sui_fuzzer::Coverage;
use sui_fuzzer::CoverageSet;
use sui_fuzzer::CrashSet;
use sui_fuzzer::Error;
use sui_fuzzer::Fuzzer;
use sui_fuzzer::StatefulWorker;
use sui_fuzzer::StatelessWorker;
use sui_fuzzer::Type;
use sui_fuzzer::WorkerEvent;

fn cov(input: u64, pcs: &[u16]) -> Coverage {
    Coverage::from_pcs(vec![Type::U64(input)], pcs.to_vec())
}

fn worker_with(set: CoverageSet, ebcu: u64) -> StatelessWorker {
    StatelessWorker::new(
        set,
        0,
        ebcu,
        vec![],
        String::from("calculator"),
        String::from("check"),
        &vec![Type::U64(0), Type::Bool(false)],
    )
}

#[test]
fn default_configuration_matches_the_schema() {
    let c = Config::default();
    assert!(c.use_ui);
    assert_eq!(c.nb_threads, 8);
    assert_eq!(c.seed, Some(4284));
    assert!(c.contract.is_none());
    assert_eq!(c.execs_before_cov_update, 10000);
    assert_eq!(c.corpus_dir.as_str(), "./corpus");
    assert_eq!(c.crashes_dir.as_str(), "./crashes");
    assert_eq!(c.fuzz_functions_prefix.as_str(), "fuzz_");
}

#[test]
fn first_inputs_are_the_schema_defaults() {
    let schema = vec![
        Type::U64(99),
        Type::Bool(false),
        Type::Vector(Box::new(Type::U8(0)), vec![Type::U8(7)]),
        Type::Struct(vec![Type::U16(3)]),
    ];
    let inputs = StatelessWorker::init_inputs(&schema);
    assert_eq!(
        inputs,
        vec![
            Type::U64(0),
            Type::Bool(true),
            Type::Vector(Box::new(Type::U8(0)), vec![Type::U8(0)]),
            Type::Struct(vec![Type::U16(0)]),
        ]
    );
}

#[test]
fn an_empty_corpus_keeps_the_schema_default_inputs() {
    let mut w = worker_with(CoverageSet::new(), 10);
    let before = w.current_inputs();
    w.pick_and_mutate_inputs();
    assert_eq!(w.current_inputs(), before);
    w.pick_and_mutate_inputs();
    assert_eq!(w.current_inputs(), before);
}

#[test]
fn a_non_empty_corpus_feeds_the_mutator() {
    let mut set = CoverageSet::new();
    set.insert(cov(123, &[5]));
    let mut w = worker_with(set, 10);
    w.pick_and_mutate_inputs();
    // the mutated input keeps the retained input's shape
    let inputs = w.current_inputs();
    assert_eq!(inputs.len(), 1);
    assert!(matches!(inputs[0], Type::U64(_)));
}

#[test]
fn novel_coverage_joins_the_local_set_once() {
    let mut w = worker_with(CoverageSet::new(), 1000);
    let out = w.process_execution(Ok(Some(cov(1, &[10, 20]))), false);
    assert_eq!(w.coverage_set.len(), 1);
    assert_eq!(w.stats.execs, 1);
    assert_eq!(w.stats.crashes, 0);
    assert!(out.crash_event.is_none());
    // the same trace again changes nothing
    let _ = w.process_execution(Ok(Some(cov(2, &[10, 20]))), false);
    assert_eq!(w.coverage_set.len(), 1);
    assert_eq!(w.stats.execs, 2);
}

#[test]
fn a_failure_with_a_novel_trace_reports_a_crash_once() {
    let mut w = worker_with(CoverageSet::new(), 1000);
    let error = Error::Abort { message: String::from("assertion failed") };
    let out = w.process_execution(Err((Some(cov(1, &[1, 2])), error.clone())), false);
    assert_eq!(w.stats.crashes, 1);
    let event = out.crash_event.expect("a novel failing trace reports a crash");
    match event {
        WorkerEvent::NewCrash(function, inputs, err) => {
            assert_eq!(function.as_str(), "check");
            assert_eq!(inputs, vec![Type::U64(0), Type::Bool(true)]);
            assert_eq!(err, error);
        }
        _ => panic!("expected a crash report"),
    }
    // after the coordinator broadcasts the crash back, the same abort on a
    // fresh trace is suppressed locally
    let crash = sui_fuzzer::Crash::new(
        "calculator",
        "check",
        &vec![Type::U64(0)],
        &error,
    );
    w.handle_response(WorkerEvent::NewUniqueCrash(crash));
    let out2 = w.process_execution(Err((Some(cov(1, &[3, 4])), error.clone())), false);
    assert_eq!(w.stats.crashes, 2);
    assert!(out2.crash_event.is_none());
}

#[test]
fn a_failure_without_a_trace_only_counts() {
    let mut w = worker_with(CoverageSet::new(), 1000);
    let error = Error::OutOfGas { message: String::new() };
    let out = w.process_execution(Err((None, error)), false);
    assert_eq!(w.stats.crashes, 1);
    assert!(out.crash_event.is_none());
    assert_eq!(w.coverage_set.len(), 0);
}

#[test]
fn reconciliation_requests_follow_the_configured_interval() {
    let mut w = worker_with(CoverageSet::new(), 2);
    let out1 = w.process_execution(Ok(None), false);
    assert!(out1.coverage_request.is_none());
    let out2 = w.process_execution(Ok(None), false);
    assert!(out2.coverage_request.is_some());
    let out3 = w.process_execution(Ok(None), false);
    assert!(out3.coverage_request.is_none());
    let out4 = w.process_execution(Ok(None), false);
    assert!(out4.coverage_request.is_some());
}

#[test]
fn detectors_fire_on_a_hot_trace_during_the_loop() {
    let mut w = StatelessWorker::new(
        CoverageSet::new(),
        0,
        1000,
        vec![sui_fuzzer::AvailableDetector::BasicOpCodeDetector],
        String::from("calculator"),
        String::from("check"),
        &vec![Type::U64(0)],
    );
    let mut pcs: Vec<u16> = vec![1; 90];
    for p in 2..12u16 {
        pcs.push(p);
    }
    let out = w.process_execution(Ok(Some(Coverage::from_pcs(vec![], pcs))), false);
    assert_eq!(out.detector_events.len(), 1);
    let quiet = w.process_execution(Ok(Some(cov(1, &[50]))), false);
    assert!(quiet.detector_events.is_empty());
}

#[test]
fn coordinator_deduplicates_crashes_and_labels_reports() {
    let config = Config::default();
    let mut f = Fuzzer::new_stateless(
        config,
        String::from("calculator"),
        String::from("check"),
        None,
        CoverageSet::new(),
        CrashSet::new(),
    );
    let error = Error::Abort { message: String::from("boom") };
    let event = WorkerEvent::NewCrash(String::from("check"), vec![Type::U64(5)], error.clone());
    let out = f.handle_worker_event(event);
    assert!(out.new_unique_crash.is_some());
    assert_eq!(out.crash_message.unwrap().as_str(), "[ U64(5) ] - NEW");
    assert_eq!(f.unique_crashes_set.len(), 1);
    assert_eq!(f.global_stats.unique_crashes, 1);
    // the same fingerprint from other inputs is reported, not persisted
    let event2 = WorkerEvent::NewCrash(String::from("check"), vec![Type::U64(6)], error);
    let out2 = f.handle_worker_event(event2);
    assert!(out2.new_unique_crash.is_none());
    assert_eq!(out2.crash_message.unwrap().as_str(), "[ U64(6) ] - already exists, skipping");
    assert_eq!(f.unique_crashes_set.len(), 1);
}

#[test]
fn reconciliation_converges_in_one_round() {
    let mut global = CoverageSet::new();
    global.insert(cov(1, &[1]));
    global.insert(cov(1, &[2]));
    let mut f = Fuzzer::new_stateless(
        Config::default(),
        String::from("m"),
        String::from("f"),
        None,
        global,
        CrashSet::new(),
    );
    let mut local = CoverageSet::new();
    local.insert(cov(9, &[2]));
    local.insert(cov(9, &[3]));

    // first exchange: the coordinator adopts what it lacked and answers
    // with what the worker lacked
    let out = f.handle_worker_event(WorkerEvent::CoverageUpdateRequest(local.duplicate()));
    assert_eq!(out.adopted.len(), 1);
    let delta = out.response.expect("the worker lacked a class");
    assert_eq!(delta.len(), 1);
    assert!(delta.contains(&cov(0, &[1])));
    local.merge(&delta);
    assert_eq!(local.len(), 3);
    assert_eq!(f.coverage_set.len(), 3);
    for pcs in [[1u16], [2u16], [3u16]] {
        assert!(local.contains(&cov(0, &pcs)));
        assert!(f.coverage_set.contains(&cov(0, &pcs)));
    }

    // second exchange without new executions: nothing to send, nothing
    // to adopt
    let out2 = f.handle_worker_event(WorkerEvent::CoverageUpdateRequest(local.duplicate()));
    assert!(out2.response.is_none());
    assert!(out2.adopted.is_empty());
    assert_eq!(f.coverage_set.len(), 3);
}

#[test]
fn the_global_sets_only_grow() {
    let mut f = Fuzzer::new_stateless(
        Config::default(),
        String::from("m"),
        String::from("f"),
        None,
        CoverageSet::new(),
        CrashSet::new(),
    );
    let mut sizes: Vec<usize> = vec![f.coverage_set.len()];
    for (i, pcs) in [[1u16], [1u16], [2u16]].iter().enumerate() {
        let mut remote = CoverageSet::new();
        remote.insert(cov(i as u64, pcs));
        let _ = f.handle_worker_event(WorkerEvent::CoverageUpdateRequest(remote));
        sizes.push(f.coverage_set.len());
    }
    for w in sizes.windows(2) {
        assert!(w[0] <= w[1]);
    }
    assert_eq!(f.coverage_set.len(), 2);
}

#[test]
fn stateful_worker_excludes_the_world_initializer() {
    let discovered = vec![
        Type::Function(String::from("fuzz_init"), vec![], None),
        Type::Function(String::from("fuzz_check"), vec![Type::U64(0)], None),
        Type::Function(String::from("fuzz_push"), vec![], None),
    ];
    let w = StatefulWorker::new(
        vec![Type::Function(String::from("transfer"), vec![], None)],
        &discovered,
        0,
        5,
        String::from("calculator"),
    );
    assert_eq!(w.fuzz_functions.len(), 2);
    for f in &w.fuzz_functions {
        match f {
            Type::Function(name, _, _) => assert_ne!(name.as_str(), "fuzz_init"),
            other => panic!("not a function descriptor: {:?}", other),
        }
    }
}

#[test]
fn call_sequences_hold_every_function_and_the_drawn_extras() {
    let transfer = Type::Function(String::from("transfer"), vec![], None);
    let mint = Type::Function(String::from("mint"), vec![], None);
    let check = Type::Function(String::from("fuzz_check"), vec![], None);
    let mut w = StatefulWorker::new(
        vec![transfer.clone(), mint.clone()],
        &vec![check.clone()],
        7,
        5,
        String::from("calculator"),
    );
    let size = w.draw_sequence_size();
    assert!((1..=5).contains(&size));
    let seq = w.generate_call_sequence(size);
    assert_eq!(seq.len(), 3 + size as usize);
    for entry in &seq {
        assert!(*entry == transfer || *entry == mint || *entry == check);
    }
    let mut counts = [0usize; 3];
    for entry in &seq {
        if *entry == transfer {
            counts[0] += 1;
        } else if *entry == mint {
            counts[1] += 1;
        } else {
            counts[2] += 1;
        }
    }
    assert!(counts.iter().all(|c| *c >= 1));
}

#[test]
fn stateful_crashes_deduplicate_against_broadcasts() {
    let mut w = StatefulWorker::new(
        vec![Type::Function(String::from("transfer"), vec![Type::U64(0)], None)],
        &vec![],
        0,
        5,
        String::from("calculator"),
    );
    let error = Error::ArithmeticError { message: String::from("overflow") };
    let inputs = vec![Type::U64(1)];
    let first = w.process_sequence_execution(
        "transfer",
        &inputs,
        Err((None, error.clone())),
        false,
    );
    assert!(first.is_some());
    assert_eq!(w.stats.crashes, 1);
    assert_eq!(w.stats.execs, 1);
    let ok = w.process_sequence_execution("transfer", &inputs, Ok(None), false);
    assert!(ok.is_none());
    assert_eq!(w.stats.execs, 2);
}

#[test]
fn stateful_inputs_come_from_the_descriptor_schema() {
    let f = Type::Function(String::from("transfer"), vec![Type::U64(3), Type::Bool(false)], None);
    let mut w = StatefulWorker::new(
        vec![f.clone()],
        &vec![],
        1,
        5,
        String::from("calculator"),
    );
    let inputs = w.prepare_inputs(&f);
    assert_eq!(inputs.len(), 2);
    assert!(matches!(inputs[0], Type::U64(_)));
    assert!(matches!(inputs[1], Type::Bool(_)));
}

#[test]
fn reconciliation_requests_carry_the_whole_local_set() {
    let mut w = worker_with(CoverageSet::new(), 1);
    let out = w.process_execution(Ok(Some(cov(1, &[4, 5]))), false);
    match out.coverage_request {
        Some(WorkerEvent::CoverageUpdateRequest(set)) => {
            assert_eq!(set.len(), w.coverage_set.len());
            assert!(set.contains(&cov(0, &[4, 5])));
        }
        _ => panic!("the first execution at interval one requests a merge"),
    }
}

#[test]
fn coverage_responses_merge_into_the_local_set() {
    let mut w = worker_with(CoverageSet::new(), 1000);
    let mut delta = CoverageSet::new();
    delta.insert(cov(8, &[77]));
    w.handle_response(WorkerEvent::CoverageUpdateResponse(delta));
    assert_eq!(w.coverage_set.len(), 1);
    assert!(w.coverage_set.contains(&cov(0, &[77])));
}

#[test]
fn a_crash_travels_from_worker_to_coordinator_and_back() {
    let mut w = worker_with(CoverageSet::new(), 1000);
    let mut f = Fuzzer::new_stateless(
        Config::default(),
        String::from("calculator"),
        String::from("check"),
        None,
        CoverageSet::new(),
        CrashSet::new(),
    );
    // the worker observes an abort on a novel trace and reports it
    let error = Error::Abort { message: String::from("boom") };
    let out = w.process_execution(Err((Some(cov(1, &[1])), error.clone())), false);
    let report = out.crash_event.expect("the first abort is reported");
    // the coordinator finds it globally novel and hands back the record
    // to persist and broadcast
    let decision = f.handle_worker_event(report);
    let broadcast = decision.new_unique_crash.expect("the first fingerprint is persisted");
    // after the broadcast arrives, the worker suppresses the fingerprint
    w.handle_response(WorkerEvent::NewUniqueCrash(broadcast));
    let out2 = w.process_execution(Err((Some(cov(2, &[9])), error)), false);
    assert!(out2.crash_event.is_none());
    assert_eq!(f.unique_crashes_set.len(), 1);
}

#[test]
fn worker_throughput_follows_elapsed_seconds() {
    let mut w = worker_with(CoverageSet::new(), 1000);
    let _ = w.process_execution(Ok(None), false);
    let _ = w.process_execution(Ok(None), true);
    assert_eq!(w.sec_elapsed, 1);
    assert_eq!(w.stats.execs_per_sec, 2);
    assert_eq!(w.stats.secs_since_last_cov, 1);
    // a novel trace resets the time since the last coverage
    let _ = w.process_execution(Ok(Some(cov(1, &[3]))), true);
    assert_eq!(w.stats.secs_since_last_cov, 0);
}

#[test]
fn helper_discovery_keeps_exactly_the_prefixed_names() {
    let names = vec![
        String::from("fuzz_init"),
        String::from("transfer"),
        String::from("fuzz_check"),
        String::from("refuzz_mint"),
        String::from("fuzz_"),
    ];
    let kept = sui_fuzzer::filter_names_with_prefix(&names, "fuzz_");
    assert_eq!(
        kept,
        vec![String::from("fuzz_init"), String::from("fuzz_check"), String::from("fuzz_")]
    );
    let all = sui_fuzzer::filter_names_with_prefix(&names, "");
    assert_eq!(all.len(), names.len());
}

#[test]
fn two_workers_from_one_seed_advance_identically() {
    let mut set1 = CoverageSet::new();
    set1.insert(cov(5, &[1, 2]));
    let mut set2 = CoverageSet::new();
    set2.insert(cov(5, &[1, 2]));
    let mut w1 = worker_with(set1, 10);
    let mut w2 = worker_with(set2, 10);
    for _ in 0..4 {
        w1.pick_and_mutate_inputs();
        w2.pick_and_mutate_inputs();
        assert_eq!(w1.current_inputs(), w2.current_inputs());
    }
}
