use sui_fuzzer::coverage_eq;
use sui_fuzzer::crash_eq;
use sui_fuzzer::new_detector;
use sui_fuzzer::progress_display;
use sui_fuzzer::should_heartbeat;
use sui_fuzzer::total_crashes;
use sui_fuzzer::total_execs;
use sui_fuzzer::AvailableDetector;
use sui_fuzzer::Coverage;
use sui_fuzzer::CoverageSet;
use sui_fuzzer::Crash;
use sui_fuzzer::CrashSet;
use sui_fuzzer::Detector;
use sui_fuzzer::Error;
use sui_fuzzer::Stats;
use sui_fuzzer::Type;

fn cov(input: u64, pcs: &[u16]) -> Coverage {
    Coverage::from_pcs(vec![Type::U64(input)], pcs.to_vec())
}

#[test]
fn coverage_identity_is_over_the_trace_alone() {
    let a = cov(1, &[10, 20]);
    let b = cov(2, &[10, 20]);
    let c = cov(1, &[10, 21]);
    let d = cov(1, &[10]);
    assert!(coverage_eq(&a, &b));
    assert!(!coverage_eq(&a, &c));
    assert!(!coverage_eq(&a, &d));
}

#[test]
fn coverage_set_keeps_one_representative_per_class() {
    let mut set = CoverageSet::new();
    assert!(set.insert(cov(1, &[10, 20])));
    assert!(!set.insert(cov(2, &[10, 20])));
    assert!(set.insert(cov(3, &[30])));
    assert_eq!(set.len(), 2);
    // the retained input of a class is the first observed
    assert_eq!(set.get(0).inputs, vec![Type::U64(1)]);
}

#[test]
fn coverage_set_merge_only_grows() {
    let mut a = CoverageSet::new();
    a.insert(cov(1, &[1]));
    a.insert(cov(1, &[2]));
    let mut b = CoverageSet::new();
    b.insert(cov(9, &[2]));
    b.insert(cov(9, &[3]));
    let before = a.len();
    a.merge(&b);
    assert!(a.len() >= before);
    assert_eq!(a.len(), 3);
    assert!(a.contains(&cov(0, &[1])));
    assert!(a.contains(&cov(0, &[2])));
    assert!(a.contains(&cov(0, &[3])));
    // the class both sides held keeps the first observed input
    assert_eq!(a.get(1).inputs, vec![Type::U64(1)]);
}

#[test]
fn coverage_set_difference_holds_exactly_the_missing_classes() {
    let mut a = CoverageSet::new();
    a.insert(cov(1, &[1]));
    a.insert(cov(1, &[2]));
    let mut b = CoverageSet::new();
    b.insert(cov(2, &[2]));
    let d = a.difference(&b);
    assert_eq!(d.len(), 1);
    assert!(d.contains(&cov(0, &[1])));
    assert!(!d.contains(&cov(0, &[2])));
}

#[test]
fn coverage_set_duplicate_is_a_faithful_copy() {
    let mut a = CoverageSet::new();
    a.insert(cov(4, &[7, 8]));
    let b = a.duplicate();
    assert_eq!(b.len(), 1);
    assert!(b.contains(&cov(0, &[7, 8])));
    assert_eq!(b.get(0).inputs, vec![Type::U64(4)]);
}

#[test]
fn crash_fingerprint_is_function_and_error_only() {
    let e1 = Error::Abort { message: String::from("boom") };
    let e2 = Error::Abort { message: String::from("boom") };
    let e3 = Error::Abort { message: String::from("other") };
    let inputs1 = vec![Type::U64(1)];
    let inputs2 = vec![Type::U64(2)];
    let a = Crash::new("mod_a", "f", &inputs1, &e1);
    let b = Crash::new("mod_b", "f", &inputs2, &e2);
    let c = Crash::new("mod_a", "g", &inputs1, &e1);
    let d = Crash::new("mod_a", "f", &inputs1, &e3);
    assert!(crash_eq(&a, &b));
    assert!(!crash_eq(&a, &c));
    assert!(!crash_eq(&a, &d));
}

#[test]
fn crash_set_keeps_one_record_per_fingerprint() {
    let e = Error::Abort { message: String::from("boom") };
    let inputs = vec![Type::U64(1)];
    let mut set = CrashSet::new();
    assert!(set.insert(Crash::new("m", "f", &inputs, &e)));
    assert!(!set.insert(Crash::new("m", "f", &vec![Type::U64(9)], &e)));
    assert!(set.insert(Crash::new("m", "g", &inputs, &e)));
    assert_eq!(set.len(), 2);
}

#[test]
fn hot_opcode_detector_reports_a_tight_loop() {
    let mut pcs: Vec<u16> = vec![1; 90];
    for p in 2..12u16 {
        pcs.push(p);
    }
    let coverage = Coverage::from_pcs(vec![], pcs);
    let d = new_detector(&AvailableDetector::BasicOpCodeDetector);
    let (triggered, message) = d.detect(&coverage, None);
    assert!(triggered);
    let text = message.expect("a triggered detector carries its message");
    assert!(text.contains("recursivity or a loop"));
    assert_eq!(d.get_type(), AvailableDetector::BasicOpCodeDetector);
}

#[test]
fn hot_opcode_detector_stays_quiet_on_a_flat_trace() {
    let pcs: Vec<u16> = (1..=8u16).collect();
    let coverage = Coverage::from_pcs(vec![], pcs);
    let d = new_detector(&AvailableDetector::BasicOpCodeDetector);
    let (triggered, message) = d.detect(&coverage, None);
    assert!(!triggered);
    assert!(message.is_none());
}

#[test]
fn hot_opcode_detector_stays_quiet_on_an_empty_trace() {
    let coverage = Coverage::from_pcs(vec![], vec![]);
    let d = new_detector(&AvailableDetector::BasicOpCodeDetector);
    let (triggered, _) = d.detect(&coverage, None);
    assert!(!triggered);
}

#[test]
fn tick_divides_by_the_advanced_running_time() {
    let mut s = Stats::new();
    s.execs = 100;
    s.tick();
    assert_eq!(s.time_running, 1);
    assert_eq!(s.execs_per_sec, 100);
    s.execs = 300;
    s.tick();
    assert_eq!(s.time_running, 2);
    assert_eq!(s.execs_per_sec, 150);
}

#[test]
fn no_graph_point_during_the_first_tick() {
    let mut s = Stats::new();
    s.crashes = 5;
    assert!(s.graph_point().is_none());
    s.tick();
    assert_eq!(s.graph_point(), Some((1, 0, 5)));
}

#[test]
fn a_zero_coverage_bound_reports_a_zero_denominator() {
    assert_eq!(progress_display(0, 0).as_str(), "0/0");
    assert_eq!(progress_display(3, 0).as_str(), "3/0");
    assert_eq!(progress_display(3, 84).as_str(), "3/84");
}

#[test]
fn the_heartbeat_fires_every_hundred_thousand_executions() {
    assert!(should_heartbeat(0));
    assert!(!should_heartbeat(1));
    assert!(!should_heartbeat(99999));
    assert!(should_heartbeat(100000));
    assert!(should_heartbeat(200000));
}

#[test]
fn the_heartbeat_line_carries_every_counter() {
    let mut s = Stats::new();
    s.time_running = 3;
    s.execs_per_sec = 40;
    s.execs = 120;
    s.crashes = 7;
    s.unique_crashes = 2;
    let line = s.heartbeat_line(9);
    assert_eq!(
        line.as_str(),
        "3s running time | 40 execs/s | total execs: 120 | crashes: 7 | unique crashes: 2 | coverage: 9"
    );
}

#[test]
fn worker_counters_aggregate_across_workers() {
    let mut a = Stats::new();
    a.execs = 10;
    a.crashes = 1;
    let mut b = Stats::new();
    b.execs = 32;
    b.crashes = 4;
    let all = vec![a, b];
    assert_eq!(total_execs(&all), 42);
    assert_eq!(total_crashes(&all), 5);
    assert_eq!(total_execs(&Vec::new()), 0);
}
