use vstd::prelude::*;

mod config;
mod coverage;
mod crash;
mod detector;
mod error;
mod fuzzer;
mod mutator;
mod render;
mod rng;
mod runner;
mod stateful_worker;
mod stats;
mod types;
mod worker;

pub use coverage::coverage_eq;
pub use coverage::Coverage;
pub use coverage::CoverageData;
pub use coverage::CoverageModel;
pub use coverage::CoverageSet;
pub use config::Config;
pub use crash::crash_eq;
pub use crash::Crash;
pub use detector::new_detector;
pub use detector::AvailableDetector;
pub use detector::BasicOpCodeDetector;
pub use detector::Detector;
pub use crash::CrashModel;
pub use crash::CrashSet;
pub use error::abort_location_message;
pub use error::classify_vm_status;
pub use error::error_eq;
pub use error::runtime_location_message;
pub use error::Error;
pub use fuzzer::Fuzzer;
pub use fuzzer::HandleOutcome;
pub use error::ErrorModel;
pub use error::VmStatus;
pub use mutator::mutable_inputs;
pub use mutator::Mutator;
pub use mutator::SuiMutator;
pub use render::bool_str;
pub use render::decimal_u128;
pub use render::decimal_u64;
pub use rng::derive_seed;
pub use rng::Rng;
pub use runner::Runner;
pub use runner::StatefulRunner;
pub use stateful_worker::filter_names_with_prefix;
pub use stateful_worker::StatefulWorker;
pub use stats::progress_display;
pub use stats::should_heartbeat;
pub use stats::total_crashes;
pub use stats::total_execs;
pub use stats::Stats;
pub use types::Parameters;
pub use types::Type;
pub use types::TypeModel;
pub use worker::StatelessWorker;
pub use worker::StepOutcome;
pub use worker::Worker;
pub use worker::WorkerEvent;

verus! {

} // verus!
