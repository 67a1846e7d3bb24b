use vstd::prelude::*;

verus! {

/// The recognized configuration options of a fuzzing run.
#[derive(Debug)]
pub struct Config {
    /// Whether to use the terminal dashboard; without it a line-printing
    /// fallback reports events.
    pub use_ui: bool,
    /// How many worker threads to start.
    pub nb_threads: u8,
    /// The base seed; worker `i` runs at `seed + i`.
    pub seed: Option<u64>,
    /// Opaque locator of the module(s) under test.
    pub contract: Option<String>,
    /// How many executions a worker runs between corpus merges.
    pub execs_before_cov_update: u64,
    /// Where retained coverage records are persisted.
    pub corpus_dir: String,
    /// Where unique crash records are persisted.
    pub crashes_dir: String,
    /// The name prefix by which state-mutating helper functions are
    /// discovered in stateful mode.
    pub fuzz_functions_prefix: String,
}

impl Config {
    /// The schema-default configuration.
    pub fn default() -> (r: Config)
        ensures
            r.use_ui,
            r.nb_threads == 8,
            r.seed == Some(4284u64),
            r.contract matches None::<String>,
            r.execs_before_cov_update == 10000,
            r.corpus_dir@ == "./corpus"@,
            r.crashes_dir@ == "./crashes"@,
            r.fuzz_functions_prefix@ == "fuzz_"@,
    {
        Config {
            use_ui: true,
            nb_threads: 8,
            seed: Some(4284),
            contract: None,
            execs_before_cov_update: 10000,
            corpus_dir: String::from_str("./corpus"),
            crashes_dir: String::from_str("./crashes"),
            fuzz_functions_prefix: String::from_str("fuzz_"),
        }
    }
}

} // verus!
