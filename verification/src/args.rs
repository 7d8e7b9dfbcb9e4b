//! The run's configuration, as plain data. The command-line front end that
//! fills these structs in lives outside the library; everything here only
//! records what was chosen.
use vstd::prelude::*;

verus! {

/// Options for recorded execution under the external record-and-replay tool.
pub struct RrOptions {
    /// Whether to run each batch under the recording tool.
    pub record: bool,
    /// Root directory under which promoted recordings are persisted.
    pub record_out_dir: String,
    /// Whether to ask the recording tool to perturb scheduling.
    pub chaos: bool,
}

/// Options forwarded to each spawned test process.
pub struct TestOptions {
    /// Test-thread concurrency hint; the host's CPU count when absent.
    pub jobs: Option<usize>,
    /// Arguments forwarded when building tests; not interpreted here.
    pub build_args: Vec<String>,
    /// Arguments forwarded when running tests; not interpreted here.
    pub extra: Vec<String>,
}

/// The whole configuration of one run.
pub struct Args {
    /// Whether to build and run the optimized variant of the test binaries.
    pub release: bool,
    /// How many iterations to run each binary for.
    pub iter: usize,
    pub rr: RrOptions,
    pub test_opts: TestOptions,
}

/// The subcommand this tool is invoked as.
pub enum Command {
    Flaky(Args),
}

impl Command {
    /// The arguments the subcommand carries.
    pub fn deref(&self) -> (r: &Args)
        ensures
            self matches Command::Flaky(a) && r == &a,
    {
        match self {
            Command::Flaky(args) => args,
        }
    }
}

} // verus!
