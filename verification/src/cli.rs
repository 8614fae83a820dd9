//! How the game is started from the command line.
use vstd::prelude::*;

verus! {

/// What the game is started for.
#[derive(Clone, Copy, Debug, PartialEq, Eq, Structural)]
pub enum RunMode {
    Regular,
    Custom,
    Test,
}

/// The arguments of the command line: the mode, and a path where the mode
/// wants one.
#[derive(Debug)]
pub struct Args {
    pub mode: RunMode,
    pub path: Option<String>,
}

impl Args {
    /// The arguments when none were given: a regular start.
    pub fn new() -> (r: Args)
        ensures
            r.mode == RunMode::Regular,
            r.path is None,
    {
        Args { mode: RunMode::Regular, path: None }
    }
}

/// The state the game heads for once loaded.
#[derive(Clone, Copy, Debug, PartialEq, Eq, Structural)]
pub enum TargetState {
    CustomBattle,
    TestScenariosRun,
}

/// A regular or custom start heads for a custom battle; a test start runs
/// the test scenarios.
pub open spec fn target_of(mode: RunMode) -> TargetState {
    match mode {
        RunMode::Regular | RunMode::Custom => TargetState::CustomBattle,
        RunMode::Test => TargetState::TestScenariosRun,
    }
}

pub fn target_state(mode: RunMode) -> (r: TargetState)
    ensures
        r == target_of(mode),
{
    match mode {
        RunMode::Regular | RunMode::Custom => TargetState::CustomBattle,
        RunMode::Test => TargetState::TestScenariosRun,
    }
}

} // verus!
