//! Where the arguments come from, what a run logged, and how verbose it is.
use crate::text::views;
use vstd::prelude::*;
use vstd::string::*;

verus! {

/// The source of a run's arguments: the command line, or a list given.
#[derive(Debug)]
pub enum ArgSource {
    CLI,
    SUPPLIED(Vec<String>),
}

/// The log lines of a run.
#[derive(Debug)]
pub struct RunStatistics {
    logs: Vec<String>,
}

impl RunStatistics {
    pub closed spec fn spec_logs(&self) -> Seq<Seq<char>> {
        views(self.logs@)
    }

    pub fn new(logs: Vec<String>) -> (r: Self)
        ensures
            r.spec_logs() == views(logs@),
    {
        RunStatistics { logs }
    }

    /// Whether `log` is one of the lines.
    pub fn contains_log(&self, log: &str) -> (r: bool)
        ensures
            r == self.spec_logs().contains(log@),
    {
        let mut i: usize = 0;
        while i < self.logs.len()
            invariant
                i <= self.logs@.len(),
                forall|k: int| 0 <= k < i ==> (#[trigger] self.logs@[k])@ != log@,
            decreases self.logs@.len() - i,
        {
            if crate::text::str_eq(self.logs[i].as_str(), log) {
                assert(self.spec_logs()[i as int] == log@);
                return true;
            }
            i = i + 1;
        }
        proof {
            assert forall|k: int| 0 <= k < self.spec_logs().len() implies self.spec_logs()[k] != log@ by {
                assert(self.spec_logs()[k] == self.logs@[k]@);
            }
        }
        false
    }
}

/// How much a run logs.
#[derive(Debug, Clone, Copy, PartialEq, Eq, Structural)]
pub enum Verbosity {
    Info,
    Debug,
    Trace,
}

/// The verbosity of a run: informational without the verbose flag or with
/// it given no times, debugging with it given once, tracing with it given
/// more often.
pub fn verbosity(has_verbose: bool, count: u8) -> (r: Verbosity)
    ensures
        !has_verbose || count == 0 ==> r == Verbosity::Info,
        has_verbose && count == 1 ==> r == Verbosity::Debug,
        has_verbose && count > 1 ==> r == Verbosity::Trace,
{
    if !has_verbose {
        Verbosity::Info
    } else if count == 0 {
        Verbosity::Info
    } else if count == 1 {
        Verbosity::Debug
    } else {
        Verbosity::Trace
    }
}

} // verus!
