//! The command-line surface, as plain values.

use vstd::prelude::*;

verus! {

/// The parsed command line.
pub struct Cli {
    pub command: CliCommands,
}

/// The subcommands.
pub enum CliCommands {
    /// Check the feed URLs listed in `input`, writing the valid ones to `output`.
    Check { input: String, output: String },
    /// Run the scraper.
    Run { args: CliScrapeArgs },
}

/// Options of the run subcommand.
#[derive(Clone, Copy, Debug, PartialEq, Eq, Structural)]
pub struct CliScrapeArgs {
    /// Run a single pass and exit.
    pub once: bool,
}

/// What the program does for a command line.
#[derive(Clone, Copy, Debug, PartialEq, Eq, Structural)]
pub enum Mode {
    /// Check a list of feed URLs.
    CheckFeeds,
    /// Run one pass over every feed and exit.
    RunOnce,
    /// Run the scheduler until stopped.
    RunContinuously,
}

impl Cli {
    /// What the program does for this command line.
    pub fn mode(&self) -> (m: Mode)
        ensures
            m == match self.command {
                CliCommands::Check { .. } => Mode::CheckFeeds,
                CliCommands::Run { args } => if args.once {
                    Mode::RunOnce
                } else {
                    Mode::RunContinuously
                },
            },
    {
        match &self.command {
            CliCommands::Check { .. } => Mode::CheckFeeds,
            CliCommands::Run { args } => if args.once {
                Mode::RunOnce
            } else {
                Mode::RunContinuously
            },
        }
    }
}

/// The result of checking one listed feed URL.
#[derive(Clone, Copy, Debug, PartialEq, Eq, Structural)]
pub enum CheckOutcome {
    /// Fetched and parsed as a feed.
    Successful,
    /// Fetched, but not a valid feed.
    Failed,
    /// Could not be fetched.
    Unreachable,
}

/// Counts of the outcomes of a feed-list check.
#[derive(Clone, Copy, Debug, PartialEq, Eq, Structural)]
pub struct CheckTally {
    pub successful: u64,
    pub failed: u64,
    pub unreachable: u64,
    pub total: u64,
}

impl CheckTally {
    /// A tally of nothing.
    pub fn new() -> (t: CheckTally)
        ensures
            t == (CheckTally { successful: 0, failed: 0, unreachable: 0, total: 0 }),
    {
        CheckTally { successful: 0, failed: 0, unreachable: 0, total: 0 }
    }

    /// The three counts add up to the total.
    pub open spec fn wf(&self) -> bool {
        self.successful + self.failed + self.unreachable == self.total
    }

    /// Counts one more checked URL.
    pub fn record(&mut self, outcome: CheckOutcome)
        requires
            old(self).wf(),
            old(self).total < u64::MAX,
        ensures
            final(self).wf(),
            final(self).total == old(self).total + 1,
            final(self).successful == old(self).successful + if outcome == CheckOutcome::Successful {
                1int
            } else {
                0
            },
            final(self).failed == old(self).failed + if outcome == CheckOutcome::Failed {
                1int
            } else {
                0
            },
            final(self).unreachable == old(self).unreachable + if outcome
                == CheckOutcome::Unreachable {
                1int
            } else {
                0
            },
    {
        match outcome {
            CheckOutcome::Successful => self.successful = self.successful + 1,
            CheckOutcome::Failed => self.failed = self.failed + 1,
            CheckOutcome::Unreachable => self.unreachable = self.unreachable + 1,
        }
        self.total = self.total + 1;
    }
}

} // verus!
