//! The command line of the market analysis tool.
use vstd::prelude::*;

verus! {

/// Interface for the market analysis tool.
#[derive(Clone, Debug)]
pub struct Cli {
    /// Path to the configuration file.
    pub config: String,
    /// Subcommand to run.
    pub subcommand: Subcommand,
}

/// Subcommands of the market analysis tool.
#[derive(Clone, Debug)]
pub enum Subcommand {
    /// Analyze the market data.
    Analyze(AnalyzeArgs),
    /// Reset the database.
    Reset(ResetArgs),
    /// Collect and process RSS feeds without running the analysis.
    Collect(CollectArgs),
}

/// Arguments for the `analyze` subcommand.
#[derive(Clone, Copy, Debug)]
pub struct AnalyzeArgs {}

/// Arguments for the `reset` subcommand.
#[derive(Clone, Copy, Debug)]
pub struct ResetArgs {}

/// Arguments for the `collect` subcommand.
#[derive(Clone, Copy, Debug)]
pub struct CollectArgs {
    /// Optionally limit the number of RSS feeds to collect.
    pub limit: Option<usize>,
}

impl ResetArgs {
    /// The seconds announced, one a second, before the database is reset.
    pub fn countdown(&self) -> (r: Vec<u64>)
        ensures
            r@ == seq![3u64, 2u64, 1u64],
    {
        let mut r: Vec<u64> = Vec::new();
        r.push(3);
        r.push(2);
        r.push(1);
        r
    }
}

impl CollectArgs {
    /// How many RSS feeds to collect: the given limit, or all of them.
    pub fn feed_limit(&self) -> (r: usize)
        ensures
            r == match self.limit {
                Some(n) => n,
                None => usize::MAX,
            },
    {
        match self.limit {
            Some(n) => n,
            None => usize::MAX,
        }
    }
}

} // verus!
