//! Command-line interface for Zaino: the parsed command.
use vstd::prelude::*;

use std::path::PathBuf;

verus! {

#[verifier::external_type_specification]
#[verifier::external_body]
pub struct ExPathBuf(PathBuf);

/// The Zcash Indexing Service.
#[derive(Debug)]
pub struct Cli {
    /// Subcommand to execute.
    pub command: Command,
}

/// Available subcommands.
#[derive(Debug)]
pub enum Command {
    /// Run the Zaino indexer service.
    Run {
        /// Path to the configuration file. Defaults to $XDG_CONFIG_HOME/zaino/zainod.toml
        config: Option<PathBuf>,
    },
    /// Generate an example configuration file with default values.
    GenerateConfig {
        /// Output path for the generated config file (defaults to stdout).
        output: Option<PathBuf>,
    },
}

/// The components of the default configuration path, outermost first: the configuration
/// directory (`$XDG_CONFIG_HOME` when set, else `$HOME/.config`), then `zaino/zainod.toml`.
/// `None` when neither variable is set.
pub open spec fn spec_default_config_path_components(
    xdg_config_home: Option<String>,
    home: Option<String>,
) -> Option<Seq<Seq<char>>> {
    match xdg_config_home {
        Some(x) => Some(seq![x@, "zaino"@, "zainod.toml"@]),
        None => match home {
            Some(h) => Some(seq![h@, ".config"@, "zaino"@, "zainod.toml"@]),
            None => None,
        },
    }
}

/// The components of the default configuration path, following the XDG Base Directory
/// specification, from the values of `XDG_CONFIG_HOME` and `HOME`.
pub fn default_config_path_components(xdg_config_home: Option<String>, home: Option<String>) -> (r:
    Option<Vec<String>>)
    ensures
        match spec_default_config_path_components(xdg_config_home, home) {
            Some(c) => r matches Some(v) && v@.map_values(|s: String| s@) == c,
            None => r is None,
        },
{
    let mut parts: Vec<String> = Vec::new();
    match xdg_config_home {
        Some(x) => {
            parts.push(x);
        },
        None => match home {
            Some(h) => {
                parts.push(h);
                parts.push(".config".to_owned());
            },
            None => {
                return None;
            },
        },
    }
    parts.push("zaino".to_owned());
    parts.push("zainod.toml".to_owned());
    assert(parts@.map_values(|s: String| s@) =~= spec_default_config_path_components(
        xdg_config_home,
        home,
    )->0);
    Some(parts)
}

/// How one run of the indexer ended.
#[derive(Clone, Copy, Debug, PartialEq, Eq, Structural)]
pub enum IndexerOutcome {
    /// The indexer failed to start.
    StartFailed,
    /// The indexer's task ended before it returned a result.
    EndedEarly,
    /// The indexer finished without error.
    Finished,
    /// The indexer hit a critical error and asked to be restarted.
    Restart,
    /// The indexer stopped with any other error.
    Failed,
}

/// What the daemon does after a run of the indexer.
#[derive(Clone, Copy, Debug, PartialEq, Eq, Structural)]
pub enum RunAction {
    /// Load the configuration again and start a new run.
    Restart,
    /// Stop the daemon.
    Exit,
}

/// The daemon's decision after a run: it starts again exactly when the indexer asked for a
/// restart, and stops otherwise.
pub fn next_run_action(outcome: IndexerOutcome) -> (r: RunAction)
    ensures
        (r == RunAction::Restart) <==> (outcome == IndexerOutcome::Restart),
{
    match outcome {
        IndexerOutcome::Restart => RunAction::Restart,
        _ => RunAction::Exit,
    }
}

} // verus!
