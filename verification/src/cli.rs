//! The global options of the command line, and which configured target a
//! client uses.
use vstd::prelude::*;

use crate::config::{names_sorted, Config};

verus! {

/// How listings are printed.
#[derive(Debug, Clone, Copy, PartialEq, Eq)]
pub enum OutputFormat {
    Table,
    Json,
}

impl Default for OutputFormat {
    fn default() -> (r: Self)
        ensures
            r == OutputFormat::Table,
    {
        OutputFormat::Table
    }
}

/// The most verbose level of log messages shown.
#[derive(Debug, Clone, Copy, PartialEq, Eq)]
pub enum LogLevel {
    Off,
    Error,
    Warn,
    Info,
    Debug,
    Trace,
}

/// The options every subcommand takes.
#[derive(Debug, Clone)]
pub struct GlobalOpts {
    /// Rusbee server URL.
    pub server: Option<String>,
    /// Named target from config.
    pub target: Option<String>,
    /// Bearer token for rusbee server requests.
    pub token: Option<String>,
    pub log_level: Option<LogLevel>,
    pub output: OutputFormat,
}

/// How the target of a client is chosen before it is resolved.
#[derive(Debug, Clone)]
pub enum TargetChoice {
    /// The target named by `--target`.
    Named(String),
    /// Ask the user to pick one of these target names.
    Prompt(Vec<String>),
    /// No target name: the only target, or `--server`.
    Unnamed,
}

/// Chooses how the client's target is named: `--target` where given,
/// otherwise a prompt among the targets where there are several.
pub fn choose_client_target(global_opts: &GlobalOpts, config: &Config) -> (r: TargetChoice)
    ensures
        match global_opts.target {
            Some(t) => r matches TargetChoice::Named(n) && n@ == t@,
            None => if config.entries().len() > 1 {
                r matches TargetChoice::Prompt(names) && names@.map_values(|s: String| s@)
                    == config.names() && names_sorted(config.names())
            } else {
                r matches TargetChoice::Unnamed
            },
        },
{
    match &global_opts.target {
        Some(t) => TargetChoice::Named(t.clone()),
        None => {
            if config.target_count() > 1 {
                TargetChoice::Prompt(config.target_names())
            } else {
                TargetChoice::Unnamed
            }
        },
    }
}

/// The log level used where none is given.
pub fn effective_log_level(global_opts: &GlobalOpts) -> (r: LogLevel)
    ensures
        r == (match global_opts.log_level {
            Some(l) => l,
            None => LogLevel::Info,
        }),
{
    match global_opts.log_level {
        Some(l) => l,
        None => LogLevel::Info,
    }
}

} // verus!
