//! The command model: what an invocation asks for, as plain data. The
//! command-line surface that produces these values lives outside the
//! library.

use vstd::prelude::*;

verus! {

/// Input and output file choices.
#[derive(Debug, Clone, Default)]
pub struct IoArgs {
    /// Input file path.
    pub input_file: Option<String>,
    /// Output file path.
    pub output_file: Option<String>,
}

/// Per-run overrides.
#[derive(Debug, Clone, Default)]
pub struct RuntimeArgs {
    /// Override provider for this run.
    pub provider: Option<String>,
    /// Override model for this run.
    pub model: Option<String>,
    /// Stream output if the provider supports it.
    pub stream: bool,
    /// Explicit config file path.
    pub config: Option<String>,
}

/// Config management subcommands.
#[derive(Debug, Clone)]
pub enum ConfigAction {
    /// Initialize the default config file.
    Init { force: bool, scope: Option<String> },
    Assign { key: String, value: String },
    List,
}

/// Session management subcommands.
#[derive(Debug, Clone)]
pub enum SessionAction {
    New { name: String },
    List,
    Load { id: String },
    Delete { id: String },
}

/// Code-related subcommands.
#[derive(Debug, Clone)]
pub enum CodeAction {
    Generate { lang: String, kind: String },
    Review { file: String },
    Optimize { file: String },
}

/// The subcommands.
#[derive(Debug, Clone)]
pub enum Commands {
    /// Interactive chat.
    Interactive,
    Chat,
    /// Config management.
    Config { action: ConfigAction },
    /// Session management.
    Session { action: SessionAction },
    /// Code-related commands.
    Code { action: CodeAction },
}

/// One whole invocation.
#[derive(Debug, Clone)]
pub struct Cli {
    /// One-shot prompt input.
    pub prompt: Vec<String>,
    pub io: IoArgs,
    pub runtime: RuntimeArgs,
    pub command: Option<Commands>,
}

} // verus!
