//! The command line: `fpy run` launches a local kernel, `fpy attach`
//! connects to a running one through its connection file.
use vstd::prelude::*;

verus! {

/// The parsed command line.
#[derive(Debug)]
pub struct Cli {
    pub command: Command,
}

/// The subcommand.
#[derive(Debug)]
pub enum Command {
    Run(RunArgs),
    Attach(AttachArgs),
}

/// Arguments of `fpy run`: the Python interpreter and extra kernel arguments.
#[derive(Debug, Clone)]
pub struct RunArgs {
    pub python: String,
    pub kernel_args: Vec<String>,
}

/// Arguments of `fpy attach`: the path of the connection file.
#[derive(Debug, Clone)]
pub struct AttachArgs {
    pub connection_file: String,
}

} // verus!
