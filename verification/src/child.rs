//! The process that runs in a session's terminal.
use vstd::prelude::*;
use vstd::string::*;

use crate::proto::CommandSpec;

verus! {

/// The terminal that programs in a session find.
pub const TERMINAL_TYPE: &'static str = "xterm-256color";

/// How a session's process is started.
#[derive(Debug, PartialEq, Eq)]
pub struct ChildCommand {
    /// The program, or the default shell of the user.
    pub program: Option<String>,
    pub arguments: Vec<String>,
    /// The directory to start in, if it is not the daemon's.
    pub working_directory: Option<String>,
    /// Variables that are set on top of the daemon's own.
    pub environment: Vec<(String, String)>,
}

/// Decides how a session's process is started. Its shell may report through a
/// pipe of its own.
pub fn build_command(
    command: Option<CommandSpec>,
    working_directory: Option<String>,
    report_pipe: Option<String>,
) -> (child: ChildCommand)
    ensures
        match command {
            Some(command) => child.program == Some(command.program) && child.arguments
                == command.arguments,
            None => child.program is None && child.arguments@.len() == 0,
        },
        child.working_directory == working_directory,
        child.environment@.len() == 1 + if report_pipe is Some {
            1int
        } else {
            0
        },
        child.environment@[0].0@ == "TERM"@,
        child.environment@[0].1@ == TERMINAL_TYPE@,
        report_pipe matches Some(pipe) ==> {
            &&& child.environment@[1].0@ == "RMUX_SHELL_STATE_PIPE"@
            &&& child.environment@[1].1 == pipe
        },
{
    let mut environment: Vec<(String, String)> = Vec::new();
    environment.push(("TERM".to_owned(), TERMINAL_TYPE.to_owned()));
    match report_pipe {
        Some(pipe) => environment.push(("RMUX_SHELL_STATE_PIPE".to_owned(), pipe)),
        None => {},
    }
    match command {
        Some(command) => ChildCommand {
            program: Some(command.program),
            arguments: command.arguments,
            working_directory,
            environment,
        },
        None => ChildCommand {
            program: None,
            arguments: Vec::new(),
            working_directory,
            environment,
        },
    }
}

} // verus!
