//! The private pipe through which a session's shell reports about itself.
//!
//! Every session has a pipe of its own, in the daemon's runtime directory. The
//! decisions about making it, waking its reader and taking it down stand here.
use vstd::prelude::*;
use vstd::string::*;

use crate::ids::{hyphenated, random_id};
use crate::ipc::{inside, join_path};
use crate::text::{between, prefixed};

verus! {

/// How many names are tried for a pipe.
pub const CREATE_ATTEMPTS: u8 = 8;

/// Why a reporter could not be set up or taken down.
#[derive(Debug, PartialEq, Eq)]
pub enum ShellReporterError {
    Create(String),
    Open(String),
    ReaderThread(String),
    DeliveryThread(String),
    ReaderThreadPanicked,
    DeliveryThreadPanicked,
    Wake(String),
    Cleanup(String),
}

impl ShellReporterError {
    /// The error in words.
    pub open spec fn text(self) -> Seq<char> {
        match self {
            ShellReporterError::Create(cause) => "could not create shell report FIFO: "@ + cause@,
            ShellReporterError::Open(cause) => "could not open shell report FIFO: "@ + cause@,
            ShellReporterError::ReaderThread(cause) => "could not start shell report reader: "@
                + cause@,
            ShellReporterError::DeliveryThread(cause) =>
                "could not start shell report delivery thread: "@ + cause@,
            ShellReporterError::ReaderThreadPanicked => "shell report reader thread panicked"@,
            ShellReporterError::DeliveryThreadPanicked => "shell report delivery thread panicked"@,
            ShellReporterError::Wake(cause) => "could not wake shell report reader: "@ + cause@,
            ShellReporterError::Cleanup(cause) => "could not remove shell report FIFO: "@ + cause@,
        }
    }

    pub fn message(&self) -> (message: String)
        ensures
            message@ == self.text(),
    {
        match self {
            ShellReporterError::Create(cause) => prefixed(
                "could not create shell report FIFO: ",
                cause.as_str(),
            ),
            ShellReporterError::Open(cause) => prefixed(
                "could not open shell report FIFO: ",
                cause.as_str(),
            ),
            ShellReporterError::ReaderThread(cause) => prefixed(
                "could not start shell report reader: ",
                cause.as_str(),
            ),
            ShellReporterError::DeliveryThread(cause) => prefixed(
                "could not start shell report delivery thread: ",
                cause.as_str(),
            ),
            ShellReporterError::ReaderThreadPanicked =>
                "shell report reader thread panicked".to_owned(),
            ShellReporterError::DeliveryThreadPanicked =>
                "shell report delivery thread panicked".to_owned(),
            ShellReporterError::Wake(cause) => prefixed(
                "could not wake shell report reader: ",
                cause.as_str(),
            ),
            ShellReporterError::Cleanup(cause) => prefixed(
                "could not remove shell report FIFO: ",
                cause.as_str(),
            ),
        }
    }
}

/// Where the pipe with an identifier stands.
pub open spec fn pipe_path(runtime_directory: Seq<char>, id: Seq<char>) -> Seq<char> {
    inside(runtime_directory, "rmux-shell-"@ + id + ".fifo"@)
}

/// Where the pipe with an identifier stands.
pub fn fifo_path(runtime_directory: &str, id: &str) -> (path: String)
    ensures
        path@ == pipe_path(runtime_directory@, id@),
{
    join_path(runtime_directory, between("rmux-shell-", id, ".fifo").as_str())
}

/// Draws a name for a pipe.
pub fn draw_fifo_path(runtime_directory: &str) -> (path: String)
    ensures
        exists|id: Seq<char>| #[trigger]
            hyphenated(id) && path@ == pipe_path(runtime_directory@, id),
{
    let id = random_id();
    fifo_path(runtime_directory, id.as_str())
}

/// How an attempt to make a pipe went.
#[derive(Debug, PartialEq, Eq)]
pub enum FifoAttempt {
    Made,
    /// Something of that name is there already.
    Exists,
    Failed(String),
}

/// What to do after an attempt to make a pipe.
#[derive(Debug, PartialEq, Eq)]
pub enum FifoStep {
    Use,
    /// Tries a newly drawn name, with this many attempts left, that one counted.
    DrawAgain { attempts_left: u8 },
    Fail(ShellReporterError),
}

/// Decides what to do after an attempt to make a pipe, the attempt counted.
pub fn after_fifo_attempt(attempt: FifoAttempt, attempts_left: u8) -> (step: FifoStep)
    ensures
        match attempt {
            FifoAttempt::Made => step == FifoStep::Use,
            FifoAttempt::Exists => if attempts_left > 1 {
                step == (FifoStep::DrawAgain { attempts_left: (attempts_left - 1) as u8 })
            } else {
                step matches FifoStep::Fail(ShellReporterError::Create(cause)) && cause@
                    == "could not allocate a unique shell report FIFO name"@
            },
            FifoAttempt::Failed(cause) => step == FifoStep::Fail(ShellReporterError::Create(cause)),
        },
{
    match attempt {
        FifoAttempt::Made => FifoStep::Use,
        FifoAttempt::Exists => if attempts_left > 1 {
            FifoStep::DrawAgain { attempts_left: attempts_left - 1 }
        } else {
            FifoStep::Fail(
                ShellReporterError::Create(
                    "could not allocate a unique shell report FIFO name".to_owned(),
                ),
            )
        },
        FifoAttempt::Failed(cause) => FifoStep::Fail(ShellReporterError::Create(cause)),
    }
}

/// How writing the byte that wakes the reader went.
#[derive(Debug, PartialEq, Eq)]
pub enum WakeWrite {
    Written { count: usize },
    Interrupted,
    /// The pipe is full: the reader has something to read and wakes anyway.
    WouldBlock,
    Failed(String),
}

/// Whether the reader wakes; `None` stands for another try.
pub fn after_wake(write: WakeWrite) -> (result: Option<Result<(), ShellReporterError>>)
    ensures
        match write {
            WakeWrite::Written { count } => if count == 1 {
                result == Some(Ok::<(), ShellReporterError>(()))
            } else {
                result matches Some(Err(ShellReporterError::Wake(cause))) && cause@
                    == "shell report wake byte was not written"@
            },
            WakeWrite::Interrupted => result is None,
            WakeWrite::WouldBlock => result == Some(Ok::<(), ShellReporterError>(())),
            WakeWrite::Failed(cause) => result == Some(
                Err::<(), ShellReporterError>(ShellReporterError::Wake(cause)),
            ),
        },
{
    match write {
        WakeWrite::Written { count } => if count == 1 {
            Some(Ok(()))
        } else {
            Some(
                Err(
                    ShellReporterError::Wake("shell report wake byte was not written".to_owned()),
                ),
            )
        },
        WakeWrite::Interrupted => None,
        WakeWrite::WouldBlock => Some(Ok(())),
        WakeWrite::Failed(cause) => Some(Err(ShellReporterError::Wake(cause))),
    }
}

/// The outcome of taking a reporter down: every step is taken, and the first
/// that failed is reported.
pub fn shutdown_result(
    wake: Result<(), ShellReporterError>,
    reader: Result<(), ShellReporterError>,
    delivery: Result<(), ShellReporterError>,
    cleanup: Result<(), ShellReporterError>,
) -> (result: Result<(), ShellReporterError>)
    ensures
        result == if wake is Err {
            wake
        } else if reader is Err {
            reader
        } else if delivery is Err {
            delivery
        } else {
            cleanup
        },
{
    if wake.is_err() {
        wake
    } else if reader.is_err() {
        reader
    } else if delivery.is_err() {
        delivery
    } else {
        cleanup
    }
}

} // verus!
