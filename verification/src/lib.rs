//! An interactive command-console engine for a byte-oriented serial link.
//!
//! The engine consumes input bytes one at a time, maintains an editable
//! command line with a cursor, interprets the arrow-key escape sequences,
//! echoes the exact terminal control sequences needed to keep the remote
//! display consistent, and produces "command submitted" or "control byte"
//! events for a host application to act on.

use vstd::prelude::*;

pub mod autocomplete;
pub mod control;
pub mod history;
pub mod serial;
mod shell;
mod text;

pub use serial::Serial;
pub use shell::EscState;
pub use shell::UShell;

verus! {

/// Errors surfaced by the shell engine.
///
/// `WouldBlock` is a control-flow signal, not a failure: it reports that no
/// input byte is currently available.
#[derive(Clone, Copy, Debug, PartialEq, Eq, Structural)]
pub enum ShellError {
    /// The transport failed while a byte was being read.
    ReadError,
    /// The transport failed while echo bytes were being written.
    WriteError,
    /// An escape sequence could not be formatted.
    FormatError,
    /// The submitted line or the autocomplete prefix is not valid UTF-8.
    BadInputError,
    /// No input byte is currently available.
    WouldBlock,
    /// The history store rejected a pushed line.
    HistoryError,
}

/// The outcome of one engine operation.
pub type ShellResult = Result<(), ShellError>;

/// The outcome of one `poll`: an event, no event, or an error.
pub type PollResult = Result<Option<Input>, ShellError>;

/// The outcome of a `spin` drive loop.
pub type SpinResult<E> = Result<(), SpinError<E>>;

/// An error that ends a drive loop: either the engine failed, or the host
/// dispatcher did.
#[derive(Debug)]
pub enum SpinError<E> {
    /// The engine itself failed.
    ShellError(ShellError),
    /// A host callback failed.
    EnvironmentError(E),
}

/// An event the engine hands to the host.
#[derive(Debug)]
pub enum Input {
    /// An ASCII control byte the engine does not handle itself.
    Control(u8),
    /// A submitted line, split at the first space into `(command,
    /// arguments)`.
    Command((String, String)),
}

/// The host dispatcher: receives submitted commands and unhandled control
/// bytes, and may call back into the engine (to print output, say).  Either
/// callback may fail; the failure ends the current drive loop.
///
/// Implementations must leave the engine well formed, must not leave more
/// input pending than they found (else the drive loop could never catch
/// up), and must not report the engine's would-block signal — which is not
/// a failure — as their own error, as the contracts state; the engine's
/// state is otherwise theirs to use.
pub trait Environment<A: autocomplete::Autocomplete, H: history::History, E, const CMD_LEN: usize> {
    /// Called with each submitted command and its arguments.
    fn command(
        &mut self,
        shell: &mut UShell<A, H, CMD_LEN>,
        cmd: &str,
        args: &str,
    ) -> (r: SpinResult<E>)
        requires
            old(shell).wf(),
        ensures
            final(shell).wf(),
            final(shell).pending().len() <= old(shell).pending().len(),
            r matches Err(SpinError::ShellError(e)) ==> e != ShellError::WouldBlock,
    ;

    /// Called with each unhandled control byte.
    fn control(&mut self, shell: &mut UShell<A, H, CMD_LEN>, code: u8) -> (r: SpinResult<E>)
        requires
            old(shell).wf(),
        ensures
            final(shell).wf(),
            final(shell).pending().len() <= old(shell).pending().len(),
            r matches Err(SpinError::ShellError(e)) ==> e != ShellError::WouldBlock,
    ;
}

} // verus!
