//! The errors the debugger surfaces, and their rendering as messages.
use vstd::prelude::*;

use crate::numfmt::{radix_chars, u64_to_radix};
use crate::strutil::push_char;

verus! {

/// Everything that can go wrong while handling a command.
#[derive(Debug, Clone, PartialEq, Eq)]
pub enum ErrorKind {
    /// The program path could not be resolved.
    Path(String),
    /// The command needs a live debugged process.
    NotRunning,
    /// A memory read at the given address failed.
    Read(u64),
    /// A memory write at the given address failed.
    Write(u64),
    /// The target platform cannot do what was asked.
    NotSupported,
    /// The debugged process reported a state change nothing here interprets.
    ProcessEvent,
    /// A command that needs a program was given before any `file`.
    NoExecutable,
    /// `set` was given an expression, which is not supported.
    SetExpr,
    /// `x` was given no address, and no earlier command supplied one.
    ArgumentRequired,
    /// An address literal was empty.
    EmptyAddress,
    /// An address literal held a character that is no digit of its base,
    /// or did not fit in a machine word.
    InvalidAddress,
    /// A repeat count did not fit in a machine word.
    InvalidRepeat,
    /// The first unrecognized letter of an `x/FMT` string.
    InvalidOutputFormat(char),
    /// The second unrecognized letter of an `x/FMT` string.
    InvalidOutputSize(char),
    /// Every breakpoint number has been used: the counter cannot grow.
    BreakpointLimit,
    /// A memory range would pass the end of the address space.
    AddressOverflow,
    /// A numeric command argument did not parse as a decimal number.
    InvalidNumber,
    /// A command was given fewer arguments than it needs.
    MissingArgument,
    /// A command was given more arguments than it takes.
    ExtraArgument,
    /// The first word of the line names no command.
    UndefinedCommand(String),
    /// Any other fault of the command line, with its message.
    CommandLine(String),
}

impl ErrorKind {
    /// Wrap a path in the error for paths that do not resolve.
    pub fn path(path: String) -> (r: ErrorKind)
        ensures
            r == ErrorKind::Path(path),
    {
        ErrorKind::Path(path)
    }

    /// The message this error prints, character for character.
    pub open spec fn message_spec(self) -> Seq<char> {
        match self {
            ErrorKind::Path(p) => p@,
            ErrorKind::NotRunning => "The program is not being run."@,
            ErrorKind::Read(addr) => "Cannot read memory at address 0x"@ + radix_chars(
                addr as int,
                16,
            ),
            ErrorKind::Write(addr) => "Cannot write memory at address 0x"@ + radix_chars(
                addr as int,
                16,
            ),
            ErrorKind::NotSupported => "Not supported on this target"@,
            ErrorKind::ProcessEvent => "Unexpected process event"@,
            ErrorKind::NoExecutable => "No executable file specified."@,
            ErrorKind::SetExpr => "set expressions are not implemented yet"@,
            ErrorKind::ArgumentRequired => "Argument required (starting display address)."@,
            ErrorKind::EmptyAddress => "Cannot parse empty address string"@,
            ErrorKind::InvalidAddress => "Cannot parse address"@,
            ErrorKind::InvalidRepeat => "Cannot parse repeat count"@,
            ErrorKind::BreakpointLimit => "Cannot number another breakpoint"@,
            ErrorKind::AddressOverflow => "Address range passes the end of memory"@,
            ErrorKind::InvalidNumber => "Cannot parse number"@,
            ErrorKind::MissingArgument => "Missing required argument"@,
            ErrorKind::ExtraArgument => "Too many arguments"@,
            ErrorKind::InvalidOutputFormat(c) => "Invalid output format: "@.push(c),
            ErrorKind::InvalidOutputSize(c) => "Invalid output size: "@.push(c),
            ErrorKind::UndefinedCommand(c) => "Undefined command: \""@ + c@ + "\".  Try \"help\"."@,
            ErrorKind::CommandLine(m) => m@,
        }
    }

    /// Render the message of this error.
    pub fn message(&self) -> (r: String)
        ensures
            r@ == self.message_spec(),
    {
        match self {
            ErrorKind::Path(p) => p.clone(),
            ErrorKind::NotRunning => String::from_str("The program is not being run."),
            ErrorKind::Read(addr) => {
                let mut s = String::from_str("Cannot read memory at address 0x");
                s.append(u64_to_radix(*addr, 16).as_str());
                s
            },
            ErrorKind::Write(addr) => {
                let mut s = String::from_str("Cannot write memory at address 0x");
                s.append(u64_to_radix(*addr, 16).as_str());
                s
            },
            ErrorKind::NotSupported => String::from_str("Not supported on this target"),
            ErrorKind::ProcessEvent => String::from_str("Unexpected process event"),
            ErrorKind::NoExecutable => String::from_str("No executable file specified."),
            ErrorKind::SetExpr => String::from_str("set expressions are not implemented yet"),
            ErrorKind::ArgumentRequired => String::from_str(
                "Argument required (starting display address).",
            ),
            ErrorKind::EmptyAddress => String::from_str("Cannot parse empty address string"),
            ErrorKind::InvalidAddress => String::from_str("Cannot parse address"),
            ErrorKind::InvalidRepeat => String::from_str("Cannot parse repeat count"),
            ErrorKind::BreakpointLimit => String::from_str("Cannot number another breakpoint"),
            ErrorKind::AddressOverflow => String::from_str(
                "Address range passes the end of memory",
            ),
            ErrorKind::InvalidNumber => String::from_str("Cannot parse number"),
            ErrorKind::MissingArgument => String::from_str("Missing required argument"),
            ErrorKind::ExtraArgument => String::from_str("Too many arguments"),
            ErrorKind::InvalidOutputFormat(c) => {
                let mut s = String::from_str("Invalid output format: ");
                push_char(&mut s, *c);
                s
            },
            ErrorKind::InvalidOutputSize(c) => {
                let mut s = String::from_str("Invalid output size: ");
                push_char(&mut s, *c);
                s
            },
            ErrorKind::UndefinedCommand(c) => {
                let mut s = String::from_str("Undefined command: \"");
                s.append(c.as_str());
                s.append("\".  Try \"help\".");
                s
            },
            ErrorKind::CommandLine(m) => m.clone(),
        }
    }
}

/// The message of an error as the top-level report prints it.
pub fn pretty_error(err: &ErrorKind) -> (r: String)
    ensures
        r@ == err.message_spec(),
{
    err.message()
}

} // verus!
