//! Error values of the toolchain: file-format errors, assembler and linker
//! diagnostics, runtime error kinds, and command-line errors.

use vstd::prelude::*;
use vstd::string::*;

verus! {

/// Why a persisted artifact could not be loaded or written.
#[derive(Clone, Copy, Debug, PartialEq, Eq, Structural)]
pub enum FileLoadError {
    FsOpenFailed,
    FsReadFailed,
    FsWriteFailed,
    InvalidBinary,
    InvalidSymbols,
}

/// The two ways linking can fail.
#[derive(Clone, Copy, Debug, PartialEq, Eq, Structural)]
pub enum LinkErrorType {
    ResolutionError,
    RangeError,
}

/// The category an assembler diagnostic belongs to.
#[derive(Clone, Copy, Debug, PartialEq, Eq, Structural)]
pub enum AsmErrorType {
    LinkError,
    SyntaxError,
}

impl AsmErrorType {
    /// The category label shown to the user.
    pub fn as_str(&self) -> (r: &'static str)
        ensures
            *self == AsmErrorType::LinkError ==> r@ == "Link Error"@,
            *self == AsmErrorType::SyntaxError ==> r@ == "Syntax Error"@,
    {
        match self {
            AsmErrorType::LinkError => "Link Error",
            AsmErrorType::SyntaxError => "Syntax Error",
        }
    }
}

/// One assembler diagnostic: the source line it concerns, a message, and
/// its category.
#[derive(Clone, Debug)]
pub struct AsmblrErr {
    pub line_number: Option<u16>,
    pub msg: String,
    pub error_type: AsmErrorType,
}

impl AsmblrErr {
    /// A syntax diagnostic for the given source line.
    pub fn new(line_number: Option<u16>, message: String) -> (r: Self)
        ensures
            r.line_number == line_number,
            r.msg@ == message@,
            r.error_type == AsmErrorType::SyntaxError,
    {
        AsmblrErr { line_number, msg: message, error_type: AsmErrorType::SyntaxError }
    }

    /// The same diagnostic reclassified as a link error.
    pub fn link_error(self) -> (r: Self)
        ensures
            r.line_number == self.line_number,
            r.msg@ == self.msg@,
            r.error_type == AsmErrorType::LinkError,
    {
        AsmblrErr { line_number: self.line_number, msg: self.msg, error_type: AsmErrorType::LinkError }
    }
}

/// The kinds of fatal errors the virtual machine can raise.
#[derive(Clone, Copy, Debug, PartialEq, Eq, Structural)]
pub enum VirtualMachineErrorType {
    InvalidOpcode,
    InvalidInstruction,
    MachineFailureToExecuteInstruction,
}

/// An error in the command-line request itself.
#[derive(Clone, Debug)]
pub struct CliError {
    pub message: String,
}

impl CliError {
    pub fn new(message: &str) -> (r: Self)
        ensures
            r.message@ == message@,
    {
        CliError { message: message.to_owned() }
    }
}

} // verus!
