//! Why an assembly failed, and at which token.

use crate::token::{Token, TokenView};
use vstd::prelude::*;
use vstd::string::StringExecFns;

verus! {

/// The rule that a source line broke.
#[derive(Clone, Copy, Debug, PartialEq, Eq, Structural)]
pub enum Error {
    /// A line does not start with a mnemonic.
    OpcodeExpected,
    /// The mnemonic is not in the opcode table.
    OpcodeUndefined,
    /// An argument before the operand is not a register.
    RegExpected,
    /// An operand was expected.
    OperandExpected,
    /// The opcode takes another number of arguments.
    ArgsNumber,
    /// The opcode has no immediate addressing mode.
    ImmInvalid,
    /// The opcode has no register addressing mode.
    RegInvalid,
    /// The opcode has no direct addressing mode.
    DirInvalid,
    /// The opcode has no inherent addressing mode.
    InhInvalid,
    /// An argument is not a number that fits its field.
    ArgParse,
}

impl Error {
    /// The text of the message for each error.
    pub open spec fn spec_message(self) -> Seq<char> {
        match self {
            Error::OpcodeExpected => "expected an opcode"@,
            Error::OpcodeUndefined => "opcode is undefined"@,
            Error::RegExpected => "expected a register"@,
            Error::OperandExpected => "expected an operand (register/immediate/direct)"@,
            Error::ArgsNumber => "opcode expects a different number of arguments"@,
            Error::ImmInvalid => "opcode does not have immediate addressing mode"@,
            Error::RegInvalid => "opcode does not have register addressing mode"@,
            Error::DirInvalid => "opcode does not have direct addressing mode"@,
            Error::InhInvalid => "opcode does not have inherent addressing mode"@,
            Error::ArgParse => "failed to parse argument"@,
        }
    }

    /// The message that describes the error to a user.
    pub fn message(&self) -> (text: String)
        ensures
            text@ == self.spec_message(),
    {
        match self {
            Error::OpcodeExpected => String::from_str("expected an opcode"),
            Error::OpcodeUndefined => String::from_str("opcode is undefined"),
            Error::RegExpected => String::from_str("expected a register"),
            Error::OperandExpected => String::from_str(
                "expected an operand (register/immediate/direct)",
            ),
            Error::ArgsNumber => String::from_str(
                "opcode expects a different number of arguments",
            ),
            Error::ImmInvalid => String::from_str(
                "opcode does not have immediate addressing mode",
            ),
            Error::RegInvalid => String::from_str("opcode does not have register addressing mode"),
            Error::DirInvalid => String::from_str("opcode does not have direct addressing mode"),
            Error::InhInvalid => String::from_str(
                "opcode does not have inherent addressing mode",
            ),
            Error::ArgParse => String::from_str("failed to parse argument"),
        }
    }
}

/// An error together with the token that it was found at.
#[derive(Debug)]
pub struct AsmError {
    pub err: Error,
    pub token: Token,
}

/// An error with its token by its view.
pub struct AsmErrorView {
    pub err: Error,
    pub token: TokenView,
}

impl View for AsmError {
    type V = AsmErrorView;

    open spec fn view(&self) -> AsmErrorView {
        AsmErrorView { err: self.err, token: self.token@ }
    }
}

impl AsmError {
    /// The error `err`, found at `token`.
    pub fn new(err: Error, token: Token) -> (e: AsmError)
        ensures
            e@ == (AsmErrorView { err, token: token@ }),
    {
        AsmError { err, token }
    }
}

} // verus!
