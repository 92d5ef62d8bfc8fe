//! The whole assembler: lower-case the source, lex it, encode its lines.

use crate::error::{AsmError, AsmErrorView};
use crate::inst::Inst;
use crate::lexer::{lex, lex_spec};
use crate::opcode::{Opcode, OpcodeTable};
use crate::parser::{encode_lines, is_resolvable, parse, resolvable};
use crate::text::{lowercase, to_lower};
use vstd::prelude::*;

verus! {

/// The instructions that a lower-case source text stands for, or its first
/// error in source order.
pub open spec fn assemble_text(text: Seq<char>, table: Map<Seq<char>, Opcode>) -> Result<
    Seq<Inst>,
    AsmErrorView,
> {
    let lexed = lex_spec(text);
    encode_lines(lexed.lines, table, lexed.labels)
}

/// No line of the lower-case text that is reached refers to a label that
/// the text does not declare.
pub open spec fn text_resolvable(text: Seq<char>, table: Map<Seq<char>, Opcode>) -> bool {
    let lexed = lex_spec(text);
    resolvable(lexed.lines, table, lexed.labels)
}

/// Assembles a source text whose label references can be resolved. Case
/// is ignored: the text is lower-cased first.
pub fn assemble(input: &str, opcodes: &OpcodeTable) -> (insts: Result<Vec<Inst>, AsmError>)
    requires
        text_resolvable(lowercase(input@), opcodes@),
    ensures
        match insts {
            Ok(v) => assemble_text(lowercase(input@), opcodes@) == Ok::<Seq<Inst>, AsmErrorView>(
                v@,
            ),
            Err(e) => assemble_text(lowercase(input@), opcodes@) == Err::<
                Seq<Inst>,
                AsmErrorView,
            >(e@),
        },
{
    let lowered = to_lower(input);
    let (tokens, labels) = lex(lowered.as_str());
    parse(&tokens, opcodes, &labels)
}

/// Tells whether a source text can be assembled: whether no line that is
/// reached refers to a label that the text does not declare.
pub fn can_assemble(input: &str, opcodes: &OpcodeTable) -> (ok: bool)
    ensures
        ok == text_resolvable(lowercase(input@), opcodes@),
{
    let lowered = to_lower(input);
    let (tokens, labels) = lex(lowered.as_str());
    is_resolvable(&tokens, opcodes, &labels)
}

/// Assembles a source text, or gives `None` where a line that is reached
/// refers to a label that the text does not declare.
pub fn try_assemble(input: &str, opcodes: &OpcodeTable) -> (insts: Option<
    Result<Vec<Inst>, AsmError>,
>)
    ensures
        insts is Some <==> text_resolvable(lowercase(input@), opcodes@),
        match insts {
            Some(Ok(v)) => assemble_text(lowercase(input@), opcodes@) == Ok::<
                Seq<Inst>,
                AsmErrorView,
            >(v@),
            Some(Err(e)) => assemble_text(lowercase(input@), opcodes@) == Err::<
                Seq<Inst>,
                AsmErrorView,
            >(e@),
            None => true,
        },
{
    if can_assemble(input, opcodes) {
        Some(assemble(input, opcodes))
    } else {
        None
    }
}

} // verus!
