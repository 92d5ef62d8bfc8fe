//! From token lines to instructions: the opcode is looked up, the number of
//! arguments checked, the addressing mode read off the last token, and the
//! operand and the registers resolved.

use crate::error::{AsmError, AsmErrorView, Error};
use crate::inst::Inst;
use crate::label::LabelTable;
use crate::opcode::{AddrMode, Opcode, OpcodeTable};
use crate::text::{parse_decimal, parse_unsigned};
use crate::token::{lines_view, tokens_view, Token, TokenType, TokenView};
use vstd::prelude::*;

verus! {

/// The addressing mode that the kind of the last token asks for, if the
/// opcode has that mode; the error that names the missing mode if not.
pub open spec fn addr_mode_of(kind: TokenType, def: Opcode) -> Result<AddrMode, Error> {
    match kind {
        TokenType::Reg => if def.reg {
            Ok(AddrMode::Reg)
        } else {
            Err(Error::RegInvalid)
        },
        TokenType::Imm | TokenType::Label => if def.imm {
            Ok(AddrMode::Imm)
        } else {
            Err(Error::ImmInvalid)
        },
        TokenType::Dir => if def.dir {
            Ok(AddrMode::Dir)
        } else {
            Err(Error::DirInvalid)
        },
        TokenType::Opcode => if def.inh {
            Ok(AddrMode::Inh)
        } else {
            Err(Error::InhInvalid)
        },
    }
}

/// Infers the addressing mode from the kind of an instruction's last token.
pub fn parse_addr_mode_operand(operand_token: &TokenType, opcode: &Opcode) -> (mode: Result<
    AddrMode,
    Error,
>)
    ensures
        mode == addr_mode_of(*operand_token, *opcode),
{
    match *operand_token {
        TokenType::Reg => if opcode.reg {
            Ok(AddrMode::Reg)
        } else {
            Err(Error::RegInvalid)
        },
        TokenType::Imm | TokenType::Label => if opcode.imm {
            Ok(AddrMode::Imm)
        } else {
            Err(Error::ImmInvalid)
        },
        TokenType::Dir => if opcode.dir {
            Ok(AddrMode::Dir)
        } else {
            Err(Error::DirInvalid)
        },
        TokenType::Opcode => if opcode.inh {
            Ok(AddrMode::Inh)
        } else {
            Err(Error::InhInvalid)
        },
    }
}

/// The value of the operand: 0 in inherent mode, the label's address for a
/// label reference, else the number that the token spells, if it spells one
/// that fits 16 bits.
pub open spec fn operand_of(last: TokenView, mode: AddrMode, labels: Map<Seq<char>, u16>) -> Option<
    u16,
> {
    if mode == AddrMode::Inh {
        Some(0u16)
    } else if last.token == TokenType::Label {
        Some(labels[last.content])
    } else {
        match parse_unsigned(last.content, 0xffff) {
            Some(value) => Some(value as u16),
            None => None,
        }
    }
}

/// The register index that a token between mnemonic and operand gives.
pub open spec fn reg_of(t: TokenView) -> Result<u8, AsmErrorView> {
    if t.token != TokenType::Reg {
        Err(AsmErrorView { err: Error::RegExpected, token: t })
    } else {
        match parse_unsigned(t.content, 0xff) {
            Some(index) => Ok(index as u8),
            None => Err(AsmErrorView { err: Error::ArgParse, token: t }),
        }
    }
}

/// What the tokens between mnemonic and operand put into register slot
/// `slot`: the index that token `slot + 1` gives, or 0 where the line has no
/// such token.
pub open spec fn reg_slot(line: Seq<TokenView>, slot: int) -> Result<u8, AsmErrorView> {
    if slot + 2 < line.len() {
        reg_of(line[slot + 1])
    } else {
        Ok(0u8)
    }
}

/// The operand goes to a register slot and not to the operand field.
pub open spec fn operand_as_reg_applies(def: Opcode, mode: AddrMode) -> bool {
    mode == AddrMode::Reg && def.args < 3 && def.operand_as_reg is Some
}

/// The instruction made of the resolved parts. Where the operand goes to
/// a register slot, the slot takes its low 8 bits and the operand field is 0.
pub open spec fn place_operand(def: Opcode, mode: AddrMode, z: u8, x: u8, value: u16) -> Inst {
    if operand_as_reg_applies(def, mode) {
        let slot = def.operand_as_reg->0;
        Inst {
            addr_mode: mode.spec_code(),
            opcode: def.opcode,
            reg_z: if slot == 0 {
                (value % 256) as u8
            } else {
                z
            },
            reg_x: if slot == 0 {
                x
            } else {
                (value % 256) as u8
            },
            operand: 0,
        }
    } else {
        Inst { addr_mode: mode.spec_code(), opcode: def.opcode, reg_z: z, reg_x: x, operand: value }
    }
}

/// The instruction that one line of tokens stands for, or the first rule
/// that the line breaks, with the token at which it breaks it.
pub open spec fn encode_line(
    line: Seq<TokenView>,
    table: Map<Seq<char>, Opcode>,
    labels: Map<Seq<char>, u16>,
) -> Result<Inst, AsmErrorView>
    recommends
        line.len() > 0,
{
    let head = line[0];
    let last = line.last();
    if head.token != TokenType::Opcode {
        Err(AsmErrorView { err: Error::OpcodeExpected, token: head })
    } else if !table.contains_key(head.content) {
        Err(AsmErrorView { err: Error::OpcodeUndefined, token: head })
    } else if table[head.content].args != line.len() - 1 {
        Err(AsmErrorView { err: Error::ArgsNumber, token: head })
    } else {
        let def = table[head.content];
        match addr_mode_of(last.token, def) {
            Err(err) => Err(AsmErrorView { err, token: last }),
            Ok(mode) => match operand_of(last, mode, labels) {
                None => Err(AsmErrorView { err: Error::ArgParse, token: last }),
                Some(value) => match reg_slot(line, 0) {
                    Err(e) => Err(e),
                    Ok(z) => match reg_slot(line, 1) {
                        Err(e) => Err(e),
                        Ok(x) => Ok(place_operand(def, mode, z, x, value)),
                    },
                },
            },
        }
    }
}

/// The line's operand is a label reference that has to be looked up: the
/// mnemonic is known, the number of arguments is right, and the opcode takes
/// an immediate operand.
pub open spec fn refers_to_label(line: Seq<TokenView>, table: Map<Seq<char>, Opcode>) -> bool {
    &&& line.len() > 0
    &&& line[0].token == TokenType::Opcode
    &&& table.contains_key(line[0].content)
    &&& table[line[0].content].args == line.len() - 1
    &&& line.last().token == TokenType::Label
    &&& table[line[0].content].imm
}

/// The line can be encoded: it has a token, and the label that it refers
/// to, if it has to be looked up, is declared.
pub open spec fn line_ready(
    line: Seq<TokenView>,
    table: Map<Seq<char>, Opcode>,
    labels: Map<Seq<char>, u16>,
) -> bool {
    &&& line.len() > 0
    &&& refers_to_label(line, table) ==> labels.contains_key(line.last().content)
}

/// Reads the register index of a token between mnemonic and operand.
fn parse_reg(t: &Token) -> (index: Result<u8, AsmError>)
    ensures
        match index {
            Ok(i) => reg_of(t@) == Ok::<u8, AsmErrorView>(i),
            Err(e) => reg_of(t@) == Err::<u8, AsmErrorView>(e@),
        },
{
    match t.token {
        TokenType::Reg => match parse_decimal(t.content.as_str(), 0xff) {
            Some(index) => Ok(index as u8),
            None => Err(AsmError::new(Error::ArgParse, t.clone())),
        },
        _ => Err(AsmError::new(Error::RegExpected, t.clone())),
    }
}

/// Tells whether a line can be encoded.
pub fn is_line_ready(line: &Vec<Token>, opcodes: &OpcodeTable, labels: &LabelTable) -> (ready: bool)
    ensures
        ready == line_ready(tokens_view(line@), opcodes@, labels@),
{
    if line.len() == 0 {
        return false;
    }
    let head = &line[0];
    let last = &line[line.len() - 1];
    assert(tokens_view(line@)[0] == head@);
    assert(tokens_view(line@).last() == last@);
    if head.token != TokenType::Opcode || last.token != TokenType::Label {
        return true;
    }
    match opcodes.get(head.content.as_str()) {
        None => true,
        Some(def) => {
            if def.args as usize != line.len() - 1 || !def.imm {
                true
            } else {
                labels.get(last.content.as_str()).is_some()
            }
        },
    }
}

/// Encodes one line of tokens, or reports the first rule that it breaks.
pub fn parse_line(line: &Vec<Token>, opcodes: &OpcodeTable, labels: &LabelTable) -> (inst: Result<
    Inst,
    AsmError,
>)
    requires
        line_ready(tokens_view(line@), opcodes@, labels@),
    ensures
        match inst {
            Ok(i) => encode_line(tokens_view(line@), opcodes@, labels@) == Ok::<Inst, AsmErrorView>(
                i,
            ),
            Err(e) => encode_line(tokens_view(line@), opcodes@, labels@) == Err::<
                Inst,
                AsmErrorView,
            >(e@),
        },
{
    let ghost view = tokens_view(line@);
    let n = line.len();
    let head = &line[0];
    let last = &line[n - 1];
    assert(view[0] == head@);
    assert(view.last() == last@);
    if head.token != TokenType::Opcode {
        return Err(AsmError::new(Error::OpcodeExpected, head.clone()));
    }
    let def = match opcodes.get(head.content.as_str()) {
        Some(def) => def,
        None => {
            return Err(AsmError::new(Error::OpcodeUndefined, head.clone()));
        },
    };
    if def.args as usize != n - 1 {
        return Err(AsmError::new(Error::ArgsNumber, head.clone()));
    }
    let mode = match parse_addr_mode_operand(&last.token, &def) {
        Ok(mode) => mode,
        Err(err) => {
            return Err(AsmError::new(err, last.clone()));
        },
    };
    let value: u16 = match mode {
        AddrMode::Inh => 0,
        _ => if last.token == TokenType::Label {
            labels.addr(last.content.as_str())
        } else {
            match parse_decimal(last.content.as_str(), 0xffff) {
                Some(value) => value as u16,
                None => {
                    return Err(AsmError::new(Error::ArgParse, last.clone()));
                },
            }
        },
    };
    let mut reg_z: u8 = 0;
    let mut reg_x: u8 = 0;
    if n > 2 {
        assert(view[1] == line@[1]@);
        reg_z = parse_reg(&line[1])?;
    }
    if n > 3 {
        assert(view[2] == line@[2]@);
        reg_x = parse_reg(&line[2])?;
    }
    let mut operand: u16 = value;
    if mode == AddrMode::Reg && def.args < 3 {
        if let Some(slot) = def.operand_as_reg {
            if slot == 0 {
                reg_z = (value % 256) as u8;
            } else {
                reg_x = (value % 256) as u8;
            }
            operand = 0;
        }
    }
    Ok(Inst { addr_mode: mode.code(), opcode: def.opcode, reg_z, reg_x, operand })
}

/// The instructions of a sequence of lines, in order, or the error of the
/// first line that breaks a rule.
pub open spec fn encode_lines(
    lines: Seq<Seq<TokenView>>,
    table: Map<Seq<char>, Opcode>,
    labels: Map<Seq<char>, u16>,
) -> Result<Seq<Inst>, AsmErrorView>
    decreases lines.len(),
{
    if lines.len() == 0 {
        Ok(Seq::<Inst>::empty())
    } else {
        match encode_lines(lines.drop_last(), table, labels) {
            Err(e) => Err(e),
            Ok(insts) => match encode_line(lines.last(), table, labels) {
                Err(e) => Err(e),
                Ok(inst) => Ok(insts.push(inst)),
            },
        }
    }
}

/// Every line that is reached, because all lines before it were encoded,
/// can be encoded.
pub open spec fn resolvable(
    lines: Seq<Seq<TokenView>>,
    table: Map<Seq<char>, Opcode>,
    labels: Map<Seq<char>, u16>,
) -> bool {
    forall|i: int|
        0 <= i < lines.len() && (#[trigger] encode_lines(lines.take(i), table, labels)) is Ok
            ==> line_ready(lines[i], table, labels)
}

/// An error among the first lines is the error of the whole sequence.
pub proof fn lemma_first_error_stays(
    lines: Seq<Seq<TokenView>>,
    table: Map<Seq<char>, Opcode>,
    labels: Map<Seq<char>, u16>,
    n: int,
)
    requires
        0 <= n <= lines.len(),
        encode_lines(lines.take(n), table, labels) is Err,
    ensures
        encode_lines(lines, table, labels) == encode_lines(lines.take(n), table, labels),
    decreases lines.len() - n,
{
    if n < lines.len() {
        assert(lines.take(n + 1).drop_last() =~= lines.take(n));
        lemma_first_error_stays(lines, table, labels, n + 1);
    } else {
        assert(lines.take(n) =~= lines);
    }
}

/// Tells whether every line that is reached can be encoded.
pub fn is_resolvable(lines: &Vec<Vec<Token>>, opcodes: &OpcodeTable, labels: &LabelTable) -> (ok:
    bool)
    ensures
        ok == resolvable(lines_view(lines@), opcodes@, labels@),
{
    let ghost view = lines_view(lines@);
    let mut i: usize = 0;
    assert(view.take(0) =~= Seq::<Seq<TokenView>>::empty());
    while i < lines.len()
        invariant
            0 <= i <= lines.len(),
            view == lines_view(lines@),
            encode_lines(view.take(i as int), opcodes@, labels@) is Ok,
            forall|k: int|
                0 <= k < i && (#[trigger] encode_lines(view.take(k), opcodes@, labels@)) is Ok
                    ==> line_ready(view[k], opcodes@, labels@),
        decreases lines.len() - i,
    {
        assert(view[i as int] == tokens_view(lines@[i as int]@));
        assert(view.take(i + 1).drop_last() =~= view.take(i as int));
        if !is_line_ready(&lines[i], opcodes, labels) {
            return false;
        }
        if parse_line(&lines[i], opcodes, labels).is_err() {
            assert forall|k: int|
                0 <= k < view.len() && (#[trigger] encode_lines(
                    view.take(k),
                    opcodes@,
                    labels@,
                )) is Ok implies line_ready(view[k], opcodes@, labels@) by {
                if k > i {
                    assert(view.take(k).take(i + 1) =~= view.take(i + 1));
                    lemma_first_error_stays(view.take(k), opcodes@, labels@, i + 1);
                }
            }
            return true;
        }
        i += 1;
    }
    true
}

/// Encodes the lines in order and stops at the first one that breaks a rule.
pub fn parse(tokens: &Vec<Vec<Token>>, opcodes: &OpcodeTable, labels: &LabelTable) -> (insts:
    Result<Vec<Inst>, AsmError>)
    requires
        resolvable(lines_view(tokens@), opcodes@, labels@),
    ensures
        match insts {
            Ok(v) => encode_lines(lines_view(tokens@), opcodes@, labels@) == Ok::<
                Seq<Inst>,
                AsmErrorView,
            >(v@),
            Err(e) => encode_lines(lines_view(tokens@), opcodes@, labels@) == Err::<
                Seq<Inst>,
                AsmErrorView,
            >(e@),
        },
{
    let ghost view = lines_view(tokens@);
    let mut instructions: Vec<Inst> = Vec::new();
    let mut i: usize = 0;
    assert(view.take(0) =~= Seq::<Seq<TokenView>>::empty());
    while i < tokens.len()
        invariant
            0 <= i <= tokens.len(),
            view == lines_view(tokens@),
            resolvable(view, opcodes@, labels@),
            encode_lines(view.take(i as int), opcodes@, labels@) == Ok::<Seq<Inst>, AsmErrorView>(
                instructions@,
            ),
        decreases tokens.len() - i,
    {
        assert(view[i as int] == tokens_view(tokens@[i as int]@));
        assert(view.take(i + 1).drop_last() =~= view.take(i as int));
        match parse_line(&tokens[i], opcodes, labels) {
            Ok(inst) => {
                instructions.push(inst);
            },
            Err(e) => {
                proof {
                    lemma_first_error_stays(view, opcodes@, labels@, i + 1);
                }
                return Err(e);
            },
        }
        i += 1;
    }
    assert(view.take(i as int) =~= view);
    Ok(instructions)
}

/// An operand of a kind whose addressing mode the opcode does not have is
/// refused with the error that names the mode: a line of the mnemonic alone
/// needs the inherent mode, a register the register mode, a number or a
/// label reference the immediate mode, an address the direct mode. This
/// holds of every line with a known mnemonic and the right number of
/// arguments.
pub proof fn lemma_missing_mode_is_refused(
    line: Seq<TokenView>,
    table: Map<Seq<char>, Opcode>,
    labels: Map<Seq<char>, u16>,
)
    requires
        line.len() > 0,
        line[0].token == TokenType::Opcode,
        table.contains_key(line[0].content),
        table[line[0].content].args == line.len() - 1,
    ensures
        line.last().token == TokenType::Opcode && !table[line[0].content].inh ==> encode_line(
            line,
            table,
            labels,
        ) == Err::<Inst, AsmErrorView>(
            AsmErrorView { err: Error::InhInvalid, token: line.last() },
        ),
        line.last().token == TokenType::Reg && !table[line[0].content].reg ==> encode_line(
            line,
            table,
            labels,
        ) == Err::<Inst, AsmErrorView>(
            AsmErrorView { err: Error::RegInvalid, token: line.last() },
        ),
        (line.last().token == TokenType::Imm || line.last().token == TokenType::Label)
            && !table[line[0].content].imm ==> encode_line(line, table, labels) == Err::<
            Inst,
            AsmErrorView,
        >(AsmErrorView { err: Error::ImmInvalid, token: line.last() }),
        line.last().token == TokenType::Dir && !table[line[0].content].dir ==> encode_line(
            line,
            table,
            labels,
        ) == Err::<Inst, AsmErrorView>(
            AsmErrorView { err: Error::DirInvalid, token: line.last() },
        ),
{
}

/// A line with a known mnemonic and any other number of arguments than the
/// opcode declares is refused at the mnemonic.
pub proof fn lemma_wrong_number_of_arguments(
    line: Seq<TokenView>,
    table: Map<Seq<char>, Opcode>,
    labels: Map<Seq<char>, u16>,
)
    requires
        line.len() > 0,
        line[0].token == TokenType::Opcode,
        table.contains_key(line[0].content),
        table[line[0].content].args != line.len() - 1,
    ensures
        encode_line(line, table, labels) == Err::<Inst, AsmErrorView>(
            AsmErrorView { err: Error::ArgsNumber, token: line[0] },
        ),
{
}

/// Where a line is encoded, its operand goes to the register slot that the
/// opcode names, and leaves 0 in the operand field, exactly if the mode is
/// the register mode, the opcode declares fewer than 3 arguments and names a
/// slot. In every other case the operand stands in the operand field and the
/// register slots hold what the tokens between mnemonic and operand give.
pub proof fn lemma_operand_placement(
    line: Seq<TokenView>,
    table: Map<Seq<char>, Opcode>,
    labels: Map<Seq<char>, u16>,
)
    requires
        line.len() > 0,
        encode_line(line, table, labels) is Ok,
    ensures
        ({
            let inst = encode_line(line, table, labels)->Ok_0;
            let def = table[line[0].content];
            let mode = addr_mode_of(line.last().token, def)->Ok_0;
            let value = operand_of(line.last(), mode, labels)->Some_0;
            &&& inst.addr_mode == mode.spec_code()
            &&& inst.opcode == def.opcode
            &&& if mode == AddrMode::Reg && def.args < 3 && def.operand_as_reg is Some {
                &&& inst.operand == 0
                &&& def.operand_as_reg == Some(0u8) ==> inst.reg_z == value % 256 && inst.reg_x
                    == reg_slot(line, 1)->Ok_0
                &&& def.operand_as_reg == Some(1u8) ==> inst.reg_x == value % 256 && inst.reg_z
                    == reg_slot(line, 0)->Ok_0
            } else {
                &&& inst.operand == value
                &&& inst.reg_z == reg_slot(line, 0)->Ok_0
                &&& inst.reg_x == reg_slot(line, 1)->Ok_0
            }
        }),
{
}

/// The lines of a source are encoded one by one: where all are encoded,
/// there is one instruction for each line, in the order of the lines, so
/// that a line's index is its instruction's address.
pub proof fn lemma_one_instruction_per_line(
    lines: Seq<Seq<TokenView>>,
    table: Map<Seq<char>, Opcode>,
    labels: Map<Seq<char>, u16>,
)
    requires
        encode_lines(lines, table, labels) is Ok,
    ensures
        encode_lines(lines, table, labels)->Ok_0.len() == lines.len(),
        forall|i: int|
            0 <= i < lines.len() ==> encode_line(#[trigger] lines[i], table, labels) == Ok::<
                Inst,
                AsmErrorView,
            >(encode_lines(lines, table, labels)->Ok_0[i]),
    decreases lines.len(),
{
    if lines.len() > 0 {
        lemma_one_instruction_per_line(lines.drop_last(), table, labels);
        let insts = encode_lines(lines, table, labels)->Ok_0;
        let before = encode_lines(lines.drop_last(), table, labels)->Ok_0;
        assert forall|i: int| 0 <= i < lines.len() implies encode_line(
            #[trigger] lines[i],
            table,
            labels,
        ) == Ok::<Inst, AsmErrorView>(insts[i]) by {
            if i < lines.len() - 1 {
                assert(lines.drop_last()[i] == lines[i]);
                assert(insts[i] == before[i]);
            }
        }
    }
}

/// Where the lines are not all encoded, the error is that of the first
/// line, in the order of the lines, that breaks a rule.
pub proof fn lemma_error_is_the_first(
    lines: Seq<Seq<TokenView>>,
    table: Map<Seq<char>, Opcode>,
    labels: Map<Seq<char>, u16>,
) -> (at: int)
    requires
        encode_lines(lines, table, labels) is Err,
    ensures
        0 <= at < lines.len(),
        encode_line(lines[at], table, labels) == Err::<Inst, AsmErrorView>(
            encode_lines(lines, table, labels)->Err_0,
        ),
        forall|i: int| 0 <= i < at ==> encode_line(#[trigger] lines[i], table, labels) is Ok,
    decreases lines.len(),
{
    if encode_lines(lines.drop_last(), table, labels) is Err {
        let at = lemma_error_is_the_first(lines.drop_last(), table, labels);
        assert(lines.drop_last()[at] == lines[at]);
        assert forall|i: int| 0 <= i < at implies encode_line(
            #[trigger] lines[i],
            table,
            labels,
        ) is Ok by {
            assert(lines.drop_last()[i] == lines[i]);
        }
        at
    } else {
        lemma_one_instruction_per_line(lines.drop_last(), table, labels);
        let at = lines.len() - 1;
        assert forall|i: int| 0 <= i < at implies encode_line(
            #[trigger] lines[i],
            table,
            labels,
        ) is Ok by {
            assert(lines.drop_last()[i] == lines[i]);
        }
        at
    }
}

/// A label reference resolves to the address that the label table gives
/// the label, wherever the referring line stands: before the declaration or
/// after it. Two encoded lines that refer to one label hold one operand.
pub proof fn lemma_label_resolution_ignores_order(
    lines: Seq<Seq<TokenView>>,
    table: Map<Seq<char>, Opcode>,
    labels: Map<Seq<char>, u16>,
    i: int,
    j: int,
)
    requires
        encode_lines(lines, table, labels) is Ok,
        0 <= i < lines.len(),
        0 <= j < lines.len(),
        lines[i].len() > 0,
        lines[j].len() > 0,
        lines[i].last().token == TokenType::Label,
        lines[j].last().token == TokenType::Label,
        lines[i].last().content == lines[j].last().content,
    ensures
        encode_lines(lines, table, labels)->Ok_0[i].operand == labels[lines[i].last().content],
        encode_lines(lines, table, labels)->Ok_0[j].operand == labels[lines[i].last().content],
        encode_lines(lines, table, labels)->Ok_0[i].addr_mode == AddrMode::Imm.spec_code(),
{
    lemma_one_instruction_per_line(lines, table, labels);
    lemma_operand_placement(lines[i], table, labels);
    lemma_operand_placement(lines[j], table, labels);
}

} // verus!
