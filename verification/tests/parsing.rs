use recop_asm::error::{AsmError, Error};
use recop_asm::inst::Inst;
use recop_asm::label::LabelTable;
use recop_asm::lexer::lex;
use recop_asm::opcode::{AddrMode, Opcode, OpcodeTable};
use recop_asm::parser::{is_line_ready, is_resolvable, parse, parse_addr_mode_operand, parse_line};
use recop_asm::token::{Token, TokenType};

fn def(opcode: u8, args: u8) -> Opcode {
    Opcode { opcode, args, inh: false, imm: false, reg: false, dir: false, operand_as_reg: None }
}

fn table() -> OpcodeTable {
    let mut t = OpcodeTable::new();
    assert!(t.insert("nop".to_string(), Opcode { inh: true, ..def(0, 0) }));
    assert!(t.insert("mov".to_string(), Opcode { reg: true, imm: true, ..def(1, 2) }));
    assert!(t.insert("jmp".to_string(), Opcode { imm: true, ..def(2, 1) }));
    assert!(t.insert("ld".to_string(), Opcode { dir: true, ..def(3, 2) }));
    assert!(t.insert("halt".to_string(), def(4, 0)));
    assert!(t.insert("add3".to_string(), Opcode { reg: true, operand_as_reg: Some(0), ..def(5, 3) }));
    assert!(t.insert("cpz".to_string(), Opcode { reg: true, imm: true, operand_as_reg: Some(0), ..def(6, 2) }));
    assert!(t.insert("cpx".to_string(), Opcode { reg: true, imm: true, operand_as_reg: Some(1), ..def(7, 2) }));
    assert!(t.insert("inc".to_string(), Opcode { reg: true, operand_as_reg: Some(0), ..def(8, 1) }));
    t
}

fn one(text: &str) -> Result<Inst, AsmError> {
    let (lines, labels) = lex(text);
    assert_eq!(lines.len(), 1);
    let t = table();
    assert!(is_line_ready(&lines[0], &t, &labels));
    parse_line(&lines[0], &t, &labels)
}

fn inst(addr_mode: u8, opcode: u8, reg_z: u8, reg_x: u8, operand: u16) -> Inst {
    Inst { addr_mode, opcode, reg_z, reg_x, operand }
}

fn failure(text: &str) -> (Error, TokenType, String, u32) {
    let e = one(text).unwrap_err();
    (e.err, e.token.token, e.token.content, e.token.line_num)
}

#[test]
fn mode_follows_the_kind_of_the_last_token() {
    let all = Opcode { inh: true, imm: true, reg: true, dir: true, ..def(0, 0) };
    assert_eq!(parse_addr_mode_operand(&TokenType::Reg, &all), Ok(AddrMode::Reg));
    assert_eq!(parse_addr_mode_operand(&TokenType::Imm, &all), Ok(AddrMode::Imm));
    assert_eq!(parse_addr_mode_operand(&TokenType::Label, &all), Ok(AddrMode::Imm));
    assert_eq!(parse_addr_mode_operand(&TokenType::Dir, &all), Ok(AddrMode::Dir));
    assert_eq!(parse_addr_mode_operand(&TokenType::Opcode, &all), Ok(AddrMode::Inh));
}

#[test]
fn mode_that_the_opcode_lacks_is_refused() {
    let none = def(0, 0);
    assert_eq!(parse_addr_mode_operand(&TokenType::Reg, &none), Err(Error::RegInvalid));
    assert_eq!(parse_addr_mode_operand(&TokenType::Imm, &none), Err(Error::ImmInvalid));
    assert_eq!(parse_addr_mode_operand(&TokenType::Label, &none), Err(Error::ImmInvalid));
    assert_eq!(parse_addr_mode_operand(&TokenType::Dir, &none), Err(Error::DirInvalid));
    assert_eq!(parse_addr_mode_operand(&TokenType::Opcode, &none), Err(Error::InhInvalid));
    let only_reg = Opcode { reg: true, ..def(0, 0) };
    assert_eq!(parse_addr_mode_operand(&TokenType::Reg, &only_reg), Ok(AddrMode::Reg));
    assert_eq!(parse_addr_mode_operand(&TokenType::Imm, &only_reg), Err(Error::ImmInvalid));
    assert_eq!(parse_addr_mode_operand(&TokenType::Dir, &only_reg), Err(Error::DirInvalid));
    assert_eq!(parse_addr_mode_operand(&TokenType::Opcode, &only_reg), Err(Error::InhInvalid));
}

#[test]
fn modes_have_their_wire_numbers() {
    assert_eq!(AddrMode::Inh.code(), 0);
    assert_eq!(AddrMode::Imm.code(), 1);
    assert_eq!(AddrMode::Dir.code(), 2);
    assert_eq!(AddrMode::Reg.code(), 3);
    assert_eq!(AddrMode::from_code(0), Some(AddrMode::Inh));
    assert_eq!(AddrMode::from_code(1), Some(AddrMode::Imm));
    assert_eq!(AddrMode::from_code(2), Some(AddrMode::Dir));
    assert_eq!(AddrMode::from_code(3), Some(AddrMode::Reg));
    assert_eq!(AddrMode::from_code(4), None);
    assert_eq!(AddrMode::from_code(255), None);
}

#[test]
fn mov_with_an_immediate_operand() {
    assert_eq!(one("mov r1 #5").unwrap(), inst(1, 1, 1, 0, 5));
}

#[test]
fn mov_with_a_register_operand_keeps_it_in_the_operand_field() {
    assert_eq!(one("mov r1 r2").unwrap(), inst(3, 1, 1, 0, 2));
}

#[test]
fn operand_goes_to_the_named_register_slot() {
    assert_eq!(one("cpx r1 r2").unwrap(), inst(3, 7, 1, 2, 0));
    assert_eq!(one("cpz r1 r2").unwrap(), inst(3, 6, 2, 0, 0));
    assert_eq!(one("inc r9").unwrap(), inst(3, 8, 9, 0, 0));
    assert_eq!(one("cpx r1 r258").unwrap(), inst(3, 7, 1, 2, 0));
}

#[test]
fn operand_stays_in_its_field_outside_register_mode() {
    assert_eq!(one("cpx r1 #2").unwrap(), inst(1, 7, 1, 0, 2));
    assert_eq!(one("cpz r1 #2").unwrap(), inst(1, 6, 1, 0, 2));
}

#[test]
fn operand_stays_in_its_field_with_three_arguments() {
    assert_eq!(one("add3 r1 r2 r3").unwrap(), inst(3, 5, 1, 2, 3));
}

#[test]
fn inherent_and_direct_modes() {
    assert_eq!(one("nop").unwrap(), inst(0, 0, 0, 0, 0));
    assert_eq!(one("ld r15 $65535").unwrap(), inst(2, 3, 15, 0, 65535));
    assert_eq!(one("ld r200 $0").unwrap(), inst(2, 3, 200, 0, 0));
}

#[test]
fn unknown_mnemonic_is_undefined() {
    assert_eq!(failure("foo r1 r2"), (Error::OpcodeUndefined, TokenType::Opcode, "foo".to_string(), 0));
    let (lines, labels) = lex("nop\n\nnop\nfoo r1 r2\nnop");
    let e = parse(&lines, &table(), &labels).unwrap_err();
    assert_eq!(e.err, Error::OpcodeUndefined);
    assert_eq!(e.token.content, "foo");
    assert_eq!(e.token.line_num, 3);
}

#[test]
fn line_must_start_with_a_mnemonic() {
    assert_eq!(failure("r1 mov"), (Error::OpcodeExpected, TokenType::Reg, "1".to_string(), 0));
    assert_eq!(failure("#5"), (Error::OpcodeExpected, TokenType::Imm, "5".to_string(), 0));
    assert_eq!(failure("'loop"), (Error::OpcodeExpected, TokenType::Label, "loop".to_string(), 0));
}

#[test]
fn number_of_arguments_must_be_exact() {
    let at_mov = (Error::ArgsNumber, TokenType::Opcode, "mov".to_string(), 0);
    assert_eq!(failure("mov"), at_mov);
    assert_eq!(failure("mov r1"), at_mov);
    assert_eq!(failure("mov r1 r2 r3"), at_mov);
    assert_eq!(failure("mov r1 r2 r3 r4 r5"), at_mov);
    assert_eq!(failure("nop r1"), (Error::ArgsNumber, TokenType::Opcode, "nop".to_string(), 0));
    assert_eq!(failure("halt #1"), (Error::ArgsNumber, TokenType::Opcode, "halt".to_string(), 0));
}

#[test]
fn each_missing_mode_has_its_error() {
    assert_eq!(failure("halt"), (Error::InhInvalid, TokenType::Opcode, "halt".to_string(), 0));
    assert_eq!(failure("jmp r1"), (Error::RegInvalid, TokenType::Reg, "1".to_string(), 0));
    assert_eq!(failure("ld r1 #5"), (Error::ImmInvalid, TokenType::Imm, "5".to_string(), 0));
    assert_eq!(failure("ld r1 'x"), (Error::ImmInvalid, TokenType::Label, "x".to_string(), 0));
    assert_eq!(failure("mov r1 $5"), (Error::DirInvalid, TokenType::Dir, "5".to_string(), 0));
}

#[test]
fn arguments_before_the_operand_must_be_registers() {
    assert_eq!(failure("mov #1 #2"), (Error::RegExpected, TokenType::Imm, "1".to_string(), 0));
    assert_eq!(failure("mov mov #2"), (Error::RegExpected, TokenType::Opcode, "mov".to_string(), 0));
    assert_eq!(failure("add3 r1 $2 r3"), (Error::RegExpected, TokenType::Dir, "2".to_string(), 0));
}

#[test]
fn numbers_must_parse_and_fit() {
    assert_eq!(failure("mov r1 #abc"), (Error::ArgParse, TokenType::Imm, "abc".to_string(), 0));
    assert_eq!(failure("mov r1 #"), (Error::ArgParse, TokenType::Imm, "".to_string(), 0));
    assert_eq!(failure("mov r1 #65536"), (Error::ArgParse, TokenType::Imm, "65536".to_string(), 0));
    assert_eq!(failure("mov r1 #-1"), (Error::ArgParse, TokenType::Imm, "-1".to_string(), 0));
    assert_eq!(failure("mov rx #1"), (Error::ArgParse, TokenType::Reg, "x".to_string(), 0));
    assert_eq!(failure("mov r256 #1"), (Error::ArgParse, TokenType::Reg, "256".to_string(), 0));
    assert_eq!(failure("mov r1 r65536"), (Error::ArgParse, TokenType::Reg, "65536".to_string(), 0));
    assert_eq!(one("mov r+1 #+5").unwrap(), inst(1, 1, 1, 0, 5));
    assert_eq!(one("mov r255 #65535").unwrap(), inst(1, 1, 255, 0, 65535));
}

#[test]
fn operand_is_checked_before_the_registers() {
    assert_eq!(failure("mov #1 #x"), (Error::ArgParse, TokenType::Imm, "x".to_string(), 0));
    assert_eq!(failure("mov #1 $2"), (Error::DirInvalid, TokenType::Dir, "2".to_string(), 0));
    assert_eq!(failure("add3 rx #1 r2"), (Error::ArgParse, TokenType::Reg, "x".to_string(), 0));
}

#[test]
fn label_reference_resolves_to_the_address_of_the_next_instruction() {
    let (lines, labels) = lex("nop\nloop:\nnop\nnop\njmp 'loop");
    let insts = parse(&lines, &table(), &labels).unwrap();
    assert_eq!(insts.len(), 4);
    assert_eq!(insts[3], inst(1, 2, 0, 0, 1));
}

#[test]
fn label_may_be_used_before_it_is_declared() {
    let (lines, labels) = lex("jmp 'end\nnop\njmp 'end\nend:\nnop\njmp 'end");
    let insts = parse(&lines, &table(), &labels).unwrap();
    assert_eq!(
        insts,
        vec![
            inst(1, 2, 0, 0, 3),
            inst(0, 0, 0, 0, 0),
            inst(1, 2, 0, 0, 3),
            inst(0, 0, 0, 0, 0),
            inst(1, 2, 0, 0, 3),
        ]
    );
}

#[test]
fn label_past_the_last_instruction() {
    let (lines, labels) = lex("jmp 'end\nend:");
    assert_eq!(parse(&lines, &table(), &labels).unwrap(), vec![inst(1, 2, 0, 0, 1)]);
}

#[test]
fn blank_and_comment_lines_do_not_shift_addresses() {
    let plain = lex("nop\nloop:\nnop\njmp 'loop");
    let spaced = lex("\n; start\nnop\n\n   \n; the loop\nloop:\n\n; body\nnop\n\njmp 'loop ; back\n\n");
    let t = table();
    let a = parse(&plain.0, &t, &plain.1).unwrap();
    let b = parse(&spaced.0, &t, &spaced.1).unwrap();
    assert_eq!(a, b);
    assert_eq!(a, vec![inst(0, 0, 0, 0, 0), inst(0, 0, 0, 0, 0), inst(1, 2, 0, 0, 1)]);
    assert_eq!(spaced.1.get("loop"), Some(1));
}

#[test]
fn first_error_in_source_order_is_reported() {
    let (lines, labels) = lex("nop\nmov r1\nfoo\nmov r1 #x");
    let e = parse(&lines, &table(), &labels).unwrap_err();
    assert_eq!(e.err, Error::ArgsNumber);
    assert_eq!(e.token.content, "mov");
    assert_eq!(e.token.line_num, 1);
}

#[test]
fn no_lines_give_no_instructions() {
    let (lines, labels) = lex("; nothing\n\nonly:");
    assert_eq!(parse(&lines, &table(), &labels).unwrap(), Vec::<Inst>::new());
}

#[test]
fn undeclared_label_is_not_ready() {
    let t = table();
    let (lines, labels) = lex("jmp 'nowhere");
    assert!(!is_line_ready(&lines[0], &t, &labels));
    assert!(!is_resolvable(&lines, &t, &labels));
    let mut declared = LabelTable::new();
    declared.insert("nowhere".to_string(), 77);
    assert!(is_line_ready(&lines[0], &t, &declared));
    assert!(is_resolvable(&lines, &t, &declared));
    assert_eq!(parse_line(&lines[0], &t, &declared).unwrap(), inst(1, 2, 0, 0, 77));
}

#[test]
fn undeclared_label_matters_only_where_it_is_looked_up() {
    let t = table();
    for text in ["ld r1 'nowhere", "foo 'nowhere", "jmp r1 'nowhere", "'nowhere", "mov 'nowhere #1"] {
        let (lines, labels) = lex(text);
        assert!(is_line_ready(&lines[0], &t, &labels), "{:?}", text);
        assert!(is_resolvable(&lines, &t, &labels), "{:?}", text);
        assert!(parse_line(&lines[0], &t, &labels).is_err(), "{:?}", text);
    }
    let (lines, labels) = lex("nop\nfoo\njmp 'nowhere");
    assert!(is_resolvable(&lines, &t, &labels));
    assert_eq!(parse(&lines, &t, &labels).unwrap_err().err, Error::OpcodeUndefined);
    let (lines, labels) = lex("nop\njmp 'nowhere\nfoo");
    assert!(!is_resolvable(&lines, &t, &labels));
}

#[test]
fn line_without_tokens_is_not_ready() {
    let t = table();
    let labels = LabelTable::new();
    let empty: Vec<Token> = Vec::new();
    assert!(!is_line_ready(&empty, &t, &labels));
    assert!(!is_resolvable(&vec![empty], &t, &labels));
    assert!(is_resolvable(&Vec::new(), &t, &labels));
}

#[test]
fn table_takes_only_well_formed_definitions() {
    let mut t = OpcodeTable::new();
    assert_eq!(t.get("mov"), None);
    assert!(!t.insert("big".to_string(), def(64, 0)));
    assert!(!t.insert("many".to_string(), def(0, 4)));
    assert!(!t.insert("slot".to_string(), Opcode { operand_as_reg: Some(2), ..def(0, 0) }));
    assert_eq!(t.get("big"), None);
    assert_eq!(t.get("many"), None);
    assert_eq!(t.get("slot"), None);
    assert!(def(63, 3).is_valid());
    assert!(!def(64, 3).is_valid());
    assert!(!def(63, 4).is_valid());
    assert!(Opcode { operand_as_reg: Some(1), ..def(0, 0) }.is_valid());
    assert!(t.insert("mov".to_string(), def(63, 3)));
    assert_eq!(t.get("mov"), Some(def(63, 3)));
    assert!(t.insert("mov".to_string(), def(1, 2)));
    assert_eq!(t.get("mov"), Some(def(1, 2)));
    assert!(!t.insert("mov".to_string(), def(99, 2)));
    assert_eq!(t.get("mov"), Some(def(1, 2)));
}

#[test]
fn label_table_keeps_the_last_address() {
    let mut labels = LabelTable::new();
    assert_eq!(labels.get("a"), None);
    labels.insert("a".to_string(), 1);
    labels.insert("b".to_string(), 2);
    labels.insert("a".to_string(), 3);
    assert_eq!(labels.get("a"), Some(3));
    assert_eq!(labels.addr("a"), 3);
    assert_eq!(labels.addr("b"), 2);
    assert_eq!(labels.get("c"), None);
}

#[test]
fn every_error_has_its_message() {
    assert_eq!(Error::OpcodeExpected.message(), "expected an opcode");
    assert_eq!(Error::OpcodeUndefined.message(), "opcode is undefined");
    assert_eq!(Error::RegExpected.message(), "expected a register");
    assert_eq!(Error::OperandExpected.message(), "expected an operand (register/immediate/direct)");
    assert_eq!(Error::ArgsNumber.message(), "opcode expects a different number of arguments");
    assert_eq!(Error::ImmInvalid.message(), "opcode does not have immediate addressing mode");
    assert_eq!(Error::RegInvalid.message(), "opcode does not have register addressing mode");
    assert_eq!(Error::DirInvalid.message(), "opcode does not have direct addressing mode");
    assert_eq!(Error::InhInvalid.message(), "opcode does not have inherent addressing mode");
    assert_eq!(Error::ArgParse.message(), "failed to parse argument");
}

#[test]
fn asm_error_keeps_error_and_token() {
    let e = AsmError::new(Error::ArgParse, Token::new(TokenType::Imm, "x".to_string(), 4, (0, 0)));
    assert_eq!(e.err, Error::ArgParse);
    assert_eq!(e.token.token, TokenType::Imm);
    assert_eq!(e.token.content, "x");
    assert_eq!(e.token.line_num, 4);
}
