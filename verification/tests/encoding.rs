use recop_asm::inst::Inst;

#[test]
fn word_has_fields_at_their_places() {
    let inst = Inst { addr_mode: 3, opcode: 1, reg_z: 1, reg_x: 2, operand: 0 };
    assert_eq!(inst.to_word(), 0xc112_0000);
    let inst = Inst { addr_mode: 1, opcode: 1, reg_z: 1, reg_x: 0, operand: 5 };
    assert_eq!(inst.to_word(), 0x4110_0005);
    assert_eq!(inst.to_bytes(), [0x41, 0x10, 0x00, 0x05]);
}

#[test]
fn word_round_trips() {
    let inst = Inst { addr_mode: 2, opcode: 63, reg_z: 15, reg_x: 9, operand: 0xbeef };
    assert_eq!(Inst::from_word(inst.to_word()), inst);
    assert_eq!(Inst::from_word(0xffff_ffff).to_word(), 0xffff_ffff);
    assert_eq!(Inst::from_word(0), Inst { addr_mode: 0, opcode: 0, reg_z: 0, reg_x: 0, operand: 0 });
}

#[test]
fn wide_fields_lose_their_high_bits() {
    let inst = Inst { addr_mode: 7, opcode: 65, reg_z: 17, reg_x: 33, operand: 1 };
    assert_eq!(inst.to_word(), 0xc111_0001);
}
