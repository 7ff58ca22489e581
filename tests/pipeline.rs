use mips_asm::assembler::{assemble, Diagnostic, START_ADDRESS};
use mips_asm::parser::ParseError;

fn r_word(rs: u32, rt: u32, rd: u32, funct: u32) -> u32 {
    (rs << 21) | (rt << 16) | (rd << 11) | funct
}

fn i_word(op: u32, rs: u32, rt: u32, imm: u32) -> u32 {
    (op << 26) | (rs << 21) | (rt << 16) | imm
}

#[test]
fn add_three_registers() {
    let a = assemble("add $t0, $t1, $t2", 0);
    assert_eq!(a.words, vec![(0, r_word(9, 10, 8, 0x20))]);
    let w = a.words[0].1;
    assert_eq!(w >> 26, 0);
    assert_eq!(w & 0x3f, 0x20);
    assert_eq!((w >> 11) & 0x1f, 8);
    assert_eq!((w >> 21) & 0x1f, 9);
    assert_eq!((w >> 16) & 0x1f, 10);
    assert!(a.diagnostics.is_empty());
}

#[test]
fn label_on_instruction_line_and_jump_back() {
    let a = assemble("loop: addi $t0, $t0, 1\n j loop", 0);
    assert_eq!(a.words, vec![(0, i_word(0x8, 8, 8, 1)), (4, 0x2 << 26)]);
    assert!(a.diagnostics.is_empty());
}

#[test]
fn forward_branch_over_two_instructions() {
    let src = "beq $t0, $t1, target\nadd $t0, $t0, $t0\nadd $t1, $t1, $t1\ntarget:\nbreak";
    let a = assemble(src, 0);
    let expected = (!0u32).wrapping_add(3) & 0xffff;
    assert_eq!(expected, 2);
    assert_eq!(a.words[0], (0, i_word(0x4, 8, 9, expected)));
    assert_eq!(a.words[3], (12, 0xd));
    assert_eq!(a.words.len(), 4);
}

#[test]
fn backward_branch_matches_forward_at_same_distance() {
    let fwd = assemble("bne $t0, $t1, there\nadd $t0, $t0, $t0\nthere: break", 0);
    let back = assemble("there: break\nadd $t0, $t0, $t0\nbne $t0, $t1, there", 0);
    let f = fwd.words[0].1 & 0xffff;
    let b = back.words[2].1 & 0xffff;
    assert_eq!(f, 1);
    assert_eq!(b, (0u32.wrapping_sub(2).wrapping_sub(1)) & 0xffff);
    assert_eq!(b, 0xfffd);
}

#[test]
fn load_word_with_base_register() {
    let a = assemble("lw $t0, 4($sp)", 0);
    assert_eq!(a.words, vec![(0, i_word(0x23, 29, 8, 4))]);
    assert_eq!(a.words[0].1, 0x8fa8_0004);
}

#[test]
fn too_few_operands_is_reported_and_skipped() {
    let a = assemble("add $t0, $t1\nadd $t0, $t1, $t2", 0);
    assert_eq!(a.words, vec![(4, r_word(9, 10, 8, 0x20))]);
    assert_eq!(a.diagnostics, vec![Diagnostic { line: 1, error: ParseError::ExpectedComma }]);
}

#[test]
fn immediate_boundaries_truncate() {
    let a = assemble(
        "addi $t0, $zero, 65535\naddi $t0, $zero, 65536\naddi $t0, $zero, 0xffff\naddi $t0, $zero, 0x10000\naddi $t0, $t0, -1",
        0,
    );
    let imms: Vec<u32> = a.words.iter().map(|(_, w)| w & 0xffff).collect();
    assert_eq!(imms, vec![0xffff, 0, 0xffff, 0, 0xffff]);
    assert_eq!(a.words[1].1, i_word(0x8, 0, 8, 0));
}

#[test]
fn every_mnemonic_has_its_opcode_and_funct() {
    let src = "add $t0, $t1, $t2\naddu $t0, $t1, $t2\nsub $t0, $t1, $t2\nsubu $t0, $t1, $t2\nand $t0, $t1, $t2\nor $t0, $t1, $t2\nnor $t0, $t1, $t2\nslt $t0, $t1, $t2\nbeq $t0, $t1, 0\nbne $t0, $t1, 0\naddi $t0, $t1, 0\naddiu $t0, $t1, 0\nlui $t0, 0\nlw $t0, 0($t1)\nsw $t0, 0($t1)\nj 0\nbreak";
    let a = assemble(src, 0);
    assert!(a.diagnostics.is_empty());
    let ops: Vec<u32> = a.words.iter().map(|(_, w)| w >> 26).collect();
    assert_eq!(ops, vec![0, 0, 0, 0, 0, 0, 0, 0, 0x4, 0x5, 0x8, 0x9, 0xf, 0x23, 0x2b, 0x2, 0]);
    let functs: Vec<u32> = a.words[..8].iter().map(|(_, w)| w & 0x3f).collect();
    assert_eq!(functs, vec![0x20, 0x21, 0x22, 0x23, 0x24, 0x25, 0x27, 0x2a]);
    assert_eq!(a.words[16].1, 0xd);
}

#[test]
fn same_source_twice_gives_same_output() {
    let src = "start: lw $t0, 0($sp)\nbeq $t0, $zero, start\nj start\nbogus line\nbreak";
    let a = assemble(src, START_ADDRESS);
    let b = assemble(src, START_ADDRESS);
    assert_eq!(a.words, b.words);
    assert_eq!(a.diagnostics, b.diagnostics);
}

#[test]
fn jump_address_is_masked_to_26_bits() {
    let a = assemble("start: j start", START_ADDRESS);
    assert_eq!(a.words, vec![(0xbfc0_0000, (0x2 << 26) | (0x2ff0_0000 & 0x3ff_ffff))]);
    assert_eq!(a.words[0].1, 0x0bf0_0000);
}

#[test]
fn addresses_follow_layout_from_base() {
    let a = assemble("add $t0, $t1, $t2\n\n# note\nadd $t0, $t1\nbreak", START_ADDRESS);
    assert_eq!(a.words, vec![(0xbfc0_0000, r_word(9, 10, 8, 0x20)), (0xbfc0_0008, 0xd)]);
    assert_eq!(a.diagnostics.len(), 2);
    assert_eq!(a.diagnostics[0], Diagnostic { line: 3, error: ParseError::NotAnInstruction });
    assert_eq!(a.diagnostics[1], Diagnostic { line: 4, error: ParseError::ExpectedComma });
}

#[test]
fn each_error_kind_has_an_input() {
    let cases: Vec<(&str, ParseError)> = vec![
        ("foo bar", ParseError::NotAnInstruction),
        ("add $t0, 5, $t1", ParseError::ExpectedRegister),
        ("add $t0 $t1 $t2", ParseError::ExpectedComma),
        ("lw $t0, ,", ParseError::ExpectedAddress),
        ("lw $t0, 4($sp", ParseError::ExpectedCloseParen),
        ("j nowhere", ParseError::UnknownLabel),
        ("lui $t0, 4($sp)", ParseError::NonZeroBase),
        ("break 1", ParseError::TrailingLexemes),
        ("add $t0, $t1, $t2, $t3", ParseError::TrailingLexemes),
    ];
    for (src, err) in cases {
        let a = assemble(src, 0);
        assert!(a.words.is_empty(), "{}", src);
        assert_eq!(a.diagnostics, vec![Diagnostic { line: 1, error: err }], "{}", src);
    }
}

#[test]
fn memory_operand_forms() {
    let src = "data: break\nlw $t0, (sp)\nsw $t1, 8\nlw $t2, data\nsw $t3, -4($a0)";
    let a = assemble(src, 0);
    assert!(a.diagnostics.is_empty());
    assert_eq!(a.words[1].1, i_word(0x23, 29, 8, 0));
    assert_eq!(a.words[2].1, i_word(0x2b, 0, 9, 8));
    assert_eq!(a.words[3].1, i_word(0x23, 0, 10, 0));
    assert_eq!(a.words[4].1, i_word(0x2b, 4, 11, 0xfffc));
}

#[test]
fn lui_and_label_immediates() {
    let a = assemble("lui $t0, 0x1234\nhere: addiu $t1, $t1, here", 0x100);
    assert_eq!(a.words, vec![(0x100, i_word(0xf, 0, 8, 0x1234)), (0x104, i_word(0x9, 9, 9, 0x41))]);
}

#[test]
fn duplicate_label_last_declaration_wins() {
    let a = assemble("x: break\nx: break\nj x", 0);
    assert_eq!(a.words[2].1, (0x2 << 26) | 1);
}

#[test]
fn crlf_lines_and_uppercase_are_handled() {
    let a = assemble("add $t0, $t1, $t2\r\nbreak\r\n", 0);
    assert_eq!(a.words, vec![(0, r_word(9, 10, 8, 0x20)), (4, 0xd)]);
    let b = assemble("ADD $t0, $t1, $t2", 0);
    assert!(b.words.is_empty());
    assert_eq!(b.diagnostics, vec![Diagnostic { line: 1, error: ParseError::NotAnInstruction }]);
}
