use mips_asm::isa::{asseble, asseble_token, get_funct, get_opcode, Ins, Token};
use mips_asm::lexer::{lexer, parse_number, reverse, split_lines, Lexeme};
use mips_asm::parser::{get_relative_addr, tokenize_line, ParseError};
use mips_asm::symbols::build_symbol_table;

#[test]
fn lexer_classifies_in_textual_order() {
    let lines = lexer("loop: lw $t0, -4($sp) # c\n\n  \nj loop");
    assert_eq!(lines.len(), 2);
    assert_eq!(lines[0].number, 1);
    assert_eq!(lines[1].number, 4);
    let l = &lines[0].lexemes;
    assert_eq!(l.len(), 10);
    assert!(matches!(&l[0], Lexeme::Label(s) if s == "loop"));
    assert!(matches!(l[1], Lexeme::Colon));
    assert!(matches!(l[2], Lexeme::Mnemonic(Ins::Lw)));
    assert!(matches!(l[3], Lexeme::Register(8)));
    assert!(matches!(l[4], Lexeme::Comma));
    assert!(matches!(l[5], Lexeme::Number(-4)));
    assert!(matches!(l[6], Lexeme::OpenParen));
    assert!(matches!(l[7], Lexeme::Register(29)));
    assert!(matches!(l[8], Lexeme::CloseParen));
    assert!(matches!(&l[9], Lexeme::Label(s) if s == "c"));
    assert!(matches!(lines[1].lexemes[0], Lexeme::Mnemonic(Ins::J)));
}

#[test]
fn register_names_with_and_without_sigil() {
    let lines = lexer("$zero zero $ra ra $t9 t9 $x");
    let l = &lines[0].lexemes;
    assert!(matches!(l[0], Lexeme::Register(0)));
    assert!(matches!(l[1], Lexeme::Register(0)));
    assert!(matches!(l[2], Lexeme::Register(31)));
    assert!(matches!(l[3], Lexeme::Register(31)));
    assert!(matches!(l[4], Lexeme::Register(25)));
    assert!(matches!(l[5], Lexeme::Register(25)));
    assert!(matches!(&l[6], Lexeme::Label(s) if s == "$x"));
}

#[test]
fn number_literals() {
    assert_eq!(parse_number("0"), Some(0));
    assert_eq!(parse_number("42"), Some(42));
    assert_eq!(parse_number("-42"), Some(-42));
    assert_eq!(parse_number("0x10"), Some(16));
    assert_eq!(parse_number("-0xff"), Some(-255));
    assert_eq!(parse_number("2147483647"), Some(i32::MAX));
    assert_eq!(parse_number("-2147483648"), Some(i32::MIN));
    assert_eq!(parse_number("2147483648"), None);
    assert_eq!(parse_number("0x"), None);
    assert_eq!(parse_number("-"), None);
    assert_eq!(parse_number(""), None);
    assert_eq!(parse_number("12a"), None);
    assert_eq!(parse_number("0xfg"), None);
    assert_eq!(parse_number("99999999999999999999"), None);
}

#[test]
fn lines_split_like_str_lines() {
    let l = split_lines("a\r\nb\n\nc\r");
    let expect: Vec<Vec<char>> = vec![vec!['a'], vec!['b'], vec![], vec!['c', '\r']];
    assert_eq!(l, expect);
    assert!(split_lines("").is_empty());
    assert_eq!(split_lines("x\n"), vec![vec!['x']]);
}

#[test]
fn reverse_reverses() {
    assert_eq!(reverse(vec![1, 2, 3]), vec![3, 2, 1]);
    assert_eq!(reverse(Vec::<u8>::new()), Vec::<u8>::new());
}

#[test]
fn opcode_and_funct_tables() {
    assert_eq!(get_opcode(&Ins::Lw), 0x23);
    assert_eq!(get_opcode(&Ins::Sw), 0x2b);
    assert_eq!(get_opcode(&Ins::Add), 0);
    assert_eq!(get_opcode(&Ins::J), 2);
    assert_eq!(get_funct(&Ins::Nor), 0x27);
    assert_eq!(get_funct(&Ins::Slt), 0x2a);
    assert_eq!(get_funct(&Ins::Beq), 0);
}

#[test]
fn packing_and_reading_back() {
    let r = Token::R(0, 17, 18, 19, 0, 0x22);
    let w = asseble_token(r);
    assert_eq!(w, (17 << 21) | (18 << 16) | (19 << 11) | 0x22);
    assert_eq!(((w >> 21) & 0x1f, (w >> 16) & 0x1f, (w >> 11) & 0x1f, w & 0x3f), (17, 18, 19, 0x22));
    let i = Token::I(0x2b, 31, 1, 0xbeef);
    let w = asseble_token(i);
    assert_eq!((w >> 26, (w >> 21) & 0x1f, (w >> 16) & 0x1f, w & 0xffff), (0x2b, 31, 1, 0xbeef));
    let j = Token::J(2, 0xffff_ffff);
    assert_eq!(asseble_token(j), (2 << 26) | 0x3ff_ffff);
    assert_eq!(asseble(vec![Token::J(0, 0xd), r]), vec![0xd, (17 << 21) | (18 << 16) | (19 << 11) | 0x22]);
}

#[test]
fn relative_addresses() {
    assert_eq!(get_relative_addr(0, 3, 16), 2);
    assert_eq!(get_relative_addr(5, 5, 16), 0xffff);
    assert_eq!(get_relative_addr(10, 4, 16), 0xfff9);
    assert_eq!(get_relative_addr(1, 0x12345, 8), 0x43);
}

#[test]
fn symbol_table_and_line_parse() {
    let lines = lexer("top: add $t0, $t1, $t2\nmid:\nbeq $t0, $t1, top\nend: break");
    let table = build_symbol_table(&lines, 0x40);
    assert_eq!(table.lookup(&"top".to_string()), Some(0x10));
    assert_eq!(table.lookup(&"mid".to_string()), Some(0x11));
    assert_eq!(table.lookup(&"end".to_string()), Some(0x12));
    assert_eq!(table.lookup(&"none".to_string()), None);
    let t = tokenize_line(&lines[2].lexemes, &table, 0x11);
    assert_eq!(t, Ok(Token::I(0x4, 8, 9, 0xfffe)));
    assert_eq!(tokenize_line(&lines[1].lexemes, &table, 0x11), Err(ParseError::NotAnInstruction));
}
