//! The parser: one line's lexemes and the symbol table to a resolved
//! instruction record.
use vstd::prelude::*;

use crate::isa::{BREAK_CODE, Ins, Token, funct_of, get_funct, get_opcode, opcode_of};
use crate::lexer::{Lexeme, LexemeView, lexemes_view};
use crate::symbols::{SymbolTable, body_start, declared_label};

verus! {

/// Why a line did not parse.
#[derive(Clone, Copy, Debug, PartialEq, Eq, Structural)]
pub enum ParseError {
    /// The line holds something other than a label declaration and an
    /// instruction.
    NotAnInstruction,
    /// A register (index below 32) was expected.
    ExpectedRegister,
    /// A comma was expected after a register.
    ExpectedComma,
    /// An address operand was expected: a number, a label or `(reg)`.
    ExpectedAddress,
    /// A closing parenthesis was expected after a base register.
    ExpectedCloseParen,
    /// The label is not declared anywhere in the program.
    UnknownLabel,
    /// The operand names a base register where none is allowed.
    NonZeroBase,
    /// Lexemes follow the last operand.
    TrailingLexemes,
}

/// The register at position `i`.
pub open spec fn reg_at(v: Seq<LexemeView>, i: int) -> Option<u8> {
    if 0 <= i < v.len() && v[i] is Register && v[i]->Register_0 < 32 {
        Some(v[i]->Register_0)
    } else {
        None
    }
}

/// A register at `i` followed by a comma.
pub open spec fn reg_comma(v: Seq<LexemeView>, i: int) -> Result<u8, ParseError> {
    match reg_at(v, i) {
        None => Err(ParseError::ExpectedRegister),
        Some(r) => if i + 1 < v.len() && v[i + 1] is Comma {
            Ok(r)
        } else {
            Err(ParseError::ExpectedComma)
        },
    }
}

/// A register at `i` that ends the line.
pub open spec fn last_reg(v: Seq<LexemeView>, i: int) -> Result<u8, ParseError> {
    match reg_at(v, i) {
        None => Err(ParseError::ExpectedRegister),
        Some(r) => if v.len() == i + 1 {
            Ok(r)
        } else {
            Err(ParseError::TrailingLexemes)
        },
    }
}

/// `(reg)` from the opening parenthesis at `i` to the end of the line.
pub open spec fn paren_base(v: Seq<LexemeView>, i: int) -> Result<u8, ParseError> {
    match reg_at(v, i + 1) {
        None => Err(ParseError::ExpectedRegister),
        Some(r) => if i + 2 < v.len() && v[i + 2] is CloseParen {
            if v.len() == i + 3 {
                Ok(r)
            } else {
                Err(ParseError::TrailingLexemes)
            }
        } else {
            Err(ParseError::ExpectedCloseParen)
        },
    }
}

/// The address operand from `i` to the end of the line, as a base register
/// and a value: `imm(reg)`, `(reg)` with value 0, a bare number or a bare
/// label, the last two with base 0. A label stands for its table entry.
pub open spec fn address_operand(v: Seq<LexemeView>, i: int, table: Map<Seq<char>, u32>) -> Result<
    (u8, u32),
    ParseError,
> {
    if i < 0 || i >= v.len() {
        Err(ParseError::ExpectedAddress)
    } else {
        match v[i] {
            LexemeView::Number(n) => if v.len() == i + 1 {
                Ok((0u8, n as u32))
            } else if v[i + 1] is OpenParen {
                match paren_base(v, i + 1) {
                    Ok(r) => Ok((r, n as u32)),
                    Err(e) => Err(e),
                }
            } else {
                Err(ParseError::TrailingLexemes)
            },
            LexemeView::OpenParen => match paren_base(v, i) {
                Ok(r) => Ok((r, 0u32)),
                Err(e) => Err(e),
            },
            LexemeView::Label(name) => if v.len() > i + 1 {
                Err(ParseError::TrailingLexemes)
            } else if table.contains_key(name) {
                Ok((0u8, table[name]))
            } else {
                Err(ParseError::UnknownLabel)
            },
            _ => Err(ParseError::ExpectedAddress),
        }
    }
}

/// The value of an address operand whose base register must be 0.
pub open spec fn zero_based(v: Seq<LexemeView>, i: int, table: Map<Seq<char>, u32>) -> Result<
    u32,
    ParseError,
> {
    match address_operand(v, i, table) {
        Ok((b, x)) => if b == 0 {
            Ok(x)
        } else {
            Err(ParseError::NonZeroBase)
        },
        Err(e) => Err(e),
    }
}

/// The low 16 bits of a value: the immediate field.
pub open spec fn imm16(x: u32) -> u16 {
    (x & 0xffffu32) as u16
}

/// The mask of the low `bits` bits.
pub open spec fn low_mask(bits: u32) -> u32 {
    ((1u32 << bits) - 1) as u32
}

/// The PC-relative displacement from instruction index `cur` to `target`:
/// the complement of `cur` plus `target`, wrapping, masked to `bits` bits.
pub open spec fn relative_addr(cur: u32, target: u32, bits: u32) -> u32 {
    (!cur).wrapping_add(target) & low_mask(bits)
}

/// A register-format instruction at `k`: `rd, rs, rt`.
pub open spec fn parse_register_format(v: Seq<LexemeView>, k: int, ins: Ins) -> Result<
    Token,
    ParseError,
> {
    match reg_comma(v, k + 1) {
        Err(e) => Err(e),
        Ok(rd) => match reg_comma(v, k + 3) {
            Err(e) => Err(e),
            Ok(rs) => match last_reg(v, k + 5) {
                Err(e) => Err(e),
                Ok(rt) => Ok(Token::R(0, rs, rt, rd, 0, funct_of(ins))),
            },
        },
    }
}

/// A branch at `k`, whose index is `index`: `rs, rt, target`, the target
/// taken relative to the branch.
pub open spec fn parse_branch(
    v: Seq<LexemeView>,
    k: int,
    ins: Ins,
    table: Map<Seq<char>, u32>,
    index: u32,
) -> Result<Token, ParseError> {
    match reg_comma(v, k + 1) {
        Err(e) => Err(e),
        Ok(s) => match reg_comma(v, k + 3) {
            Err(e) => Err(e),
            Ok(t) => match zero_based(v, k + 5, table) {
                Err(e) => Err(e),
                Ok(x) => Ok(Token::I(opcode_of(ins), s, t, relative_addr(index, x, 16) as u16)),
            },
        },
    }
}

/// An immediate arithmetic instruction at `k`: `rt, rs, immediate`.
pub open spec fn parse_arith(v: Seq<LexemeView>, k: int, ins: Ins, table: Map<Seq<char>, u32>) -> Result<
    Token,
    ParseError,
> {
    match reg_comma(v, k + 1) {
        Err(e) => Err(e),
        Ok(t) => match reg_comma(v, k + 3) {
            Err(e) => Err(e),
            Ok(s) => match zero_based(v, k + 5, table) {
                Err(e) => Err(e),
                Ok(x) => Ok(Token::I(opcode_of(ins), s, t, imm16(x))),
            },
        },
    }
}

/// A load or store at `k`: `rt, address`, the address with any base.
pub open spec fn parse_memory(v: Seq<LexemeView>, k: int, ins: Ins, table: Map<Seq<char>, u32>) -> Result<
    Token,
    ParseError,
> {
    match reg_comma(v, k + 1) {
        Err(e) => Err(e),
        Ok(t) => match address_operand(v, k + 3, table) {
            Err(e) => Err(e),
            Ok((b, x)) => Ok(Token::I(opcode_of(ins), b, t, imm16(x))),
        },
    }
}

/// A load-upper at `k`: `rt, immediate`.
pub open spec fn parse_upper(v: Seq<LexemeView>, k: int, ins: Ins, table: Map<Seq<char>, u32>) -> Result<
    Token,
    ParseError,
> {
    match reg_comma(v, k + 1) {
        Err(e) => Err(e),
        Ok(t) => match zero_based(v, k + 3, table) {
            Err(e) => Err(e),
            Ok(x) => Ok(Token::I(opcode_of(ins), 0, t, imm16(x))),
        },
    }
}

/// The instruction at position `k`, whose index (address / 4) is `index`.
pub open spec fn parse_at(v: Seq<LexemeView>, k: int, table: Map<Seq<char>, u32>, index: u32) -> Result<
    Token,
    ParseError,
> {
    if !(0 <= k < v.len() && v[k] is Mnemonic) {
        Err(ParseError::NotAnInstruction)
    } else {
        let ins = v[k]->Mnemonic_0;
        match ins {
            Ins::Add | Ins::Addu | Ins::Sub | Ins::Subu | Ins::And | Ins::Or | Ins::Nor
            | Ins::Slt => parse_register_format(v, k, ins),
            Ins::Beq | Ins::Bne => parse_branch(v, k, ins, table, index),
            Ins::Addi | Ins::Addiu => parse_arith(v, k, ins, table),
            Ins::Lw | Ins::Sw => parse_memory(v, k, ins, table),
            Ins::Lui => parse_upper(v, k, ins, table),
            Ins::J => match zero_based(v, k + 1, table) {
                Err(e) => Err(e),
                Ok(x) => Ok(Token::J(opcode_of(ins), x)),
            },
            Ins::Break => if v.len() == k + 1 {
                Ok(Token::J(opcode_of(ins), BREAK_CODE))
            } else {
                Err(ParseError::TrailingLexemes)
            },
        }
    }
}

/// Where the instruction of a line starts: after its label declaration.
pub open spec fn body_index(v: Seq<LexemeView>) -> int {
    if declared_label(v) is Some {
        2
    } else {
        0
    }
}

/// The record that a line parses to, its instruction having index `index`.
pub open spec fn parse_line(v: Seq<LexemeView>, table: Map<Seq<char>, u32>, index: u32) -> Result<
    Token,
    ParseError,
> {
    parse_at(v, body_index(v), table, index)
}

fn register_at(l: &Vec<Lexeme>, i: usize) -> (r: Option<u8>)
    ensures
        r == reg_at(lexemes_view(l@), i as int),
        r is Some ==> i < l@.len(),
{
    if i < l.len() {
        if let Lexeme::Register(x) = &l[i] {
            if *x < 32 {
                return Some(*x);
            }
        }
    }
    None
}

fn register_comma(l: &Vec<Lexeme>, i: usize) -> (r: Result<u8, ParseError>)
    ensures
        r == reg_comma(lexemes_view(l@), i as int),
{
    match register_at(l, i) {
        None => Err(ParseError::ExpectedRegister),
        Some(x) => {
            if l.len() - i > 1 && matches!(l[i + 1], Lexeme::Comma) {
                Ok(x)
            } else {
                Err(ParseError::ExpectedComma)
            }
        },
    }
}

fn last_register(l: &Vec<Lexeme>, i: usize) -> (r: Result<u8, ParseError>)
    ensures
        r == last_reg(lexemes_view(l@), i as int),
{
    match register_at(l, i) {
        None => Err(ParseError::ExpectedRegister),
        Some(x) => {
            if l.len() == i + 1 {
                Ok(x)
            } else {
                Err(ParseError::TrailingLexemes)
            }
        },
    }
}

fn paren_base_at(l: &Vec<Lexeme>, i: usize) -> (r: Result<u8, ParseError>)
    requires
        i < l@.len(),
    ensures
        r == paren_base(lexemes_view(l@), i as int),
{
    if l.len() - i < 2 {
        return Err(ParseError::ExpectedRegister);
    }
    match register_at(l, i + 1) {
        None => Err(ParseError::ExpectedRegister),
        Some(x) => {
            if l.len() - i > 2 && matches!(l[i + 2], Lexeme::CloseParen) {
                if l.len() - i == 3 {
                    Ok(x)
                } else {
                    Err(ParseError::TrailingLexemes)
                }
            } else {
                Err(ParseError::ExpectedCloseParen)
            }
        },
    }
}

/// Parses the address operand that runs from position `i` to the end of the
/// line, as a base register and a value.
pub fn parse_addr(l: &Vec<Lexeme>, i: usize, symbol_table: &SymbolTable) -> (r: Result<
    (u8, u32),
    ParseError,
>)
    ensures
        r == address_operand(lexemes_view(l@), i as int, symbol_table@),
{
    if i >= l.len() {
        return Err(ParseError::ExpectedAddress);
    }
    match &l[i] {
        Lexeme::Number(n) => {
            if l.len() == i + 1 {
                Ok((0, *n as u32))
            } else if matches!(l[i + 1], Lexeme::OpenParen) {
                match paren_base_at(l, i + 1) {
                    Ok(x) => Ok((x, *n as u32)),
                    Err(e) => Err(e),
                }
            } else {
                Err(ParseError::TrailingLexemes)
            }
        },
        Lexeme::OpenParen => match paren_base_at(l, i) {
            Ok(x) => Ok((x, 0)),
            Err(e) => Err(e),
        },
        Lexeme::Label(name) => {
            if l.len() > i + 1 {
                Err(ParseError::TrailingLexemes)
            } else {
                match symbol_table.lookup(name) {
                    Some(a) => Ok((0, a)),
                    None => Err(ParseError::UnknownLabel),
                }
            }
        },
        _ => Err(ParseError::ExpectedAddress),
    }
}

fn parse_zero_based(l: &Vec<Lexeme>, i: usize, symbol_table: &SymbolTable) -> (r: Result<
    u32,
    ParseError,
>)
    ensures
        r == zero_based(lexemes_view(l@), i as int, symbol_table@),
{
    match parse_addr(l, i, symbol_table) {
        Ok((b, x)) => if b == 0 {
            Ok(x)
        } else {
            Err(ParseError::NonZeroBase)
        },
        Err(e) => Err(e),
    }
}

/// The displacement from instruction index `line_nr` to `addr`, masked to
/// `bits` bits.
pub fn get_relative_addr(line_nr: u32, addr: u32, bits: u32) -> (r: u32)
    requires
        bits < 32,
    ensures
        r == relative_addr(line_nr, addr, bits),
{
    assert(1u32 << bits >= 1) by (bit_vector)
        requires
            bits < 32,
    ;
    let mask: u32 = (1u32 << bits) - 1;
    (!line_nr).wrapping_add(addr) & mask
}

proof fn lemma_mask16(w: u32)
    ensures
        w & low_mask(16) == w & 0xffffu32,
        w & 0xffffu32 < 0x10000,
{
    assert(low_mask(16) == 0xffffu32) by (bit_vector);
    assert(w & 0xffffu32 < 0x10000) by (bit_vector);
}

/// The 16-bit displacement of a branch is the distance from the branch to
/// its target, minus one, modulo 2^16, whether the target lies before or
/// after the branch; so two branches at the same distance from their
/// targets get the same field.
pub proof fn lemma_relative_distance(cur: u32, target: u32)
    ensures
        relative_addr(cur, target, 16) as int == (target as int - cur as int - 1) % 0x10000,
{
    let x = (!cur).wrapping_add(target);
    lemma_mask16(x);
    assert(!cur == 0xffff_ffffu32 - cur) by (bit_vector);
    assert(x & 0xffffu32 == x % 0x10000) by (bit_vector);
    let y: int = target as int - cur as int - 1;
    if y >= 0 {
        assert(x as int == y);
    } else {
        assert(x as int == 0x10000 * 0x10000 + y);
        vstd::arithmetic::div_mod::lemma_mod_multiples_vanish(0x10000, y, 0x10000);
    }
}

/// Two branches at the same distance from their targets, one forward and
/// one backward or both alike, get the same 16-bit displacement.
pub proof fn lemma_same_distance_same_displacement(c1: u32, t1: u32, c2: u32, t2: u32)
    requires
        t1 - c1 == t2 - c2,
    ensures
        relative_addr(c1, t1, 16) == relative_addr(c2, t2, 16),
{
    lemma_relative_distance(c1, t1);
    lemma_relative_distance(c2, t2);
}

fn register_format(line: &Vec<Lexeme>, k: usize, ins: Ins) -> (r: Result<Token, ParseError>)
    requires
        k <= 2,
    ensures
        r == parse_register_format(lexemes_view(line@), k as int, ins),
        r is Ok ==> r->Ok_0.wf(),
{
    let rd = match register_comma(line, k + 1) {
        Ok(x) => x,
        Err(e) => return Err(e),
    };
    let rs = match register_comma(line, k + 3) {
        Ok(x) => x,
        Err(e) => return Err(e),
    };
    let rt = match last_register(line, k + 5) {
        Ok(x) => x,
        Err(e) => return Err(e),
    };
    Ok(Token::R(0, rs, rt, rd, 0, get_funct(&ins)))
}

fn branch(line: &Vec<Lexeme>, k: usize, ins: Ins, symbol_table: &SymbolTable, line_nr: u32) -> (r:
    Result<Token, ParseError>)
    requires
        k <= 2,
    ensures
        r == parse_branch(lexemes_view(line@), k as int, ins, symbol_table@, line_nr),
        r is Ok ==> r->Ok_0.wf(),
{
    let s = match register_comma(line, k + 1) {
        Ok(x) => x,
        Err(e) => return Err(e),
    };
    let t = match register_comma(line, k + 3) {
        Ok(x) => x,
        Err(e) => return Err(e),
    };
    let target = match parse_zero_based(line, k + 5, symbol_table) {
        Ok(x) => x,
        Err(e) => return Err(e),
    };
    let d = get_relative_addr(line_nr, target, 16);
    proof {
        lemma_mask16((!line_nr).wrapping_add(target));
    }
    Ok(Token::I(get_opcode(&ins), s, t, d as u16))
}

fn arith(line: &Vec<Lexeme>, k: usize, ins: Ins, symbol_table: &SymbolTable) -> (r: Result<
    Token,
    ParseError,
>)
    requires
        k <= 2,
    ensures
        r == parse_arith(lexemes_view(line@), k as int, ins, symbol_table@),
        r is Ok ==> r->Ok_0.wf(),
{
    let t = match register_comma(line, k + 1) {
        Ok(x) => x,
        Err(e) => return Err(e),
    };
    let s = match register_comma(line, k + 3) {
        Ok(x) => x,
        Err(e) => return Err(e),
    };
    let x = match parse_zero_based(line, k + 5, symbol_table) {
        Ok(x) => x,
        Err(e) => return Err(e),
    };
    Ok(Token::I(get_opcode(&ins), s, t, (x & 0xffff) as u16))
}

fn memory(line: &Vec<Lexeme>, k: usize, ins: Ins, symbol_table: &SymbolTable) -> (r: Result<
    Token,
    ParseError,
>)
    requires
        k <= 2,
    ensures
        r == parse_memory(lexemes_view(line@), k as int, ins, symbol_table@),
        r is Ok ==> r->Ok_0.wf(),
{
    let t = match register_comma(line, k + 1) {
        Ok(x) => x,
        Err(e) => return Err(e),
    };
    let (b, x) = match parse_addr(line, k + 3, symbol_table) {
        Ok(p) => p,
        Err(e) => return Err(e),
    };
    Ok(Token::I(get_opcode(&ins), b, t, (x & 0xffff) as u16))
}

fn upper(line: &Vec<Lexeme>, k: usize, ins: Ins, symbol_table: &SymbolTable) -> (r: Result<
    Token,
    ParseError,
>)
    requires
        k <= 2,
    ensures
        r == parse_upper(lexemes_view(line@), k as int, ins, symbol_table@),
        r is Ok ==> r->Ok_0.wf(),
{
    let t = match register_comma(line, k + 1) {
        Ok(x) => x,
        Err(e) => return Err(e),
    };
    let x = match parse_zero_based(line, k + 3, symbol_table) {
        Ok(x) => x,
        Err(e) => return Err(e),
    };
    Ok(Token::I(get_opcode(&ins), 0, t, (x & 0xffff) as u16))
}

/// Parses one line into a record; its instruction has index `line_nr`
/// (address / 4), from which branch displacements are counted.
pub fn tokenize_line(line: &Vec<Lexeme>, symbol_table: &SymbolTable, line_nr: u32) -> (r: Result<
    Token,
    ParseError,
>)
    ensures
        r == parse_line(lexemes_view(line@), symbol_table@, line_nr),
        r is Ok ==> r->Ok_0.wf(),
{
    let k = body_start(line);
    if k >= line.len() {
        return Err(ParseError::NotAnInstruction);
    }
    let ins = match &line[k] {
        Lexeme::Mnemonic(ins) => *ins,
        _ => {
            return Err(ParseError::NotAnInstruction);
        },
    };
    match ins {
        Ins::Add | Ins::Addu | Ins::Sub | Ins::Subu | Ins::And | Ins::Or | Ins::Nor
        | Ins::Slt => register_format(line, k, ins),
        Ins::Beq | Ins::Bne => branch(line, k, ins, symbol_table, line_nr),
        Ins::Addi | Ins::Addiu => arith(line, k, ins, symbol_table),
        Ins::Lw | Ins::Sw => memory(line, k, ins, symbol_table),
        Ins::Lui => upper(line, k, ins, symbol_table),
        Ins::J => match parse_zero_based(line, k + 1, symbol_table) {
            Ok(x) => Ok(Token::J(get_opcode(&ins), x)),
            Err(e) => Err(e),
        },
        Ins::Break => {
            if line.len() == k + 1 {
                Ok(Token::J(get_opcode(&ins), BREAK_CODE))
            } else {
                Err(ParseError::TrailingLexemes)
            }
        },
    }
}

/// An immediate keeps its low 16 bits: a value that does not fit is
/// truncated, never rejected, so 0xffff stays 0xffff and 0x10000 becomes 0.
pub proof fn lemma_immediate_truncation(x: u32)
    ensures
        imm16(x) as int == x as int % 0x10000,
{
    assert(x & 0xffffu32 == x % 0x10000) by (bit_vector);
}

} // verus!
