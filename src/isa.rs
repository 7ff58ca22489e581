//! The instruction set: mnemonics, their fixed opcode and function codes,
//! the structured instruction record and its packing into 32-bit words.
use vstd::prelude::*;

verus! {

/// The supported mnemonics.
#[derive(Clone, Copy, Debug, PartialEq, Eq, Structural)]
pub enum Ins {
    J,
    Beq,
    Bne,
    Lui,
    Slt,
    Lw,
    Sw,
    Add,
    Addu,
    Addi,
    Addiu,
    Sub,
    Subu,
    And,
    Or,
    Nor,
    Break,
}

/// The three instruction layouts.
#[derive(Clone, Copy, Debug, PartialEq, Eq, Structural)]
pub enum Family {
    Register,
    Immediate,
    Jump,
}

/// The layout that a mnemonic is encoded with.
pub open spec fn family_of(ins: Ins) -> Family {
    match ins {
        Ins::Add | Ins::Addu | Ins::Sub | Ins::Subu | Ins::And | Ins::Or | Ins::Nor
        | Ins::Slt => Family::Register,
        Ins::Beq | Ins::Bne | Ins::Addi | Ins::Addiu | Ins::Lui | Ins::Lw
        | Ins::Sw => Family::Immediate,
        Ins::J | Ins::Break => Family::Jump,
    }
}

/// The opcode field of each mnemonic; every register-format mnemonic has 0.
pub open spec fn opcode_of(ins: Ins) -> u8 {
    match ins {
        Ins::Break => 0,
        Ins::J => 0x2,
        Ins::Beq => 0x4,
        Ins::Bne => 0x5,
        Ins::Addi => 0x8,
        Ins::Addiu => 0x9,
        Ins::Lui => 0xf,
        Ins::Lw => 0x23,
        Ins::Sw => 0x2b,
        _ => 0,
    }
}

/// The function field of each register-format mnemonic; 0 for the others.
pub open spec fn funct_of(ins: Ins) -> u8 {
    match ins {
        Ins::Add => 0x20,
        Ins::Addu => 0x21,
        Ins::Sub => 0x22,
        Ins::Subu => 0x23,
        Ins::And => 0x24,
        Ins::Or => 0x25,
        Ins::Nor => 0x27,
        Ins::Slt => 0x2a,
        _ => 0,
    }
}

/// The address field that `break` always carries.
pub const BREAK_CODE: u32 = 0xd;

/// The function code of a register-format mnemonic, 0 for any other.
pub fn get_funct(ins: &Ins) -> (r: u8)
    ensures
        r == funct_of(*ins),
        r < 64,
{
    match ins {
        Ins::Add => 0x20,
        Ins::Addu => 0x21,
        Ins::Sub => 0x22,
        Ins::Subu => 0x23,
        Ins::And => 0x24,
        Ins::Or => 0x25,
        Ins::Nor => 0x27,
        Ins::Slt => 0x2a,
        _ => 0,
    }
}

/// The opcode of a mnemonic.
pub fn get_opcode(ins: &Ins) -> (r: u8)
    ensures
        r == opcode_of(*ins),
        r < 64,
{
    match ins {
        Ins::Break => 0,
        Ins::J => 0x2,
        Ins::Beq => 0x4,
        Ins::Bne => 0x5,
        Ins::Addi => 0x8,
        Ins::Addiu => 0x9,
        Ins::Lui => 0xf,
        Ins::Lw => 0x23,
        Ins::Sw => 0x2b,
        _ => 0,
    }
}

/// A fully resolved instruction, one variant per layout.
///
/// `R(opcode, rs, rt, rd, shamt, funct)`, `I(opcode, rs, rt, immediate)` and
/// `J(opcode, address)`. The immediate is the 16-bit field as it is packed;
/// the jump address is masked to 26 bits when packed.
#[derive(Clone, Copy, Debug, PartialEq, Eq, Structural)]
pub enum Token {
    R(u8, u8, u8, u8, u8, u8),
    I(u8, u8, u8, u16),
    J(u8, u32),
}

impl Token {
    /// Every field fits the width it is packed into.
    pub open spec fn wf(self) -> bool {
        match self {
            Token::R(op, rs, rt, rd, shamt, funct) => op < 64 && rs < 32 && rt < 32 && rd
                < 32 && shamt < 32 && funct < 64,
            Token::I(op, rs, rt, _) => op < 64 && rs < 32 && rt < 32,
            Token::J(op, _) => op < 64,
        }
    }
}

/// Mask of the 26-bit jump address field.
pub const ADDR_MASK: u32 = 0x3ff_ffff;

/// The word that a record packs into.
pub open spec fn encode(t: Token) -> u32 {
    match t {
        Token::R(op, rs, rt, rd, shamt, funct) => ((op as u32) << 26u32) | ((rs as u32) << 21u32)
            | ((rt as u32) << 16u32) | ((rd as u32) << 11u32) | ((shamt as u32) << 6u32) | (
        funct as u32),
        Token::I(op, rs, rt, imm) => ((op as u32) << 26u32) | ((rs as u32) << 21u32) | ((
        rt as u32) << 16u32) | (imm as u32),
        Token::J(op, addr) => ((op as u32) << 26u32) | (addr & 0x3ff_ffffu32),
    }
}

/// Packs one record into its 32-bit word.
pub fn asseble_token(instr: Token) -> (r: u32)
    requires
        instr.wf(),
    ensures
        r == encode(instr),
{
    match instr {
        Token::R(opcode, rs, rt, rd, shamt, funct) => {
            ((opcode as u32) << 26u32) | ((rs as u32) << 21u32) | ((rt as u32) << 16u32) | ((
            rd as u32) << 11u32) | ((shamt as u32) << 6u32) | (funct as u32)
        },
        Token::I(opcode, rs, rt, imm) => {
            ((opcode as u32) << 26u32) | ((rs as u32) << 21u32) | ((rt as u32) << 16u32) | (
            imm as u32)
        },
        Token::J(opcode, addr) => ((opcode as u32) << 26u32) | (addr & ADDR_MASK),
    }
}

/// Packs every record, in order.
pub fn asseble(tokens: Vec<Token>) -> (r: Vec<u32>)
    requires
        forall|i: int| 0 <= i < tokens@.len() ==> (#[trigger] tokens@[i]).wf(),
    ensures
        r@.len() == tokens@.len(),
        forall|i: int| 0 <= i < r@.len() ==> #[trigger] r@[i] == encode(tokens@[i]),
{
    let mut words: Vec<u32> = Vec::new();
    let mut k: usize = 0;
    while k < tokens.len()
        invariant
            k <= tokens@.len(),
            words@.len() == k,
            forall|i: int| 0 <= i < tokens@.len() ==> (#[trigger] tokens@[i]).wf(),
            forall|i: int| 0 <= i < k ==> #[trigger] words@[i] == encode(tokens@[i]),
        decreases tokens@.len() - k,
    {
        words.push(asseble_token(tokens[k]));
        k += 1;
    }
    words
}

/// The opcode field of a word.
pub open spec fn word_opcode(w: u32) -> u32 {
    w >> 26u32
}

/// The register-format reading of a word.
pub open spec fn decode_r(w: u32) -> Token {
    Token::R(
        (w >> 26u32) as u8,
        ((w >> 21u32) & 0x1fu32) as u8,
        ((w >> 16u32) & 0x1fu32) as u8,
        ((w >> 11u32) & 0x1fu32) as u8,
        ((w >> 6u32) & 0x1fu32) as u8,
        (w & 0x3fu32) as u8,
    )
}

/// The immediate-format reading of a word.
pub open spec fn decode_i(w: u32) -> Token {
    Token::I(
        (w >> 26u32) as u8,
        ((w >> 21u32) & 0x1fu32) as u8,
        ((w >> 16u32) & 0x1fu32) as u8,
        (w & 0xffffu32) as u16,
    )
}

/// The jump-format reading of a word.
pub open spec fn decode_j(w: u32) -> Token {
    Token::J((w >> 26u32) as u8, w & 0x3ff_ffffu32)
}

/// Reading a packed word back with its own layout gives every field back
/// bit for bit; a jump address comes back as its low 26 bits.
pub proof fn lemma_encode_decode(t: Token)
    requires
        t.wf(),
    ensures
        t matches Token::R(..) ==> decode_r(encode(t)) == t,
        t matches Token::I(..) ==> decode_i(encode(t)) == t,
        t matches Token::J(op, addr) ==> decode_j(encode(t)) == Token::J(op, addr & 0x3ff_ffffu32),
{
    match t {
        Token::R(op, rs, rt, rd, shamt, funct) => {
            let (o, s, tt, d, sh, f) = (op as u32, rs as u32, rt as u32, rd as u32, shamt as u32, funct as u32);
            let w = encode(t);
            assert(w == (o << 26u32) | (s << 21u32) | (tt << 16u32) | (d << 11u32) | (sh << 6u32) | f);
            assert(w >> 26u32 == o && (w >> 21u32) & 0x1fu32 == s && (w >> 16u32) & 0x1fu32 == tt
                && (w >> 11u32) & 0x1fu32 == d && (w >> 6u32) & 0x1fu32 == sh && w & 0x3fu32 == f)
                by (bit_vector)
                requires
                    w == (o << 26u32) | (s << 21u32) | (tt << 16u32) | (d << 11u32) | (sh << 6u32) | f,
                    o < 64 && s < 32 && tt < 32 && d < 32 && sh < 32 && f < 64,
            ;
        },
        Token::I(op, rs, rt, imm) => {
            let (o, s, tt, m) = (op as u32, rs as u32, rt as u32, imm as u32);
            let w = encode(t);
            assert(w == (o << 26u32) | (s << 21u32) | (tt << 16u32) | m);
            assert(w >> 26u32 == o && (w >> 21u32) & 0x1fu32 == s && (w >> 16u32) & 0x1fu32 == tt
                && w & 0xffffu32 == m)
                by (bit_vector)
                requires
                    w == (o << 26u32) | (s << 21u32) | (tt << 16u32) | m,
                    o < 64 && s < 32 && tt < 32 && m < 0x10000,
            ;
        },
        Token::J(op, addr) => {
            let o = op as u32;
            let w = encode(t);
            assert(w == (o << 26u32) | (addr & 0x3ff_ffffu32));
            assert(w >> 26u32 == o && w & 0x3ff_ffffu32 == addr & 0x3ff_ffffu32)
                by (bit_vector)
                requires
                    w == (o << 26u32) | (addr & 0x3ff_ffffu32),
                    o < 64,
            ;
        },
    }
}

} // verus!
