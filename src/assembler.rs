//! The whole pipeline: source text to addressed instruction words, with a
//! diagnostic for each line that does not parse.
use vstd::prelude::*;

use crate::isa::{Family, Token, asseble_token, encode, family_of, funct_of, opcode_of, word_opcode};
use crate::lexer::{LexemeView, LineView, SourceLine, lex_source, lexer, lines_view};
use crate::parser::{ParseError, body_index, parse_line, tokenize_line};
use crate::symbols::{
    SymbolTable,
    address_after,
    advance,
    body_of,
    body_start,
    build_symbol_table,
    line_is_instruction,
    symbol_map,
};

verus! {

/// The base address at which the first instruction is placed.
pub const START_ADDRESS: u32 = 0xbfc0_0000;

/// A parsed instruction with its address.
#[derive(Clone, Copy, Debug, PartialEq, Eq, Structural)]
pub struct Placed {
    pub address: u32,
    pub token: Token,
}

/// A line that did not parse: its 1-based source line number and why.
#[derive(Clone, Copy, Debug, PartialEq, Eq, Structural)]
pub struct Diagnostic {
    pub line: usize,
    pub error: ParseError,
}

/// The records and diagnostics of `lines`, the first line at `start`.
///
/// Each instruction line takes 4 bytes whether it parses or not, so the
/// addresses are those of the symbol table's layout. A line that holds only a
/// label declaration yields nothing; any other line yields a record or a
/// diagnostic.
pub open spec fn tokenized(lines: Seq<LineView>, table: Map<Seq<char>, u32>, start: u32) -> (
    Seq<Placed>,
    Seq<Diagnostic>,
)
    decreases lines.len(),
{
    if lines.len() == 0 {
        (seq![], seq![])
    } else {
        let (ts, ds) = tokenized(lines.drop_last(), table, start);
        let l = lines.last();
        let addr = address_after(lines.drop_last(), start);
        if body_of(l.lexemes).len() == 0 {
            (ts, ds)
        } else {
            match parse_line(l.lexemes, table, addr >> 2) {
                Ok(t) => (ts.push(Placed { address: addr, token: t }), ds),
                Err(e) => (ts, ds.push(Diagnostic { line: l.number as usize, error: e })),
            }
        }
    }
}

/// Parses every line against the table, the first line at address `start`.
pub fn tokenize(lexemes: &Vec<SourceLine>, symbol_table: &SymbolTable, start: u32) -> (r: (
    Vec<Placed>,
    Vec<Diagnostic>,
))
    ensures
        (r.0@, r.1@) == tokenized(lines_view(lexemes@), symbol_table@, start),
        forall|i: int| 0 <= i < r.0@.len() ==> (#[trigger] r.0@[i]).token.wf(),
{
    let ghost lines = lines_view(lexemes@);
    let mut tokens: Vec<Placed> = Vec::new();
    let mut diagnostics: Vec<Diagnostic> = Vec::new();
    let mut addr: u32 = start;
    let mut i: usize = 0;
    assert(lines.take(0) =~= Seq::<LineView>::empty());
    while i < lexemes.len()
        invariant
            i <= lexemes@.len(),
            lines == lines_view(lexemes@),
            addr == address_after(lines.take(i as int), start),
            (tokens@, diagnostics@) == tokenized(lines.take(i as int), symbol_table@, start),
            forall|j: int| 0 <= j < tokens@.len() ==> (#[trigger] tokens@[j]).token.wf(),
        decreases lexemes@.len() - i,
    {
        let line = &lexemes[i];
        assert(lines.take(i + 1).drop_last() =~= lines.take(i as int));
        assert(lines.take(i + 1).last() == lexemes@[i as int]@);
        let k = body_start(&line.lexemes);
        if k < line.lexemes.len() {
            match tokenize_line(&line.lexemes, symbol_table, addr >> 2) {
                Ok(t) => tokens.push(Placed { address: addr, token: t }),
                Err(e) => diagnostics.push(Diagnostic { line: line.number, error: e }),
            }
        }
        if line_is_instruction(&line.lexemes) {
            addr = advance(addr);
        }
        i += 1;
    }
    assert(lines.take(i as int) =~= lines);
    (tokens, diagnostics)
}

/// The result of assembling a program.
#[derive(Debug)]
pub struct Assembly {
    /// Each instruction that parsed, as (address, word), in source order.
    pub words: Vec<(u32, u32)>,
    /// Each line that did not parse, in source order.
    pub diagnostics: Vec<Diagnostic>,
}

/// The addressed words of a sequence of placed records.
pub open spec fn placed_words(ts: Seq<Placed>) -> Seq<(u32, u32)> {
    ts.map_values(|p: Placed| (p.address, encode(p.token)))
}

/// What assembling `source` from address `start` gives: the words and the
/// diagnostics.
pub open spec fn assembled(source: Seq<char>, start: u32) -> (Seq<(u32, u32)>, Seq<Diagnostic>) {
    let lines = lex_source(source);
    let (ts, ds) = tokenized(lines, symbol_map(lines, start), start);
    (placed_words(ts), ds)
}

/// Assembles a whole program, its first instruction at `start`.
pub fn assemble(source: &str, start: u32) -> (r: Assembly)
    ensures
        (r.words@, r.diagnostics@) == assembled(source@, start),
{
    let lines = lexer(source);
    let table = build_symbol_table(&lines, start);
    let (tokens, diagnostics) = tokenize(&lines, &table, start);
    let mut words: Vec<(u32, u32)> = Vec::new();
    let mut i: usize = 0;
    while i < tokens.len()
        invariant
            i <= tokens@.len(),
            forall|j: int| 0 <= j < tokens@.len() ==> (#[trigger] tokens@[j]).token.wf(),
            words@ =~= placed_words(tokens@.take(i as int)),
        decreases tokens@.len() - i,
    {
        let p = tokens[i];
        words.push((p.address, asseble_token(p.token)));
        i += 1;
        assert(words@ =~= placed_words(tokens@.take(i as int)));
    }
    assert(tokens@.take(i as int) =~= tokens@);
    Assembly { words, diagnostics }
}

/// A line that parses encodes to a word whose opcode field is the opcode of
/// its mnemonic and, for a register-format mnemonic, whose function field is
/// the mnemonic's function code.
pub proof fn lemma_opcode_and_funct(v: Seq<LexemeView>, table: Map<Seq<char>, u32>, index: u32)
    requires
        parse_line(v, table, index) is Ok,
    ensures
        ({
            let ins = v[body_index(v)]->Mnemonic_0;
            let w = encode(parse_line(v, table, index)->Ok_0);
            &&& word_opcode(w) == opcode_of(ins) as u32
            &&& family_of(ins) == Family::Register ==> w & 0x3fu32 == funct_of(ins) as u32
        }),
{
    let ins = v[body_index(v)]->Mnemonic_0;
    let t = parse_line(v, table, index)->Ok_0;
    let w = encode(t);
    assert(t.wf());
    crate::isa::lemma_encode_decode(t);
    assert(w >> 26u32 < 64 && w & 0x3fu32 < 64) by (bit_vector);
    match t {
        Token::R(op, _, _, _, _, f) => {
            assert(op == opcode_of(ins) && f == funct_of(ins));
        },
        Token::I(op, _, _, _) => {
            assert(op == opcode_of(ins));
        },
        Token::J(op, _) => {
            assert(op == opcode_of(ins));
        },
    }
}

/// Assembling the same text from the same base twice gives the same words
/// and the same diagnostics.
pub proof fn lemma_assemble_repeatable(
    source: Seq<char>,
    start: u32,
    first: (Seq<(u32, u32)>, Seq<Diagnostic>),
    second: (Seq<(u32, u32)>, Seq<Diagnostic>),
)
    requires
        first == assembled(source, start),
        second == assembled(source, start),
    ensures
        first == second,
{
}

} // verus!
