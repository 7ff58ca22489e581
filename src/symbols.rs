//! The symbol table: label declarations and the address layout of a program.
use vstd::prelude::*;

use crate::lexer::{Lexeme, LexemeView, LineView, SourceLine, lines_view};

verus! {

/// The label that a line declares: a label followed by a colon at its start.
pub open spec fn declared_label(l: Seq<LexemeView>) -> Option<Seq<char>> {
    if l.len() >= 2 && l[0] is Label && l[1] is Colon {
        Some(l[0]->Label_0)
    } else {
        None
    }
}

/// The lexemes of a line after its label declaration, if any.
pub open spec fn body_of(l: Seq<LexemeView>) -> Seq<LexemeView> {
    if declared_label(l) is Some {
        l.skip(2)
    } else {
        l
    }
}

/// A line whose body starts with a mnemonic: it takes 4 bytes.
pub open spec fn is_instruction(l: Seq<LexemeView>) -> bool {
    body_of(l).len() > 0 && body_of(l)[0] is Mnemonic
}

/// The address 4 bytes on, in the 32-bit address space.
pub open spec fn next_address(addr: u32) -> u32 {
    ((addr + 4) % 0x1_0000_0000) as u32
}

/// The address that follows `lines` when the first of them starts at `start`.
pub open spec fn address_after(lines: Seq<LineView>, start: u32) -> u32
    decreases lines.len(),
{
    if lines.len() == 0 {
        start
    } else {
        let a = address_after(lines.drop_last(), start);
        if is_instruction(lines.last().lexemes) {
            next_address(a)
        } else {
            a
        }
    }
}

/// The address of line `i`.
pub open spec fn line_address(lines: Seq<LineView>, start: u32, i: int) -> u32 {
    address_after(lines.take(i), start)
}

/// Every label declared in `lines`, bound to the instruction index
/// (address / 4) of its line; a later declaration of a name wins.
pub open spec fn symbol_map(lines: Seq<LineView>, start: u32) -> Map<Seq<char>, u32>
    decreases lines.len(),
{
    if lines.len() == 0 {
        Map::empty()
    } else {
        let m = symbol_map(lines.drop_last(), start);
        match declared_label(lines.last().lexemes) {
            Some(name) => m.insert(name, address_after(lines.drop_last(), start) >> 2),
            None => m,
        }
    }
}

/// The value of the last entry for `name`.
pub open spec fn lookup_in(entries: Seq<(String, u32)>, name: Seq<char>) -> Option<u32>
    decreases entries.len(),
{
    if entries.len() == 0 {
        None
    } else if entries.last().0@ == name {
        Some(entries.last().1)
    } else {
        lookup_in(entries.drop_last(), name)
    }
}

/// Labels and the instruction indices they stand for.
#[derive(Debug)]
pub struct SymbolTable {
    entries: Vec<(String, u32)>,
}

impl View for SymbolTable {
    type V = Map<Seq<char>, u32>;

    closed spec fn view(&self) -> Map<Seq<char>, u32> {
        Map::new(
            |name: Seq<char>| lookup_in(self.entries@, name) is Some,
            |name: Seq<char>| lookup_in(self.entries@, name)->0,
        )
    }
}

impl SymbolTable {
    /// An empty table.
    pub fn new() -> (r: SymbolTable)
        ensures
            r@ == Map::<Seq<char>, u32>::empty(),
    {
        let r = SymbolTable { entries: Vec::new() };
        assert(r@ =~= Map::<Seq<char>, u32>::empty());
        r
    }

    /// Binds `name` to `value`, replacing an earlier binding.
    pub fn insert(&mut self, name: String, value: u32)
        ensures
            final(self)@ == old(self)@.insert(name@, value),
    {
        let ghost before = self.entries@;
        self.entries.push((name, value));
        assert(self.entries@.drop_last() =~= before);
        assert(self@ =~= old(self)@.insert(name@, value));
    }

    /// The value bound to `name`.
    pub fn lookup(&self, name: &String) -> (r: Option<u32>)
        ensures
            r == (if self@.contains_key(name@) {
                Some(self@[name@])
            } else {
                None
            }),
    {
        let mut j: usize = self.entries.len();
        assert(self.entries@.take(j as int) =~= self.entries@);
        while j > 0
            invariant
                j <= self.entries@.len(),
                lookup_in(self.entries@.take(j as int), name@) == lookup_in(self.entries@, name@),
            decreases j,
        {
            let ghost t = self.entries@.take(j as int);
            assert(t.drop_last() =~= self.entries@.take(j - 1));
            if self.entries[j - 1].0 == *name {
                return Some(self.entries[j - 1].1);
            }
            j -= 1;
        }
        assert(self.entries@.take(0) =~= Seq::<(String, u32)>::empty());
        None
    }
}

/// The label that a line declares, if any.
fn label_of(l: &Vec<Lexeme>) -> (r: Option<&String>)
    ensures
        match r {
            Some(s) => declared_label(crate::lexer::lexemes_view(l@)) == Some(s@),
            None => declared_label(crate::lexer::lexemes_view(l@)) is None,
        },
{
    if l.len() >= 2 {
        if let Lexeme::Label(name) = &l[0] {
            if let Lexeme::Colon = &l[1] {
                return Some(name);
            }
        }
    }
    None
}

/// Where the body of a line starts: after its label declaration, if any.
pub fn body_start(l: &Vec<Lexeme>) -> (r: usize)
    ensures
        r <= l@.len(),
        r == (if declared_label(crate::lexer::lexemes_view(l@)) is Some {
            2usize
        } else {
            0usize
        }),
        crate::lexer::lexemes_view(l@).skip(r as int) == body_of(crate::lexer::lexemes_view(l@)),
{
    let ghost v = crate::lexer::lexemes_view(l@);
    if label_of(l).is_some() {
        2
    } else {
        assert(v.skip(0) =~= v);
        0
    }
}

/// Whether a line holds an instruction.
pub fn line_is_instruction(l: &Vec<Lexeme>) -> (r: bool)
    ensures
        r == is_instruction(crate::lexer::lexemes_view(l@)),
{
    let k = body_start(l);
    let ghost v = crate::lexer::lexemes_view(l@);
    let ghost b = v.skip(k as int);
    assert(b == body_of(v));
    assert(b.len() == l@.len() - k);
    if k < l.len() {
        assert(b[0] == v[k as int]);
        assert(v[k as int] == l@[k as int]@);
        let r = matches!(l[k], Lexeme::Mnemonic(_));
        assert(r == (b[0] is Mnemonic));
        r
    } else {
        false
    }
}

/// The address 4 bytes on, wrapping at the top of the address space.
pub fn advance(addr: u32) -> (r: u32)
    ensures
        r == next_address(addr),
{
    if addr <= u32::MAX - 4 {
        addr + 4
    } else {
        addr - (u32::MAX - 3)
    }
}

/// Walks the program once, binding each declared label to the instruction
/// index (address / 4) of its line; lines start at `start` and each
/// instruction takes 4 bytes.
pub fn build_symbol_table(source: &Vec<SourceLine>, start: u32) -> (r: SymbolTable)
    ensures
        r@ == symbol_map(lines_view(source@), start),
{
    let ghost lines = lines_view(source@);
    let mut table = SymbolTable::new();
    let mut addr: u32 = start;
    let mut i: usize = 0;
    assert(lines.take(0) =~= Seq::<LineView>::empty());
    while i < source.len()
        invariant
            i <= source@.len(),
            lines == lines_view(source@),
            addr == address_after(lines.take(i as int), start),
            table@ == symbol_map(lines.take(i as int), start),
        decreases source@.len() - i,
    {
        let line = &source[i].lexemes;
        assert(lines.take(i + 1).drop_last() =~= lines.take(i as int));
        assert(lines.take(i + 1).last() == source@[i as int]@);
        if let Some(name) = label_of(line) {
            table.insert(name.clone(), addr >> 2);
        }
        if line_is_instruction(line) {
            addr = advance(addr);
        }
        i += 1;
    }
    assert(lines.take(i as int) =~= lines);
    table
}

/// A label stands for the instruction index of the line that declares it,
/// whether its users come before or after that line, as long as no later
/// line declares it again.
pub proof fn lemma_label_resolves(lines: Seq<LineView>, start: u32, i: int)
    requires
        0 <= i < lines.len(),
        declared_label(lines[i].lexemes) is Some,
        forall|j: int|
            i < j < lines.len() ==> #[trigger] declared_label(lines[j].lexemes) != declared_label(
                lines[i].lexemes,
            ),
    ensures
        symbol_map(lines, start).contains_key(declared_label(lines[i].lexemes)->0),
        symbol_map(lines, start)[declared_label(lines[i].lexemes)->0] == line_address(
            lines,
            start,
            i,
        ) >> 2,
    decreases lines.len(),
{
    let name = declared_label(lines[i].lexemes)->0;
    let rest = lines.drop_last();
    if i == lines.len() - 1 {
        assert(lines.take(i) =~= rest);
    } else {
        assert(declared_label(lines.last().lexemes) != declared_label(lines[i].lexemes));
        assert(rest[i] == lines[i]);
        assert forall|j: int| i < j < rest.len() implies #[trigger] declared_label(
            rest[j].lexemes,
        ) != declared_label(rest[i].lexemes) by {
            assert(rest[j] == lines[j]);
        }
        lemma_label_resolves(rest, start, i);
        assert(rest.take(i) =~= lines.take(i));
    }
}

} // verus!
