//! Lexical analysis: source text to per-line sequences of lexemes.
use vstd::prelude::*;
use vstd::std_specs::iter::IteratorSpec;

use crate::isa::Ins;

verus! {

broadcast use vstd::string::group_string_axioms;

/// Drops one trailing carriage return.
pub open spec fn strip_cr(line: Seq<char>) -> Seq<char> {
    if line.len() > 0 && line.last() == '\r' {
        line.drop_last()
    } else {
        line
    }
}

/// The lines of `s` that follow the partial line `cur`: lines end at `\n`
/// (a `\r` before it is dropped), and the last line ending is optional.
pub open spec fn split_from(s: Seq<char>, cur: Seq<char>) -> Seq<Seq<char>>
    decreases s.len(),
{
    if s.len() == 0 {
        if cur.len() == 0 {
            seq![]
        } else {
            seq![cur]
        }
    } else if s[0] == '\n' {
        seq![strip_cr(cur)] + split_from(s.drop_first(), seq![])
    } else {
        split_from(s.drop_first(), cur.push(s[0]))
    }
}

/// The lines of a text.
pub open spec fn lines_of(s: Seq<char>) -> Seq<Seq<char>> {
    split_from(s, seq![])
}

/// The character sequences held by a vector of lines.
pub open spec fn views_of(lines: Seq<Vec<char>>) -> Seq<Seq<char>> {
    lines.map_values(|l: Vec<char>| l@)
}

/// Splits a text into its lines, as characters.
pub fn split_lines(source: &str) -> (r: Vec<Vec<char>>)
    ensures
        views_of(r@) == lines_of(source@),
{
    let mut it = source.chars();
    let mut lines: Vec<Vec<char>> = Vec::new();
    let mut cur: Vec<char> = Vec::new();
    loop
        invariant
            views_of(lines@) + split_from(it.remaining(), cur@) == lines_of(source@),
            it.decrease() is Some,
        ensures
            views_of(lines@) + split_from(it.remaining(), cur@) == lines_of(source@),
            it.remaining().len() == 0,
        decreases it.decrease()->0,
    {
        let ghost rest = it.remaining();
        let ghost before = views_of(lines@);
        let ghost line = cur@;
        match it.next() {
            Some(c) => {
                if c == '\n' {
                    if cur.len() > 0 && cur[cur.len() - 1] == '\r' {
                        cur.pop();
                    }
                    assert(cur@ == strip_cr(line));
                    lines.push(cur);
                    assert(views_of(lines@) =~= before.push(strip_cr(line)));
                    assert(split_from(rest, line) == seq![strip_cr(line)] + split_from(
                        it.remaining(),
                        seq![],
                    ));
                    assert(views_of(lines@) + split_from(it.remaining(), seq![]) =~= before
                        + split_from(rest, line));
                    cur = Vec::new();
                    assert(cur@ =~= seq![]);
                } else {
                    cur.push(c);
                }
            },
            None => {
                assert(it.remaining().len() == 0);
                break ;
            },
        }
    }
    assert(split_from(it.remaining(), cur@) == (if cur@.len() == 0 {
        seq![]
    } else {
        seq![cur@]
    }));
    let ghost before = views_of(lines@);
    if cur.len() > 0 {
        let ghost line = cur@;
        lines.push(cur);
        assert(views_of(lines@) =~= before.push(line));
    } else {
        assert(before + seq![] =~= before);
    }
    lines
}

/// What a digit character is worth in the given radix (10, or 16 with
/// lower-case letters).
pub open spec fn digit_value(c: char, radix: nat) -> Option<nat> {
    let v = c as u32;
    if 48 <= v <= 57 {
        Some((v - 48) as nat)
    } else if radix == 16 && 97 <= v <= 102 {
        Some((v - 87) as nat)
    } else {
        None
    }
}

/// Every character is a digit in the radix.
pub open spec fn is_digits(d: Seq<char>, radix: nat) -> bool {
    forall|i: int| 0 <= i < d.len() ==> (#[trigger] digit_value(d[i], radix)) is Some
}

/// The value of a string of digits, most significant first.
pub open spec fn digits_value(d: Seq<char>, radix: nat) -> nat
    decreases d.len(),
{
    if d.len() == 0 {
        0
    } else {
        digits_value(d.drop_last(), radix) * radix + digit_value(d.last(), radix).unwrap_or(0)
    }
}

/// The magnitude that an unsigned literal denotes: `0x` and hexadecimal
/// digits, or decimal digits.
pub open spec fn magnitude(body: Seq<char>) -> Option<nat> {
    if body.len() > 2 && body[0] == '0' && body[1] == 'x' {
        if is_digits(body.skip(2), 16) {
            Some(digits_value(body.skip(2), 16))
        } else {
            None
        }
    } else if body.len() > 0 && is_digits(body, 10) {
        Some(digits_value(body, 10))
    } else {
        None
    }
}

/// The value of an integer literal with an optional leading minus sign,
/// where it fits a signed 32-bit integer.
pub open spec fn number_value(w: Seq<char>) -> Option<i32> {
    let neg = w.len() > 0 && w[0] == '-';
    let body = if neg {
        w.skip(1)
    } else {
        w
    };
    match magnitude(body) {
        Some(m) => {
            let v: int = if neg {
                -m
            } else {
                m as int
            };
            if i32::MIN <= v <= i32::MAX {
                Some(v as i32)
            } else {
                None
            }
        },
        None => None,
    }
}

proof fn lemma_digits_prefix(d: Seq<char>, radix: nat, k: int)
    requires
        radix >= 1,
        0 <= k <= d.len(),
    ensures
        digits_value(d.take(k), radix) <= digits_value(d, radix),
    decreases d.len(),
{
    if k == d.len() {
        assert(d.take(k) =~= d);
    } else {
        lemma_digits_prefix(d.drop_last(), radix, k);
        assert(d.drop_last().take(k) =~= d.take(k));
        let x = digits_value(d.drop_last(), radix);
        assert(x * radix >= x) by (nonlinear_arith)
            requires
                radix >= 1,
        ;
    }
}

fn digit(c: char, radix: u64) -> (r: Option<u64>)
    requires
        radix == 10 || radix == 16,
    ensures
        r is Some == digit_value(c, radix as nat) is Some,
        r is Some ==> r->0 == digit_value(c, radix as nat)->0,
{
    let v = c as u32;
    if 48 <= v && v <= 57 {
        Some((v - 48) as u64)
    } else if radix == 16 && 97 <= v && v <= 102 {
        Some((v - 87) as u64)
    } else {
        None
    }
}

/// The value of the digits of `w` from `from` on, where they are all digits
/// and their value is at most 2^31.
fn digits_from(w: &str, from: usize, radix: u64) -> (r: Option<u64>)
    requires
        from <= w@.len(),
        radix == 10 || radix == 16,
    ensures
        r is Some <==> is_digits(w@.skip(from as int), radix as nat) && digits_value(
            w@.skip(from as int),
            radix as nat,
        ) <= 0x8000_0000,
        r is Some ==> r->0 == digits_value(w@.skip(from as int), radix as nat),
{
    let n = w.unicode_len();
    let ghost d = w@.skip(from as int);
    let mut acc: u64 = 0;
    let mut i: usize = from;
    while i < n
        invariant
            n == w@.len(),
            from <= i <= n,
            d == w@.skip(from as int),
            radix == 10 || radix == 16,
            is_digits(d.take(i - from), radix as nat),
            acc == digits_value(d.take(i - from), radix as nat),
            acc <= 0x8000_0000,
        decreases n - i,
    {
        let c = w.get_char(i);
        assert(c == d[i - from]);
        match digit(c, radix) {
            Some(x) => {
                let ghost t = d.take(i - from + 1);
                assert(t.drop_last() =~= d.take(i - from));
                assert(t.last() == c);
                assert(acc * radix <= 0x8000_0000 * 16) by (nonlinear_arith)
                    requires
                        acc <= 0x8000_0000,
                        radix <= 16,
                ;
                acc = acc * radix + x;
                assert(is_digits(t, radix as nat)) by {
                    assert forall|j: int| 0 <= j < t.len() implies (#[trigger] digit_value(
                        t[j],
                        radix as nat,
                    )) is Some by {
                        if j < t.len() - 1 {
                            assert(t[j] == d.take(i - from)[j]);
                        }
                    }
                }
                if acc > 0x8000_0000 {
                    proof {
                        if is_digits(d, radix as nat) {
                            lemma_digits_prefix(d, radix as nat, i - from + 1);
                        }
                    }
                    return None;
                }
            },
            None => {
                assert(!is_digits(d, radix as nat));
                return None;
            },
        }
        i += 1;
    }
    assert(d.take(n - from) =~= d);
    Some(acc)
}

/// Parses an integer literal: an optional minus sign, then `0x` and
/// hexadecimal digits or decimal digits; `None` where the text is not such a
/// literal or its value does not fit a signed 32-bit integer.
pub fn parse_number(w: &str) -> (r: Option<i32>)
    ensures
        r == number_value(w@),
{
    let n = w.unicode_len();
    let neg = n > 0 && w.get_char(0) == '-';
    let start: usize = if neg {
        1
    } else {
        0
    };
    let ghost body = w@.skip(start as int);
    assert(!neg ==> body =~= w@);
    let is_hex = n > start + 2 && w.get_char(start) == '0' && w.get_char(start + 1) == 'x';
    let m = if is_hex {
        assert(body.skip(2) =~= w@.skip(start + 2));
        digits_from(w, start + 2, 16)
    } else if n > start {
        digits_from(w, start, 10)
    } else {
        None
    };
    match m {
        Some(v) => {
            if neg {
                Some((0 - (v as i64)) as i32)
            } else if v <= 0x7fff_ffff {
                Some(v as i32)
            } else {
                None
            }
        },
        None => None,
    }
}

/// The mnemonic that a word names.
pub open spec fn mnemonic_named(w: Seq<char>) -> Option<Ins> {
    if w == "add"@ {
        Some(Ins::Add)
    } else if w == "addu"@ {
        Some(Ins::Addu)
    } else if w == "sub"@ {
        Some(Ins::Sub)
    } else if w == "subu"@ {
        Some(Ins::Subu)
    } else if w == "nor"@ {
        Some(Ins::Nor)
    } else if w == "or"@ {
        Some(Ins::Or)
    } else if w == "and"@ {
        Some(Ins::And)
    } else if w == "slt"@ {
        Some(Ins::Slt)
    } else if w == "addi"@ {
        Some(Ins::Addi)
    } else if w == "addiu"@ {
        Some(Ins::Addiu)
    } else if w == "beq"@ {
        Some(Ins::Beq)
    } else if w == "bne"@ {
        Some(Ins::Bne)
    } else if w == "sw"@ {
        Some(Ins::Sw)
    } else if w == "lw"@ {
        Some(Ins::Lw)
    } else if w == "lui"@ {
        Some(Ins::Lui)
    } else if w == "break"@ {
        Some(Ins::Break)
    } else if w == "j"@ {
        Some(Ins::J)
    } else {
        None
    }
}

/// The conventional name of each of the 32 registers, without its `$`.
pub open spec fn register_name(i: u8) -> Seq<char> {
    match i {
        0 => "zero"@,
        1 => "at"@,
        2 => "v0"@,
        3 => "v1"@,
        4 => "a0"@,
        5 => "a1"@,
        6 => "a2"@,
        7 => "a3"@,
        8 => "t0"@,
        9 => "t1"@,
        10 => "t2"@,
        11 => "t3"@,
        12 => "t4"@,
        13 => "t5"@,
        14 => "t6"@,
        15 => "t7"@,
        16 => "s0"@,
        17 => "s1"@,
        18 => "s2"@,
        19 => "s3"@,
        20 => "s4"@,
        21 => "s5"@,
        22 => "s6"@,
        23 => "s7"@,
        24 => "t8"@,
        25 => "t9"@,
        26 => "k0"@,
        27 => "k1"@,
        28 => "gp"@,
        29 => "sp"@,
        30 => "fp"@,
        31 => "ra"@,
        _ => seq![],
    }
}

/// A word names register `i`, with or without the `$` sigil.
pub open spec fn names_register(w: Seq<char>, i: u8) -> bool {
    w == register_name(i) || (w.len() > 0 && w[0] == '$' && w.skip(1) == register_name(i))
}

/// The first register from `i` on that a word names.
pub open spec fn register_from(w: Seq<char>, i: nat) -> Option<u8>
    decreases 32 - i,
{
    if i >= 32 {
        None
    } else if names_register(w, i as u8) {
        Some(i as u8)
    } else {
        register_from(w, i + 1)
    }
}

/// The register that a word names.
pub open spec fn register_named(w: Seq<char>) -> Option<u8> {
    register_from(w, 0)
}

/// Whether the characters of `w` from `offset` on are those of `lit`.
fn same_chars(w: &str, offset: usize, lit: &str) -> (r: bool)
    requires
        offset <= w@.len(),
    ensures
        r == (w@.skip(offset as int) == lit@),
{
    let n = w.unicode_len();
    let m = lit.unicode_len();
    if n - offset != m {
        assert(w@.skip(offset as int).len() != lit@.len());
        return false;
    }
    let mut i: usize = 0;
    while i < m
        invariant
            n == w@.len(),
            m == lit@.len(),
            offset + m == n,
            i <= m,
            forall|j: int| 0 <= j < i ==> w@[offset + j] == lit@[j],
        decreases m - i,
    {
        if w.get_char(offset + i) != lit.get_char(i) {
            assert(w@.skip(offset as int)[i as int] != lit@[i as int]);
            return false;
        }
        i += 1;
    }
    assert(w@.skip(offset as int) =~= lit@);
    true
}

/// Looks a word up among the mnemonics.
pub fn mnemonic_of(w: &str) -> (r: Option<Ins>)
    ensures
        r == mnemonic_named(w@),
{
    assert(w@.skip(0) =~= w@);
    if same_chars(w, 0, "add") {
        return Some(Ins::Add);
    }
    if same_chars(w, 0, "addu") {
        return Some(Ins::Addu);
    }
    if same_chars(w, 0, "sub") {
        return Some(Ins::Sub);
    }
    if same_chars(w, 0, "subu") {
        return Some(Ins::Subu);
    }
    if same_chars(w, 0, "nor") {
        return Some(Ins::Nor);
    }
    if same_chars(w, 0, "or") {
        return Some(Ins::Or);
    }
    if same_chars(w, 0, "and") {
        return Some(Ins::And);
    }
    if same_chars(w, 0, "slt") {
        return Some(Ins::Slt);
    }
    if same_chars(w, 0, "addi") {
        return Some(Ins::Addi);
    }
    if same_chars(w, 0, "addiu") {
        return Some(Ins::Addiu);
    }
    if same_chars(w, 0, "beq") {
        return Some(Ins::Beq);
    }
    if same_chars(w, 0, "bne") {
        return Some(Ins::Bne);
    }
    if same_chars(w, 0, "sw") {
        return Some(Ins::Sw);
    }
    if same_chars(w, 0, "lw") {
        return Some(Ins::Lw);
    }
    if same_chars(w, 0, "lui") {
        return Some(Ins::Lui);
    }
    if same_chars(w, 0, "break") {
        return Some(Ins::Break);
    }
    if same_chars(w, 0, "j") {
        return Some(Ins::J);
    }
    None
}

/// The name of register `i`, without its `$`.
fn name_of_register(i: u8) -> (r: &'static str)
    requires
        i < 32,
    ensures
        r@ == register_name(i),
{
    match i {
        0 => "zero",
        1 => "at",
        2 => "v0",
        3 => "v1",
        4 => "a0",
        5 => "a1",
        6 => "a2",
        7 => "a3",
        8 => "t0",
        9 => "t1",
        10 => "t2",
        11 => "t3",
        12 => "t4",
        13 => "t5",
        14 => "t6",
        15 => "t7",
        16 => "s0",
        17 => "s1",
        18 => "s2",
        19 => "s3",
        20 => "s4",
        21 => "s5",
        22 => "s6",
        23 => "s7",
        24 => "t8",
        25 => "t9",
        26 => "k0",
        27 => "k1",
        28 => "gp",
        29 => "sp",
        30 => "fp",
        31 => "ra",
        _ => "ra",
    }
}

/// Looks a word up among the register names, with or without `$`.
pub fn register_of(w: &str) -> (r: Option<u8>)
    ensures
        r == register_named(w@),
{
    let n = w.unicode_len();
    let sigil = n > 0 && w.get_char(0) == '$';
    let mut i: u8 = 0;
    while i < 32
        invariant
            i <= 32,
            n == w@.len(),
            sigil == (n > 0 && w@[0] == '$'),
            register_from(w@, i as nat) == register_named(w@),
        decreases 32 - i,
    {
        let name = name_of_register(i);
        if same_chars(w, 0, name) || (sigil && same_chars(w, 1, name)) {
            assert(w@.skip(0) =~= w@);
            return Some(i);
        }
        assert(w@.skip(0) =~= w@);
        i += 1;
    }
    None
}

/// One classified token of a source line.
#[derive(Debug)]
pub enum Lexeme {
    Comma,
    Mnemonic(Ins),
    Register(u8),
    Label(String),
    Number(i32),
    OpenParen,
    CloseParen,
    Colon,
}

/// A lexeme with its label as characters.
pub enum LexemeView {
    Comma,
    Mnemonic(Ins),
    Register(u8),
    Label(Seq<char>),
    Number(i32),
    OpenParen,
    CloseParen,
    Colon,
}

impl View for Lexeme {
    type V = LexemeView;

    open spec fn view(&self) -> LexemeView {
        match self {
            Lexeme::Comma => LexemeView::Comma,
            Lexeme::Mnemonic(ins) => LexemeView::Mnemonic(*ins),
            Lexeme::Register(r) => LexemeView::Register(*r),
            Lexeme::Label(s) => LexemeView::Label(s@),
            Lexeme::Number(n) => LexemeView::Number(*n),
            Lexeme::OpenParen => LexemeView::OpenParen,
            Lexeme::CloseParen => LexemeView::CloseParen,
            Lexeme::Colon => LexemeView::Colon,
        }
    }
}

/// The views of a sequence of lexemes.
pub open spec fn lexemes_view(v: Seq<Lexeme>) -> Seq<LexemeView> {
    v.map_values(|l: Lexeme| l@)
}

/// The lexeme that a matched word stands for: a number where it is an
/// integer literal, then punctuation, a mnemonic, a register name, and
/// otherwise a label.
pub open spec fn classify(w: Seq<char>) -> LexemeView {
    if let Some(n) = number_value(w) {
        LexemeView::Number(n)
    } else if w == ","@ {
        LexemeView::Comma
    } else if w == "("@ {
        LexemeView::OpenParen
    } else if w == ")"@ {
        LexemeView::CloseParen
    } else if w == ":"@ {
        LexemeView::Colon
    } else if let Some(ins) = mnemonic_named(w) {
        LexemeView::Mnemonic(ins)
    } else if let Some(r) = register_named(w) {
        LexemeView::Register(r)
    } else {
        LexemeView::Label(w)
    }
}

/// Classifies one matched word.
pub fn lex_word(word: &String) -> (r: Lexeme)
    ensures
        r@ == classify(word@),
{
    let w = word.as_str();
    assert(w@.skip(0) =~= w@);
    if let Some(n) = parse_number(w) {
        Lexeme::Number(n)
    } else if same_chars(w, 0, ",") {
        Lexeme::Comma
    } else if same_chars(w, 0, "(") {
        Lexeme::OpenParen
    } else if same_chars(w, 0, ")") {
        Lexeme::CloseParen
    } else if same_chars(w, 0, ":") {
        Lexeme::Colon
    } else if let Some(ins) = mnemonic_of(w) {
        Lexeme::Mnemonic(ins)
    } else if let Some(r) = register_of(w) {
        Lexeme::Register(r)
    } else {
        Lexeme::Label(word.clone())
    }
}

/// The texts of a sequence of strings.
pub open spec fn texts(v: Seq<String>) -> Seq<Seq<char>> {
    v.map_values(|s: String| s@)
}

/// Classifies each matched word of a line, in order.
pub fn lex_words(words: &Vec<String>) -> (r: Vec<Lexeme>)
    ensures
        lexemes_view(r@) == texts(words@).map_values(|w: Seq<char>| classify(w)),
{
    let mut out: Vec<Lexeme> = Vec::new();
    let mut i: usize = 0;
    while i < words.len()
        invariant
            i <= words@.len(),
            out@.len() == i,
            forall|j: int| 0 <= j < i ==> (#[trigger] out@[j])@ == classify(words@[j]@),
        decreases words@.len() - i,
    {
        out.push(lex_word(&words[i]));
        i += 1;
    }
    assert(lexemes_view(out@) =~= texts(words@).map_values(|w: Seq<char>| classify(w)));
    out
}

/// The non-overlapping leftmost-first matches of a regular expression in a
/// text, in order, or `None` where the pattern does not compile.
pub uninterp spec fn regex_find_all(pattern: Seq<char>, text: Seq<char>) -> Option<
    Seq<Seq<char>>,
>;

/// The texts of the words that a search handed back.
pub open spec fn found_texts(r: Option<Vec<String>>) -> Option<Seq<Seq<char>>> {
    match r {
        Some(v) => Some(texts(v@)),
        None => None,
    }
}

/// Relies on regex::Regex::new to compile `pattern` (an `Err` where it does
/// not compile) and on Regex::find_iter for the successive non-overlapping
/// matches in `text`; both depend on their arguments alone.
#[verifier::external_body]
fn find_all(pattern: &str, text: &Vec<char>) -> (r: Option<Vec<String>>)
    ensures
        found_texts(r) == regex_find_all(pattern@, text@),
{
    let hay: String = text.iter().collect();
    match regex::Regex::new(pattern) {
        Ok(re) => Some(re.find_iter(&hay).map(|m| m.as_str().to_string()).collect()),
        Err(_) => None,
    }
}

/// The token grammar: an optional minus sign and a run of lower-case letters,
/// digits and `$`, or one of the punctuation characters `,` `(` `)` `:`.
pub const TOKEN_PATTERN: &'static str = "(-?[$a-z0-9]+)|,|\\(|\\)|:";

/// The lexemes of one line, in textual order.
pub open spec fn line_lexemes(line: Seq<char>) -> Seq<LexemeView> {
    match regex_find_all(TOKEN_PATTERN@, line) {
        Some(words) => words.map_values(|w: Seq<char>| classify(w)),
        None => seq![],
    }
}

/// Lexes one line.
pub fn lex_line(line: &Vec<char>) -> (r: Vec<Lexeme>)
    ensures
        lexemes_view(r@) == line_lexemes(line@),
{
    match find_all(TOKEN_PATTERN, line) {
        Some(words) => lex_words(&words),
        None => Vec::new(),
    }
}

/// A source line that holds at least one lexeme, with its 1-based number.
#[derive(Debug)]
pub struct SourceLine {
    pub number: usize,
    pub lexemes: Vec<Lexeme>,
}

/// A source line as a line number and the views of its lexemes.
pub struct LineView {
    pub number: nat,
    pub lexemes: Seq<LexemeView>,
}

impl View for SourceLine {
    type V = LineView;

    open spec fn view(&self) -> LineView {
        LineView { number: self.number as nat, lexemes: lexemes_view(self.lexemes@) }
    }
}

/// The views of a sequence of source lines.
pub open spec fn lines_view(v: Seq<SourceLine>) -> Seq<LineView> {
    v.map_values(|l: SourceLine| l@)
}

/// The lexed lines of `lines`, numbered from `number`, where lines without
/// lexemes are left out.
pub open spec fn lex_from(lines: Seq<Seq<char>>, number: nat) -> Seq<LineView>
    decreases lines.len(),
{
    if lines.len() == 0 {
        seq![]
    } else {
        let l = line_lexemes(lines[0]);
        let rest = lex_from(lines.drop_first(), number + 1);
        if l.len() == 0 {
            rest
        } else {
            seq![LineView { number, lexemes: l }] + rest
        }
    }
}

/// The lexed lines of a source text.
pub open spec fn lex_source(source: Seq<char>) -> Seq<LineView> {
    lex_from(lines_of(source), 1)
}

/// Lexes a whole source text, line by line, dropping the lines that hold no
/// lexeme.
pub fn lexer(source: &str) -> (r: Vec<SourceLine>)
    ensures
        lines_view(r@) == lex_source(source@),
{
    let lines = split_lines(source);
    let ghost all = views_of(lines@);
    let mut out: Vec<SourceLine> = Vec::new();
    let mut i: usize = 0;
    assert(all.skip(0) =~= all);
    assert(lines_view(out@) + lex_source(source@) =~= lex_source(source@));
    while i < lines.len()
        invariant
            i <= lines@.len(),
            all == views_of(lines@),
            all == lines_of(source@),
            lines_view(out@) + lex_from(all.skip(i as int), (i + 1) as nat) == lex_source(source@),
        decreases lines@.len() - i,
    {
        let lexemes = lex_line(&lines[i]);
        let ghost before = lines_view(out@);
        assert(all.skip(i as int).drop_first() =~= all.skip(i + 1));
        assert(all.skip(i as int)[0] == lines@[i as int]@);
        if lexemes.len() > 0 {
            out.push(SourceLine { number: i + 1, lexemes });
            assert(lines_view(out@) =~= before.push(out@[out@.len() - 1]@));
            assert(lines_view(out@) + lex_from(all.skip(i + 1), (i + 2) as nat) =~= before
                + lex_from(all.skip(i as int), (i + 1) as nat));
        }
        i += 1;
    }
    assert(all.skip(i as int) =~= seq![]);
    assert(lines_view(out@) + seq![] =~= lines_view(out@));
    out
}

/// The elements of a vector in reverse order.
pub fn reverse<T>(input: Vec<T>) -> (r: Vec<T>)
    ensures
        r@ == input@.reverse(),
{
    let mut input = input;
    let ghost orig = input@;
    let mut reversed: Vec<T> = Vec::new();
    while input.len() > 0
        invariant
            orig.len() == input@.len() + reversed@.len(),
            input@ == orig.take(input@.len() as int),
            reversed@ =~= orig.skip(input@.len() as int).reverse(),
        decreases input@.len(),
    {
        let ghost n = input@.len() as int;
        let v = input.pop().unwrap();
        reversed.push(v);
        assert(input@ =~= orig.take(n - 1));
        assert(reversed@ =~= orig.skip(n - 1).reverse());
    }
    assert(orig.skip(0) =~= orig);
    reversed
}

} // verus!
