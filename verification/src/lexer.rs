//! From source text to token lines and the label table.
//!
//! The text is trimmed and cut into lines, each line is trimmed and cut at
//! its spaces into symbols, and each symbol is told by its first character.
//! A line that holds no token is no instruction and has no address.

use crate::label::LabelTable;
use crate::text::{chars_of, split, split_ranges, string_of, trim, trim_bounds};
use crate::token::{lines_view, tokens_view, Token, TokenType, TokenView};
use vstd::prelude::*;

verus! {

/// The lines of a source text: the trimmed text cut at its line feeds, each
/// line trimmed.
pub open spec fn source_lines(text: Seq<char>) -> Seq<Seq<char>> {
    split(trim(text), '\n').map_values(|line: Seq<char>| trim(line))
}

/// The symbols of a line: the line cut at every single space, each piece
/// trimmed. Between two spaces that follow each other stands an empty symbol.
pub open spec fn symbols(line: Seq<char>) -> Seq<Seq<char>> {
    split(line, ' ').map_values(|piece: Seq<char>| trim(piece))
}

/// The kind of token that a leading character announces, if it is a sigil.
pub open spec fn sigil_kind(c: char) -> Option<TokenType> {
    if c == 'r' {
        Some(TokenType::Reg)
    } else if c == '#' {
        Some(TokenType::Imm)
    } else if c == '$' {
        Some(TokenType::Dir)
    } else if c == '\'' {
        Some(TokenType::Label)
    } else {
        None
    }
}

/// The symbol starts a comment, which runs to the end of the line.
pub open spec fn starts_comment(symbol: Seq<char>) -> bool {
    symbol.len() > 0 && symbol[0] == ';'
}

/// The symbol declares a label: it starts with no sigil and ends in a colon.
pub open spec fn declares_label(symbol: Seq<char>) -> bool {
    &&& symbol.len() > 0
    &&& symbol[0] != ';'
    &&& sigil_kind(symbol[0]) is None
    &&& symbol.last() == ':'
}

/// The token that a symbol stands for: with a sigil, the kind that the sigil
/// announces and the text after it; without one, a mnemonic.
pub open spec fn token_of(symbol: Seq<char>, line_num: u32) -> TokenView
    recommends
        symbol.len() > 0,
{
    match sigil_kind(symbol[0]) {
        Some(kind) => TokenView {
            token: kind,
            content: symbol.drop_first(),
            line_num,
            chars: (0, 0),
        },
        None => TokenView { token: TokenType::Opcode, content: symbol, line_num, chars: (0, 0) },
    }
}

/// What one line holds: its tokens, the labels that it declares, and
/// whether a comment has begun.
pub struct LineScan {
    pub tokens: Seq<TokenView>,
    pub labels: Seq<Seq<char>>,
    pub commented: bool,
}

/// Reads the symbols of a line from left to right. Empty symbols and all
/// that follows the start of a comment are passed over, a label declaration
/// gives its name without the colon, and every other symbol gives a token.
pub open spec fn scan(symbols: Seq<Seq<char>>, line_num: u32) -> LineScan
    decreases symbols.len(),
{
    if symbols.len() == 0 {
        LineScan { tokens: Seq::empty(), labels: Seq::empty(), commented: false }
    } else {
        let before = scan(symbols.drop_last(), line_num);
        let symbol = symbols.last();
        if before.commented || symbol.len() == 0 {
            before
        } else if starts_comment(symbol) {
            LineScan { commented: true, ..before }
        } else if declares_label(symbol) {
            LineScan { labels: before.labels.push(symbol.drop_last()), ..before }
        } else {
            LineScan { tokens: before.tokens.push(token_of(symbol, line_num)), ..before }
        }
    }
}

/// The label table after the given names were declared, in order, at the
/// address `addr`. A later declaration of a name replaces an earlier one.
pub open spec fn declare(labels: Map<Seq<char>, u16>, names: Seq<Seq<char>>, addr: u16) -> Map<
    Seq<char>,
    u16,
>
    decreases names.len(),
{
    if names.len() == 0 {
        labels
    } else {
        declare(labels, names.drop_last(), addr).insert(names.last(), addr)
    }
}

/// What lexing gives: the token lines, which are the instructions in
/// order, and the label table.
pub struct Lexed {
    pub lines: Seq<Seq<TokenView>>,
    pub labels: Map<Seq<char>, u16>,
}

/// Lexes source lines in order. A line's labels get the number of token
/// lines before it as their address, which is the address of the line itself
/// if it holds a token and of the next such line if not. Line numbers and
/// addresses are kept in 32 and 16 bits.
pub open spec fn lex_lines(src: Seq<Seq<char>>) -> Lexed
    decreases src.len(),
{
    if src.len() == 0 {
        Lexed { lines: Seq::empty(), labels: Map::empty() }
    } else {
        let before = lex_lines(src.drop_last());
        let found = scan(symbols(src.last()), (src.len() - 1) as u32);
        Lexed {
            lines: if found.tokens.len() > 0 {
                before.lines.push(found.tokens)
            } else {
                before.lines
            },
            labels: declare(before.labels, found.labels, before.lines.len() as u16),
        }
    }
}

/// The token lines and the label table of a source text.
pub open spec fn lex_spec(text: Seq<char>) -> Lexed {
    lex_lines(source_lines(text))
}

/// The names that strings spell.
pub open spec fn names_view(names: Seq<String>) -> Seq<Seq<char>> {
    names.map_values(|name: String| name@)
}

/// Once a comment has begun, the rest of the line changes nothing.
proof fn lemma_comment_ends_scan(symbols: Seq<Seq<char>>, line_num: u32, n: int)
    requires
        0 <= n <= symbols.len(),
        scan(symbols.take(n), line_num).commented,
    ensures
        scan(symbols, line_num) == scan(symbols.take(n), line_num),
    decreases symbols.len() - n,
{
    if n < symbols.len() {
        assert(symbols.take(n + 1).drop_last() =~= symbols.take(n));
        lemma_comment_ends_scan(symbols, line_num, n + 1);
    } else {
        assert(symbols.take(n) =~= symbols);
    }
}

/// Reads the tokens and the declared labels of the line `chars[lo..hi]`.
fn scan_line(chars: &Vec<char>, lo: usize, hi: usize, line_num: u32) -> (found: (
    Vec<Token>,
    Vec<String>,
))
    requires
        lo <= hi <= chars.len(),
    ensures
        tokens_view(found.0@) == scan(
            symbols(chars@.subrange(lo as int, hi as int)),
            line_num,
        ).tokens,
        names_view(found.1@) == scan(
            symbols(chars@.subrange(lo as int, hi as int)),
            line_num,
        ).labels,
{
    let ghost syms = symbols(chars@.subrange(lo as int, hi as int));
    let ranges = split_ranges(chars, lo, hi, ' ');
    let mut tokens: Vec<Token> = Vec::new();
    let mut names: Vec<String> = Vec::new();
    let mut commented = false;
    let mut k: usize = 0;
    assert(syms.take(0) =~= Seq::<Seq<char>>::empty());
    assert(tokens_view(tokens@) =~= Seq::<TokenView>::empty());
    assert(names_view(names@) =~= Seq::<Seq<char>>::empty());
    while k < ranges.len() && !commented
        invariant
            0 <= k <= ranges.len() == syms.len(),
            lo <= hi <= chars.len(),
            syms == symbols(chars@.subrange(lo as int, hi as int)),
            forall|j: int|
                0 <= j < ranges@.len() ==> {
                    &&& lo <= (#[trigger] ranges@[j]).0 <= ranges@[j].1 <= hi
                    &&& chars@.subrange(ranges@[j].0 as int, ranges@[j].1 as int) == split(
                        chars@.subrange(lo as int, hi as int),
                        ' ',
                    )[j]
                },
            tokens_view(tokens@) == scan(syms.take(k as int), line_num).tokens,
            names_view(names@) == scan(syms.take(k as int), line_num).labels,
            commented == scan(syms.take(k as int), line_num).commented,
        decreases ranges.len() - k,
    {
        let piece = ranges[k];
        let (a, b) = trim_bounds(chars, piece.0, piece.1);
        let ghost symbol = chars@.subrange(a as int, b as int);
        assert(symbol == syms[k as int]);
        assert(syms.take(k + 1).drop_last() =~= syms.take(k as int));
        assert(syms.take(k + 1).last() == symbol);
        if a < b {
            let first = chars[a];
            assert(symbol[0] == first);
            assert(symbol.last() == chars@[b - 1]);
            if first == ';' {
                commented = true;
            } else if first == 'r' || first == '#' || first == '$' || first == '\'' {
                let kind = if first == 'r' {
                    TokenType::Reg
                } else if first == '#' {
                    TokenType::Imm
                } else if first == '$' {
                    TokenType::Dir
                } else {
                    TokenType::Label
                };
                let content = string_of(chars, a + 1, b);
                assert(symbol.drop_first() =~= chars@.subrange(a + 1, b as int));
                let token = Token::new(kind, content, line_num, (0, 0));
                assert(token@ == token_of(symbol, line_num));
                tokens.push(token);
                assert(tokens_view(tokens@) =~= scan(syms.take(k as int), line_num).tokens.push(
                    token@,
                ));
            } else if chars[b - 1] == ':' {
                let name = string_of(chars, a, b - 1);
                assert(symbol.drop_last() =~= chars@.subrange(a as int, b - 1));
                names.push(name);
                assert(names_view(names@) =~= scan(syms.take(k as int), line_num).labels.push(
                    symbol.drop_last(),
                ));
            } else {
                let content = string_of(chars, a, b);
                let token = Token::new(TokenType::Opcode, content, line_num, (0, 0));
                assert(token@ == token_of(symbol, line_num));
                tokens.push(token);
                assert(tokens_view(tokens@) =~= scan(syms.take(k as int), line_num).tokens.push(
                    token@,
                ));
            }
        }
        k += 1;
    }
    proof {
        if commented {
            lemma_comment_ends_scan(syms, line_num, k as int);
        } else {
            assert(syms.take(k as int) =~= syms);
        }
    }
    (tokens, names)
}

/// Declares each of the names at the address `addr`.
fn declare_all(labels: &mut LabelTable, names: &Vec<String>, addr: u16)
    ensures
        final(labels)@ == declare(old(labels)@, names_view(names@), addr),
{
    let ghost all = names_view(names@);
    let mut j: usize = 0;
    assert(all.take(0) =~= Seq::<Seq<char>>::empty());
    while j < names.len()
        invariant
            0 <= j <= names.len(),
            all == names_view(names@),
            labels@ == declare(old(labels)@, all.take(j as int), addr),
        decreases names.len() - j,
    {
        assert(all.take(j + 1).drop_last() =~= all.take(j as int));
        assert(all.take(j + 1).last() == names@[j as int]@);
        labels.insert(names[j].clone(), addr);
        j += 1;
    }
    assert(all.take(j as int) =~= all);
}

/// Lexes a source text into its token lines, none of them empty, and its
/// label table.
pub fn lex(input: &str) -> (out: (Vec<Vec<Token>>, LabelTable))
    ensures
        lines_view(out.0@) == lex_spec(input@).lines,
        out.1@ == lex_spec(input@).labels,
        forall|i: int| 0 <= i < out.0@.len() ==> (#[trigger] out.0@[i])@.len() > 0,
{
    let chars = chars_of(input);
    assert(chars@.subrange(0, chars@.len() as int) =~= input@);
    let (lo, hi) = trim_bounds(&chars, 0, chars.len());
    let ranges = split_ranges(&chars, lo, hi, '\n');
    let ghost src = source_lines(input@);
    let mut tokens: Vec<Vec<Token>> = Vec::new();
    let mut labels = LabelTable::new();
    let mut k: usize = 0;
    assert(src.take(0) =~= Seq::<Seq<char>>::empty());
    assert(lines_view(tokens@) =~= Seq::<Seq<TokenView>>::empty());
    while k < ranges.len()
        invariant
            0 <= k <= ranges.len() == src.len(),
            lo <= hi <= chars.len(),
            src == source_lines(input@),
            forall|j: int|
                0 <= j < ranges@.len() ==> {
                    &&& lo <= (#[trigger] ranges@[j]).0 <= ranges@[j].1 <= hi
                    &&& chars@.subrange(ranges@[j].0 as int, ranges@[j].1 as int) == split(
                        trim(input@),
                        '\n',
                    )[j]
                },
            lines_view(tokens@) == lex_lines(src.take(k as int)).lines,
            labels@ == lex_lines(src.take(k as int)).labels,
            forall|i: int| 0 <= i < tokens@.len() ==> (#[trigger] tokens@[i])@.len() > 0,
        decreases ranges.len() - k,
    {
        let piece = ranges[k];
        let (a, b) = trim_bounds(&chars, piece.0, piece.1);
        assert(chars@.subrange(a as int, b as int) == src[k as int]);
        assert(src.take(k + 1).drop_last() =~= src.take(k as int));
        assert(src.take(k + 1).last() == src[k as int]);
        let line_num: u32 = #[verifier::truncate] (k as u32);
        let addr: u16 = #[verifier::truncate] (tokens.len() as u16);
        assert(lines_view(tokens@).len() == tokens@.len());
        let (line, names) = scan_line(&chars, a, b, line_num);
        assert(tokens_view(line@).len() == line@.len());
        declare_all(&mut labels, &names, addr);
        if line.len() > 0 {
            let ghost before = lines_view(tokens@);
            let ghost pushed = tokens_view(line@);
            tokens.push(line);
            assert(lines_view(tokens@) =~= before.push(pushed));
        }
        k += 1;
    }
    assert(src.take(k as int) =~= src);
    (tokens, labels)
}

/// Every line that the lexer gives holds a token.
pub proof fn lemma_lexed_lines_hold_tokens(src: Seq<Seq<char>>)
    ensures
        forall|i: int|
            0 <= i < lex_lines(src).lines.len() ==> (#[trigger] lex_lines(src).lines[i]).len() > 0,
    decreases src.len(),
{
    if src.len() > 0 {
        lemma_lexed_lines_hold_tokens(src.drop_last());
        let before = lex_lines(src.drop_last());
        assert forall|i: int| 0 <= i < lex_lines(src).lines.len() implies (#[trigger] lex_lines(
            src,
        ).lines[i]).len() > 0 by {
            if i < before.lines.len() {
                assert(lex_lines(src).lines[i] == before.lines[i]);
            }
        }
    }
}

/// There are at most as many token lines as source lines.
pub proof fn lemma_lexed_lines_are_source_lines(src: Seq<Seq<char>>)
    ensures
        lex_lines(src).lines.len() <= src.len(),
    decreases src.len(),
{
    if src.len() > 0 {
        lemma_lexed_lines_are_source_lines(src.drop_last());
    }
}

/// A line that is blank, or that starts with a comment, is no instruction
/// and declares nothing: the token lines and the label table are what they
/// were before it, so the addresses that follow do not move.
pub proof fn lemma_blank_or_comment_line_changes_nothing(src: Seq<Seq<char>>, line: Seq<char>)
    requires
        line.len() == 0 || starts_comment(symbols(line)[0]),
    ensures
        lex_lines(src.push(line)).lines == lex_lines(src).lines,
        lex_lines(src.push(line)).labels == lex_lines(src).labels,
{
    let syms = symbols(line);
    let line_num = (src.push(line).len() - 1) as u32;
    crate::text::lemma_split_nonempty(line, ' ');
    assert(syms.take(1).drop_last() =~= Seq::<Seq<char>>::empty());
    assert(syms.take(1).last() == syms[0]);
    let nothing = scan(Seq::<Seq<char>>::empty(), line_num);
    assert(nothing.tokens.len() == 0 && nothing.labels.len() == 0 && !nothing.commented);
    let first = scan(syms.take(1), line_num);
    if line.len() == 0 {
        assert(split(line, ' ') =~= seq![Seq::<char>::empty()]);
        assert(trim(Seq::<char>::empty()) =~= Seq::<char>::empty());
        assert(syms[0].len() == 0);
        assert(syms.take(1) =~= syms);
        assert(first == nothing);
    } else {
        assert(first.commented);
        assert(first.tokens == nothing.tokens && first.labels == nothing.labels);
        lemma_comment_ends_scan(syms, line_num, 1);
    }
    assert(src.push(line).drop_last() =~= src);
    assert(src.push(line).last() == line);
}

/// Every token of a line carries the number of the line and no columns.
pub proof fn lemma_tokens_carry_the_line_number(symbols: Seq<Seq<char>>, line_num: u32)
    ensures
        forall|i: int|
            0 <= i < scan(symbols, line_num).tokens.len() ==> {
                &&& (#[trigger] scan(symbols, line_num).tokens[i]).line_num == line_num
                &&& scan(symbols, line_num).tokens[i].chars == (0u32, 0u32)
            },
    decreases symbols.len(),
{
    if symbols.len() > 0 {
        lemma_tokens_carry_the_line_number(symbols.drop_last(), line_num);
        let before = scan(symbols.drop_last(), line_num);
        assert forall|i: int| 0 <= i < scan(symbols, line_num).tokens.len() implies {
            &&& (#[trigger] scan(symbols, line_num).tokens[i]).line_num == line_num
            &&& scan(symbols, line_num).tokens[i].chars == (0u32, 0u32)
        } by {
            if i < before.tokens.len() {
                assert(scan(symbols, line_num).tokens[i] == before.tokens[i]);
            }
        }
    }
}

/// Declaring names gives each of them the address and leaves every other
/// label as it was.
pub proof fn lemma_declare(
    labels: Map<Seq<char>, u16>,
    names: Seq<Seq<char>>,
    addr: u16,
    name: Seq<char>,
)
    ensures
        names.contains(name) ==> declare(labels, names, addr).contains_key(name) && declare(
            labels,
            names,
            addr,
        )[name] == addr,
        !names.contains(name) ==> (declare(labels, names, addr).contains_key(name)
            <==> labels.contains_key(name)),
        !names.contains(name) && labels.contains_key(name) ==> declare(labels, names, addr)[name]
            == labels[name],
    decreases names.len(),
{
    if names.len() > 0 {
        lemma_declare(labels, names.drop_last(), addr, name);
        if names.last() != name {
            if names.contains(name) {
                let i = choose|i: int| 0 <= i < names.len() && names[i] == name;
                assert(names.drop_last()[i] == name);
            } else {
                assert forall|i: int| 0 <= i < names.drop_last().len() implies names.drop_last()[i]
                    != name by {
                    assert(names[i] == names.drop_last()[i]);
                }
            }
        }
    }
}

/// A label that a line declares stands for the number of token lines
/// before that line: the address of the line itself if it holds a token, and
/// of the next line that holds one if not. Labels that the line does not
/// declare keep their address.
pub proof fn lemma_label_names_the_next_instruction(
    src: Seq<Seq<char>>,
    line: Seq<char>,
    name: Seq<char>,
)
    ensures
        ({
            let before = lex_lines(src);
            let after = lex_lines(src.push(line));
            let found = scan(symbols(line), src.len() as u32);
            &&& found.labels.contains(name) ==> after.labels.contains_key(name)
                && after.labels[name] == before.lines.len() as u16
            &&& !found.labels.contains(name) && before.labels.contains_key(name)
                ==> after.labels.contains_key(name) && after.labels[name] == before.labels[name]
            &&& after.lines == if found.tokens.len() > 0 {
                before.lines.push(found.tokens)
            } else {
                before.lines
            }
        }),
{
    assert(src.push(line).drop_last() =~= src);
    assert(src.push(line).last() == line);
    let found = scan(symbols(line), (src.push(line).len() - 1) as u32);
    lemma_declare(lex_lines(src).labels, found.labels, lex_lines(src).lines.len() as u16, name);
}

/// The source line with the number `line_num`, as tokens carry it, if the
/// text has such a line.
pub fn source_line(input: &str, line_num: u32) -> (line: Option<String>)
    ensures
        match line {
            Some(text) => line_num < source_lines(input@).len() && text@ == source_lines(
                input@,
            )[line_num as int],
            None => line_num >= source_lines(input@).len(),
        },
{
    let chars = chars_of(input);
    assert(chars@.subrange(0, chars@.len() as int) =~= input@);
    let (lo, hi) = trim_bounds(&chars, 0, chars.len());
    let ranges = split_ranges(&chars, lo, hi, '\n');
    let at = line_num as usize;
    if at < ranges.len() {
        let piece = ranges[at];
        let (a, b) = trim_bounds(&chars, piece.0, piece.1);
        Some(string_of(&chars, a, b))
    } else {
        None
    }
}

} // verus!
