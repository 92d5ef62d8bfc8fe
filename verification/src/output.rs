//! The two texts that hold an assembled program: a plain dump of its words
//! in hexadecimal, and a memory initialisation file.

use crate::inst::Inst;
use crate::text::push_char;
use vstd::prelude::*;
use vstd::string::StringExecFns;

verus! {

/// The hexadecimal digit of a number below 16, in lower case.
pub open spec fn hex_digit(d: nat) -> char {
    if d == 0 {
        '0'
    } else if d == 1 {
        '1'
    } else if d == 2 {
        '2'
    } else if d == 3 {
        '3'
    } else if d == 4 {
        '4'
    } else if d == 5 {
        '5'
    } else if d == 6 {
        '6'
    } else if d == 7 {
        '7'
    } else if d == 8 {
        '8'
    } else if d == 9 {
        '9'
    } else if d == 10 {
        'a'
    } else if d == 11 {
        'b'
    } else if d == 12 {
        'c'
    } else if d == 13 {
        'd'
    } else if d == 14 {
        'e'
    } else {
        'f'
    }
}

/// A number in hexadecimal, with zeros before it where it has fewer than
/// `width` digits.
pub open spec fn hex(n: nat, width: nat) -> Seq<char>
    decreases n, width,
{
    if n < 16 && width <= 1 {
        seq![hex_digit(n)]
    } else {
        let rest: nat = if width > 0 {
            (width - 1) as nat
        } else {
            0
        };
        hex(n / 16, rest).push(hex_digit(n % 16))
    }
}

/// A number in hexadecimal has at least `width` digits.
pub proof fn lemma_hex_is_wide(n: nat, width: nat)
    ensures
        hex(n, width).len() >= width,
        hex(n, width).len() >= 1,
    decreases n, width,
{
    if !(n < 16 && width <= 1) {
        let rest: nat = if width > 0 {
            (width - 1) as nat
        } else {
            0
        };
        lemma_hex_is_wide(n / 16, rest);
    }
}

/// A 32-bit word has exactly 8 digits at width 8.
pub proof fn lemma_hex_word_has_8_digits(word: u32)
    ensures
        hex(word as nat, 8).len() == 8,
{
    let n = word as nat;
    reveal_with_fuel(hex, 9);
    assert(n / 16 / 16 / 16 / 16 / 16 / 16 / 16 < 16);
}

/// The hexadecimal digit of a number below 16.
fn hex_digit_of(d: u64) -> (c: char)
    requires
        d < 16,
    ensures
        c == hex_digit(d as nat),
{
    if d == 0 {
        '0'
    } else if d == 1 {
        '1'
    } else if d == 2 {
        '2'
    } else if d == 3 {
        '3'
    } else if d == 4 {
        '4'
    } else if d == 5 {
        '5'
    } else if d == 6 {
        '6'
    } else if d == 7 {
        '7'
    } else if d == 8 {
        '8'
    } else if d == 9 {
        '9'
    } else if d == 10 {
        'a'
    } else if d == 11 {
        'b'
    } else if d == 12 {
        'c'
    } else if d == 13 {
        'd'
    } else if d == 14 {
        'e'
    } else {
        'f'
    }
}

/// Appends a number in hexadecimal, at least `width` digits wide.
pub fn push_hex(text: &mut String, n: u64, width: usize)
    ensures
        final(text)@ == old(text)@ + hex(n as nat, width as nat),
    decreases n, width,
{
    if n < 16 && width <= 1 {
        push_char(text, hex_digit_of(n));
        assert(old(text)@.push(hex_digit(n as nat)) =~= old(text)@ + hex(n as nat, width as nat));
    } else {
        let rest: usize = if width == 0 {
            0
        } else {
            width - 1
        };
        push_hex(text, n / 16, rest);
        push_char(text, hex_digit_of(n % 16));
        assert((old(text)@ + hex((n / 16) as nat, rest as nat)).push(hex_digit((n % 16) as nat))
            =~= old(text)@ + hex(n as nat, width as nat));
    }
}

/// The hex dump of a program: each word in 8 hexadecimal digits on a line
/// of its own.
pub open spec fn hex_dump_text(words: Seq<u32>) -> Seq<char>
    decreases words.len(),
{
    if words.len() == 0 {
        Seq::<char>::empty()
    } else {
        hex_dump_text(words.drop_last()) + hex(words.last() as nat, 8) + seq!['\n']
    }
}

/// The lines of a memory initialisation file: for each word its address
/// in 4 hexadecimal digits or more, a colon, the word in 8 digits, a semicolon.
pub open spec fn mif_lines(words: Seq<u32>) -> Seq<char>
    decreases words.len(),
{
    if words.len() == 0 {
        Seq::<char>::empty()
    } else {
        mif_lines(words.drop_last()) + hex((words.len() - 1) as nat, 4) + seq![':', ' '] + hex(
            words.last() as nat,
            8,
        ) + seq![';', '\n']
    }
}

/// What stands before the lines of a memory initialisation file.
pub open spec fn mif_header() -> Seq<char> {
    "DEPTH = 32768;\nWIDTH = 32;\nADDRESS_RADIX = HEX;\nDATA_RADIX = HEX;\nCONTENT\nBEGIN\n\n"@
}

/// What stands after the lines of a memory initialisation file.
pub open spec fn mif_footer() -> Seq<char> {
    "\nEND;\n"@
}

/// The memory initialisation file of a program.
pub open spec fn mif_text(words: Seq<u32>) -> Seq<char> {
    mif_header() + mif_lines(words) + mif_footer()
}

/// The words of a sequence of instructions.
pub open spec fn words_of(insts: Seq<Inst>) -> Seq<u32> {
    insts.map_values(|inst: Inst| inst.spec_word() as u32)
}

/// Packs every instruction into its word.
pub fn to_words(insts: &Vec<Inst>) -> (words: Vec<u32>)
    ensures
        words@ == words_of(insts@),
{
    let mut words: Vec<u32> = Vec::new();
    let mut i: usize = 0;
    while i < insts.len()
        invariant
            0 <= i <= insts.len(),
            words@ == words_of(insts@.take(i as int)),
        decreases insts.len() - i,
    {
        words.push(insts[i].to_word());
        assert(words@ =~= words_of(insts@.take(i + 1)));
        i += 1;
    }
    assert(insts@.take(i as int) =~= insts@);
    words
}

/// Writes the hex dump of a program.
pub fn hex_dump(words: &Vec<u32>) -> (text: String)
    ensures
        text@ == hex_dump_text(words@),
{
    let mut text = String::new();
    let mut i: usize = 0;
    assert(words@.take(0) =~= Seq::<u32>::empty());
    while i < words.len()
        invariant
            0 <= i <= words.len(),
            text@ == hex_dump_text(words@.take(i as int)),
        decreases words.len() - i,
    {
        assert(words@.take(i + 1).drop_last() =~= words@.take(i as int));
        push_hex(&mut text, words[i] as u64, 8);
        push_char(&mut text, '\n');
        assert(text@ =~= hex_dump_text(words@.take(i + 1)));
        i += 1;
    }
    assert(words@.take(i as int) =~= words@);
    text
}

/// Writes the memory initialisation file of a program.
pub fn mif(words: &Vec<u32>) -> (text: String)
    ensures
        text@ == mif_text(words@),
{
    let mut text = String::from_str(
        "DEPTH = 32768;\nWIDTH = 32;\nADDRESS_RADIX = HEX;\nDATA_RADIX = HEX;\nCONTENT\nBEGIN\n\n",
    );
    let mut i: usize = 0;
    assert(words@.take(0) =~= Seq::<u32>::empty());
    assert(text@ =~= mif_header() + mif_lines(words@.take(0)));
    while i < words.len()
        invariant
            0 <= i <= words.len(),
            text@ == mif_header() + mif_lines(words@.take(i as int)),
        decreases words.len() - i,
    {
        assert(words@.take(i + 1).drop_last() =~= words@.take(i as int));
        push_hex(&mut text, i as u64, 4);
        push_char(&mut text, ':');
        push_char(&mut text, ' ');
        push_hex(&mut text, words[i] as u64, 8);
        push_char(&mut text, ';');
        push_char(&mut text, '\n');
        assert(text@ =~= mif_header() + mif_lines(words@.take(i + 1)));
        i += 1;
    }
    assert(words@.take(i as int) =~= words@);
    text.append("\nEND;\n");
    text
}

} // verus!
