//! Tokens: what the lexer makes of one symbol of a source line.

use vstd::prelude::*;

verus! {

/// What a token stands for, told by the first character of its symbol.
#[derive(Clone, Copy, Debug, PartialEq, Eq, Structural)]
pub enum TokenType {
    /// A reference to a label, written `'name`.
    Label,
    /// A mnemonic.
    Opcode,
    /// A register, written `r` and its index.
    Reg,
    /// An immediate value, written `#` and a number.
    Imm,
    /// A direct address, written `$` and a number.
    Dir,
}

/// One token: its kind, its text without the sigil, and where it stood.
#[derive(Debug)]
pub struct Token {
    pub token: TokenType,
    pub content: String,
    /// Zero-based index of the source line.
    pub line_num: u32,
    /// Columns of the token; not tracked, always `(0, 0)`.
    pub chars: (u32, u32),
}

/// A token with its text as a sequence of characters.
pub struct TokenView {
    pub token: TokenType,
    pub content: Seq<char>,
    pub line_num: u32,
    pub chars: (u32, u32),
}

impl View for Token {
    type V = TokenView;

    open spec fn view(&self) -> TokenView {
        TokenView {
            token: self.token,
            content: self.content@,
            line_num: self.line_num,
            chars: self.chars,
        }
    }
}

impl Clone for Token {
    fn clone(&self) -> (copy: Token)
        ensures
            copy@ == self@,
    {
        Token {
            token: self.token,
            content: self.content.clone(),
            line_num: self.line_num,
            chars: self.chars,
        }
    }
}

impl Token {
    /// A token of the given kind, text and place.
    pub fn new(token: TokenType, content: String, line_num: u32, chars: (u32, u32)) -> (t: Token)
        ensures
            t@ == (TokenView { token, content: content@, line_num, chars }),
    {
        Token { token, content, line_num, chars }
    }
}

/// A line of tokens, each by its view.
pub open spec fn tokens_view(line: Seq<Token>) -> Seq<TokenView> {
    line.map_values(|t: Token| t@)
}

/// Lines of tokens, each token by its view.
pub open spec fn lines_view(lines: Seq<Vec<Token>>) -> Seq<Seq<TokenView>> {
    lines.map_values(|line: Vec<Token>| tokens_view(line@))
}

} // verus!
