use vstd::prelude::*;

verus! {

/// The classification of one source character.
#[derive(Debug, Clone, Copy, PartialEq, Eq)]
pub enum TokenKind {
    /// Any character that is not one of the eight instructions, kept verbatim.
    Comment(char),
    /// `-`
    DecrementByte,
    /// `+`
    IncrementByte,
    /// `>`
    MoveRight,
    /// `<`
    MoveLeft,
    /// `,`
    Input,
    /// `.`
    Output,
    /// `[`
    JumpRight,
    /// `]`
    JumpLeft,
}

/// One lexed source character.
#[derive(Debug, Clone, Copy, PartialEq, Eq)]
pub struct Token {
    pub kind: TokenKind,
}

/// The token kind a single source character maps to.
pub open spec fn kind_of(c: char) -> TokenKind {
    if c == '-' {
        TokenKind::DecrementByte
    } else if c == '+' {
        TokenKind::IncrementByte
    } else if c == '>' {
        TokenKind::MoveRight
    } else if c == '<' {
        TokenKind::MoveLeft
    } else if c == ',' {
        TokenKind::Input
    } else if c == '.' {
        TokenKind::Output
    } else if c == '[' {
        TokenKind::JumpRight
    } else if c == ']' {
        TokenKind::JumpLeft
    } else {
        TokenKind::Comment(c)
    }
}

/// The token sequence of a source text: one token per character.
pub open spec fn lex_spec(s: Seq<char>) -> Seq<Token> {
    Seq::new(s.len(), |i: int| Token { kind: kind_of(s[i]) })
}

fn classify(c: char) -> (r: TokenKind)
    ensures
        r == kind_of(c),
{
    match c {
        '-' => TokenKind::DecrementByte,
        '+' => TokenKind::IncrementByte,
        '>' => TokenKind::MoveRight,
        '<' => TokenKind::MoveLeft,
        ',' => TokenKind::Input,
        '.' => TokenKind::Output,
        '[' => TokenKind::JumpRight,
        ']' => TokenKind::JumpLeft,
        c => TokenKind::Comment(c),
    }
}

/// Scans the source text and turns each character into a token. Total: no
/// character is dropped, merged or rejected.
pub fn lex(content: &str) -> (toks: Vec<Token>)
    ensures
        toks@ == lex_spec(content@),
{
    let mut toks: Vec<Token> = Vec::new();
    for ch in it: content.chars()
        invariant
            it.seq() == content@,
            toks@ == lex_spec(content@).take(it.index() as int),
    {
        toks.push(Token { kind: classify(ch) });
    }
    toks
}

} // verus!
