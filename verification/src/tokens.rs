//! Tokens: the classified pieces of source text that the parser consumes.
//!
//! A token has a kind from a closed vocabulary, a location in the source
//! text, and an extra payload carrying the text fragment it covers.

use vstd::prelude::*;

verus! {

/// The closed vocabulary of token kinds.
#[derive(Copy, Clone, Debug, PartialEq, Eq, Structural)]
pub enum TokenKind {
    Error,
    DecNumber,
    HexNumber,
    BinNumber,
    OpenSquareBracket,
    CloseSquareBracket,
    OpenBrace,
    CloseBrace,
    OpenBracket,
    CloseBracket,
    Star,
    Plus,
    Minus,
    Slash,
    Equals,
    BackSlash,
    Comment,
    Ampersand,
    Identifier,
    FqnIdentifier,
    Char,
    QuotedString,
    Comma,
    GreaterThan,
    LessThan,
    Bar,
    Caret,
    Hash,
    Quote,
    BackTick,
    False,
    True,
    Colon,
    KeyWord,
}

impl TokenKind {
    /// True exactly for the comment kind, which the tokenizer filters out.
    pub fn is_comment(&self) -> (r: bool)
        ensures
            r == (*self is Comment),
    {
        match self {
            TokenKind::Comment => true,
            _ => false,
        }
    }
}

/// A half-open range of positions in the source text, as start and length.
#[derive(Clone, Debug, Copy, PartialEq, Eq, Structural, Default)]
pub struct TextSpan {
    pub start: usize,
    pub len: usize,
}

impl TextSpan {
    /// The end of the range; meaningful only when start + len fits in usize.
    pub open spec fn spec_end(&self) -> int {
        self.start + self.len
    }

    pub fn new(start: usize, len: usize) -> (r: Self)
        ensures
            r.start == start,
            r.len == len,
    {
        TextSpan { start, len }
    }

    /// The start of the range; the end is start + len.
    pub fn as_range(&self) -> (r: (usize, usize))
        requires
            self.start + self.len <= usize::MAX,
        ensures
            r.0 == self.start,
            r.1 == self.spec_end(),
    {
        (self.start, self.start + self.len)
    }
}

/// A fragment of the source text: the whole text plus a char range into it.
#[derive(Debug, Clone, Copy, PartialEq)]
pub struct ParseText<'a> {
    pub base: &'a str,
    pub start: usize,
    pub len: usize,
}

impl<'a> ParseText<'a> {
    /// The fragment is valid: its range lies inside the base text.
    pub open spec fn wf(&self) -> bool {
        self.start + self.len <= self.base@.len() && self.start + self.len <= usize::MAX
    }

    /// The characters of the fragment.
    pub open spec fn spec_text(&self) -> Seq<char> {
        self.base@.subrange(self.start as int, self.start + self.len)
    }

    pub fn new(base: &'a str, start: usize, len: usize) -> (r: Self)
        requires
            start + len <= base@.len(),
            start + len <= usize::MAX,
        ensures
            r.base@ == base@,
            r.start == start,
            r.len == len,
            r.wf(),
    {
        ParseText { base, start, len }
    }

    /// The fragment as its own string slice.
    pub fn get_text(&self) -> (r: &'a str)
        requires
            self.wf(),
        ensures
            r@ == self.spec_text(),
    {
        self.base.substring_char(self.start, self.start + self.len)
    }

    /// The start of the fragment's range; the end is start + len.
    pub fn as_range(&self) -> (r: (usize, usize))
        requires
            self.wf(),
        ensures
            r.0 == self.start,
            r.1 == self.start + self.len,
    {
        (self.start, self.start + self.len)
    }
}

/// One token: a kind, a location in the source text, and an extra payload.
#[derive(Clone, Debug, Copy, PartialEq)]
pub struct Token<X: Clone> {
    pub kind: TokenKind,
    pub location: TextSpan,
    pub extra: X,
}

impl<X: Clone> Token<X> {
    pub fn new(kind: TokenKind, location: TextSpan, extra: X) -> (r: Self)
        ensures
            r.kind == kind,
            r.location == location,
            r.extra == extra,
    {
        Token { kind, location, extra }
    }

    /// The source text range a non-empty run of tokens covers, from the
    /// start of its first token to the end of its last.
    pub fn text_span(a: &[Self]) -> (r: (usize, usize))
        requires
            a@.len() >= 1,
            a@[0].location.start + a@[a@.len() - 1].location.len <= usize::MAX,
        ensures
            r.0 == a@[0].location.start,
            r.1 == a@[0].location.start + a@[a@.len() - 1].location.len,
    {
        let start = a[0].location.start;
        let end = a[a.len() - 1].location.len + start;
        (start, end)
    }
}

} // verus!
