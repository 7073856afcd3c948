//! The lexical scanner: classifies the characters of a source text into
//! tokens, dropping comments.
//!
//! Offsets count characters. Whitespace separates tokens and is not kept.
//! Identifiers may hold the operator characters the surface syntax treats
//! as word-forming; `true` and `false` are their own kinds; a colon leads
//! keywords; number literals come in decimal, hex and binary forms.

use vstd::prelude::*;

use crate::sources::SourceFile;
use crate::tokens::{ParseText, TextSpan, TokenKind};

verus! {

/// The token type the parser works on: the extra payload is the fragment of
/// source text the token covers.
pub type Token<'a> = crate::tokens::Token<ParseText<'a>>;

/// A token as the lexer hands it out: its text fragment is valid and covers
/// exactly the token's location.
pub open spec fn tok_wf<'a>(t: Token<'a>) -> bool {
    &&& t.extra.wf()
    &&& t.extra.start == t.location.start
    &&& t.extra.len == t.location.len
}

/// A token sequence as the lexer hands it out: every token is well-formed
/// and their source locations ascend without overlap.
pub open spec fn tokens_wf<'a>(toks: Seq<Token<'a>>) -> bool {
    &&& forall|i: int| 0 <= i < toks.len() ==> tok_wf(#[trigger] toks[i])
    &&& forall|i: int, j: int|
        0 <= i < j < toks.len() ==> (#[trigger] toks[i]).location.start + toks[i].location.len
            <= (#[trigger] toks[j]).location.start
}

/// Whitespace between tokens.
fn is_ws(c: char) -> bool {
    c == ' ' || c == '\t' || c == '\n' || c == '\u{000c}'
}

fn is_digit(c: char) -> bool {
    let u = c as u32;
    48 <= u && u <= 57
}

fn is_hex_digit(c: char) -> bool {
    let u = c as u32;
    (48 <= u && u <= 57) || (97 <= u && u <= 102) || (65 <= u && u <= 70)
}

fn is_bin_digit(c: char) -> bool {
    c == '0' || c == '1'
}

/// The characters an identifier may start with: letters, underscore, and
/// the word-forming operator characters.
fn is_id_start(c: char) -> bool {
    let u = c as u32;
    (97 <= u && u <= 122) || (65 <= u && u <= 90) || c == '_' || c == '-' || c == '+' || c == '*'
        || c == '!'
}

fn is_id_char(c: char) -> bool {
    is_id_start(c) || is_digit(c)
}

/// Consumes characters from `pos` while `kind`-appropriate digits (and
/// separating underscores) continue.
fn scan_while_digits(text: &str, pos: usize, n: usize, hex: bool, bin: bool) -> (r: usize)
    requires
        n == text@.len(),
        pos <= n,
    ensures
        pos <= r <= n,
{
    let mut i = pos;
    while i < n
        invariant
            n == text@.len(),
            pos <= i <= n,
        decreases n - i,
    {
        let c = text.get_char(i);
        let ok = if hex {
            is_hex_digit(c) || c == '_'
        } else if bin {
            is_bin_digit(c) || c == '_'
        } else {
            is_digit(c) || c == '_'
        };
        if !ok {
            return i;
        }
        i = i + 1;
    }
    i
}

/// Consumes identifier characters from `pos`.
fn scan_id(text: &str, pos: usize, n: usize) -> (r: usize)
    requires
        n == text@.len(),
        pos <= n,
    ensures
        pos <= r <= n,
{
    let mut i = pos;
    while i < n
        invariant
            n == text@.len(),
            pos <= i <= n,
        decreases n - i,
    {
        if !is_id_char(text.get_char(i)) {
            return i;
        }
        i = i + 1;
    }
    i
}

/// Classifies one token starting at `pos`, returning its kind and length.
fn lex_one(text: &str, pos: usize, n: usize) -> (r: (TokenKind, usize))
    requires
        n == text@.len(),
        pos < n,
    ensures
        1 <= r.1,
        pos + r.1 <= n,
{
    let c = text.get_char(pos);
    if c == ';' {
        let mut i = pos + 1;
        while i < n
            invariant
                n == text@.len(),
                pos < i <= n,
            decreases n - i,
        {
            if text.get_char(i) == '\n' {
                return (TokenKind::Comment, i + 1 - pos);
            }
            i = i + 1;
        }
        (TokenKind::Comment, n - pos)
    } else if c == '(' {
        (TokenKind::OpenBracket, 1)
    } else if c == ')' {
        (TokenKind::CloseBracket, 1)
    } else if c == '[' {
        (TokenKind::OpenSquareBracket, 1)
    } else if c == ']' {
        (TokenKind::CloseSquareBracket, 1)
    } else if c == '{' {
        (TokenKind::OpenBrace, 1)
    } else if c == '}' {
        (TokenKind::CloseBrace, 1)
    } else if c == '/' {
        (TokenKind::Slash, 1)
    } else if c == '\\' {
        (TokenKind::BackSlash, 1)
    } else if c == '&' {
        (TokenKind::Ampersand, 1)
    } else if c == ',' {
        (TokenKind::Comma, 1)
    } else if c == '>' {
        (TokenKind::GreaterThan, 1)
    } else if c == '<' {
        (TokenKind::LessThan, 1)
    } else if c == '|' {
        (TokenKind::Bar, 1)
    } else if c == '^' {
        (TokenKind::Caret, 1)
    } else if c == '#' {
        (TokenKind::Hash, 1)
    } else if c == '`' {
        (TokenKind::BackTick, 1)
    } else if c == '=' {
        (TokenKind::Equals, 1)
    } else if c == '\'' {
        if n - pos > 2 && text.get_char(pos + 2) == '\'' && text.get_char(pos + 1) != '\'' {
            (TokenKind::Char, 3)
        } else {
            (TokenKind::Quote, 1)
        }
    } else if c == ':' {
        if pos + 1 < n && is_id_start(text.get_char(pos + 1)) {
            let end = scan_id(text, pos + 1, n);
            (TokenKind::KeyWord, end - pos)
        } else {
            (TokenKind::Colon, 1)
        }
    } else if c == '$' {
        if pos + 1 < n && is_hex_digit(text.get_char(pos + 1)) {
            let end = scan_while_digits(text, pos + 1, n, true, false);
            (TokenKind::HexNumber, end - pos)
        } else {
            (TokenKind::Error, 1)
        }
    } else if c == '%' {
        if pos + 1 < n && is_bin_digit(text.get_char(pos + 1)) {
            let end = scan_while_digits(text, pos + 1, n, false, true);
            (TokenKind::BinNumber, end - pos)
        } else {
            (TokenKind::Error, 1)
        }
    } else if c == '"' {
        let mut i = pos + 1;
        while i < n
            invariant
                n == text@.len(),
                pos < i <= n,
            decreases n - i,
        {
            let d = text.get_char(i);
            if d == '"' {
                return (TokenKind::QuotedString, i + 1 - pos);
            }
            if d == '\\' && i + 1 < n {
                i = i + 2;
            } else {
                i = i + 1;
            }
        }
        (TokenKind::Error, n - pos)
    } else if is_digit(c) {
        if c == '0' && n - pos > 2 && (text.get_char(pos + 1) == 'x' || text.get_char(pos + 1)
            == 'X') && is_hex_digit(text.get_char(pos + 2)) {
            let end = scan_while_digits(text, pos + 2, n, true, false);
            (TokenKind::HexNumber, end - pos)
        } else if c == '0' && n - pos > 2 && (text.get_char(pos + 1) == 'b' || text.get_char(
            pos + 1,
        ) == 'B') && is_bin_digit(text.get_char(pos + 2)) {
            let end = scan_while_digits(text, pos + 2, n, false, true);
            (TokenKind::BinNumber, end - pos)
        } else {
            let end = scan_while_digits(text, pos + 1, n, false, false);
            (TokenKind::DecNumber, end - pos)
        }
    } else if is_id_start(c) {
        let end = scan_id(text, pos + 1, n);
        let word = text.substring_char(pos, end);
        if crate::parsers::str_eq(word, "true") {
            return (TokenKind::True, end - pos);
        }
        if crate::parsers::str_eq(word, "false") {
            return (TokenKind::False, end - pos);
        }
        let mut i = end;
        let mut fqn = false;
        while i < n
            invariant
                n == text@.len(),
                pos < i <= n,
            decreases n - i,
        {
            if n - i > 2 && text.get_char(i) == ':' && text.get_char(i + 1) == ':' && is_id_start(
                text.get_char(i + 2),
            ) {
                let seg_end = scan_id(text, i + 2, n);
                fqn = true;
                i = seg_end;
            } else {
                break ;
            }
        }
        if fqn {
            (TokenKind::FqnIdentifier, i - pos)
        } else {
            (TokenKind::Identifier, end - pos)
        }
    } else {
        (TokenKind::Error, 1)
    }
}

/// Turns a source file into its token sequence, dropping comments. The
/// tokens carry ascending, non-overlapping character locations inside the
/// file's text, each with the text fragment it covers.
pub fn tokenize<'a>(source_file: &'a SourceFile) -> (r: Vec<Token<'a>>)
    ensures
        tokens_wf(r@),
        forall|i: int| 0 <= i < r@.len() ==> !((#[trigger] r@[i]).kind is Comment),
        forall|i: int|
            0 <= i < r@.len() ==> (#[trigger] r@[i]).extra.base@ == source_file.text@,
{
    let text: &'a str = source_file.text.as_str();
    let n = text.unicode_len();
    let mut out: Vec<Token<'a>> = Vec::new();
    let mut pos: usize = 0;
    while pos < n
        invariant
            n == text@.len(),
            text@ == source_file.text@,
            pos <= n,
            tokens_wf(out@),
            forall|i: int| 0 <= i < out@.len() ==> !((#[trigger] out@[i]).kind is Comment),
            forall|i: int|
                0 <= i < out@.len() ==> (#[trigger] out@[i]).extra.base@ == source_file.text@,
            forall|i: int|
                0 <= i < out@.len() ==> (#[trigger] out@[i]).location.start + out@[
                    i
                ].location.len <= pos,
        decreases n - pos,
    {
        let c = text.get_char(pos);
        if is_ws(c) {
            pos = pos + 1;
        } else {
            let (kind, len) = lex_one(text, pos, n);
            if !kind.is_comment() {
                let location = TextSpan::new(pos, len);
                let extra = ParseText::new(text, pos, len);
                let tok = crate::tokens::Token::new(kind, location, extra);
                proof {
                    assert(forall|i: int|
                        0 <= i < out@.len() ==> out@.push(tok)[i] == (#[trigger] out@[i]));
                    assert(out@.push(tok)[out@.len() as int] == tok);
                }
                out.push(tok);
            }
            pos = pos + len;
        }
    }
    out
}

} // verus!
