//! Span: a bounds-checked, offset-tracking view over a token slice.
//!
//! A span records where in the original token sequence it starts, so that
//! parse nodes built from it can carry absolute token ranges. The `take`,
//! `drop` and `split` operations are fallible when asked for more tokens
//! than remain, and preserve absolute offsets across splits.

use vstd::prelude::*;
use vstd::slice::slice_subrange;

use crate::error::ParseErrorKind;
use crate::lexer::Token;
use crate::tokens::TextSpan;

verus! {

/// A view over a slice of tokens, starting at an absolute position in the
/// token sequence of the whole compilation unit.
#[derive(Copy, Clone, Debug)]
pub struct Span<'a> {
    pub position: usize,
    pub span: &'a [Token<'a>],
}

impl<'a> Span<'a> {
    /// The tokens this span holds.
    pub open spec fn toks(&self) -> Seq<Token<'a>> {
        self.span@
    }

    /// The absolute position one past the last token of the span.
    pub open spec fn spec_end(&self) -> int {
        self.position + self.span@.len()
    }

    /// The span's end stays representable and its tokens are as the lexer
    /// hands them out.
    pub open spec fn wf(&self) -> bool {
        &&& self.position + self.span@.len() <= usize::MAX
        &&& crate::lexer::tokens_wf(self.span@)
    }

    /// `self` is what is left of `of` after consuming some of its front.
    pub open spec fn suffix_of(&self, of: Span<'a>) -> bool {
        &&& self.span@.len() <= of.span@.len()
        &&& self.position == of.position + (of.span@.len() - self.span@.len())
        &&& self.span@ == of.span@.subrange(
            of.span@.len() - self.span@.len(),
            of.span@.len() as int,
        )
    }

    /// Being a suffix is transitive.
    pub proof fn lemma_suffix_trans(a: Span<'a>, b: Span<'a>, c: Span<'a>)
        requires
            a.suffix_of(b),
            b.suffix_of(c),
        ensures
            a.suffix_of(c),
    {
        let k = c.span@.len() - a.span@.len();
        assert(a.span@ =~= c.span@.subrange(k as int, c.span@.len() as int));
    }

    /// A suffix of a well-formed span is well-formed.
    pub proof fn lemma_suffix_wf(a: Span<'a>, b: Span<'a>)
        requires
            a.suffix_of(b),
            b.wf(),
        ensures
            a.wf(),
            a.spec_end() == b.spec_end(),
    {
    }

    pub fn new(position: usize, span: &'a [Token<'a>]) -> (r: Self)
        requires
            position + span@.len() <= usize::MAX,
            crate::lexer::tokens_wf(span@),
        ensures
            r.position == position,
            r.span@ == span@,
            r.wf(),
    {
        Span { position, span }
    }

    /// A span over a whole token slice, starting at position 0.
    pub fn from_slice(text: &'a [Token<'a>]) -> (r: Self)
        requires
            text@.len() <= usize::MAX,
            crate::lexer::tokens_wf(text@),
        ensures
            r.position == 0,
            r.span@ == text@,
            r.wf(),
    {
        Span::new(0, text)
    }

    pub fn as_slice(&self) -> (r: &'a [Token<'a>])
        ensures
            r@ == self.span@,
    {
        self.span
    }

    pub fn len(&self) -> (r: usize)
        ensures
            r == self.span@.len(),
    {
        self.span.len()
    }

    pub fn is_empty(&self) -> (r: bool)
        ensures
            r == (self.span@.len() == 0),
    {
        self.span.len() == 0
    }

    /// The absolute token range the span covers, as (start, end).
    pub fn get_range(&self) -> (r: (usize, usize))
        requires
            self.wf(),
        ensures
            r.0 == self.position,
            r.1 == self.spec_end(),
    {
        (self.position, self.position + self.span.len())
    }

    /// The token at index `n`, if there is one.
    pub fn at(&self, n: usize) -> (r: Option<&'a Token<'a>>)
        ensures
            match r {
                Some(t) => n < self.span@.len() && *t == self.span@[n as int],
                None => n >= self.span@.len(),
            },
    {
        if n < self.span.len() {
            Some(&self.span[n])
        } else {
            None
        }
    }

    /// The first `n` tokens, at the same position. Fails, rather than
    /// truncating, when fewer than `n` remain.
    pub fn take(&self, n: usize) -> (r: Result<Self, ParseErrorKind>)
        requires
            self.wf(),
        ensures
            match r {
                Ok(s) => {
                    &&& n <= self.span@.len()
                    &&& s.position == self.position
                    &&& s.span@ == self.span@.subrange(0, n as int)
                    &&& s.wf()
                },
                Err(e) => n > self.span@.len() && e is TookTooMany,
            },
    {
        if n > self.span.len() {
            Err(ParseErrorKind::TookTooMany)
        } else {
            Ok(Span::new(self.position, slice_subrange(self.span, 0, n)))
        }
    }

    /// Everything after the first `n` tokens, with the position advanced by
    /// `n`. Fails, rather than truncating, when fewer than `n` remain.
    pub fn drop(&self, n: usize) -> (r: Result<Self, ParseErrorKind>)
        requires
            self.wf(),
        ensures
            match r {
                Ok(s) => {
                    &&& n <= self.span@.len()
                    &&& s.position == self.position + n
                    &&& s.span@ == self.span@.subrange(n as int, self.span@.len() as int)
                    &&& s.wf()
                    &&& s.suffix_of(*self)
                },
                Err(e) => n > self.span@.len() && e is SkippedTooMany,
            },
    {
        if n > self.span.len() {
            Err(ParseErrorKind::SkippedTooMany)
        } else {
            Ok(Span::new(
                self.position + n,
                slice_subrange(self.span, n, self.span.len()),
            ))
        }
    }

    /// Splits after the first `n` tokens: returns (rest, taken), both keeping
    /// their absolute positions. Fails when fewer than `n` remain.
    pub fn split(&self, n: usize) -> (r: Result<(Self, Self), ParseErrorKind>)
        requires
            self.wf(),
        ensures
            match r {
                Ok((rest, taken)) => {
                    &&& n <= self.span@.len()
                    &&& rest.position == self.position + n
                    &&& rest.span@ == self.span@.subrange(n as int, self.span@.len() as int)
                    &&& rest.wf()
                    &&& rest.suffix_of(*self)
                    &&& taken.position == self.position
                    &&& taken.span@ == self.span@.subrange(0, n as int)
                    &&& taken.wf()
                },
                Err(e) => n > self.span@.len() && e is IllegalSplitIndex,
            },
    {
        if n > self.span.len() {
            Err(ParseErrorKind::IllegalSplitIndex)
        } else {
            let rest = Span::new(self.position + n, slice_subrange(self.span, n, self.span.len()));
            let taken = Span::new(self.position, slice_subrange(self.span, 0, n));
            Ok((rest, taken))
        }
    }

    /// The kind of each token in the span, in order.
    pub fn kinds(&self) -> (r: Vec<crate::tokens::TokenKind>)
        ensures
            r@.len() == self.span@.len(),
            forall|i: int|
                0 <= i < self.span@.len() ==> r@[i] == self.span@[i].kind,
    {
        let mut out: Vec<crate::tokens::TokenKind> = Vec::new();
        let mut i: usize = 0;
        while i < self.span.len()
            invariant
                i <= self.span@.len(),
                out@.len() == i,
                forall|j: int| 0 <= j < i ==> out@[j] == self.span@[j].kind,
            decreases self.span@.len() - i,
        {
            out.push(self.span[i].kind);
            i = i + 1;
        }
        out
    }
}

/// The source text range a span of tokens covers: from the start of its
/// first token to the end of its last. An empty span covers nothing.
pub fn get_text_range(input: Span) -> (r: TextSpan)
    requires
        input.wf(),
    ensures
        input.span@.len() > 0 ==> {
            &&& r.start == input.span@[0].location.start
            &&& r.start + r.len == input.span@[input.span@.len() - 1].location.spec_end()
        },
        input.span@.len() == 0 ==> r.len == 0,
        r.start + r.len <= usize::MAX,
{
    let n = input.span.len();
    if n > 0 {
        let first = input.span[0].location;
        let last = input.span[n - 1].location;
        let start = first.start;
        let end = last.start + last.len;
        TextSpan::new(start, end - start)
    } else {
        TextSpan::new(0, 0)
    }
}

} // verus!
