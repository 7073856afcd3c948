//! The combinator engine: composes small parsing functions into larger
//! ones.
//!
//! Every parsing function maps an input span to either a success, holding
//! the remaining input and a value, or a failure holding an error with a
//! severity. The combinators here sequence, repeat and choose between such
//! functions. Severity drives the control flow: a `Error` failure lets
//! alternation try the next branch, a `Fatal` failure (made by `cut`) stops
//! it.

use vstd::prelude::*;

use crate::error::{FrontEndError, ParseErrorKind, PResult, Severity};
use crate::span::{get_text_range, Span};
use crate::tokens::TokenKind;

verus! {

/// The parser can be called on every well-formed span.
pub open spec fn p_req<'a, O, F: Fn(Span<'a>) -> PResult<'a, O>>(p: F) -> bool {
    forall|s: Span<'a>| s.wf() ==> #[trigger] call_requires(p, (s,))
}

/// Every success of the parser consumes at least one token and leaves a
/// suffix of its input.
pub open spec fn p_progress<'a, O, F: Fn(Span<'a>) -> PResult<'a, O>>(p: F) -> bool {
    forall|s: Span<'a>, rest: Span<'a>, v: O|
        #[trigger] call_ensures(p, (s,), Ok((rest, v))) ==> rest.suffix_of(s) && rest.span@.len()
            < s.span@.len()
}

/// Every success of the parser leaves a suffix of its input, possibly all
/// of it.
pub open spec fn p_suffix<'a, O, F: Fn(Span<'a>) -> PResult<'a, O>>(p: F) -> bool {
    forall|s: Span<'a>, rest: Span<'a>, v: O|
        #[trigger] call_ensures(p, (s,), Ok((rest, v))) ==> rest.suffix_of(s)
}

/// The outputs in `out` are the values of a run of successful calls of `p`,
/// the first on `from`, each next one on what the previous call left, the
/// last one leaving `to`.
pub open spec fn parse_chain<'a, O, F: Fn(Span<'a>) -> PResult<'a, O>>(
    p: F,
    from: Span<'a>,
    to: Span<'a>,
    out: Seq<O>,
) -> bool
    decreases out.len(),
{
    if out.len() == 0 {
        to == from
    } else {
        exists|mid: Span<'a>|
            parse_chain(p, from, mid, out.drop_last()) && #[trigger] call_ensures(
                p,
                (mid,),
                Ok((to, out.last())),
            )
    }
}

/// Every span a chain runs through is a suffix of the span it starts from.
pub proof fn lemma_chain_suffix<'a, O, F: Fn(Span<'a>) -> PResult<'a, O>>(
    p: F,
    from: Span<'a>,
    to: Span<'a>,
    out: Seq<O>,
)
    requires
        p_progress(p),
        parse_chain(p, from, to, out),
    ensures
        to.suffix_of(from),
        out.len() <= from.span@.len() - to.span@.len(),
    decreases out.len(),
{
    if out.len() == 0 {
        assert(to.span@ =~= from.span@.subrange(0, from.span@.len() as int));
    } else {
        let mid = choose|mid: Span<'a>|
            parse_chain(p, from, mid, out.drop_last()) && #[trigger] call_ensures(
                p,
                (mid,),
                Ok((to, out.last())),
            );
        lemma_chain_suffix(p, from, mid, out.drop_last());
        Span::lemma_suffix_trans(to, mid, from);
    }
}

/// What `many0` guarantees: on success the outputs chain from the input to
/// the remaining span and one more attempt would fail without being fatal;
/// the only failure is a fatal failure of `p` reached by a chain.
pub open spec fn many0_post<'a, O, F: Fn(Span<'a>) -> PResult<'a, O>>(
    p: F,
    input: Span<'a>,
    r: PResult<'a, Vec<O>>,
) -> bool {
    match r {
        Ok((rest, out)) => {
            &&& rest.suffix_of(input)
            &&& rest.wf()
            &&& parse_chain(p, input, rest, out@)
            &&& exists|e: FrontEndError|
                #[trigger] call_ensures(p, (rest,), Result::<(Span<'a>, O), FrontEndError>::Err(e))
                    && !e.spec_is_fatal()
        },
        Err(e) => {
            &&& e.spec_is_fatal()
            &&& exists|s: Span<'a>, out: Seq<O>|
                #[trigger] parse_chain(p, input, s, out) && #[trigger] call_ensures(
                    p,
                    (s,),
                    Result::<(Span<'a>, O), FrontEndError>::Err(e),
                )
        },
    }
}

/// Repeats `p` until it fails. A `Error` failure ends the repetition and
/// `many0` still succeeds with the matches so far; a `Fatal` failure of `p`
/// is the only way `many0` fails.
pub fn many0<'a, O, F: Fn(Span<'a>) -> PResult<'a, O>>(p: F, input: Span<'a>) -> (r: PResult<
    'a,
    Vec<O>,
>)
    requires
        input.wf(),
        p_req(p),
        p_progress(p),
    ensures
        many0_post(p, input, r),
{
    let mut i = input;
    let mut out: Vec<O> = Vec::new();
    proof {
        assert(input.span@ =~= input.span@.subrange(0, input.span@.len() as int));
    }
    loop
        invariant
            input.wf(),
            p_req(p),
            p_progress(p),
            i.wf(),
            i.suffix_of(input),
            parse_chain(p, input, i, out@),
        decreases i.span@.len(),
    {
        let r = p(i);
        match r {
            Ok((rest, v)) => {
                proof {
                    assert(parse_chain(p, input, i, out@.push(v).drop_last())) by {
                        assert(out@.push(v).drop_last() =~= out@);
                    }
                    assert(out@.push(v).last() == v);
                    Span::lemma_suffix_trans(rest, i, input);
                    Span::lemma_suffix_wf(rest, i);
                }
                out.push(v);
                i = rest;
            },
            Err(e) => {
                if e.is_fatal() {
                    return Err(e);
                } else {
                    return Ok((i, out));
                }
            },
        }
    }
}

/// The law of repetition: against a parser that never fails fatally,
/// `many0` never fails, whatever the parser and whatever the input; a
/// failed attempt merely ends the repetition.
pub proof fn lemma_many0_never_fails<'a, O, F: Fn(Span<'a>) -> PResult<'a, O>>(
    p: F,
    input: Span<'a>,
    r: PResult<'a, Vec<O>>,
)
    requires
        many0_post(p, input, r),
        forall|s: Span<'a>, e: FrontEndError|
            #[trigger] call_ensures(p, (s,), Result::<(Span<'a>, O), FrontEndError>::Err(e))
                ==> !e.spec_is_fatal(),
    ensures
        r is Ok,
{
}

/// What `many1` guarantees: as `many0`, but at least one match is owed; zero
/// matches fail with `NeededOneOrMore`.
pub open spec fn many1_post<'a, O, F: Fn(Span<'a>) -> PResult<'a, O>>(
    p: F,
    input: Span<'a>,
    r: PResult<'a, Vec<O>>,
) -> bool {
    match r {
        Ok((rest, out)) => out@.len() >= 1 && many0_post(p, input, Ok((rest, out))),
        Err(e) => {
            ||| (e.spec_is_fatal() && exists|s: Span<'a>, out: Seq<O>|
                #[trigger] parse_chain(p, input, s, out) && #[trigger] call_ensures(
                    p,
                    (s,),
                    Result::<(Span<'a>, O), FrontEndError>::Err(e),
                ))
            ||| (e.kind == crate::error::FrontEndErrorKind::ParseError(
                ParseErrorKind::NeededOneOrMore,
            ) && !e.spec_is_fatal() && exists|e0: FrontEndError|
                #[trigger] call_ensures(p, (input,), Result::<(Span<'a>, O), FrontEndError>::Err(e0))
                    && !e0.spec_is_fatal())
        },
    }
}

/// As `many0`, but fails with `NeededOneOrMore` when nothing matches.
pub fn many1<'a, O, F: Fn(Span<'a>) -> PResult<'a, O>>(p: F, input: Span<'a>) -> (r: PResult<
    'a,
    Vec<O>,
>)
    requires
        input.wf(),
        p_req(p),
        p_progress(p),
    ensures
        many1_post(p, input, r),
{
    let r = many0(p, input);
    match r {
        Ok((rest, out)) => {
            if out.len() == 0 {
                Err(
                    FrontEndError::from_error_kind(
                        ParseErrorKind::NeededOneOrMore,
                        Severity::Error,
                        get_text_range(input),
                    ),
                )
            } else {
                Ok((rest, out))
            }
        },
        Err(e) => Err(e),
    }
}

/// What `cut` guarantees: successes pass through unchanged; every failure
/// is one of `p`'s failures with its severity escalated to fatal, kind and
/// place kept.
pub open spec fn cut_post<'a, O, F: Fn(Span<'a>) -> PResult<'a, O>>(
    p: F,
    input: Span<'a>,
    r: PResult<'a, O>,
) -> bool {
    match r {
        Ok(_) => call_ensures(p, (input,), r),
        Err(e) => e.spec_is_fatal() && exists|e0: FrontEndError|
            #[trigger] call_ensures(p, (input,), Result::<(Span<'a>, O), FrontEndError>::Err(e0))
                && e.kind == e0.kind && e.pos == e0.pos,
    }
}

/// Escalates a failure of `p` to fatal, so that alternation stops trying
/// other branches; used right after an unambiguous lead token has committed
/// the parse to this branch.
pub fn cut<'a, O, F: Fn(Span<'a>) -> PResult<'a, O>>(p: F, input: Span<'a>) -> (r: PResult<'a, O>)
    requires
        call_requires(p, (input,)),
    ensures
        cut_post(p, input, r),
{
    let r = p(input);
    match r {
        Ok(v) => Ok(v),
        Err(e) => Err(e.set_severity(Severity::Fatal)),
    }
}

/// Turns a `Error` failure of `p` into a "no value" success that consumes
/// nothing; successes and fatal failures pass through.
pub fn opt<'a, O, F: Fn(Span<'a>) -> PResult<'a, O>>(p: F, input: Span<'a>) -> (r: PResult<
    'a,
    Option<O>,
>)
    requires
        call_requires(p, (input,)),
    ensures
        match r {
            Ok((rest, Some(v))) => call_ensures(p, (input,), Ok((rest, v))),
            Ok((rest, None)) => rest == input && exists|e: FrontEndError|
                #[trigger] call_ensures(p, (input,), Result::<(Span<'a>, O), FrontEndError>::Err(e))
                    && !e.spec_is_fatal(),
            Err(e) => e.spec_is_fatal() && call_ensures(
                p,
                (input,),
                Result::<(Span<'a>, O), FrontEndError>::Err(e),
            ),
        },
{
    match p(input) {
        Ok((rest, v)) => Ok((rest, Some(v))),
        Err(e) => {
            if e.is_fatal() {
                Err(e)
            } else {
                Ok((input, None))
            }
        },
    }
}

/// Succeeds, consuming nothing, exactly when `p` fails.
pub fn not<'a, O, F: Fn(Span<'a>) -> PResult<'a, O>>(p: F, input: Span<'a>) -> (r: PResult<
    'a,
    Span<'a>,
>)
    requires
        input.wf(),
        call_requires(p, (input,)),
    ensures
        match r {
            Ok((rest, m)) => rest == input && m == input && exists|e: FrontEndError|
                #[trigger] call_ensures(
                    p,
                    (input,),
                    Result::<(Span<'a>, O), FrontEndError>::Err(e),
                ),
            Err(e) => {
                &&& e.kind == crate::error::FrontEndErrorKind::ParseError(ParseErrorKind::NoMatch)
                &&& !e.spec_is_fatal()
                &&& exists|rest: Span<'a>, v: O| #[trigger] call_ensures(p, (input,), Ok((rest, v)))
            },
        },
{
    match p(input) {
        Ok((rs, v)) => {
            proof {
                assert(call_ensures(p, (input,), Ok((rs, v))));
            }
            Err(
                FrontEndError::from_error_kind(
                    ParseErrorKind::NoMatch,
                    Severity::Error,
                    get_text_range(input),
                ),
            )
        },
        Err(e) => {
            proof {
                assert(call_ensures(p, (input,), Result::<(Span<'a>, O), FrontEndError>::Err(e)));
            }
            Ok((input, input))
        },
    }
}

/// Requires `p` to consume all remaining input: leftover input is a fatal
/// `UnconsumedInput` failure, and `p`'s own failures are escalated to
/// fatal.
pub fn all<'a, O, F: Fn(Span<'a>) -> PResult<'a, O>>(p: F, input: Span<'a>) -> (r: PResult<'a, O>)
    requires
        input.wf(),
        call_requires(p, (input,)),
    ensures
        match r {
            Ok((rest, v)) => call_ensures(p, (input,), Ok((rest, v))) && rest.span@.len() == 0,
            Err(e) => e.spec_is_fatal() && {
                ||| (e.kind == crate::error::FrontEndErrorKind::ParseError(
                    ParseErrorKind::UnconsumedInput,
                ) && exists|rest: Span<'a>, v: O|
                    #[trigger] call_ensures(p, (input,), Ok((rest, v))) && rest.span@.len() > 0)
                ||| exists|e0: FrontEndError|
                    #[trigger] call_ensures(
                        p,
                        (input,),
                        Result::<(Span<'a>, O), FrontEndError>::Err(e0),
                    ) && e.kind == e0.kind && e.pos == e0.pos
            },
        },
{
    match p(input) {
        Ok((rest, v)) => {
            if rest.len() > 0 {
                Err(
                    FrontEndError::from_error_kind(
                        ParseErrorKind::UnconsumedInput,
                        Severity::Fatal,
                        get_text_range(input),
                    ),
                )
            } else {
                Ok((rest, v))
            }
        },
        Err(e) => Err(e.set_severity(Severity::Fatal)),
    }
}

/// What `alt` guarantees: some outcome of `a` decided the result. A success
/// or fatal failure of `a` is returned as is and `b` plays no part; after a
/// `Error` failure of `a`, the result is `b`'s.
pub open spec fn alt_post<'a, O, A: Fn(Span<'a>) -> PResult<'a, O>, B: Fn(Span<'a>) -> PResult<
    'a,
    O,
>>(a: A, b: B, input: Span<'a>, r: PResult<'a, O>) -> bool {
    exists|ra: PResult<'a, O>|
        #[trigger] call_ensures(a, (input,), ra) && match ra {
            Ok(_) => r == ra,
            Err(ea) => {
                if ea.spec_is_fatal() {
                    r == Result::<(Span<'a>, O), FrontEndError>::Err(ea)
                } else {
                    call_ensures(b, (input,), r)
                }
            },
        }
}

/// Tries `a`, then `b`: returns `a`'s result unless it is a `Error`
/// failure, in which case `b` decides. A fatal failure of `a` propagates
/// and `b` is never tried.
pub fn alt<'a, O, A: Fn(Span<'a>) -> PResult<'a, O>, B: Fn(Span<'a>) -> PResult<'a, O>>(
    a: A,
    b: B,
    input: Span<'a>,
) -> (r: PResult<'a, O>)
    requires
        call_requires(a, (input,)),
        call_requires(b, (input,)),
    ensures
        alt_post(a, b, input, r),
{
    match a(input) {
        Ok(v) => Ok(v),
        Err(e) => {
            if e.is_fatal() {
                Err(e)
            } else {
                b(input)
            }
        },
    }
}

/// If every outcome `a` admits on this input is a fatal failure, then the
/// result of `alt` is such a failure of `a`: the second branch never
/// decides a committed parse.
pub proof fn lemma_alt_commits<'a, O, A: Fn(Span<'a>) -> PResult<'a, O>, B: Fn(Span<'a>) -> PResult<
    'a,
    O,
>>(a: A, b: B, input: Span<'a>, r: PResult<'a, O>)
    requires
        alt_post(a, b, input, r),
        forall|ra: PResult<'a, O>|
            #[trigger] call_ensures(a, (input,), ra) ==> (ra matches Err(ea) && ea.spec_is_fatal()),
    ensures
        call_ensures(a, (input,), r),
        r matches Err(e) && e.spec_is_fatal(),
{
}

/// `a` succeeded on `input` with `v1`, and `b` on what it left with `v2`,
/// leaving `rest`.
pub open spec fn seq_ok<'a, O1, O2, A: Fn(Span<'a>) -> PResult<'a, O1>, B: Fn(Span<'a>) -> PResult<
    'a,
    O2,
>>(a: A, b: B, input: Span<'a>, rest: Span<'a>, v1: O1, v2: O2) -> bool {
    exists|mid: Span<'a>|
        #[trigger] call_ensures(a, (input,), Ok((mid, v1))) && call_ensures(
            b,
            (mid,),
            Ok((rest, v2)),
        )
}

/// The failure `e` arose while sequencing `a` then `b` on `input`: either
/// `a` failed with it, or `a` succeeded and `b` failed with it.
pub open spec fn seq_err<'a, O1, O2, A: Fn(Span<'a>) -> PResult<'a, O1>, B: Fn(Span<'a>) -> PResult<
    'a,
    O2,
>>(a: A, b: B, input: Span<'a>, e: FrontEndError) -> bool {
    ||| call_ensures(a, (input,), Result::<(Span<'a>, O1), FrontEndError>::Err(e))
    ||| exists|mid: Span<'a>, v1: O1|
        #[trigger] call_ensures(a, (input,), Ok((mid, v1))) && call_ensures(
            b,
            (mid,),
            Result::<(Span<'a>, O2), FrontEndError>::Err(e),
        )
}

/// What sequencing two parsers guarantees: a success is a success of `a`
/// followed by one of `b` on what `a` left; a failure is the first
/// sub-failure, propagated unchanged.
pub open spec fn pair_post<'a, O1, O2, A: Fn(Span<'a>) -> PResult<'a, O1>, B: Fn(Span<'a>) -> PResult<
    'a,
    O2,
>>(a: A, b: B, input: Span<'a>, r: PResult<'a, (O1, O2)>) -> bool {
    match r {
        Ok((rest, (v1, v2))) => seq_ok(a, b, input, rest, v1, v2),
        Err(e) => seq_err(a, b, input, e),
    }
}

/// Runs `a` then `b` on what `a` left, failing on the first sub-failure,
/// which propagates unchanged; returns both values.
pub fn pair<'a, O1, O2, A: Fn(Span<'a>) -> PResult<'a, O1>, B: Fn(Span<'a>) -> PResult<'a, O2>>(
    a: A,
    b: B,
    input: Span<'a>,
) -> (r: PResult<'a, (O1, O2)>)
    requires
        input.wf(),
        call_requires(a, (input,)),
        p_suffix(a),
        p_req(b),
    ensures
        pair_post(a, b, input, r),
{
    match a(input) {
        Ok((mid, v1)) => {
            proof {
                Span::lemma_suffix_wf(mid, input);
            }
            match b(mid) {
                Ok((rest, v2)) => {
                    proof {
                        assert(call_ensures(a, (input,), Ok((mid, v1))));
                        assert(call_ensures(b, (mid,), Ok((rest, v2))));
                        assert(seq_ok(a, b, input, rest, v1, v2));
                    }
                    Ok((rest, (v1, v2)))
                },
                Err(e) => {
                    proof {
                        assert(call_ensures(a, (input,), Ok((mid, v1))));
                        assert(call_ensures(
                            b,
                            (mid,),
                            Result::<(Span<'a>, O2), FrontEndError>::Err(e),
                        ));
                        assert(seq_err(a, b, input, e));
                    }
                    Err(e)
                },
            }
        },
        Err(e) => {
            proof {
                assert(call_ensures(a, (input,), Result::<(Span<'a>, O1), FrontEndError>::Err(e)));
                assert(seq_err(a, b, input, e));
            }
            Err(e)
        },
    }
}

/// `a` succeeded on `input`, and `b` on what it left with `v2`, leaving
/// `rest`; only `b`'s value is kept.
pub open spec fn seq_snd_ok<'a, O1, O2, A: Fn(Span<'a>) -> PResult<'a, O1>, B: Fn(Span<'a>) -> PResult<
    'a,
    O2,
>>(a: A, b: B, input: Span<'a>, rest: Span<'a>, v2: O2) -> bool {
    exists|mid: Span<'a>, v1: O1|
        #[trigger] call_ensures(a, (input,), Ok((mid, v1))) && call_ensures(
            b,
            (mid,),
            Ok((rest, v2)),
        )
}

/// Runs `a` then `b`, returning only `b`'s value.
pub fn preceded<'a, O1, O2, A: Fn(Span<'a>) -> PResult<'a, O1>, B: Fn(Span<'a>) -> PResult<
    'a,
    O2,
>>(a: A, b: B, input: Span<'a>) -> (r: PResult<'a, O2>)
    requires
        input.wf(),
        call_requires(a, (input,)),
        p_suffix(a),
        p_req(b),
    ensures
        match r {
            Ok((rest, v2)) => seq_snd_ok(a, b, input, rest, v2),
            Err(e) => seq_err(a, b, input, e),
        },
{
    match a(input) {
        Ok((mid, v1)) => {
            proof {
                Span::lemma_suffix_wf(mid, input);
            }
            match b(mid) {
                Ok((rest, v2)) => {
                    proof {
                        assert(call_ensures(a, (input,), Ok((mid, v1))));
                        assert(call_ensures(b, (mid,), Ok((rest, v2))));
                        assert(seq_snd_ok(a, b, input, rest, v2));
                    }
                    Ok((rest, v2))
                },
                Err(e) => {
                    proof {
                        assert(call_ensures(a, (input,), Ok((mid, v1))));
                        assert(call_ensures(
                            b,
                            (mid,),
                            Result::<(Span<'a>, O2), FrontEndError>::Err(e),
                        ));
                        assert(seq_err(a, b, input, e));
                    }
                    Err(e)
                },
            }
        },
        Err(e) => {
            proof {
                assert(call_ensures(a, (input,), Result::<(Span<'a>, O1), FrontEndError>::Err(e)));
                assert(seq_err(a, b, input, e));
            }
            Err(e)
        },
    }
}

/// `a` succeeded on `input` with `v1`, and `b` on what it left, leaving
/// `rest`; only `a`'s value is kept.
pub open spec fn seq_fst_ok<'a, O1, O2, A: Fn(Span<'a>) -> PResult<'a, O1>, B: Fn(Span<'a>) -> PResult<
    'a,
    O2,
>>(a: A, b: B, input: Span<'a>, rest: Span<'a>, v1: O1) -> bool {
    exists|mid: Span<'a>, v2: O2|
        #[trigger] call_ensures(a, (input,), Ok((mid, v1))) && #[trigger] call_ensures(
            b,
            (mid,),
            Ok((rest, v2)),
        )
}

/// Runs `a` then `b`, returning only `a`'s value.
pub fn succeeded<'a, O1, O2, A: Fn(Span<'a>) -> PResult<'a, O1>, B: Fn(Span<'a>) -> PResult<
    'a,
    O2,
>>(a: A, b: B, input: Span<'a>) -> (r: PResult<'a, O1>)
    requires
        input.wf(),
        call_requires(a, (input,)),
        p_suffix(a),
        p_req(b),
    ensures
        match r {
            Ok((rest, v1)) => seq_fst_ok(a, b, input, rest, v1),
            Err(e) => seq_err(a, b, input, e),
        },
{
    match a(input) {
        Ok((mid, v1)) => {
            proof {
                Span::lemma_suffix_wf(mid, input);
            }
            match b(mid) {
                Ok((rest, v2)) => {
                    proof {
                        assert(call_ensures(a, (input,), Ok((mid, v1))));
                        assert(call_ensures(b, (mid,), Ok((rest, v2))));
                        assert(seq_fst_ok(a, b, input, rest, v1));
                    }
                    Ok((rest, v1))
                },
                Err(e) => {
                    proof {
                        assert(call_ensures(a, (input,), Ok((mid, v1))));
                        assert(call_ensures(
                            b,
                            (mid,),
                            Result::<(Span<'a>, O2), FrontEndError>::Err(e),
                        ));
                        assert(seq_err(a, b, input, e));
                    }
                    Err(e)
                },
            }
        },
        Err(e) => {
            proof {
                assert(call_ensures(a, (input,), Result::<(Span<'a>, O1), FrontEndError>::Err(e)));
                assert(seq_err(a, b, input, e));
            }
            Err(e)
        },
    }
}

/// The failure `e` arose while sequencing `a`, the separator and `b` on
/// `input`: either `a` failed with it, or `a` succeeded and the separator
/// failed with it, or both succeeded and `b` failed with it; the first
/// sub-failure propagates unchanged.
pub open spec fn seq_sep_err<'a, O1, OS, O2, A: Fn(Span<'a>) -> PResult<'a, O1>, S: Fn(
    Span<'a>,
) -> PResult<'a, OS>, B: Fn(Span<'a>) -> PResult<'a, O2>>(
    a: A,
    sep: S,
    b: B,
    input: Span<'a>,
    e: FrontEndError,
) -> bool {
    ||| call_ensures(a, (input,), Result::<(Span<'a>, O1), FrontEndError>::Err(e))
    ||| exists|m1: Span<'a>, v1: O1|
        #[trigger] call_ensures(a, (input,), Ok((m1, v1))) && call_ensures(
            sep,
            (m1,),
            Result::<(Span<'a>, OS), FrontEndError>::Err(e),
        )
    ||| exists|m1: Span<'a>, v1: O1, m2: Span<'a>, vs: OS|
        #[trigger] call_ensures(a, (input,), Ok((m1, v1))) && #[trigger] call_ensures(
            sep,
            (m1,),
            Ok((m2, vs)),
        ) && call_ensures(b, (m2,), Result::<(Span<'a>, O2), FrontEndError>::Err(e))
}

/// `a`, the separator and `b` succeeded in order on `input`, leaving
/// `rest`, with `a`'s and `b`'s values being `v1` and `v2`.
pub open spec fn seq_sep_ok<'a, O1, OS, O2, A: Fn(Span<'a>) -> PResult<'a, O1>, S: Fn(
    Span<'a>,
) -> PResult<'a, OS>, B: Fn(Span<'a>) -> PResult<'a, O2>>(
    a: A,
    sep: S,
    b: B,
    input: Span<'a>,
    rest: Span<'a>,
    v1: O1,
    v2: O2,
) -> bool {
    exists|m1: Span<'a>, m2: Span<'a>, vs: OS|
        #[trigger] call_ensures(a, (input,), Ok((m1, v1))) && #[trigger] call_ensures(
            sep,
            (m1,),
            Ok((m2, vs)),
        ) && call_ensures(b, (m2,), Ok((rest, v2)))
}

/// Runs `a`, a separator, then `b`, returning `a`'s and `b`'s values; the
/// first sub-failure propagates unchanged.
pub fn sep_pair<'a, O1, OS, O2, A: Fn(Span<'a>) -> PResult<'a, O1>, S: Fn(Span<'a>) -> PResult<
    'a,
    OS,
>, B: Fn(Span<'a>) -> PResult<'a, O2>>(a: A, sep: S, b: B, input: Span<'a>) -> (r: PResult<
    'a,
    (O1, O2),
>)
    requires
        input.wf(),
        call_requires(a, (input,)),
        p_suffix(a),
        p_req(sep),
        p_suffix(sep),
        p_req(b),
    ensures
        match r {
            Ok((rest, (v1, v2))) => seq_sep_ok(a, sep, b, input, rest, v1, v2),
            Err(e) => seq_sep_err(a, sep, b, input, e),
        },
{
    match a(input) {
        Ok((m1, v1)) => {
            proof {
                Span::lemma_suffix_wf(m1, input);
            }
            match sep(m1) {
                Ok((m2, vs)) => {
                    proof {
                        Span::lemma_suffix_wf(m2, m1);
                    }
                    match b(m2) {
                        Ok((rest, v2)) => {
                            proof {
                                assert(call_ensures(a, (input,), Ok((m1, v1))));
                                assert(call_ensures(sep, (m1,), Ok((m2, vs))));
                                assert(call_ensures(b, (m2,), Ok((rest, v2))));
                                assert(seq_sep_ok(a, sep, b, input, rest, v1, v2));
                            }
                            Ok((rest, (v1, v2)))
                        },
                        Err(e) => {
                            proof {
                                assert(call_ensures(a, (input,), Ok((m1, v1))));
                                assert(call_ensures(sep, (m1,), Ok((m2, vs))));
                                assert(call_ensures(
                                    b,
                                    (m2,),
                                    Result::<(Span<'a>, O2), FrontEndError>::Err(e),
                                ));
                                assert(seq_sep_err(a, sep, b, input, e));
                            }
                            Err(e)
                        },
                    }
                },
                Err(e) => {
                    proof {
                        assert(call_ensures(a, (input,), Ok((m1, v1))));
                        assert(call_ensures(
                            sep,
                            (m1,),
                            Result::<(Span<'a>, OS), FrontEndError>::Err(e),
                        ));
                        assert(seq_sep_err(a, sep, b, input, e));
                    }
                    Err(e)
                },
            }
        },
        Err(e) => {
            proof {
                assert(call_ensures(a, (input,), Result::<(Span<'a>, O1), FrontEndError>::Err(e)));
                assert(seq_sep_err(a, sep, b, input, e));
            }
            Err(e)
        },
    }
}

/// The front of `toks` carries exactly the kinds in `kinds`.
pub open spec fn kinds_match<'a>(toks: Seq<crate::lexer::Token<'a>>, kinds: Seq<TokenKind>) -> bool {
    &&& kinds.len() <= toks.len()
    &&& forall|i: int| 0 <= i < kinds.len() ==> (#[trigger] toks[i]).kind == kinds[i]
}

/// Matches the literal sequence of token kinds at the front of the input,
/// consuming it on success; a mismatch is a `NoMatch` failure that lets
/// alternation continue.
pub fn tag<'a>(kinds: &[TokenKind], input: Span<'a>) -> (r: PResult<'a, Span<'a>>)
    requires
        input.wf(),
    ensures
        match r {
            Ok((rest, m)) => {
                &&& kinds_match(input.span@, kinds@)
                &&& rest.position == input.position + kinds@.len()
                &&& rest.span@ == input.span@.subrange(kinds@.len() as int, input.span@.len() as int)
                &&& rest.suffix_of(input)
                &&& rest.wf()
                &&& m.position == input.position
                &&& m.span@ == input.span@.subrange(0, kinds@.len() as int)
                &&& m.wf()
            },
            Err(e) => {
                &&& !kinds_match(input.span@, kinds@)
                &&& e.kind == crate::error::FrontEndErrorKind::ParseError(ParseErrorKind::NoMatch)
                &&& !e.spec_is_fatal()
            },
        },
{
    if kinds.len() > input.len() {
        return Err(
            FrontEndError::from_error_kind(
                ParseErrorKind::NoMatch,
                Severity::Error,
                get_text_range(input),
            ),
        );
    }
    let mut i: usize = 0;
    while i < kinds.len()
        invariant
            input.wf(),
            kinds@.len() <= input.span@.len(),
            i <= kinds@.len(),
            forall|j: int| 0 <= j < i ==> (#[trigger] input.span@[j]).kind == kinds@[j],
        decreases kinds@.len() - i,
    {
        let a = input.span[i].kind;
        let b = kinds[i];
        if !kind_eq(a, b) {
            return Err(
                FrontEndError::from_error_kind(
                    ParseErrorKind::NoMatch,
                    Severity::Error,
                    get_text_range(input),
                ),
            );
        }
        i = i + 1;
    }
    match input.split(kinds.len()) {
        Ok((rest, m)) => Ok((rest, m)),
        Err(_) => {
            proof {
                assert(false);
            }
            Err(
                FrontEndError::from_error_kind(
                    ParseErrorKind::NoMatch,
                    Severity::Error,
                    get_text_range(input),
                ),
            )
        },
    }
}

/// Equality of two token kinds.
pub fn kind_eq(a: TokenKind, b: TokenKind) -> (r: bool)
    ensures
        r == (a == b),
{
    a == b
}

/// Consumes one token, whatever it is; fails on empty input.
pub fn any<'a>(input: Span<'a>) -> (r: PResult<'a, Span<'a>>)
    requires
        input.wf(),
    ensures
        match r {
            Ok((rest, m)) => {
                &&& input.span@.len() >= 1
                &&& rest.position == input.position + 1
                &&& rest.span@ == input.span@.subrange(1, input.span@.len() as int)
                &&& rest.suffix_of(input)
                &&& rest.wf()
                &&& m.position == input.position
                &&& m.span@ == input.span@.subrange(0, 1)
            },
            Err(e) => {
                &&& input.span@.len() == 0
                &&& e.kind == crate::error::FrontEndErrorKind::ParseError(
                    ParseErrorKind::IllegalSplitIndex,
                )
                &&& !e.spec_is_fatal()
            },
        },
{
    match input.split(1) {
        Ok((rest, m)) => Ok((rest, m)),
        Err(k) => Err(FrontEndError::from_error_kind(k, Severity::Error, get_text_range(input))),
    }
}

/// Matches one token whose kind is any of `kinds`, consuming it and
/// returning the kind that matched.
pub fn is_a<'a>(kinds: &[TokenKind], input: Span<'a>) -> (r: PResult<'a, TokenKind>)
    requires
        input.wf(),
    ensures
        match r {
            Ok((rest, k)) => {
                &&& input.span@.len() >= 1
                &&& input.span@[0].kind == k
                &&& kinds@.contains(k)
                &&& rest.position == input.position + 1
                &&& rest.span@ == input.span@.subrange(1, input.span@.len() as int)
                &&& rest.suffix_of(input)
                &&& rest.wf()
            },
            Err(e) => {
                &&& (input.span@.len() == 0 || !kinds@.contains(input.span@[0].kind))
                &&& e.kind == crate::error::FrontEndErrorKind::ParseError(ParseErrorKind::NoMatch)
                &&& !e.spec_is_fatal()
            },
        },
{
    if input.len() == 0 {
        return Err(
            FrontEndError::from_error_kind(
                ParseErrorKind::NoMatch,
                Severity::Error,
                get_text_range(input),
            ),
        );
    }
    let k = input.span[0].kind;
    let mut i: usize = 0;
    while i < kinds.len()
        invariant
            input.wf(),
            input.span@.len() >= 1,
            k == input.span@[0].kind,
            i <= kinds@.len(),
            forall|j: int| 0 <= j < i ==> kinds@[j] != k,
        decreases kinds@.len() - i,
    {
        if kind_eq(kinds[i], k) {
            match input.drop(1) {
                Ok(rest) => {
                    return Ok((rest, k));
                },
                Err(_) => {
                    proof {
                        assert(false);
                    }
                },
            }
        }
        i = i + 1;
    }
    Err(
        FrontEndError::from_error_kind(
            ParseErrorKind::NoMatch,
            Severity::Error,
            get_text_range(input),
        ),
    )
}

/// Splits the input before the first token on which `pred` holds. An empty
/// input succeeds empty-handed; a span with no matching token fails with
/// `UntilNotMatched`.
pub fn until<'a, F: Fn(crate::lexer::Token<'a>) -> bool>(pred: F, input: Span<'a>) -> (r: PResult<
    'a,
    Span<'a>,
>)
    requires
        input.wf(),
        forall|t: crate::lexer::Token<'a>| #[trigger] call_requires(pred, (t,)),
    ensures
        match r {
            Ok((rest, m)) => {
                ||| (input.span@.len() == 0 && rest == input && m == input)
                ||| exists|k: int|
                    {
                        &&& 0 <= k < input.span@.len()
                        &&& #[trigger] call_ensures(pred, (input.span@[k],), true)
                        &&& forall|j: int|
                            0 <= j < k ==> #[trigger] call_ensures(
                                pred,
                                (input.span@[j],),
                                false,
                            )
                        &&& rest.position == input.position + k
                        &&& rest.span@ == input.span@.subrange(k, input.span@.len() as int)
                        &&& m.position == input.position
                        &&& m.span@ == input.span@.subrange(0, k)
                    }
            },
            Err(e) => {
                &&& input.span@.len() > 0
                &&& e.kind == crate::error::FrontEndErrorKind::ParseError(
                    ParseErrorKind::UntilNotMatched,
                )
                &&& !e.spec_is_fatal()
                &&& forall|k: int|
                    0 <= k < input.span@.len() ==> #[trigger] call_ensures(
                        pred,
                        (input.span@[k],),
                        false,
                    )
            },
        },
{
    if input.len() == 0 {
        return Ok((input, input));
    }
    let mut i: usize = 0;
    while i < input.len()
        invariant
            input.wf(),
            i <= input.span@.len(),
            forall|t: crate::lexer::Token<'a>| #[trigger] call_requires(pred, (t,)),
            forall|k: int|
                0 <= k < i ==> #[trigger] call_ensures(pred, (input.span@[k],), false),
        decreases input.span@.len() - i,
    {
        let hit = pred(input.span[i]);
        if hit {
            proof {
                assert(call_ensures(pred, (input.span@[i as int],), true));
            }
            match input.split(i) {
                Ok((rest, m)) => {
                    return Ok((rest, m));
                },
                Err(_) => {
                    proof {
                        assert(false);
                    }
                },
            }
        }
        i = i + 1;
    }
    Err(
        FrontEndError::from_error_kind(
            ParseErrorKind::UntilNotMatched,
            Severity::Error,
            get_text_range(input),
        ),
    )
}

/// What a successful wrapped parse means: an opening tag, a run of `p`, and
/// a closing tag were consumed in order.
pub open spec fn wrapped_ok<'a, O, F: Fn(Span<'a>) -> PResult<'a, O>>(
    open: TokenKind,
    p: F,
    close: TokenKind,
    input: Span<'a>,
    rest: Span<'a>,
    v: O,
) -> bool {
    &&& input.span@.len() >= 1
    &&& input.span@[0].kind == open
    &&& exists|s1: Span<'a>, mid: Span<'a>|
        {
            &&& s1.position == input.position + 1
            &&& s1.span@ == input.span@.subrange(1, input.span@.len() as int)
            &&& #[trigger] call_ensures(p, (s1,), Ok((mid, v)))
            &&& mid.span@.len() >= 1
            &&& mid.span@[0].kind == close
            &&& rest.position == mid.position + 1
            &&& rest.span@ == mid.span@.subrange(1, mid.span@.len() as int)
        }
}

/// An opening tag, `p`, then a closing tag; the value is `p`'s. Failures
/// propagate unchanged.
pub fn wrapped<'a, O, F: Fn(Span<'a>) -> PResult<'a, O>>(
    open: TokenKind,
    p: F,
    close: TokenKind,
    input: Span<'a>,
) -> (r: PResult<'a, O>)
    requires
        input.wf(),
        p_req(p),
        p_suffix(p),
    ensures
        match r {
            Ok((rest, v)) => wrapped_ok(open, p, close, input, rest, v),
            Err(e) => wrapped_err(open, p, close, input, e, false),
        },
{
    let ko: [TokenKind; 1] = [open];
    let (s1, _) = match tag(&ko, input) {
        Ok(x) => x,
        Err(e) => {
            return Err(e);
        },
    };
    match p(s1) {
        Ok((mid, v)) => {
            proof {
                Span::lemma_suffix_wf(mid, s1);
            }
            let kc: [TokenKind; 1] = [close];
            match tag(&kc, mid) {
                Ok((rest, _)) => {
                    proof {
                        assert(call_ensures(p, (s1,), Ok((mid, v))));
                        assert(wrapped_ok(open, p, close, input, rest, v));
                    }
                    Ok((rest, v))
                },
                Err(e) => {
                    proof {
                        assert(call_ensures(p, (s1,), Ok((mid, v))));
                        assert(wrapped_err(open, p, close, input, e, false));
                    }
                    Err(e)
                },
            }
        },
        Err(e) => {
            proof {
                assert(call_ensures(p, (s1,), Result::<(Span<'a>, O), FrontEndError>::Err(e)));
                assert(wrapped_err(open, p, close, input, e, false));
            }
            Err(e)
        },
    }
}

/// A failure of a wrapped parse, with the stage it arose at: the opening
/// tag did not match, `p` itself failed, or the closing tag was missing
/// after `p` succeeded. In the last case `escalated` says whether the error
/// was made fatal with kind `MissingWrapTerminator`.
pub open spec fn wrapped_err<'a, O, F: Fn(Span<'a>) -> PResult<'a, O>>(
    open: TokenKind,
    p: F,
    close: TokenKind,
    input: Span<'a>,
    e: FrontEndError,
    escalated: bool,
) -> bool {
    ||| (!(input.span@.len() >= 1 && input.span@[0].kind == open) && e.kind
        == crate::error::FrontEndErrorKind::ParseError(ParseErrorKind::NoMatch)
        && !e.spec_is_fatal())
    ||| exists|s1: Span<'a>|
        {
            &&& s1.position == input.position + 1
            &&& s1.span@ == input.span@.subrange(1, input.span@.len() as int)
            &&& #[trigger] call_ensures(p, (s1,), Result::<(Span<'a>, O), FrontEndError>::Err(e))
        }
    ||| exists|s1: Span<'a>, mid: Span<'a>, v: O|
        {
            &&& s1.position == input.position + 1
            &&& s1.span@ == input.span@.subrange(1, input.span@.len() as int)
            &&& #[trigger] call_ensures(p, (s1,), Ok((mid, v)))
            &&& !(mid.span@.len() >= 1 && mid.span@[0].kind == close)
            &&& if escalated {
                e.spec_is_fatal() && e.kind == crate::error::FrontEndErrorKind::ParseError(
                    ParseErrorKind::MissingWrapTerminator,
                )
            } else {
                e.kind == crate::error::FrontEndErrorKind::ParseError(ParseErrorKind::NoMatch)
                    && !e.spec_is_fatal()
            }
        }
}

/// As `wrapped`, but a missing closing tag is escalated to a fatal
/// `MissingWrapTerminator` failure instead of a plain mismatch.
pub fn wrapped_cut<'a, O, F: Fn(Span<'a>) -> PResult<'a, O>>(
    open: TokenKind,
    p: F,
    close: TokenKind,
    input: Span<'a>,
) -> (r: PResult<'a, O>)
    requires
        input.wf(),
        p_req(p),
        p_suffix(p),
    ensures
        match r {
            Ok((rest, v)) => wrapped_ok(open, p, close, input, rest, v),
            Err(e) => wrapped_err(open, p, close, input, e, true),
        },
{
    let ko: [TokenKind; 1] = [open];
    let (s1, _) = match tag(&ko, input) {
        Ok(x) => x,
        Err(e) => {
            return Err(e);
        },
    };
    match p(s1) {
        Ok((mid, v)) => {
            proof {
                Span::lemma_suffix_wf(mid, s1);
            }
            let kc: [TokenKind; 1] = [close];
            match tag(&kc, mid) {
                Ok((rest, _)) => {
                    proof {
                        assert(call_ensures(p, (s1,), Ok((mid, v))));
                        assert(wrapped_ok(open, p, close, input, rest, v));
                    }
                    Ok((rest, v))
                },
                Err(e0) => {
                    let e = e0.set_severity(Severity::Fatal).change_kind(
                        ParseErrorKind::MissingWrapTerminator,
                    );
                    proof {
                        assert(call_ensures(p, (s1,), Ok((mid, v))));
                        assert(wrapped_err(open, p, close, input, e, true));
                    }
                    Err(e)
                },
            }
        },
        Err(e) => {
            proof {
                assert(call_ensures(p, (s1,), Result::<(Span<'a>, O), FrontEndError>::Err(e)));
                assert(wrapped_err(open, p, close, input, e, true));
            }
            Err(e)
        },
    }
}

/// What `many_until` guarantees on success: the outputs chain from the
/// input to the remaining span, which is where `pred` first matched.
pub open spec fn many_until_ok<'a, O, O2, F: Fn(Span<'a>) -> PResult<'a, O>, G: Fn(
    Span<'a>,
) -> PResult<'a, O2>>(p: F, pred: G, input: Span<'a>, rest: Span<'a>, out: Seq<O>) -> bool {
    &&& rest.suffix_of(input)
    &&& rest.wf()
    &&& rest.span@.len() > 0
    &&& parse_chain(p, input, rest, out)
    &&& exists|s2: Span<'a>, v2: O2| #[trigger] call_ensures(pred, (rest,), Ok((s2, v2)))
}

/// What `many_until` guarantees on failure: a chain of `p` successes led to
/// a span where either the input ran out before `pred` matched, or `pred`
/// failed fatally, or `p` itself failed.
pub open spec fn many_until_err<'a, O, O2, F: Fn(Span<'a>) -> PResult<'a, O>, G: Fn(
    Span<'a>,
) -> PResult<'a, O2>>(p: F, pred: G, input: Span<'a>, e: FrontEndError) -> bool {
    exists|s: Span<'a>, out: Seq<O>|
        #[trigger] parse_chain(p, input, s, out) && {
            ||| (s.span@.len() == 0 && e.kind == crate::error::FrontEndErrorKind::ParseError(
                ParseErrorKind::UntilNotMatched,
            ) && !e.spec_is_fatal())
            ||| (e.spec_is_fatal() && call_ensures(
                pred,
                (s,),
                Result::<(Span<'a>, O2), FrontEndError>::Err(e),
            ))
            ||| call_ensures(p, (s,), Result::<(Span<'a>, O), FrontEndError>::Err(e))
        }
}

/// Repeats `p` while `pred` does not match, stopping before the tokens
/// `pred` matches. Running out of input before `pred` matches is a
/// distinct `UntilNotMatched` failure.
pub fn many_until<'a, O, O2, F: Fn(Span<'a>) -> PResult<'a, O>, G: Fn(Span<'a>) -> PResult<
    'a,
    O2,
>>(p: F, pred: G, input: Span<'a>) -> (r: PResult<'a, Vec<O>>)
    requires
        input.wf(),
        p_req(p),
        p_progress(p),
        p_req(pred),
    ensures
        match r {
            Ok((rest, out)) => many_until_ok(p, pred, input, rest, out@),
            Err(e) => many_until_err(p, pred, input, e),
        },
{
    let mut i = input;
    let mut out: Vec<O> = Vec::new();
    proof {
        assert(input.span@ =~= input.span@.subrange(0, input.span@.len() as int));
    }
    loop
        invariant
            input.wf(),
            p_req(p),
            p_progress(p),
            p_req(pred),
            i.wf(),
            i.suffix_of(input),
            parse_chain(p, input, i, out@),
        decreases i.span@.len(),
    {
        if i.len() == 0 {
            return Err(
                FrontEndError::from_error_kind(
                    ParseErrorKind::UntilNotMatched,
                    Severity::Error,
                    get_text_range(i),
                ),
            );
        }
        match pred(i) {
            Ok((s2, v2)) => {
                proof {
                    assert(call_ensures(pred, (i,), Ok((s2, v2))));
                }
                return Ok((i, out));
            },
            Err(e) => {
                if e.is_fatal() {
                    return Err(e);
                }
            },
        }
        match p(i) {
            Ok((rest, v)) => {
                proof {
                    assert(parse_chain(p, input, i, out@.push(v).drop_last())) by {
                        assert(out@.push(v).drop_last() =~= out@);
                    }
                    assert(out@.push(v).last() == v);
                    Span::lemma_suffix_trans(rest, i, input);
                    Span::lemma_suffix_wf(rest, i);
                }
                out.push(v);
                i = rest;
            },
            Err(e) => {
                return Err(e);
            },
        }
    }
}

} // verus!
