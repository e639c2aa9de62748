//! Properties of whole scans, stated over the model in `grammar`.
use vstd::prelude::*;
use crate::grammar::{
    char_at, comment_scan, diagnostics, eof_token, errors_from, find_from, lemma_step_bounds,
    is_alpha, is_digit, newlines, operator_kinds, scanned, single_kind, step, tokens_from,
    ScanError,
};
use crate::token::TokenView;

verus! {

/// Whether positions `a` to `b` of `src` hold one piece of whitespace or
/// comment: a blank (space, tab, carriage return, newline); a line comment
/// that runs to a newline or the end of the source; or a block comment whose
/// nesting returns to zero exactly at `b`.
pub open spec fn is_trivia_piece(src: Seq<char>, a: int, b: int) -> bool {
    ||| (b == a + 1 && 0 <= a < src.len() && (src[a] == ' ' || src[a] == '\r' || src[a] == '\t'
        || src[a] == '\n'))
    ||| (char_at(src, a, '/') && char_at(src, a + 1, '/') && a + 2 <= b <= src.len() && (forall|
        k: int,
    |
        a + 2 <= k < b ==> src[k] != '\n') && (b == src.len() || src[b] == '\n'))
    ||| (char_at(src, a, '/') && char_at(src, a + 1, '*') && comment_scan(src, a + 2, 1) == (
        b,
        true,
    ))
}

/// Whether `cuts` splits `src` into pieces of whitespace and comments only.
pub open spec fn is_trivia_split(src: Seq<char>, cuts: Seq<int>) -> bool {
    &&& cuts.len() >= 1
    &&& cuts[0] == 0
    &&& cuts.last() == src.len()
    &&& forall|i: int|
        0 <= i < cuts.len() - 1 ==> #[trigger] is_trivia_piece(src, cuts[i], cuts[i + 1])
}

proof fn lemma_find_newline(src: Seq<char>, i: int, b: int)
    requires
        0 <= i <= b <= src.len(),
        forall|k: int| i <= k < b ==> src[k] != '\n',
        b == src.len() || src[b] == '\n',
    ensures
        find_from(src, i, '\n') == b,
    decreases b - i,
{
    if i < b {
        lemma_find_from_step(src, i);
        lemma_find_newline(src, i + 1, b);
    }
}

proof fn lemma_find_from_step(src: Seq<char>, i: int)
    requires
        0 <= i < src.len(),
        src[i] != '\n',
    ensures
        find_from(src, i, '\n') == find_from(src, i + 1, '\n'),
{
}

proof fn lemma_trivia_from(src: Seq<char>, cuts: Seq<int>, i: int)
    requires
        is_trivia_split(src, cuts),
        0 <= i < cuts.len(),
    ensures
        tokens_from(src, cuts[i]) == Seq::<TokenView>::empty(),
        errors_from(src, cuts[i]) == Seq::<ScanError>::empty(),
    decreases cuts.len() - i,
{
    if i < cuts.len() - 1 {
        let a = cuts[i];
        let b = cuts[i + 1];
        assert(is_trivia_piece(src, a, b));
        if char_at(src, a, '/') && char_at(src, a + 1, '/') && !(b == a + 1) {
            lemma_find_newline(src, a + 2, b);
        }
        lemma_trivia_from(src, cuts, i + 1);
        lemma_step_bounds(src, a);
        assert(step(src, a).end == b);
        assert(tokens_from(src, a) =~= tokens_from(src, b));
        assert(errors_from(src, a) =~= errors_from(src, b));
    }
}

/// A source made only of whitespace and comments scans to the end-of-input
/// token alone, with no diagnostics.
pub proof fn law_trivia_scans_to_eof(src: Seq<char>, cuts: Seq<int>)
    requires
        is_trivia_split(src, cuts),
    ensures
        scanned(src) == seq![eof_token(src)],
        diagnostics(src) == Seq::<ScanError>::empty(),
{
    lemma_trivia_from(src, cuts, 0);
    assert(scanned(src) =~= seq![eof_token(src)]);
}

/// A block comment whose nesting returns to zero emits no token and no
/// diagnostic: scanning resumes where it closes.
pub proof fn law_balanced_comment_is_silent(src: Seq<char>, pos: int, end: int)
    requires
        char_at(src, pos, '/'),
        char_at(src, pos + 1, '*'),
        comment_scan(src, pos + 2, 1) == (end, true),
    ensures
        tokens_from(src, pos) == tokens_from(src, end),
        errors_from(src, pos) == errors_from(src, end),
{
    lemma_step_bounds(src, pos);
    assert(tokens_from(src, pos) =~= tokens_from(src, end));
    assert(errors_from(src, pos) =~= errors_from(src, end));
}

/// A source that is one balanced block comment scans to the end-of-input
/// token alone, on line one plus the number of newlines in the source.
pub proof fn law_balanced_comment_source(src: Seq<char>)
    requires
        char_at(src, 0, '/'),
        char_at(src, 1, '*'),
        comment_scan(src, 2, 1) == (src.len() as int, true),
    ensures
        scanned(src) == seq![eof_token(src)],
        diagnostics(src) == Seq::<ScanError>::empty(),
        scanned(src)[0].line == 1 + newlines(src),
{
    law_balanced_comment_is_silent(src, 0, src.len() as int);
    assert(scanned(src) =~= seq![eof_token(src)]);
    assert(src.subrange(0, src.len() as int) =~= src);
}

/// The end-of-input token is on line one plus the number of newlines in
/// the source: every newline, in code, strings or comments, counts once.
pub proof fn law_eof_line(src: Seq<char>)
    ensures
        scanned(src).last().line == 1 + newlines(src),
{
    assert(src.subrange(0, src.len() as int) =~= src);
}

/// The lexemes read from position `pos` to the end of `src`, as their
/// start and end positions, including those that yield no token.
pub open spec fn segments_from(src: Seq<char>, pos: int) -> Seq<(int, int)>
    decreases src.len() - pos,
{
    if 0 <= pos < src.len() {
        proof {
            lemma_step_bounds(src, pos);
        }
        seq![(pos, step(src, pos).end)] + segments_from(src, step(src, pos).end)
    } else {
        seq![]
    }
}

/// The source text of each segment, joined in order.
pub open spec fn texts(src: Seq<char>, segs: Seq<(int, int)>) -> Seq<char>
    decreases segs.len(),
{
    if segs.len() == 0 {
        seq![]
    } else {
        src.subrange(segs[0].0, segs[0].1) + texts(src, segs.drop_first())
    }
}

/// The source text of the segments that yield a token, joined in order.
pub open spec fn significant(src: Seq<char>, segs: Seq<(int, int)>) -> Seq<char>
    decreases segs.len(),
{
    if segs.len() == 0 {
        seq![]
    } else {
        let own = if step(src, segs[0].0).kind is Some {
            src.subrange(segs[0].0, segs[0].1)
        } else {
            seq![]
        };
        own + significant(src, segs.drop_first())
    }
}

/// The lexemes of `ts`, joined in order.
pub open spec fn joined(ts: Seq<TokenView>) -> Seq<char>
    decreases ts.len(),
{
    if ts.len() == 0 {
        seq![]
    } else {
        ts[0].lexeme + joined(ts.drop_first())
    }
}

/// Whether positions `a` to `b` hold text that yields no token: a blank, a
/// comment, a string left open to the end of the source, or one character
/// that starts no lexeme.
pub open spec fn is_skipped(src: Seq<char>, a: int, b: int) -> bool {
    ||| (b == a + 1 && (src[a] == ' ' || src[a] == '\r' || src[a] == '\t' || src[a] == '\n'))
    ||| (char_at(src, a, '/') && (char_at(src, a + 1, '/') || char_at(src, a + 1, '*')))
    ||| (char_at(src, a, '"') && b == src.len())
    ||| (b == a + 1 && single_kind(src[a]) is None && operator_kinds(src[a]) is None && src[a]
        != '/' && src[a] != '"' && !is_digit(src[a]) && !is_alpha(src[a]))
}

proof fn lemma_round_trip_from(src: Seq<char>, pos: int)
    requires
        0 <= pos <= src.len(),
    ensures
        texts(src, segments_from(src, pos)) == src.subrange(pos, src.len() as int),
        joined(tokens_from(src, pos)) == significant(src, segments_from(src, pos)),
        forall|k: int|
            0 <= k < segments_from(src, pos).len() ==> pos <= (#[trigger] segments_from(
                src,
                pos,
            )[k]).0 < src.len(),
        forall|k: int|
            0 <= k < segments_from(src, pos).len() && step(
                src,
                (#[trigger] segments_from(src, pos)[k]).0,
            ).kind is None ==> is_skipped(src, segments_from(src, pos)[k].0, segments_from(
                src,
                pos,
            )[k].1),
    decreases src.len() - pos,
{
    if pos < src.len() {
        lemma_step_bounds(src, pos);
        let e = step(src, pos).end;
        lemma_round_trip_from(src, e);
        let segs = segments_from(src, pos);
        let rest = segments_from(src, e);
        assert(segs.drop_first() =~= rest);
        assert(src.subrange(pos, e) + src.subrange(e, src.len() as int) =~= src.subrange(
            pos,
            src.len() as int,
        ));
        let toks = tokens_from(src, pos);
        if step(src, pos).kind is Some {
            assert(toks.drop_first() =~= tokens_from(src, e));
        } else {
            assert(toks =~= tokens_from(src, e));
            assert(significant(src, segs) =~= significant(src, rest));
        }
        assert forall|k: int|
            0 <= k < segs.len() && step(src, (#[trigger] segs[k]).0).kind is None implies is_skipped(
            src,
            segs[k].0,
            segs[k].1,
        ) by {
            if k > 0 {
                assert(segs[k] == rest[k - 1]);
            }
        }
        assert forall|k: int| 0 <= k < segs.len() implies pos <= (#[trigger] segs[k]).0
            < src.len() by {
            if k > 0 {
                assert(segs[k] == rest[k - 1]);
            }
        }
    }
}

/// Scanning loses and reorders nothing: its lexemes, including those that
/// yield no token, tile the source in order; the lexemes of the tokens,
/// joined, are the source with the skipped lexemes taken out; and each
/// skipped lexeme is whitespace, a comment, or malformed input.
pub proof fn law_round_trip(src: Seq<char>)
    ensures
        texts(src, segments_from(src, 0)) == src,
        joined(scanned(src).drop_last()) == significant(src, segments_from(src, 0)),
        forall|k: int|
            0 <= k < segments_from(src, 0).len() && step(
                src,
                (#[trigger] segments_from(src, 0)[k]).0,
            ).kind is None ==> is_skipped(src, segments_from(src, 0)[k].0, segments_from(
                src,
                0,
            )[k].1),
{
    lemma_round_trip_from(src, 0);
    assert(src.subrange(0, src.len() as int) =~= src);
    assert(scanned(src).drop_last() =~= tokens_from(src, 0));
}

} // verus!
