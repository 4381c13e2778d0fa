//! Structural checks of fixed-shape constructs, and unit hints.
//!
//! Both results are lists of (span, text) entries in the order of the tokens
//! they are keyed by. Over ordered spans each list holds at most one entry
//! per span.

use vstd::prelude::*;
use vstd::string::StringExecFns;
use crate::token::{Token, Span, kind_name, kind_name_str};
use crate::lexer::spans_well_formed;

verus! {

/// The text of a mismatch: the expected kind and the kind that was found.
pub open spec fn mismatch_message(expected: Token, found: Token) -> Seq<char> {
    "Expected "@ + kind_name(expected) + ", found "@ + kind_name(found)
}

/// The diagnostic of a `uniform` anchor at `i`, whose next six tokens must be
/// `{ Int Int Int } ;`. Of several mismatches the last one is reported; of
/// the closing `}` and `;`, a position past the end of the stream is not
/// checked.
pub open spec fn uniform_message(ts: Seq<Token>, i: int) -> Option<Seq<char>> {
    if i + 6 < ts.len() && ts[i + 6] != Token::Semicolon {
        Some(mismatch_message(Token::Semicolon, ts[i + 6]))
    } else if i + 5 < ts.len() && ts[i + 5] != Token::RightBrace {
        Some(mismatch_message(Token::RightBrace, ts[i + 5]))
    } else if !(ts[i + 4] is Int) {
        Some(mismatch_message(Token::Int(0), ts[i + 4]))
    } else if !(ts[i + 3] is Int) {
        Some(mismatch_message(Token::Int(0), ts[i + 3]))
    } else if !(ts[i + 2] is Int) {
        Some(mismatch_message(Token::Int(0), ts[i + 2]))
    } else if ts[i + 1] != Token::LeftBrace {
        Some(mismatch_message(Token::LeftBrace, ts[i + 1]))
    } else {
        None
    }
}

/// The diagnostic keyed by the span of token `i`, if any. An anchor with
/// fewer than four tokens after it is not checked.
pub open spec fn diagnostic_at(ts: Seq<Token>, ss: Seq<Span>, i: int) -> Option<
    (Span, Seq<char>),
> {
    if ts[i] == Token::Uniform && i + 4 < ts.len() {
        match uniform_message(ts, i) {
            Some(m) => Some((ss[i], m)),
            None => None,
        }
    } else {
        None
    }
}

/// The diagnostics of the first `n` tokens, in token order.
pub open spec fn diagnostics_upto(ts: Seq<Token>, ss: Seq<Span>, n: int) -> Seq<(Span, Seq<char>)>
    decreases n,
{
    if n <= 0 {
        seq![]
    } else {
        let d = diagnostics_upto(ts, ss, n - 1);
        match diagnostic_at(ts, ss, n - 1) {
            Some(e) => d.push(e),
            None => d,
        }
    }
}

pub open spec fn diagnostics(ts: Seq<Token>, ss: Seq<Span>) -> Seq<(Span, Seq<char>)> {
    diagnostics_upto(ts, ss, ts.len() as int)
}

/// The unit label of the `j`-th entry of a dimension set.
pub open spec fn unit_label(j: int) -> Seq<char> {
    if j == 0 {
        "kg"@
    } else if j == 1 {
        "m"@
    } else if j == 2 {
        "s"@
    } else if j == 3 {
        "K"@
    } else if j == 4 {
        "mol"@
    } else if j == 5 {
        "A"@
    } else {
        "cd"@
    }
}

/// A `dimensions` anchor at `i` followed by `[`, seven integers and `]`.
pub open spec fn dimensions_shape(ts: Seq<Token>, i: int) -> bool {
    &&& ts[i] == Token::Dimensions
    &&& i + 9 < ts.len()
    &&& ts[i + 1] == Token::LeftBracket
    &&& forall|j: int| 0 <= j < 7 ==> (#[trigger] ts[i + 2 + j] is Int)
    &&& ts[i + 9] == Token::RightBracket
}

/// The hints of token `i`: a unit label on each integer of a dimension set.
pub open spec fn hints_at(ts: Seq<Token>, ss: Seq<Span>, i: int) -> Seq<(Span, Seq<char>)> {
    if dimensions_shape(ts, i) {
        Seq::new(7, |j: int| (ss[i + 2 + j], unit_label(j)))
    } else {
        seq![]
    }
}

/// The hints of the first `n` tokens, in token order.
pub open spec fn hints_upto(ts: Seq<Token>, ss: Seq<Span>, n: int) -> Seq<(Span, Seq<char>)>
    decreases n,
{
    if n <= 0 {
        seq![]
    } else {
        hints_upto(ts, ss, n - 1) + hints_at(ts, ss, n - 1)
    }
}

pub open spec fn hints(ts: Seq<Token>, ss: Seq<Span>) -> Seq<(Span, Seq<char>)> {
    hints_upto(ts, ss, ts.len() as int)
}

/// The entries of a (span, text) list, with each text as its characters.
pub open spec fn entries_view(v: Seq<(Span, String)>) -> Seq<(Span, Seq<char>)> {
    v.map_values(|e: (Span, String)| (e.0, e.1@))
}

/// Non-empty spans in increasing order, pairwise non-overlapping.
pub open spec fn spans_ordered(ss: Seq<Span>) -> bool {
    &&& forall|i: int| 0 <= i < ss.len() ==> #[trigger] ss[i].start < ss[i].end
    &&& forall|i: int, j: int| 0 <= i < j < ss.len() ==> #[trigger] ss[i].end <= #[trigger] ss[j].start
}

/// The spans of a successful scan are ordered.
pub proof fn lemma_scanned_spans_ordered(s: Seq<u8>, ss: Seq<Span>, lo: int, hi: int)
    requires
        spans_well_formed(s, ss, lo, hi),
    ensures
        spans_ordered(ss),
{
}

/// Entries whose keys are non-empty spans in strictly increasing order, so
/// that no two entries share a key.
pub open spec fn keys_ordered(v: Seq<(Span, Seq<char>)>) -> bool {
    &&& forall|i: int| 0 <= i < v.len() ==> #[trigger] v[i].0.start < v[i].0.end
    &&& forall|i: int, j: int| 0 <= i < j < v.len() ==> #[trigger] v[i].0.end <= #[trigger] v[j].0.start
}

proof fn lemma_diagnostics_ordered(ts: Seq<Token>, ss: Seq<Span>, n: int)
    requires
        0 <= n <= ts.len(),
        ts.len() == ss.len(),
        spans_ordered(ss),
    ensures
        keys_ordered(diagnostics_upto(ts, ss, n)),
        forall|i: int, k: int|
            0 <= i < diagnostics_upto(ts, ss, n).len() && n <= k < ss.len() ==> #[trigger] diagnostics_upto(
                ts,
                ss,
                n,
            )[i].0.end <= #[trigger] ss[k].start,
    decreases n,
{
    if n > 0 {
        lemma_diagnostics_ordered(ts, ss, n - 1);
        let d = diagnostics_upto(ts, ss, n - 1);
        if let Some(e) = diagnostic_at(ts, ss, n - 1) {
            let d2 = d.push(e);
            assert(e.0 == ss[n - 1]);
            assert forall|i: int, j: int| 0 <= i < j < d2.len() implies #[trigger] d2[i].0.end
                <= #[trigger] d2[j].0.start by {
                if j == d.len() {
                    assert(d[i].0.end <= ss[n - 1].start);
                } else {
                    assert(d2[i] == d[i] && d2[j] == d[j]);
                }
            }
            assert forall|i: int, k: int|
                0 <= i < d2.len() && n <= k < ss.len() implies #[trigger] d2[i].0.end
                <= #[trigger] ss[k].start by {
                if i < d.len() {
                    assert(d2[i] == d[i]);
                    assert(d[i].0.end <= ss[k].start);
                } else {
                    assert(ss[n - 1].end <= ss[k].start);
                }
            }
        }
    }
}

/// Over ordered spans, the diagnostics are keyed by distinct spans, in order.
pub proof fn lemma_diagnostic_keys_distinct(ts: Seq<Token>, ss: Seq<Span>)
    requires
        ts.len() == ss.len(),
        spans_ordered(ss),
    ensures
        keys_ordered(diagnostics(ts, ss)),
{
    lemma_diagnostics_ordered(ts, ss, ts.len() as int);
}

/// The first token index past every span that has received a hint from the
/// first `n` tokens.
pub open spec fn hint_frontier(ts: Seq<Token>, n: int) -> int
    decreases n,
{
    if n <= 0 {
        0
    } else if dimensions_shape(ts, n - 1) {
        n + 8
    } else {
        hint_frontier(ts, n - 1)
    }
}

proof fn lemma_frontier(ts: Seq<Token>, m: int)
    requires
        0 <= m <= ts.len(),
    ensures
        hint_frontier(ts, m) <= m + 8,
        forall|p: int| m <= p < hint_frontier(ts, m) ==> #[trigger] ts[p] != Token::Dimensions,
    decreases m,
{
    if m > 0 {
        lemma_frontier(ts, m - 1);
        if dimensions_shape(ts, m - 1) {
            assert forall|p: int| m <= p < hint_frontier(ts, m) implies #[trigger] ts[p]
                != Token::Dimensions by {
                if p == m {
                    assert(ts[m] == Token::LeftBracket);
                } else {
                    assert(ts[(m - 1) + 2 + (p - m - 1)] is Int);
                }
            }
        }
    }
}

proof fn lemma_hints_ordered(ts: Seq<Token>, ss: Seq<Span>, n: int)
    requires
        0 <= n <= ts.len(),
        ts.len() == ss.len(),
        spans_ordered(ss),
    ensures
        keys_ordered(hints_upto(ts, ss, n)),
        forall|i: int, k: int|
            0 <= i < hints_upto(ts, ss, n).len() && hint_frontier(ts, n) <= k < ss.len()
                ==> #[trigger] hints_upto(ts, ss, n)[i].0.end <= #[trigger] ss[k].start,
    decreases n,
{
    if n > 0 {
        lemma_hints_ordered(ts, ss, n - 1);
        let d = hints_upto(ts, ss, n - 1);
        let h = hints_at(ts, ss, n - 1);
        let d2 = d + h;
        if dimensions_shape(ts, n - 1) {
            lemma_frontier(ts, n - 1);
            let f = hint_frontier(ts, n - 1);
            assert(f <= n - 1) by {
                if f > n - 1 {
                    assert(ts[n - 1] != Token::Dimensions);
                }
            }
            assert forall|i: int| 0 <= i < d2.len() implies #[trigger] d2[i].0.start
                < d2[i].0.end by {
                if i >= d.len() {
                    assert(d2[i] == h[i - d.len()]);
                    assert(h[i - d.len()].0 == ss[n + 1 + (i - d.len())]);
                } else {
                    assert(d2[i] == d[i]);
                }
            }
            assert forall|i: int, j: int| 0 <= i < j < d2.len() implies #[trigger] d2[i].0.end
                <= #[trigger] d2[j].0.start by {
                if j >= d.len() {
                    let kj = n + 1 + (j - d.len());
                    assert(d2[j] == h[j - d.len()]);
                    assert(h[j - d.len()].0 == ss[kj]);
                    if i >= d.len() {
                        let ki = n + 1 + (i - d.len());
                        assert(d2[i] == h[i - d.len()]);
                        assert(h[i - d.len()].0 == ss[ki]);
                    } else {
                        assert(d2[i] == d[i]);
                        assert(d[i].0.end <= ss[kj].start);
                    }
                } else {
                    assert(d2[i] == d[i] && d2[j] == d[j]);
                }
            }
            assert forall|i: int, k: int|
                0 <= i < d2.len() && hint_frontier(ts, n) <= k < ss.len() implies #[trigger] d2[i].0.end
                <= #[trigger] ss[k].start by {
                if i >= d.len() {
                    let ki = n + 1 + (i - d.len());
                    assert(d2[i] == h[i - d.len()]);
                    assert(h[i - d.len()].0 == ss[ki]);
                } else {
                    assert(d2[i] == d[i]);
                    assert(d[i].0.end <= ss[k].start);
                }
            }
        } else {
            assert(d2 =~= d);
        }
    }
}

/// Over ordered spans, the hints are keyed by distinct spans, in order.
pub proof fn lemma_hint_keys_distinct(ts: Seq<Token>, ss: Seq<Span>)
    requires
        ts.len() == ss.len(),
        spans_ordered(ss),
    ensures
        keys_ordered(hints(ts, ss)),
{
    lemma_hints_ordered(ts, ss, ts.len() as int);
}

fn mismatch(expected: Token, found: Token) -> (r: String)
    ensures
        r@ == mismatch_message(expected, found),
{
    let mut m = "Expected ".to_owned();
    m.append(kind_name_str(expected));
    m.append(", found ");
    m.append(kind_name_str(found));
    m
}

fn uniform_check(ts: &[Token], i: usize) -> (r: Option<String>)
    requires
        i + 4 < ts@.len() <= usize::MAX,
    ensures
        match uniform_message(ts@, i as int) {
            Some(m) => r matches Some(x) && x@ == m,
            None => r is None,
        },
{
    if ts.len() - i > 6 && ts[i + 6] != Token::Semicolon {
        Some(mismatch(Token::Semicolon, ts[i + 6]))
    } else if ts.len() - i > 5 && ts[i + 5] != Token::RightBrace {
        Some(mismatch(Token::RightBrace, ts[i + 5]))
    } else if !matches!(ts[i + 4], Token::Int(_)) {
        Some(mismatch(Token::Int(0), ts[i + 4]))
    } else if !matches!(ts[i + 3], Token::Int(_)) {
        Some(mismatch(Token::Int(0), ts[i + 3]))
    } else if !matches!(ts[i + 2], Token::Int(_)) {
        Some(mismatch(Token::Int(0), ts[i + 2]))
    } else if ts[i + 1] != Token::LeftBrace {
        Some(mismatch(Token::LeftBrace, ts[i + 1]))
    } else {
        None
    }
}

/// Checks each `uniform` construct and reports mismatches, keyed by the span
/// of the `uniform` token.
pub fn get_errors(tokens: &[Token], spans: &[Span]) -> (r: Vec<(Span, String)>)
    requires
        tokens@.len() == spans@.len(),
    ensures
        entries_view(r@) == diagnostics(tokens@, spans@),
        spans_ordered(spans@) ==> keys_ordered(entries_view(r@)),
{
    proof {
        if spans_ordered(spans@) {
            lemma_diagnostic_keys_distinct(tokens@, spans@);
        }
    }
    let mut errors: Vec<(Span, String)> = Vec::new();
    let mut i: usize = 0;
    while i < tokens.len()
        invariant
            tokens@.len() == spans@.len(),
            i <= tokens@.len(),
            entries_view(errors@) == diagnostics_upto(tokens@, spans@, i as int),
        decreases tokens@.len() - i,
    {
        if tokens[i] == Token::Uniform && tokens.len() - i > 4 {
            if let Some(m) = uniform_check(tokens, i) {
                let e = (spans[i], m);
                proof {
                    assert(entries_view(errors@.push(e)) =~= entries_view(errors@).push(
                        (e.0, e.1@),
                    ));
                }
                errors.push(e);
            }
        }
        i = i + 1;
    }
    errors
}

fn unit_label_str(j: usize) -> (r: &'static str)
    ensures
        r@ == unit_label(j as int),
{
    if j == 0 {
        "kg"
    } else if j == 1 {
        "m"
    } else if j == 2 {
        "s"
    } else if j == 3 {
        "K"
    } else if j == 4 {
        "mol"
    } else if j == 5 {
        "A"
    } else {
        "cd"
    }
}

fn dimensions_check(ts: &[Token], i: usize) -> (r: bool)
    requires
        i < ts@.len(),
    ensures
        r == dimensions_shape(ts@, i as int),
{
    if ts[i] != Token::Dimensions || ts.len() - i <= 9 || ts[i + 1] != Token::LeftBracket
        || ts[i + 9] != Token::RightBracket {
        return false;
    }
    let mut j: usize = 0;
    while j < 7
        invariant
            i + 9 < ts@.len() <= usize::MAX,
            j <= 7,
            forall|k: int| 0 <= k < j ==> (#[trigger] ts@[i + 2 + k] is Int),
        decreases 7 - j,
    {
        if !matches!(ts[i + 2 + j], Token::Int(_)) {
            return false;
        }
        j = j + 1;
    }
    true
}

/// Attaches a unit label (kg, m, s, K, mol, A, cd) to each integer of every
/// well-formed `dimensions [ ... ]` set.
pub fn get_inline_hints(tokens: &[Token], spans: &[Span]) -> (r: Vec<(Span, String)>)
    requires
        tokens@.len() == spans@.len(),
    ensures
        entries_view(r@) == hints(tokens@, spans@),
        spans_ordered(spans@) ==> keys_ordered(entries_view(r@)),
{
    proof {
        if spans_ordered(spans@) {
            lemma_hint_keys_distinct(tokens@, spans@);
        }
    }
    let mut out: Vec<(Span, String)> = Vec::new();
    let mut i: usize = 0;
    while i < tokens.len()
        invariant
            tokens@.len() == spans@.len(),
            i <= tokens@.len(),
            entries_view(out@) == hints_upto(tokens@, spans@, i as int),
        decreases tokens@.len() - i,
    {
        let ghost before = entries_view(out@);
        if dimensions_check(tokens, i) {
            let mut j: usize = 0;
            while j < 7
                invariant
                    tokens@.len() == spans@.len(),
                    i + 9 < tokens@.len() <= usize::MAX,
                    j <= 7,
                    entries_view(out@) == before + hints_at(tokens@, spans@, i as int).subrange(
                        0,
                        j as int,
                    ),
                    dimensions_shape(tokens@, i as int),
                decreases 7 - j,
            {
                let e = (spans[i + 2 + j], unit_label_str(j).to_owned());
                proof {
                    let h = hints_at(tokens@, spans@, i as int);
                    assert(h.subrange(0, j + 1) =~= h.subrange(0, j as int).push((e.0, e.1@)));
                    assert(entries_view(out@.push(e)) =~= entries_view(out@).push((e.0, e.1@)));
                }
                out.push(e);
                j = j + 1;
            }
            proof {
                let h = hints_at(tokens@, spans@, i as int);
                assert(h.subrange(0, 7) =~= h);
            }
        } else {
            proof {
                assert(before + hints_at(tokens@, spans@, i as int) =~= before);
            }
        }
        i = i + 1;
    }
    out
}

} // verus!
