//! The hover service: from a cursor position in a text to the documentation
//! of the token under it and the range to highlight.

use vstd::prelude::*;
use vstd::string::StringSliceAdditionalSpecFns;
use crate::token::{Token, Span};
use crate::lexer::{
    lex,
    token_at,
    scan,
    spans_well_formed,
    lemma_scan_well_formed,
    lemma_lex_from_matches,
    lemma_boundary_token_len,
};
use crate::position::{
    line_table,
    offset_of,
    col_of,
    prefix_sum,
    count_characters_per_line,
    index_from_line_and_col,
    col_from_index,
    lemma_line_table_sum,
    lemma_prefix_sum_mono,
    lemma_col_of_bound,
};
use crate::catalog::{definition, get_foam_definition};

verus! {

/// A range of text between two 0-indexed (line, column) positions.
#[derive(Debug, PartialEq, Eq, Clone, Copy, Structural)]
pub struct TextRange {
    pub start_line: usize,
    pub start_col: usize,
    pub end_line: usize,
    pub end_col: usize,
}

/// The hover service; it holds no state between requests.
pub struct Analyzer {}

/// The first span at or after index `k` that contains offset `off`.
pub open spec fn span_index_from(ss: Seq<Span>, off: int, k: int) -> Option<int>
    decreases ss.len() - k,
{
    if k < 0 || k >= ss.len() {
        None
    } else if ss[k].start <= off < ss[k].end {
        Some(k)
    } else {
        span_index_from(ss, off, k + 1)
    }
}

/// What a hover at (`line`, `col`) in the text `s` gives: nothing when the
/// text does not scan or no token contains the position; else the token's
/// documentation and its range on the requested line, as wide as the token.
pub open spec fn hover_result(s: Seq<u8>, line: int, col: int) -> Option<(Seq<char>, TextRange)> {
    match lex(s) {
        Err(_) => None,
        Ok((ts, ss)) => {
            let t = line_table(s);
            match span_index_from(ss, offset_of(t, line, col), 0) {
                None => None,
                Some(k) => {
                    let sc = col_of(t, ss[k].start as int);
                    Some(
                        (
                            definition(ts[k]),
                            TextRange {
                                start_line: line as usize,
                                start_col: sc as usize,
                                end_line: line as usize,
                                end_col: (sc + ss[k].end - ss[k].start) as usize,
                            },
                        ),
                    )
                },
            }
        },
    }
}

proof fn lemma_no_span_past_end(s: Seq<u8>, ss: Seq<Span>, off: int, k: int)
    requires
        0 <= k,
        spans_well_formed(s, ss, 0, s.len() as int),
        off >= s.len(),
    ensures
        span_index_from(ss, off, k) is None,
    decreases ss.len() - k,
{
    if k < ss.len() {
        lemma_no_span_past_end(s, ss, off, k + 1);
    }
}

proof fn lemma_span_found(s: Seq<u8>, ss: Seq<Span>, off: int, i: int, k: int)
    requires
        0 <= i <= k < ss.len(),
        spans_well_formed(s, ss, 0, s.len() as int),
        ss[k].start <= off < ss[k].end,
    ensures
        span_index_from(ss, off, i) == Some(k),
    decreases k - i,
{
    if i < k {
        assert(ss[i].end <= ss[k].start);
        lemma_span_found(s, ss, off, i + 1, k);
    }
}

proof fn lemma_span_gap(s: Seq<u8>, ss: Seq<Span>, off: int, k: int, i: int)
    requires
        0 <= i,
        0 <= k,
        k + 1 < ss.len(),
        spans_well_formed(s, ss, 0, s.len() as int),
        ss[k].end <= off < ss[k + 1].start,
    ensures
        span_index_from(ss, off, i) is None,
    decreases ss.len() - i,
{
    if i < ss.len() {
        if i < k {
            assert(ss[i].end <= ss[k].start);
        } else if i > k + 1 {
            assert(ss[k + 1].end <= ss[i].start);
        }
        lemma_span_gap(s, ss, off, k, i + 1);
    }
}

/// Hovering at a position whose offset lies inside the span of a token gives
/// that token's documentation, and a range on the requested line exactly as
/// wide as the token.
pub proof fn lemma_hover_on_token(s: Seq<u8>, line: int, col: int, k: int)
    requires
        s.len() <= usize::MAX,
        lex(s) is Ok,
        0 <= k < lex(s)->Ok_0.1.len(),
        lex(s)->Ok_0.1[k].start <= offset_of(line_table(s), line, col) < lex(s)->Ok_0.1[k].end,
    ensures
        hover_result(s, line, col) matches Some((doc, range)) && doc == definition(
            lex(s)->Ok_0.0[k],
        ) && range.start_line == line as usize && range.end_line == line as usize
            && range.end_col - range.start_col == lex(s)->Ok_0.1[k].end - lex(s)->Ok_0.1[k].start,
{
    lemma_scan_well_formed(s);
    let ss = lex(s)->Ok_0.1;
    lemma_span_found(s, ss, offset_of(line_table(s), line, col), 0, k);
    lemma_col_of_bound(line_table(s), ss[k].start as int);
}

/// Hovering anywhere inside a `boundary` keyword gives its documentation and
/// a range on the requested line eight columns wide, the keyword's length.
pub proof fn lemma_hover_on_boundary(s: Seq<u8>, line: int, col: int, k: int)
    requires
        s.len() <= usize::MAX,
        lex(s) is Ok,
        0 <= k < lex(s)->Ok_0.1.len(),
        lex(s)->Ok_0.0[k] == Token::Boundary,
        lex(s)->Ok_0.1[k].start <= offset_of(line_table(s), line, col) < lex(s)->Ok_0.1[k].end,
    ensures
        hover_result(s, line, col) matches Some((doc, range)) && doc == definition(Token::Boundary)
            && range.start_line == line as usize && range.end_line == line as usize
            && range.end_col - range.start_col == 8,
{
    lemma_hover_on_token(s, line, col, k);
    lemma_lex_from_matches(s, 0);
    let ss = lex(s)->Ok_0.1;
    lemma_scan_well_formed(s);
    assert(token_at(s, ss[k].start as int) == Some((Token::Boundary, ss[k].end - ss[k].start)));
    lemma_boundary_token_len(s, ss[k].start as int, ss[k].end - ss[k].start);
}

/// Hovering at a position whose offset lies in the gap between two
/// consecutive tokens gives no result.
pub proof fn lemma_hover_between_tokens(s: Seq<u8>, line: int, col: int, k: int)
    requires
        s.len() <= usize::MAX,
        lex(s) is Ok,
        0 <= k && k + 1 < lex(s)->Ok_0.1.len(),
        lex(s)->Ok_0.1[k].end <= offset_of(line_table(s), line, col) < lex(s)->Ok_0.1[k
            + 1].start,
    ensures
        hover_result(s, line, col) is None,
{
    lemma_scan_well_formed(s);
    lemma_span_gap(s, lex(s)->Ok_0.1, offset_of(line_table(s), line, col), k, 0);
}

impl Analyzer {
    /// Documentation and highlight range of the token at (`line`, `col`).
    pub fn hover(text: &str, line: usize, col: usize) -> (r: Option<(String, TextRange)>)
        requires
            text.spec_bytes().len() <= isize::MAX,
        ensures
            match hover_result(text.spec_bytes(), line as int, col as int) {
                Some((d, range)) => r matches Some((doc, rg)) && doc@ == d && rg == range,
                None => r is None,
            },
    {
        let len = text.len();
        let (tokens, spans) = match scan(text) {
            Ok(v) => v,
            Err(_) => {
                return None;
            },
        };
        let ghost s = text.spec_bytes();
        proof {
            lemma_scan_well_formed(s);
        }
        if col > len {
            proof {
                lemma_prefix_sum_mono(
                    line_table(s),
                    0,
                    if line < line_table(s).len() {
                        line as int
                    } else {
                        line_table(s).len() as int
                    },
                );
                lemma_no_span_past_end(s, spans@, offset_of(line_table(s), line as int, col as int), 0);
            }
            return None;
        }
        let chars_per_line = count_characters_per_line(text);
        proof {
            let t = chars_per_line@;
            lemma_line_table_sum(s);
            lemma_prefix_sum_mono(
                t,
                if line < t.len() {
                    line as int
                } else {
                    t.len() as int
                },
                t.len() as int,
            );
        }
        let index = index_from_line_and_col(chars_per_line.clone(), line, col);
        let mut k: usize = 0;
        while k < spans.len()
            invariant
                s == text.spec_bytes(),
                s.len() <= isize::MAX,
                lex(s) == Ok::<_, int>((tokens@, spans@)),
                tokens@.len() == spans@.len(),
                spans_well_formed(s, spans@, 0, s.len() as int),
                chars_per_line@ == line_table(s),
                prefix_sum(chars_per_line@, chars_per_line@.len() as int) <= s.len() + 1,
                index == offset_of(chars_per_line@, line as int, col as int),
                k <= spans@.len(),
                span_index_from(spans@, index as int, 0) == span_index_from(
                    spans@,
                    index as int,
                    k as int,
                ),
            decreases spans@.len() - k,
        {
            let sp = spans[k];
            if sp.start <= index && index < sp.end {
                proof {
                    lemma_col_of_bound(chars_per_line@, sp.start as int);
                    assert(spans@[k as int] == sp);
                }
                let start_col = col_from_index(chars_per_line.clone(), sp.start);
                let doc = get_foam_definition(tokens[k]);
                let range = TextRange {
                    start_line: line,
                    start_col,
                    end_line: line,
                    end_col: start_col + (sp.end - sp.start),
                };
                return Some((doc, range));
            }
            k = k + 1;
        }
        None
    }
}

} // verus!
