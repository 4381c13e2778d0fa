//! The lexer: turns dictionary text into tokens with aligned byte spans.
//!
//! Offsets and lengths are counted in bytes of the UTF-8 text. Scanning is
//! all-or-nothing: the first byte at which no token matches aborts the scan.

use vstd::prelude::*;
use vstd::string::StringSliceAdditionalSpecFns;
use crate::token::{Token, Span, keyword_of, keyword_token, lemma_boundary_spelling};

verus! {

/// Whitespace that separates tokens: space, tab, carriage return, line feed.
pub open spec fn is_space(b: u8) -> bool {
    b == 0x20u8 || b == 0x09u8 || b == 0x0du8 || b == 0x0au8
}

pub open spec fn is_digit(b: u8) -> bool {
    0x30u8 <= b <= 0x39u8
}

/// ASCII letters and digits: the bytes a keyword is made of.
pub open spec fn is_alnum(b: u8) -> bool {
    is_digit(b) || (0x41u8 <= b <= 0x5au8) || (0x61u8 <= b <= 0x7au8)
}

/// The first offset at or after `p` that is not whitespace (or the end).
pub open spec fn skip_space(s: Seq<u8>, p: int) -> int
    decreases s.len() - p,
{
    if 0 <= p < s.len() && is_space(s[p]) {
        skip_space(s, p + 1)
    } else {
        p
    }
}

/// The end of the run of alphanumeric bytes that starts at `p`.
pub open spec fn run_end(s: Seq<u8>, p: int) -> int
    decreases s.len() - p,
{
    if 0 <= p < s.len() && is_alnum(s[p]) {
        run_end(s, p + 1)
    } else {
        p
    }
}

/// The end of the run of decimal digits that starts at `p`.
pub open spec fn digit_end(s: Seq<u8>, p: int) -> int
    decreases s.len() - p,
{
    if 0 <= p < s.len() && is_digit(s[p]) {
        digit_end(s, p + 1)
    } else {
        p
    }
}

/// The offset of the first `*/` at or after `q`, if any.
pub open spec fn close_of(s: Seq<u8>, q: int) -> Option<int>
    decreases s.len() - q,
{
    if q < 0 || q + 1 >= s.len() {
        None
    } else if s[q] == 0x2au8 && s[q + 1] == 0x2fu8 {
        Some(q)
    } else {
        close_of(s, q + 1)
    }
}

/// The offset just past the first line feed at or after `q`, or the end of the text.
pub open spec fn line_end(s: Seq<u8>, q: int) -> int
    decreases s.len() - q,
{
    if q < 0 || q >= s.len() {
        s.len() as int
    } else if s[q] == 0x0au8 {
        q + 1
    } else {
        line_end(s, q + 1)
    }
}

/// Length of a block comment `/* ... */` starting at `p`.
pub open spec fn block_comment_len(s: Seq<u8>, p: int) -> Option<int> {
    if 0 <= p && p + 1 < s.len() && s[p] == 0x2fu8 && s[p + 1] == 0x2au8 {
        match close_of(s, p + 2) {
            Some(q) => Some(q + 2 - p),
            None => None,
        }
    } else {
        None
    }
}

/// Length of a line comment starting at `p`: `//` up to and including the line feed.
pub open spec fn line_comment_len(s: Seq<u8>, p: int) -> Option<int> {
    if 0 <= p && p + 1 < s.len() && s[p] == 0x2fu8 && s[p + 1] == 0x2fu8 {
        Some(line_end(s, p + 2) - p)
    } else {
        None
    }
}

/// The keyword spelled by the whole alphanumeric run at `p`, with the run's length.
pub open spec fn keyword_at(s: Seq<u8>, p: int) -> Option<(Token, int)> {
    let e = run_end(s, p);
    if e == p {
        None
    } else {
        match keyword_of(s.subrange(p, e)) {
            Some(t) => Some((t, e - p)),
            None => None,
        }
    }
}

/// The value of a sequence of decimal digits.
pub open spec fn digits_value(d: Seq<u8>) -> int
    decreases d.len(),
{
    if d.len() == 0 {
        0
    } else {
        digits_value(d.drop_last()) * 10 + (d.last() - 0x30u8)
    }
}

/// A decimal integer at the start of `s`: an optional `+` or `-`, then at
/// least one digit, with a value in the range of `i64`. Gives the value and
/// the number of bytes it takes.
pub open spec fn int_prefix(s: Seq<u8>) -> Option<(int, int)> {
    let sign_len: int = if s.len() > 0 && (s[0] == 0x2du8 || s[0] == 0x2bu8) {
        1
    } else {
        0
    };
    let e = digit_end(s, sign_len);
    let mag = digits_value(s.subrange(sign_len, e));
    let v = if sign_len == 1 && s[0] == 0x2du8 {
        -mag
    } else {
        mag
    };
    if e == sign_len || v < i64::MIN || v > i64::MAX {
        None
    } else {
        Some((v, e))
    }
}

pub open spec fn int_at(s: Seq<u8>, p: int) -> Option<(Token, int)> {
    match int_prefix(s.subrange(p, s.len() as int)) {
        Some((v, n)) => Some((Token::Int(v as i64), n)),
        None => None,
    }
}

/// The punctuation token written as the single byte `b`.
pub open spec fn punct_of(b: u8) -> Option<Token> {
    if b == 0x28u8 {
        Some(Token::LeftParen)
    } else if b == 0x29u8 {
        Some(Token::RightParen)
    } else if b == 0x7bu8 {
        Some(Token::LeftBrace)
    } else if b == 0x7du8 {
        Some(Token::RightBrace)
    } else if b == 0x5bu8 {
        Some(Token::LeftBracket)
    } else if b == 0x5du8 {
        Some(Token::RightBracket)
    } else if b == 0x2cu8 {
        Some(Token::Comma)
    } else if b == 0x2eu8 {
        Some(Token::Dot)
    } else if b == 0x2du8 {
        Some(Token::Minus)
    } else if b == 0x2bu8 {
        Some(Token::Plus)
    } else if b == 0x3bu8 {
        Some(Token::Semicolon)
    } else if b == 0x2fu8 {
        Some(Token::Slash)
    } else if b == 0x2au8 {
        Some(Token::Star)
    } else {
        None
    }
}

/// The token at `p`, with its length: the first matcher that succeeds, in the
/// order block comment, line comment, keyword, integer, punctuation.
pub open spec fn token_at(s: Seq<u8>, p: int) -> Option<(Token, int)> {
    if let Some(n) = block_comment_len(s, p) {
        Some((Token::BlockComment, n))
    } else if let Some(n) = line_comment_len(s, p) {
        Some((Token::LineComment, n))
    } else if let Some(r) = keyword_at(s, p) {
        Some(r)
    } else if let Some(r) = int_at(s, p) {
        Some(r)
    } else if 0 <= p < s.len() && punct_of(s[p]) is Some {
        Some((punct_of(s[p])->0, 1))
    } else {
        None
    }
}

/// Scans `s` from offset `p`: the tokens and spans, or the offset at which no
/// token matches.
pub open spec fn lex_from(s: Seq<u8>, p: int) -> Result<(Seq<Token>, Seq<Span>), int>
    decreases s.len() - p,
    via lex_from_decreases
{
    if p < 0 {
        Err(p)
    } else {
        let q = skip_space(s, p);
        if q >= s.len() {
            Ok((seq![], seq![]))
        } else {
            match token_at(s, q) {
                None => Err(q),
                Some((t, n)) => match lex_from(s, q + n) {
                    Ok((ts, ss)) => Ok(
                        (seq![t] + ts, seq![Span { start: q as usize, end: (q + n) as usize }] + ss),
                    ),
                    Err(e) => Err(e),
                },
            }
        }
    }
}

#[via_fn]
proof fn lex_from_decreases(s: Seq<u8>, p: int) {
    if p >= 0 {
        lemma_skip_space(s, p);
        let q = skip_space(s, p);
        if q < s.len() {
            lemma_token_len(s, q);
        }
    }
}

/// Scans a whole text.
pub open spec fn lex(s: Seq<u8>) -> Result<(Seq<Token>, Seq<Span>), int> {
    lex_from(s, 0)
}

pub proof fn lemma_skip_space(s: Seq<u8>, p: int)
    requires
        0 <= p,
    ensures
        p <= skip_space(s, p),
        p <= s.len() ==> skip_space(s, p) <= s.len(),
        skip_space(s, p) < s.len() ==> !is_space(s[skip_space(s, p)]),
    decreases s.len() - p,
{
    if 0 <= p < s.len() && is_space(s[p]) {
        lemma_skip_space(s, p + 1);
    }
}

proof fn lemma_run_end(s: Seq<u8>, p: int)
    requires
        0 <= p <= s.len(),
    ensures
        p <= run_end(s, p) <= s.len(),
    decreases s.len() - p,
{
    if p < s.len() && is_alnum(s[p]) {
        lemma_run_end(s, p + 1);
    }
}

proof fn lemma_digit_end(s: Seq<u8>, p: int)
    requires
        0 <= p <= s.len(),
    ensures
        p <= digit_end(s, p) <= s.len(),
    decreases s.len() - p,
{
    if p < s.len() && is_digit(s[p]) {
        lemma_digit_end(s, p + 1);
    }
}

proof fn lemma_close_of(s: Seq<u8>, q: int)
    requires
        0 <= q,
    ensures
        close_of(s, q) matches Some(c) ==> q <= c && c + 2 <= s.len(),
    decreases s.len() - q,
{
    if q + 1 < s.len() && !(s[q] == 0x2au8 && s[q + 1] == 0x2fu8) {
        lemma_close_of(s, q + 1);
    }
}

proof fn lemma_line_end(s: Seq<u8>, q: int)
    requires
        0 <= q <= s.len(),
    ensures
        q <= line_end(s, q) <= s.len(),
    decreases s.len() - q,
{
    if q < s.len() && s[q] != 0x0au8 {
        lemma_line_end(s, q + 1);
    }
}

/// A token found at `p` takes at least one byte and ends within the text.
pub proof fn lemma_token_len(s: Seq<u8>, p: int)
    requires
        0 <= p < s.len(),
    ensures
        token_at(s, p) matches Some((t, n)) ==> 1 <= n && p + n <= s.len(),
{
    lemma_close_of(s, p + 2);
    if p + 2 <= s.len() {
        lemma_line_end(s, p + 2);
    }
    lemma_run_end(s, p);
    let r = s.subrange(p, s.len() as int);
    let sign_len: int = if r.len() > 0 && (r[0] == 0x2du8 || r[0] == 0x2bu8) {
        1
    } else {
        0
    };
    lemma_digit_end(r, sign_len);
}

proof fn lemma_int_prefix(r: Seq<u8>)
    ensures
        int_prefix(r) matches Some((v, n)) ==> 1 <= n <= r.len(),
{
    let sign_len: int = if r.len() > 0 && (r[0] == 0x2du8 || r[0] == 0x2bu8) {
        1
    } else {
        0
    };
    lemma_digit_end(r, sign_len);
}

pub open spec fn usize_opt(o: Option<int>) -> Option<usize> {
    match o {
        Some(n) => Some(n as usize),
        None => None,
    }
}

pub open spec fn token_opt(o: Option<(Token, int)>) -> Option<(Token, usize)> {
    match o {
        Some((t, n)) => Some((t, n as usize)),
        None => None,
    }
}

/// The error of a scan: no token matches at `offset`.
#[derive(Debug, PartialEq, Eq, Clone, Copy, Structural)]
pub struct LexError {
    pub offset: usize,
}

fn is_space_byte(b: u8) -> (r: bool)
    ensures
        r == is_space(b),
{
    b == 0x20u8 || b == 0x09u8 || b == 0x0du8 || b == 0x0au8
}

fn is_alnum_byte(b: u8) -> (r: bool)
    ensures
        r == is_alnum(b),
{
    (0x30u8 <= b && b <= 0x39u8) || (0x41u8 <= b && b <= 0x5au8) || (0x61u8 <= b && b <= 0x7au8)
}

fn skip_whitespace(b: &[u8], p: usize) -> (q: usize)
    requires
        p <= b@.len(),
    ensures
        q == skip_space(b@, p as int),
        p <= q <= b@.len(),
{
    let mut q: usize = p;
    while q < b.len() && is_space_byte(b[q])
        invariant
            p <= q <= b@.len(),
            skip_space(b@, p as int) == skip_space(b@, q as int),
        decreases b@.len() - q,
    {
        q = q + 1;
    }
    q
}

fn find_close(b: &[u8], q0: usize) -> (r: Option<usize>)
    requires
        q0 <= b@.len(),
    ensures
        r == usize_opt(close_of(b@, q0 as int)),
{
    let mut q: usize = q0;
    while q < b.len() && q + 1 < b.len()
        invariant
            q0 <= q <= b@.len(),
            close_of(b@, q0 as int) == close_of(b@, q as int),
        decreases b@.len() - q,
    {
        if b[q] == 0x2au8 && b[q + 1] == 0x2fu8 {
            return Some(q);
        }
        q = q + 1;
    }
    None
}

fn find_line_end(b: &[u8], q0: usize) -> (r: usize)
    requires
        q0 <= b@.len(),
    ensures
        r == line_end(b@, q0 as int),
{
    let mut q: usize = q0;
    while q < b.len()
        invariant
            q0 <= q <= b@.len(),
            line_end(b@, q0 as int) == line_end(b@, q as int),
        decreases b@.len() - q,
    {
        if b[q] == 0x0au8 {
            return q + 1;
        }
        q = q + 1;
    }
    q
}

fn block_comment_at(b: &[u8], p: usize) -> (r: Option<usize>)
    requires
        p <= b@.len(),
    ensures
        r == usize_opt(block_comment_len(b@, p as int)),
{
    if p < b.len() && p + 1 < b.len() && b[p] == 0x2fu8 && b[p + 1] == 0x2au8 {
        proof {
            lemma_close_of(b@, p + 2);
        }
        match find_close(b, p + 2) {
            Some(q) => Some(q + 2 - p),
            None => None,
        }
    } else {
        None
    }
}

fn line_comment_at(b: &[u8], p: usize) -> (r: Option<usize>)
    requires
        p <= b@.len(),
    ensures
        r == usize_opt(line_comment_len(b@, p as int)),
{
    if p < b.len() && p + 1 < b.len() && b[p] == 0x2fu8 && b[p + 1] == 0x2fu8 {
        proof {
            lemma_line_end(b@, p + 2);
        }
        Some(find_line_end(b, p + 2) - p)
    } else {
        None
    }
}

fn keyword_at_exec(b: &[u8], p: usize) -> (r: Option<(Token, usize)>)
    requires
        p <= b@.len(),
    ensures
        r == token_opt(keyword_at(b@, p as int)),
{
    let mut e: usize = p;
    while e < b.len() && is_alnum_byte(b[e])
        invariant
            p <= e <= b@.len(),
            run_end(b@, p as int) == run_end(b@, e as int),
        decreases b@.len() - e,
    {
        e = e + 1;
    }
    if e == p {
        return None;
    }
    let w = vstd::slice::slice_subrange(b, p, e);
    match keyword_token(w) {
        Some(t) => Some((t, e - p)),
        None => None,
    }
}

/// Relies on nom::character::complete::i64 over bytes: an optional sign, then
/// decimal digits up to the first non-digit, failing when there is no digit or
/// the value leaves the range of i64. Gives the value and the unread rest.
#[verifier::external_body]
fn lex_int<'a>(b: &'a [u8]) -> (r: Option<(i64, &'a [u8])>)
    ensures
        match int_prefix(b@) {
            Some((v, n)) => r matches Some((x, rest)) && x == v && rest@ == b@.subrange(
                n,
                b@.len() as int,
            ),
            None => r is None,
        },
{
    match nom::character::complete::i64::<&[u8], nom::error::Error<&[u8]>>(b) {
        Ok((rest, v)) => Some((v, rest)),
        Err(_) => None,
    }
}

fn int_at_exec(b: &[u8], p: usize) -> (r: Option<(Token, usize)>)
    requires
        p <= b@.len(),
    ensures
        r == token_opt(int_at(b@, p as int)),
{
    let rest = vstd::slice::slice_subrange(b, p, b.len());
    proof {
        lemma_int_prefix(rest@);
    }
    match lex_int(rest) {
        Some((v, tail)) => Some((Token::Int(v), rest.len() - tail.len())),
        None => None,
    }
}

fn punct_token(c: u8) -> (r: Option<Token>)
    ensures
        r == punct_of(c),
{
    if c == 0x28u8 {
        Some(Token::LeftParen)
    } else if c == 0x29u8 {
        Some(Token::RightParen)
    } else if c == 0x7bu8 {
        Some(Token::LeftBrace)
    } else if c == 0x7du8 {
        Some(Token::RightBrace)
    } else if c == 0x5bu8 {
        Some(Token::LeftBracket)
    } else if c == 0x5du8 {
        Some(Token::RightBracket)
    } else if c == 0x2cu8 {
        Some(Token::Comma)
    } else if c == 0x2eu8 {
        Some(Token::Dot)
    } else if c == 0x2du8 {
        Some(Token::Minus)
    } else if c == 0x2bu8 {
        Some(Token::Plus)
    } else if c == 0x3bu8 {
        Some(Token::Semicolon)
    } else if c == 0x2fu8 {
        Some(Token::Slash)
    } else if c == 0x2au8 {
        Some(Token::Star)
    } else {
        None
    }
}

fn token_at_exec(b: &[u8], p: usize) -> (r: Option<(Token, usize)>)
    requires
        p <= b@.len(),
    ensures
        r == token_opt(token_at(b@, p as int)),
{
    if let Some(n) = block_comment_at(b, p) {
        Some((Token::BlockComment, n))
    } else if let Some(n) = line_comment_at(b, p) {
        Some((Token::LineComment, n))
    } else if let Some(r) = keyword_at_exec(b, p) {
        Some(r)
    } else if let Some(r) = int_at_exec(b, p) {
        Some(r)
    } else if p < b.len() {
        match punct_token(b[p]) {
            Some(t) => Some((t, 1)),
            None => None,
        }
    } else {
        None
    }
}

/// Spans that lie within `[lo, hi)`, each non-empty and starting on a
/// non-whitespace byte of `s`, in strictly increasing order without overlap.
pub open spec fn spans_well_formed(s: Seq<u8>, ss: Seq<Span>, lo: int, hi: int) -> bool {
    &&& forall|i: int|
        0 <= i < ss.len() ==> lo <= #[trigger] ss[i].start < ss[i].end <= hi && !is_space(
            s[ss[i].start as int],
        )
    &&& forall|i: int, j: int| 0 <= i < j < ss.len() ==> #[trigger] ss[i].end <= #[trigger] ss[j].start
}

/// A successful scan from `p` gives one span per token, all well formed and
/// within `[p, s.len())`.
pub proof fn lemma_lex_from_well_formed(s: Seq<u8>, p: int)
    requires
        0 <= p <= s.len() <= usize::MAX,
    ensures
        lex_from(s, p) matches Ok((ts, ss)) ==> ts.len() == ss.len() && spans_well_formed(
            s,
            ss,
            p,
            s.len() as int,
        ),
    decreases s.len() - p,
{
    lemma_skip_space(s, p);
    let q = skip_space(s, p);
    if q < s.len() {
        lemma_token_len(s, q);
        if let Some((t, n)) = token_at(s, q) {
            lemma_lex_from_well_formed(s, q + n);
            if let Ok((ts, ss)) = lex_from(s, q + n) {
                let sp = Span { start: q as usize, end: (q + n) as usize };
                let all = seq![sp] + ss;
                assert forall|i: int| 0 <= i < all.len() implies p <= #[trigger] all[i].start
                    < all[i].end <= s.len() && !is_space(s[all[i].start as int]) by {
                    if i > 0 {
                        assert(all[i] == ss[i - 1]);
                    } else {
                        assert(all[i] == sp);
                    }
                }
                assert forall|i: int, j: int| 0 <= i < j < all.len() implies #[trigger] all[i].end
                    <= #[trigger] all[j].start by {
                    assert(all[j] == ss[j - 1]);
                    if i > 0 {
                        assert(all[i] == ss[i - 1]);
                    }
                }
            }
        }
    }
}

/// Every successful scan of a text gives as many spans as tokens, each within
/// the text, starting on a non-whitespace byte, strictly increasing and
/// pairwise non-overlapping.
pub proof fn lemma_scan_well_formed(s: Seq<u8>)
    requires
        s.len() <= usize::MAX,
    ensures
        lex(s) matches Ok((ts, ss)) ==> ts.len() == ss.len() && spans_well_formed(
            s,
            ss,
            0,
            s.len() as int,
        ),
{
    lemma_lex_from_well_formed(s, 0);
}

/// Each token of a successful scan from `p` is the token matched at the start
/// of its span, and its span is as long as the match.
pub proof fn lemma_lex_from_matches(s: Seq<u8>, p: int)
    requires
        0 <= p <= s.len() <= usize::MAX,
    ensures
        lex_from(s, p) matches Ok((ts, ss)) ==> forall|k: int|
            0 <= k < ts.len() ==> #[trigger] token_at(s, ss[k].start as int) == Some(
                (ts[k], ss[k].end - ss[k].start),
            ),
    decreases s.len() - p,
{
    lemma_lex_from_well_formed(s, p);
    lemma_skip_space(s, p);
    let q = skip_space(s, p);
    if q < s.len() {
        lemma_token_len(s, q);
        if let Some((t, n)) = token_at(s, q) {
            lemma_lex_from_matches(s, q + n);
            if let Ok((ts, ss)) = lex_from(s, q + n) {
                let all_t = seq![t] + ts;
                let all_s = seq![Span { start: q as usize, end: (q + n) as usize }] + ss;
                assert forall|k: int| 0 <= k < all_t.len() implies #[trigger] token_at(
                    s,
                    all_s[k].start as int,
                ) == Some((all_t[k], all_s[k].end - all_s[k].start)) by {
                    if k > 0 {
                        assert(all_t[k] == ts[k - 1] && all_s[k] == ss[k - 1]);
                    }
                }
            }
        }
    }
}

/// A `boundary` token always takes the eight bytes of its spelling.
pub proof fn lemma_boundary_token_len(s: Seq<u8>, p: int, n: int)
    requires
        0 <= p < s.len(),
        token_at(s, p) == Some((Token::Boundary, n)),
    ensures
        n == 8,
{
    lemma_run_end(s, p);
    if block_comment_len(s, p) is None && line_comment_len(s, p) is None {
        lemma_boundary_spelling(s.subrange(p, run_end(s, p)));
    }
}

pub open spec fn prepend(
    ts: Seq<Token>,
    ss: Seq<Span>,
    r: Result<(Seq<Token>, Seq<Span>), int>,
) -> Result<(Seq<Token>, Seq<Span>), int> {
    match r {
        Ok((a, c)) => Ok((ts + a, ss + c)),
        Err(e) => Err(e),
    }
}

/// Scans the whole text into tokens and their spans, or reports the offset
/// at which no token matches.
pub fn scan(input: &str) -> (r: Result<(Vec<Token>, Vec<Span>), LexError>)
    ensures
        match r {
            Ok((tokens, spans)) => lex(input.spec_bytes()) == Ok::<_, int>((tokens@, spans@)),
            Err(e) => lex(input.spec_bytes()) == Err::<(Seq<Token>, Seq<Span>), int>(
                e.offset as int,
            ),
        },
        r matches Ok((tokens, spans)) ==> tokens@.len() == spans@.len() && spans_well_formed(
            input.spec_bytes(),
            spans@,
            0,
            input.spec_bytes().len() as int,
        ),
{
    let b = input.as_bytes();
    let mut tokens: Vec<Token> = Vec::new();
    let mut spans: Vec<Span> = Vec::new();
    let mut pos: usize = 0;
    let len = b.len();
    proof {
        lemma_scan_well_formed(b@);
        if let Ok((ts, ss)) = lex_from(b@, 0) {
            assert(tokens@ + ts =~= ts);
            assert(spans@ + ss =~= ss);
        }
    }
    loop
        invariant
            b@ == input.spec_bytes(),
            len == b@.len(),
            pos <= len,
            lex(b@) == prepend(tokens@, spans@, lex_from(b@, pos as int)),
            lex(b@) matches Ok((ts, ss)) ==> ts.len() == ss.len() && spans_well_formed(
                b@,
                ss,
                0,
                b@.len() as int,
            ),
        decreases b@.len() - pos,
    {
        let q = skip_whitespace(b, pos);
        if q >= len {
            proof {
                assert(tokens@ + seq![] =~= tokens@);
                assert(spans@ + seq![] =~= spans@);
            }
            return Ok((tokens, spans));
        }
        proof {
            lemma_token_len(b@, q as int);
        }
        match token_at_exec(b, q) {
            None => {
                return Err(LexError { offset: q });
            },
            Some((t, n)) => {
                let sp = Span { start: q, end: q + n };
                proof {
                    if let Ok((ts, ss)) = lex_from(b@, (q + n) as int) {
                        assert(tokens@.push(t) + ts =~= tokens@ + (seq![t] + ts));
                        assert(spans@.push(sp) + ss =~= spans@ + (seq![sp] + ss));
                    }
                }
                tokens.push(t);
                spans.push(sp);
                pos = q + n;
            },
        }
    }
}

/// Matches a keyword at the start of `input`: the keyword token and the
/// length of the word.
pub fn keyword(input: &str) -> (r: Option<(Token, usize)>)
    ensures
        r == token_opt(keyword_at(input.spec_bytes(), 0)),
{
    keyword_at_exec(input.as_bytes(), 0)
}

/// Matches a line comment at the start of `input`: `//` up to and including
/// the first line feed, or to the end of the text.
pub fn line_comment(input: &str) -> (r: Option<(Token, usize)>)
    ensures
        match line_comment_len(input.spec_bytes(), 0) {
            Some(n) => r == Some((Token::LineComment, n as usize)),
            None => r is None,
        },
{
    match line_comment_at(input.as_bytes(), 0) {
        Some(n) => Some((Token::LineComment, n)),
        None => None,
    }
}

} // verus!
