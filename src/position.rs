//! Conversion between (line, column) coordinates and byte offsets.
//!
//! The line table holds, for each line of the text, its length in bytes plus
//! one for the line terminator; a carriage return just before a line feed is
//! part of the terminator, not of the line. Lines and columns are 0-indexed; columns count bytes.

use vstd::prelude::*;
use vstd::string::StringSliceAdditionalSpecFns;

verus! {

/// The lengths (plus one) of the complete lines in `s[0..i]`, and the number
/// of bytes of the line that is still open at `i`.
pub open spec fn lines_upto(s: Seq<u8>, i: int) -> (Seq<usize>, int)
    decreases i,
{
    if i <= 0 {
        (seq![], 0)
    } else {
        let (t, c) = lines_upto(s, i - 1);
        if s[i - 1] == 0x0au8 {
            let len = if c > 0 && s[i - 2] == 0x0du8 {
                c - 1
            } else {
                c
            };
            (t.push((len + 1) as usize), 0)
        } else {
            (t, c + 1)
        }
    }
}

/// The line table of a text: one entry per line (split at `\n` or `\r\n`),
/// the line's length plus one. A final line terminator does not open another
/// line.
pub open spec fn line_table(s: Seq<u8>) -> Seq<usize> {
    let (t, c) = lines_upto(s, s.len() as int);
    if c > 0 {
        t.push((c + 1) as usize)
    } else {
        t
    }
}

/// The sum of the first `k` entries of `t`.
pub open spec fn prefix_sum(t: Seq<usize>, k: int) -> int
    decreases k,
{
    if k <= 0 {
        0
    } else {
        prefix_sum(t, k - 1) + t[k - 1]
    }
}

/// The offset of (`line`, `col`): the lengths of the lines before `line`
/// (all of them when `line` is past the end), plus `col`.
pub open spec fn offset_of(t: Seq<usize>, line: int, col: int) -> int {
    prefix_sum(t, if line < t.len() { line } else { t.len() as int }) + col
}

/// The first line at or after `k` that contains `idx`, with the column of
/// `idx` in it.
pub open spec fn locate_from(t: Seq<usize>, idx: int, k: int) -> Option<(int, int)>
    decreases t.len() - k,
{
    if k < 0 || k >= t.len() {
        None
    } else if prefix_sum(t, k) <= idx < prefix_sum(t, k + 1) {
        Some((k, idx - prefix_sum(t, k)))
    } else {
        locate_from(t, idx, k + 1)
    }
}

/// The line that contains offset `idx`, and its column there.
pub open spec fn locate(t: Seq<usize>, idx: int) -> Option<(int, int)> {
    locate_from(t, idx, 0)
}

/// The column of offset `idx`, or 0 when no line contains it.
pub open spec fn col_of(t: Seq<usize>, idx: int) -> int {
    match locate(t, idx) {
        Some((l, c)) => c,
        None => 0,
    }
}

/// Prefix sums grow with `k`.
pub proof fn lemma_prefix_sum_mono(t: Seq<usize>, j: int, k: int)
    requires
        0 <= j <= k <= t.len(),
    ensures
        0 <= prefix_sum(t, j) <= prefix_sum(t, k),
    decreases k,
{
    if k > 0 {
        if j < k {
            lemma_prefix_sum_mono(t, j, k - 1);
        } else {
            lemma_prefix_sum_mono(t, 0, k - 1);
        }
    }
}

proof fn lemma_locate_skip(t: Seq<usize>, idx: int, k: int, line: int)
    requires
        0 <= k <= line < t.len(),
        prefix_sum(t, line) <= idx,
    ensures
        locate_from(t, idx, k) == locate_from(t, idx, line),
    decreases line - k,
{
    if k < line {
        lemma_prefix_sum_mono(t, k + 1, line);
        lemma_locate_skip(t, idx, k + 1, line);
    }
}

proof fn lemma_locate_bound(t: Seq<usize>, idx: int, k: int)
    requires
        0 <= k,
    ensures
        locate_from(t, idx, k) matches Some((l, c)) ==> k <= l < t.len() && 0 <= c <= idx,
    decreases t.len() - k,
{
    if 0 <= k < t.len() {
        lemma_prefix_sum_mono(t, 0, k);
        lemma_locate_bound(t, idx, k + 1);
    }
}

/// The column found for an offset is never past the offset itself.
pub proof fn lemma_col_of_bound(t: Seq<usize>, idx: int)
    ensures
        0 <= col_of(t, idx) <= if idx < 0 { 0 } else { idx },
{
    lemma_locate_bound(t, idx, 0);
}

/// Converting an in-bounds position to an offset and back gives the same
/// line and column.
pub proof fn lemma_position_round_trip(t: Seq<usize>, line: int, col: int)
    requires
        0 <= line < t.len(),
        0 <= col < t[line],
    ensures
        locate(t, offset_of(t, line, col)) == Some((line, col)),
        col_of(t, offset_of(t, line, col)) == col,
{
    let idx = offset_of(t, line, col);
    lemma_locate_skip(t, idx, 0, line);
}

proof fn lemma_lines_upto_sum(s: Seq<u8>, i: int)
    requires
        0 <= i <= s.len() < usize::MAX,
    ensures
        prefix_sum(lines_upto(s, i).0, lines_upto(s, i).0.len() as int) + lines_upto(s, i).1 <= i,
        0 <= lines_upto(s, i).1 <= i,
    decreases i,
{
    if i > 0 {
        lemma_lines_upto_sum(s, i - 1);
        let (t, c) = lines_upto(s, i - 1);
        if s[i - 1] == 0x0au8 {
            let len = if c > 0 && s[i - 2] == 0x0du8 {
                c - 1
            } else {
                c
            };
            let t2 = t.push((len + 1) as usize);
            assert(t2.subrange(0, t.len() as int) == t);
            lemma_prefix_sum_prefix(t2, t, t.len() as int);
        }
    }
}

proof fn lemma_prefix_sum_prefix(a: Seq<usize>, b: Seq<usize>, k: int)
    requires
        0 <= k <= b.len(),
        k <= a.len(),
        forall|i: int| 0 <= i < k ==> a[i] == b[i],
    ensures
        prefix_sum(a, k) == prefix_sum(b, k),
    decreases k,
{
    if k > 0 {
        lemma_prefix_sum_prefix(a, b, k - 1);
    }
}

/// The entries of a text's line table add up to at most its length plus one.
pub proof fn lemma_line_table_sum(s: Seq<u8>)
    requires
        s.len() < usize::MAX,
    ensures
        prefix_sum(line_table(s), line_table(s).len() as int) <= s.len() + 1,
{
    lemma_lines_upto_sum(s, s.len() as int);
    let (t, c) = lines_upto(s, s.len() as int);
    if c > 0 {
        let t2 = t.push((c + 1) as usize);
        assert(t2.subrange(0, t.len() as int) == t);
        lemma_prefix_sum_prefix(t2, t, t.len() as int);
    }
}

/// Counts the bytes of each line, plus one for its line terminator.
pub fn count_characters_per_line(input: &str) -> (r: Vec<usize>)
    requires
        input.spec_bytes().len() < usize::MAX,
    ensures
        r@ == line_table(input.spec_bytes()),
{
    let b = input.as_bytes();
    let mut t: Vec<usize> = Vec::new();
    let mut c: usize = 0;
    let mut i: usize = 0;
    while i < b.len()
        invariant
            b@ == input.spec_bytes(),
            b@.len() < usize::MAX,
            i <= b@.len(),
            c <= i,
            lines_upto(b@, i as int) == (t@, c as int),
        decreases b@.len() - i,
    {
        if b[i] == 0x0au8 {
            if c > 0 && b[i - 1] == 0x0du8 {
                t.push(c);
            } else {
                t.push(c + 1);
            }
            c = 0;
        } else {
            c = c + 1;
        }
        i = i + 1;
    }
    if c > 0 {
        t.push(c + 1);
    }
    t
}

/// The offset of (`line`, `col`) under the line table `chars_per_line`.
pub fn index_from_line_and_col(chars_per_line: Vec<usize>, line: usize, col: usize) -> (r: usize)
    requires
        offset_of(chars_per_line@, line as int, col as int) <= usize::MAX,
    ensures
        r == offset_of(chars_per_line@, line as int, col as int),
{
    let t = &chars_per_line;
    let m: usize = if line < t.len() {
        line
    } else {
        t.len()
    };
    let mut index: usize = 0;
    let mut k: usize = 0;
    while k < m
        invariant
            m <= t@.len(),
            prefix_sum(t@, m as int) + col <= usize::MAX,
            k <= m,
            index == prefix_sum(t@, k as int),
        decreases m - k,
    {
        proof {
            lemma_prefix_sum_mono(t@, k + 1, m as int);
        }
        index = index + t[k];
        k = k + 1;
    }
    proof {
        lemma_prefix_sum_mono(t@, 0, m as int);
    }
    index + col
}

/// The column of offset `index` in the line that contains it, or 0 when no
/// line does.
pub fn col_from_index(chars_per_line: Vec<usize>, index: usize) -> (r: usize)
    requires
        prefix_sum(chars_per_line@, chars_per_line@.len() as int) <= usize::MAX,
    ensures
        r == col_of(chars_per_line@, index as int),
{
    let t = &chars_per_line;
    let mut cumulative: usize = 0;
    let mut k: usize = 0;
    while k < t.len()
        invariant
            t@ == chars_per_line@,
            prefix_sum(t@, t@.len() as int) <= usize::MAX,
            k <= t@.len(),
            cumulative == prefix_sum(t@, k as int),
            locate(t@, index as int) == locate_from(t@, index as int, k as int),
        decreases t@.len() - k,
    {
        proof {
            lemma_prefix_sum_mono(t@, k + 1, t@.len() as int);
            assert(prefix_sum(t@, k + 1) == prefix_sum(t@, k as int) + t@[k as int]);
        }
        if index >= cumulative && index < cumulative + t[k] {
            proof {
                assert(locate_from(t@, index as int, k as int) == Some(
                    (k as int, index - prefix_sum(t@, k as int)),
                ));
            }
            return index - cumulative;
        }
        cumulative = cumulative + t[k];
        k = k + 1;
    }
    0
}

} // verus!
