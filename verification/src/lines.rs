//! Byte offsets of lines and the conversion of an offset into a
//! one-based line and column.
use vstd::prelude::*;
use vstd::string::StringSliceAdditionalSpecFns;

verus! {

/// A line begins at byte `s` of `b` when `s` is inside the text and is
/// either the first byte or follows a line feed.
pub open spec fn is_line_begin(b: Seq<u8>, s: int) -> bool {
    0 <= s < b.len() && (s == 0 || b[s - 1] == 10u8)
}

/// Number of carriage-return/line-feed pairs that end a line strictly before
/// byte `s`, that is the indices `j` with `j + 1 < s`, `b[j] == '\r'` and
/// `b[j + 1] == '\n'`.
pub open spec fn crlf_before(b: Seq<u8>, s: int) -> nat
    decreases s,
{
    if s <= 1 {
        0
    } else {
        crlf_before(b, s - 1) + if b[s - 2] == 13u8 && b[s - 1] == 10u8 {
            1nat
        } else {
            0nat
        }
    }
}

/// The offsets obtained by summing, over the pieces that `str::lines` yields,
/// the length of each piece plus one: for every line that begins before byte
/// `n`, its true start minus the carriage returns that `str::lines` dropped
/// from the line endings before it.
pub open spec fn line_offsets_upto(b: Seq<u8>, n: int) -> Seq<usize>
    decreases n,
{
    if n <= 0 {
        Seq::empty()
    } else if is_line_begin(b, n - 1) {
        line_offsets_upto(b, n - 1).push((n - 1 - crlf_before(b, n - 1)) as usize)
    } else {
        line_offsets_upto(b, n - 1)
    }
}

/// The line offsets of the whole text `b`.
pub open spec fn line_offsets(b: Seq<u8>) -> Seq<usize> {
    line_offsets_upto(b, b.len() as int)
}

proof fn lemma_crlf_before_bounded(b: Seq<u8>, s: int)
    ensures
        crlf_before(b, s) <= if s <= 1 { 0 } else { s - 1 },
    decreases s,
{
    if s > 1 {
        lemma_crlf_before_bounded(b, s - 1);
    }
}

/// Computes, for the text `content`, the offset that the line scan assigns to
/// each line: the length of every earlier piece of `str::lines` plus one.
pub fn line_positions(content: &str) -> (positions: Vec<usize>)
    ensures
        positions@ == line_offsets(content.spec_bytes()),
{
    let bytes = content.as_bytes();
    let n = bytes.len();
    let ghost b = content.spec_bytes();
    let mut positions: Vec<usize> = Vec::new();
    let mut crlf: usize = 0;
    let mut i: usize = 0;
    while i < n
        invariant
            bytes@ == b,
            n == b.len(),
            i <= n,
            crlf == crlf_before(b, i as int),
            positions@ == line_offsets_upto(b, i as int),
        decreases n - i,
    {
        proof {
            lemma_crlf_before_bounded(b, i as int);
        }
        if i == 0 || bytes[i - 1] == 10u8 {
            positions.push(i - crlf);
        }
        if i >= 1 && bytes[i - 1] == 13u8 && bytes[i] == 10u8 {
            crlf = crlf + 1;
        }
        i = i + 1;
    }
    positions
}

/// Index of the line that holds `position` as the scan in
/// `find_line_and_col` computes it: starting from the first entry, move to
/// the next entry while it does not exceed `position`.
pub open spec fn line_index_from(lp: Seq<usize>, position: int, i: int) -> int
    decreases lp.len() - i,
{
    if i + 1 < lp.len() && lp[i + 1] <= position {
        line_index_from(lp, position, i + 1)
    } else {
        i
    }
}

pub open spec fn line_index(lp: Seq<usize>, position: int) -> int {
    line_index_from(lp, position, 0)
}

pub proof fn lemma_line_index_from(lp: Seq<usize>, position: int, i: int)
    requires
        0 <= i < lp.len(),
    ensures
        i <= line_index_from(lp, position, i) < lp.len(),
        forall|j: int| i < j <= line_index_from(lp, position, i) ==> lp[j] <= position,
        line_index_from(lp, position, i) + 1 < lp.len() ==> lp[line_index_from(lp, position, i) + 1] > position,
    decreases lp.len() - i,
{
    if i + 1 < lp.len() && lp[i + 1] <= position {
        lemma_line_index_from(lp, position, i + 1);
    }
}

pub proof fn lemma_line_index_bound(lp: Seq<usize>, position: int)
    requires
        lp.len() > 0,
    ensures
        0 <= line_index(lp, position) < lp.len(),
{
    lemma_line_index_from(lp, position, 0);
}

/// Finds the one-based line and column of byte `position`, given the offsets
/// of the lines: the line is the last one of the leading run of offsets that
/// do not exceed `position`, and the column counts from that line's offset.
pub fn find_line_and_col(line_positions: &[usize], position: usize) -> (res: (usize, usize))
    requires
        line_positions@.len() > 0,
        line_positions@[0] <= position,
        0 <= line_index(line_positions@, position as int) < line_positions@.len() ==> position
            - line_positions@[line_index(line_positions@, position as int)] + 1 <= usize::MAX,
    ensures
        1 <= res.0 <= line_positions@.len(),
        forall|j: int| 0 <= j < res.0 ==> line_positions@[j] <= position,
        res.0 < line_positions@.len() ==> line_positions@[res.0 as int] > position,
        res.0 - 1 == line_index(line_positions@, position as int),
        res.1 == position - line_positions@[res.0 - 1] + 1,
{
    proof {
        lemma_line_index_from(line_positions@, position as int, 0);
    }
    let mut line_idx: usize = 0;
    let mut idx: usize = 0;
    let len = line_positions.len();
    while idx < len && position >= line_positions[idx]
        invariant
            len == line_positions@.len(),
            len > 0,
            line_positions@[0] <= position,
            idx <= len,
            idx == 0 ==> line_idx == 0,
            idx > 0 ==> line_idx == idx - 1,
            forall|j: int| 0 <= j < idx ==> line_positions@[j] <= position,
        decreases len - idx,
    {
        line_idx = idx;
        idx = idx + 1;
    }
    proof {
        let lp = line_positions@;
        let k = line_index(lp, position as int);
        if line_idx < k {
            assert(lp[line_idx + 1] <= position);
        }
        if line_idx > k {
            assert(lp[k + 1] <= position);
        }
    }
    let line_num = line_idx + 1;
    let col_num = position - line_positions[line_idx] + 1;
    (line_num, col_num)
}

/// Number of line feeds among the first `n` bytes.
pub open spec fn newlines_before(b: Seq<u8>, n: int) -> nat
    decreases n,
{
    if n <= 0 {
        0
    } else {
        newlines_before(b, n - 1) + if b[n - 1] == 10u8 {
            1nat
        } else {
            0nat
        }
    }
}

/// The start of the line that holds byte `p`: the last position at or
/// before `p` that is the first byte or follows a line feed.
pub open spec fn line_start(b: Seq<u8>, p: int) -> int
    decreases p,
{
    if p <= 0 || b[p - 1] == 10u8 {
        if p <= 0 { 0 } else { p }
    } else {
        line_start(b, p - 1)
    }
}

proof fn lemma_no_crlf(b: Seq<u8>, s: int)
    requires
        forall|j: int| 0 <= j < b.len() ==> b[j] != 13u8,
        s <= b.len(),
    ensures
        crlf_before(b, s) == 0,
    decreases s,
{
    if s > 1 {
        lemma_no_crlf(b, s - 1);
    }
}

/// Without carriage returns, the offsets of the lines before byte `n` are
/// the line starts, increasing, one more than the line feeds before the
/// last byte, the last one being the start of the line of byte `n - 1`.
proof fn lemma_offsets_are_line_starts(b: Seq<u8>, n: int)
    requires
        forall|j: int| 0 <= j < b.len() ==> b[j] != 13u8,
        1 <= n <= b.len(),
        b.len() <= usize::MAX,
    ensures
        line_offsets_upto(b, n).len() == 1 + newlines_before(b, n - 1),
        line_offsets_upto(b, n).last() == line_start(b, n - 1),
        forall|k: int| 0 <= k < line_offsets_upto(b, n).len() ==> #[trigger] line_offsets_upto(b, n)[k] <= n - 1,
        forall|k1: int, k2: int| 0 <= k1 < k2 < line_offsets_upto(b, n).len() ==> #[trigger] line_offsets_upto(b, n)[k1] < #[trigger] line_offsets_upto(b, n)[k2],
    decreases n,
{
    lemma_no_crlf(b, n - 1);
    if n == 1 {
        assert(line_offsets_upto(b, 0) =~= Seq::<usize>::empty());
        assert(line_offsets_upto(b, 1) =~= seq![0usize]);
    } else {
        lemma_offsets_are_line_starts(b, n - 1);
        let prev = line_offsets_upto(b, n - 1);
        if is_line_begin(b, n - 1) {
            assert(line_offsets_upto(b, n) == prev.push((n - 1) as usize));
        }
    }
}

/// The offsets of the lines before byte `m` come first among those before
/// byte `n`; the others are at least `m`.
proof fn lemma_offsets_prefix(b: Seq<u8>, m: int, n: int)
    requires
        forall|j: int| 0 <= j < b.len() ==> b[j] != 13u8,
        0 <= m <= n <= b.len(),
        b.len() <= usize::MAX,
    ensures
        line_offsets_upto(b, m).len() <= line_offsets_upto(b, n).len(),
        forall|k: int| 0 <= k < line_offsets_upto(b, m).len() ==> line_offsets_upto(b, n)[k] == #[trigger] line_offsets_upto(b, m)[k],
        forall|k: int| line_offsets_upto(b, m).len() <= k < line_offsets_upto(b, n).len() ==> #[trigger] line_offsets_upto(b, n)[k] >= m,
    decreases n,
{
    if n > m {
        lemma_offsets_prefix(b, m, n - 1);
        lemma_no_crlf(b, n - 1);
        let prev = line_offsets_upto(b, n - 1);
        if is_line_begin(b, n - 1) {
            assert(line_offsets_upto(b, n) == prev.push((n - 1) as usize));
        }
    }
}

/// Law: in a text without carriage returns, `find_line_and_col` on the
/// offsets that `line_positions` gives puts byte `p` on line one plus the
/// number of line feeds before it, at the column one plus its distance from
/// the start of its line.
pub proof fn law_line_and_column(b: Seq<u8>, p: int)
    requires
        forall|j: int| 0 <= j < b.len() ==> b[j] != 13u8,
        0 <= p < b.len(),
        b.len() <= usize::MAX,
    ensures
        line_index(line_offsets(b), p) + 1 == 1 + newlines_before(b, p),
        line_offsets(b)[line_index(line_offsets(b), p)] == line_start(b, p),
{
    let lp = line_offsets(b);
    let n = b.len() as int;
    lemma_offsets_are_line_starts(b, p + 1);
    lemma_offsets_are_line_starts(b, n);
    lemma_offsets_prefix(b, p + 1, n);
    let pre = line_offsets_upto(b, p + 1);
    let cnt = pre.len() as int;
    lemma_line_index_from(lp, p, 0);
    let idx = line_index(lp, p);
    assert(lp[0] == pre[0]);
    if idx < cnt - 1 {
        assert(lp[idx + 1] == pre[idx + 1]);
    }
    if idx > cnt - 1 {
        assert(lp[cnt] >= p + 1);
        assert(lp[cnt] <= p);
    }
    assert(idx == cnt - 1);
    assert(lp[idx] == pre[cnt - 1]);
}

} // verus!
