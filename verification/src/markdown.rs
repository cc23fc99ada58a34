//! Locating the directives of a Markdown text, with their line and column,
//! and putting replacement text in their place.
use vstd::prelude::*;
use vstd::string::{StringSliceAdditionalSpecFns, StringExecFns};
use vstd::utf8::{
    decode_utf8, decode_utf8_split, encode_utf8_decode_utf8, encode_utf8_valid_utf8, is_char_boundary,
    is_char_boundary_iff_not_is_continuation_byte, is_char_boundary_start_end_of_seq,
    is_continuation_byte, valid_utf8, valid_utf8_split,
};
use crate::parser::string_views;
use crate::directive::{DirectiveKind, kind_name, kind_named, spec_directive_kind};
use crate::text::{first_occurrence, occurs_at};
use crate::lines::{find_line_and_col, is_line_begin, line_index, line_offsets, line_offsets_upto, line_positions, crlf_before};
use crate::scan::{
    directive_matches, find_directives, lemma_match_at, match_at, matches_from,
    name_bytes, DirectiveMatch,
};

verus! {

/// Byte `i` of `b` starts a character or is the end of the text.
pub open spec fn at_char_start(b: Seq<u8>, i: int) -> bool {
    i == b.len() || (0 <= i < b.len() && !is_continuation_byte(b[i]))
}

/// The text of `content` between bytes `x` and `y`.
pub fn byte_slice<'a>(content: &'a str, x: usize, y: usize) -> (r: &'a str)
    requires
        x <= y <= content.spec_bytes().len(),
        at_char_start(content.spec_bytes(), x as int),
        at_char_start(content.spec_bytes(), y as int),
    ensures
        r.spec_bytes() == content.spec_bytes().subrange(x as int, y as int),
        r@ == decode_utf8(content.spec_bytes().subrange(x as int, y as int)),
{
    let ghost b = content.spec_bytes();
    proof {
        encode_utf8_valid_utf8(content@);
        is_char_boundary_start_end_of_seq(b);
        if x < b.len() {
            is_char_boundary_iff_not_is_continuation_byte(b, x as int);
        }
        valid_utf8_split(b, x as int);
    }
    let (_, rest) = content.split_at(x);
    let ghost rb = rest.spec_bytes();
    proof {
        assert(rb =~= b.subrange(x as int, b.len() as int));
        is_char_boundary_start_end_of_seq(rb);
        if y < b.len() {
            assert(rb[y - x] == b[y as int]);
            is_char_boundary_iff_not_is_continuation_byte(rb, y - x);
        }
    }
    let (mid, _) = rest.split_at(y - x);
    proof {
        assert(mid.spec_bytes() =~= b.subrange(x as int, y as int));
        encode_utf8_decode_utf8(mid@);
    }
    mid
}

/// The directives `ms` lie in `b` in order, each where `match_at` finds it,
/// at or after `pos`.
pub open spec fn well_placed(b: Seq<u8>, ms: Seq<DirectiveMatch>, pos: int) -> bool {
    &&& forall|k: int|
        0 <= k < ms.len() ==> {
            &&& pos <= #[trigger] ms[k].start
            &&& ms[k].start + 4 < ms[k].end <= b.len()
            &&& match_at(b, ms[k].start as int) == Some((ms[k].kind, ms[k].end - 1))
        }
    &&& forall|i: int, j: int| 0 <= i < j < ms.len() ==> #[trigger] ms[i].end <= #[trigger] ms[j].start
}

proof fn lemma_placed_cons(b: Seq<u8>, m: DirectiveMatch, rest: Seq<DirectiveMatch>, pos: int)
    requires
        pos <= m.start,
        m.start + 4 < m.end <= b.len(),
        match_at(b, m.start as int) == Some((m.kind, m.end - 1)),
        well_placed(b, rest, m.end as int),
    ensures
        well_placed(b, seq![m] + rest, pos),
{
    let ms = seq![m] + rest;
    assert forall|j: int| 0 <= j < ms.len() implies {
        &&& pos <= #[trigger] ms[j].start
        &&& ms[j].start + 4 < ms[j].end <= b.len()
        &&& match_at(b, ms[j].start as int) == Some((ms[j].kind, ms[j].end - 1))
    } by {
        if j > 0 {
            assert(ms[j] == rest[j - 1]);
        }
    }
    assert forall|i: int, j: int| 0 <= i < j < ms.len() implies #[trigger] ms[i].end
        <= #[trigger] ms[j].start by {
        assert(ms[j] == rest[j - 1]);
        if i > 0 {
            assert(ms[i] == rest[i - 1]);
        }
    }
}

/// Law: the directives found from byte `pos` on lie in the text in order
/// and do not overlap; each starts at a line start, at or after `pos`,
/// with `#![`, a directive name and `!`, and ends at a `]` that ends a line.
pub proof fn law_directives_in_order(b: Seq<u8>, pos: int)
    requires
        pos >= 0,
        b.len() <= usize::MAX,
    ensures
        well_placed(b, matches_from(b, pos), pos),
    decreases b.len() - pos,
{
    if pos < b.len() {
        match match_at(b, pos) {
            Some((k, e)) => {
                lemma_match_at(b, pos);
                law_directives_in_order(b, e + 1);
                let m = DirectiveMatch { start: pos as usize, end: (e + 1) as usize, kind: k };
                lemma_placed_cons(b, m, matches_from(b, e + 1), pos);
            },
            None => {
                law_directives_in_order(b, pos + 1);
            },
        }
    }
}

proof fn lemma_line_offsets_first(b: Seq<u8>, n: int)
    requires
        1 <= n <= b.len(),
    ensures
        line_offsets_upto(b, n).len() > 0,
        line_offsets_upto(b, n)[0] == 0,
    decreases n,
{
    if n > 1 {
        lemma_line_offsets_first(b, n - 1);
        let prev = line_offsets_upto(b, n - 1);
        if is_line_begin(b, n - 1) {
            assert(line_offsets_upto(b, n)[0] == prev.push((n - 1 - crlf_before(b, n - 1)) as usize)[0]);
        }
    } else {
        assert(is_line_begin(b, 0));
        assert(crlf_before(b, 0) == 0);
        assert(line_offsets_upto(b, 0) =~= Seq::<usize>::empty());
        assert(line_offsets_upto(b, 1) =~= seq![0usize]);
    }
}

/// The line and column of byte `pos` given line offsets `lp`, as
/// `find_line_and_col` computes them.
pub open spec fn spec_line_col(lp: Seq<usize>, pos: int) -> (usize, usize) {
    let i = line_index(lp, pos);
    ((i + 1) as usize, (pos - lp[i] + 1) as usize)
}

/// A directive of the text with where it stands and what it says.
pub struct DirectiveSite {
    pub span: DirectiveMatch,
    /// One-based line of the directive's `#`.
    pub line: usize,
    /// One-based column of the directive's `#`.
    pub col: usize,
    /// The directive between `#![` and the closing `]`.
    pub directive: String,
}

pub open spec fn site_spans(sites: Seq<DirectiveSite>) -> Seq<DirectiveMatch> {
    sites.map_values(|s: DirectiveSite| s.span)
}

/// The site of the directive `span` of `content`, given the line offsets.
fn site_of(content: &str, positions: &Vec<usize>, span: DirectiveMatch) -> (s: DirectiveSite)
    requires
        positions@ == line_offsets(content.spec_bytes()),
        span.start + 4 < span.end <= content.spec_bytes().len(),
        match_at(content.spec_bytes(), span.start as int) == Some((span.kind, span.end - 1)),
    ensures
        s.span == span,
        (s.line, s.col) == spec_line_col(line_offsets(content.spec_bytes()), span.start as int),
        s.directive@ == decode_utf8(content.spec_bytes().subrange(span.start + 3, span.end - 1)),
{
    let ghost b = content.spec_bytes();
    proof {
        lemma_line_offsets_first(b, b.len() as int);
        crate::lines::lemma_line_index_bound(positions@, span.start as int);
        lemma_match_at(b, span.start as int);
    }
    let (line, col) = find_line_and_col(positions.as_slice(), span.start);
    let text = byte_slice(content, span.start + 3, span.end - 1);
    let directive = text.to_owned();
    DirectiveSite { span, line, col, directive }
}

/// Finds the directives of `content` with, for each, its line and column
/// (from the offsets that `line_positions` gives) and its text.
pub fn locate_directives(content: &str) -> (r: Vec<DirectiveSite>)
    ensures
        site_spans(r@) == directive_matches(content.spec_bytes()),
        forall|k: int|
            0 <= k < r@.len() ==> {
                let s = #[trigger] r@[k];
                &&& (s.line, s.col) == spec_line_col(line_offsets(content.spec_bytes()), s.span.start as int)
                &&& s.directive@ == decode_utf8(content.spec_bytes().subrange(s.span.start + 3, s.span.end - 1))
            },
{
    let ghost b = content.spec_bytes();
    let bytes = content.as_bytes();
    let _len = bytes.len();
    let positions = line_positions(content);
    let found = find_directives(content);
    proof {
        law_directives_in_order(b, 0);
    }
    let mut out: Vec<DirectiveSite> = Vec::new();
    let m = found.len();
    let mut k: usize = 0;
    while k < m
        invariant
            m == found@.len(),
            b == content.spec_bytes(),
            well_placed(b, found@, 0),
            positions@ == line_offsets(b),
            k <= m,
            site_spans(out@) == found@.subrange(0, k as int),
            forall|j: int|
                0 <= j < out@.len() ==> {
                    let s = #[trigger] out@[j];
                    &&& (s.line, s.col) == spec_line_col(line_offsets(b), s.span.start as int)
                    &&& s.directive@ == decode_utf8(b.subrange(s.span.start + 3, s.span.end - 1))
                },
        decreases m - k,
    {
        let span = found[k];
        assert(found@[k as int] == span);
        let site = site_of(content, &positions, span);
        let ghost before = out@;
        out.push(site);
        proof {
            assert(site_spans(out@) =~= site_spans(before).push(span));
            assert(found@.subrange(0, k + 1) =~= found@.subrange(0, k as int).push(span));
        }
        k = k + 1;
    }
    assert(found@.subrange(0, m as int) =~= found@);
    out
}

/// The text `b` with the directives `ms[k..]` replaced by `reps[k..]`,
/// starting from byte `cursor`: the text up to each directive, its
/// replacement, and after the last one the rest of the text.
pub open spec fn spliced(b: Seq<u8>, ms: Seq<DirectiveMatch>, reps: Seq<Seq<char>>, k: int, cursor: int) -> Seq<char>
    decreases ms.len() - k,
{
    if k < 0 || k >= ms.len() {
        decode_utf8(b.subrange(cursor, b.len() as int))
    } else {
        decode_utf8(b.subrange(cursor, ms[k].start as int)) + reps[k] + spliced(
            b,
            ms,
            reps,
            k + 1,
            ms[k].end as int,
        )
    }
}

/// Replaces each directive of `content` (as `locate_directives` gives them)
/// by the replacement at the same position, leaving all other text as it is.
pub fn replace_directives(content: &str, sites: &Vec<DirectiveSite>, replacements: &Vec<String>) -> (r: String)
    requires
        site_spans(sites@) == directive_matches(content.spec_bytes()),
        replacements@.len() == sites@.len(),
    ensures
        r@ == spliced(content.spec_bytes(), site_spans(sites@), string_views(replacements@), 0, 0),
{
    let ghost b = content.spec_bytes();
    let ghost ms = site_spans(sites@);
    let ghost reps = string_views(replacements@);
    let bytes = content.as_bytes();
    let n = bytes.len();
    proof {
        law_directives_in_order(b, 0);
        encode_utf8_valid_utf8(content@);
        is_char_boundary_start_end_of_seq(b);
        if n > 0 {
            is_char_boundary_iff_not_is_continuation_byte(b, 0);
        }
    }
    let mut out = String::new();
    let mut cursor: usize = 0;
    let m = sites.len();
    let mut k: usize = 0;
    while k < m
        invariant
            m == sites@.len(),
            m == replacements@.len(),
            n == b.len(),
            b == content.spec_bytes(),
            ms == site_spans(sites@),
            reps == string_views(replacements@),
            well_placed(b, ms, 0),
            k <= m,
            cursor <= n,
            at_char_start(b, cursor as int),
            k == 0 ==> cursor == 0,
            k > 0 ==> cursor == ms[k - 1].end,
            out@ + spliced(b, ms, reps, k as int, cursor as int) == spliced(b, ms, reps, 0, 0),
        decreases m - k,
    {
        let span = sites[k].span;
        assert(ms[k as int] == span);
        proof {
            lemma_match_at(b, span.start as int);
            if k > 0 {
                assert(ms[k - 1].end <= ms[k as int].start);
            }
        }
        let piece = byte_slice(content, cursor, span.start);
        let ghost before = out@;
        out.append(piece);
        out.append(replacements[k].as_str());
        proof {
            assert(reps[k as int] == replacements@[k as int]@);
            assert(out@ + spliced(b, ms, reps, k + 1, span.end as int) =~= before + spliced(b, ms, reps, k as int, cursor as int));
        }
        cursor = span.end;
        k = k + 1;
    }
    let tail = byte_slice(content, cursor, n);
    let ghost before = out@;
    out.append(tail);
    proof {
        assert(out@ =~= before + spliced(b, ms, reps, k as int, cursor as int));
    }
    out
}

/// The bytes `x..z` of a valid UTF-8 text decode as the bytes `x..y`
/// followed by the bytes `y..z`, when all three fall on character starts.
pub proof fn lemma_decode_concat(b: Seq<u8>, x: int, y: int, z: int)
    requires
        valid_utf8(b),
        0 <= x <= y <= z <= b.len(),
        at_char_start(b, x),
        at_char_start(b, y),
        at_char_start(b, z),
    ensures
        decode_utf8(b.subrange(x, z)) == decode_utf8(b.subrange(x, y)) + decode_utf8(b.subrange(y, z)),
{
    is_char_boundary_start_end_of_seq(b);
    if x < b.len() {
        is_char_boundary_iff_not_is_continuation_byte(b, x);
    }
    valid_utf8_split(b, x);
    let r = b.subrange(x, b.len() as int);
    is_char_boundary_start_end_of_seq(r);
    if z < b.len() {
        assert(r[z - x] == b[z]);
        is_char_boundary_iff_not_is_continuation_byte(r, z - x);
    }
    valid_utf8_split(r, z - x);
    let t = r.subrange(0, z - x);
    assert(t =~= b.subrange(x, z));
    is_char_boundary_start_end_of_seq(t);
    if y < z {
        assert(t[y - x] == b[y]);
        is_char_boundary_iff_not_is_continuation_byte(t, y - x);
    }
    decode_utf8_split(t, y - x);
    assert(t.subrange(0, y - x) =~= b.subrange(x, y));
    assert(t.subrange(y - x, t.len() as int) =~= b.subrange(y, z));
}

/// Each directive's own text, from its `#` to its closing `]`.
pub open spec fn own_texts(b: Seq<u8>, ms: Seq<DirectiveMatch>) -> Seq<Seq<char>> {
    ms.map_values(|m: DirectiveMatch| decode_utf8(b.subrange(m.start as int, m.end as int)))
}

proof fn lemma_spliced_own(b: Seq<u8>, ms: Seq<DirectiveMatch>, k: int, cursor: int)
    requires
        valid_utf8(b),
        well_placed(b, ms, 0),
        0 <= k <= ms.len(),
        0 <= cursor <= b.len(),
        at_char_start(b, cursor),
        k < ms.len() ==> cursor <= ms[k].start,
    ensures
        spliced(b, ms, own_texts(b, ms), k, cursor) == decode_utf8(b.subrange(cursor, b.len() as int)),
    decreases ms.len() - k,
{
    if k < ms.len() {
        let m = ms[k];
        lemma_match_at(b, m.start as int);
        if k + 1 < ms.len() {
            assert(ms[k].end <= ms[k + 1].start);
        }
        lemma_spliced_own(b, ms, k + 1, m.end as int);
        lemma_decode_concat(b, cursor, m.start as int, b.len() as int);
        lemma_decode_concat(b, m.start as int, m.end as int, b.len() as int);
        assert(own_texts(b, ms)[k] == decode_utf8(b.subrange(m.start as int, m.end as int)));
    }
}

/// Law: replacing every directive by its own text gives back the text
/// unchanged; the replacement touches nothing but the directives.
pub proof fn law_replacing_directives_by_their_text_is_identity(content: Seq<char>)
    requires
        vstd::utf8::encode_utf8(content).len() <= usize::MAX,
    ensures
        ({
            let b = vstd::utf8::encode_utf8(content);
            let ms = directive_matches(b);
            spliced(b, ms, own_texts(b, ms), 0, 0) == content
        }),
{
    let b = vstd::utf8::encode_utf8(content);
    encode_utf8_valid_utf8(content);
    encode_utf8_decode_utf8(content);
    law_directives_in_order(b, 0);
    is_char_boundary_start_end_of_seq(b);
    if b.len() > 0 {
        is_char_boundary_iff_not_is_continuation_byte(b, 0);
    }
    lemma_spliced_own(b, directive_matches(b), 0, 0);
    assert(b.subrange(0, b.len() as int) =~= b);
}

/// A valid UTF-8 text whose first byte is ASCII decodes as that character
/// followed by the rest.
proof fn lemma_decode_ascii_head(w: Seq<u8>)
    requires
        valid_utf8(w),
        w.len() > 0,
        w[0] < 128u8,
    ensures
        valid_utf8(w.drop_first()),
        decode_utf8(w) == seq![w[0] as char] + decode_utf8(w.drop_first()),
{
    let x = w[0];
    assert(x & 0x7fu8 == x) by (bit_vector)
        requires
            x < 128u8,
    ;
    assert(vstd::utf8::pop_first_scalar(w) =~= w.drop_first());
}

/// The first `n` bytes of a valid UTF-8 text are ASCII: they decode one
/// character each.
proof fn lemma_decode_ascii_prefix(w: Seq<u8>, n: int)
    requires
        valid_utf8(w),
        0 <= n <= w.len(),
        forall|i: int| 0 <= i < n ==> w[i] < 128u8,
    ensures
        decode_utf8(w).len() >= n,
        forall|i: int| 0 <= i < n ==> decode_utf8(w)[i] == w[i] as char,
    decreases n,
{
    if n > 0 {
        lemma_decode_ascii_head(w);
        let t = w.drop_first();
        lemma_decode_ascii_prefix(t, n - 1);
        assert forall|i: int| 0 <= i < n implies decode_utf8(w)[i] == w[i] as char by {
            if i > 0 {
                assert(decode_utf8(w)[i] == decode_utf8(t)[i - 1]);
                assert(t[i - 1] == w[i]);
            }
        }
    }
}

/// The bytes `x..z` of a valid UTF-8 text are valid UTF-8 when both ends
/// fall on character starts.
proof fn lemma_valid_subrange(b: Seq<u8>, x: int, z: int)
    requires
        valid_utf8(b),
        0 <= x <= z <= b.len(),
        at_char_start(b, x),
        at_char_start(b, z),
    ensures
        valid_utf8(b.subrange(x, z)),
{
    lemma_decode_concat(b, x, x, z);
    is_char_boundary_start_end_of_seq(b);
    if x < b.len() {
        is_char_boundary_iff_not_is_continuation_byte(b, x);
    }
    valid_utf8_split(b, x);
    let r = b.subrange(x, b.len() as int);
    is_char_boundary_start_end_of_seq(r);
    if z < b.len() {
        assert(r[z - x] == b[z]);
        is_char_boundary_iff_not_is_continuation_byte(r, z - x);
    }
    valid_utf8_split(r, z - x);
    assert(r.subrange(0, z - x) =~= b.subrange(x, z));
}

proof fn lemma_name_chars(k: DirectiveKind)
    ensures
        kind_name(k).len() == name_bytes(k).len(),
        forall|i: int| 0 <= i < name_bytes(k).len() ==> name_bytes(k)[i] < 128u8 && name_bytes(k)[i] != 33u8,
        forall|i: int| 0 <= i < name_bytes(k).len() ==> #[trigger] kind_name(k)[i] == name_bytes(k)[i] as char,
        kind_named(kind_name(k)) == Some(k),
{
    assert(kind_name(DirectiveKind::SourceFile)[0] != kind_name(DirectiveKind::ImplMethod)[0]);
    assert(kind_name(DirectiveKind::Static)[2] != kind_name(DirectiveKind::Struct)[2]);
    assert(kind_name(DirectiveKind::Const)[0] != kind_name(DirectiveKind::Trait)[0]);
    assert(kind_name(DirectiveKind::Enum)[0] != kind_name(DirectiveKind::Impl)[0]);
    assert(kind_name(DirectiveKind::SourceFile).len() == 11);
    assert(kind_name(DirectiveKind::Static).len() == 6);
    assert(kind_name(DirectiveKind::Const).len() == 5);
    assert(kind_name(DirectiveKind::Function).len() == 8);
    assert(kind_name(DirectiveKind::Struct).len() == 6);
    assert(kind_name(DirectiveKind::Enum).len() == 4);
    assert(kind_name(DirectiveKind::Trait).len() == 5);
    assert(kind_name(DirectiveKind::Impl).len() == 4);
    assert(kind_name(DirectiveKind::ImplMethod).len() == 11);
    assert(kind_name(DirectiveKind::TraitImpl).len() == 10);
    assert(kind_name(DirectiveKind::FunctionBody).len() == 13);
}

/// Law: the directive text of every directive that the scanner finds names
/// the kind the scanner found, so the dispatch on the name before the first
/// `!` never leaves a found directive as it is.
pub proof fn law_found_directives_are_recognised(content: Seq<char>, k: int)
    requires
        vstd::utf8::encode_utf8(content).len() <= usize::MAX,
        0 <= k < directive_matches(vstd::utf8::encode_utf8(content)).len(),
    ensures
        ({
            let b = vstd::utf8::encode_utf8(content);
            let m = directive_matches(b)[k];
            spec_directive_kind(decode_utf8(b.subrange(m.start + 3, m.end - 1))) == Some(m.kind)
        }),
{
    let b = vstd::utf8::encode_utf8(content);
    let ms = directive_matches(b);
    let m = ms[k];
    encode_utf8_valid_utf8(content);
    law_directives_in_order(b, 0);
    lemma_match_at(b, m.start as int);
    let x = m.start + 3;
    let z = m.end - 1;
    let len = name_bytes(m.kind).len() as int;
    lemma_valid_subrange(b, x, z);
    let w = b.subrange(x, z);
    assert(w.subrange(0, len + 1) =~= b.subrange(x, x + len + 1));
    assert(b.subrange(x, x + len + 1) == name_bytes(m.kind) + seq![33u8]);
    lemma_name_chars(m.kind);
    assert forall|i: int| 0 <= i < len + 1 implies w[i] < 128u8 by {
        assert(w[i] == (name_bytes(m.kind) + seq![33u8])[i]);
    }
    lemma_decode_ascii_prefix(w, len + 1);
    let d = decode_utf8(w);
    assert(d.subrange(0, len) =~= kind_name(m.kind)) by {
        assert forall|i: int| 0 <= i < len implies d.subrange(0, len)[i] == kind_name(m.kind)[i] by {
            assert(w[i] == (name_bytes(m.kind) + seq![33u8])[i]);
        }
    }
    assert(d[len] == '!') by {
        assert(w[len] == (name_bytes(m.kind) + seq![33u8])[len]);
    }
    assert(occurs_at(d, seq!['!'], len)) by {
        assert(d.subrange(len, len + 1) =~= seq!['!']);
    }
    assert forall|j: int| 0 <= j < len implies !occurs_at(d, seq!['!'], j) by {
        assert(w[j] == (name_bytes(m.kind) + seq![33u8])[j]);
        assert(d.subrange(j, j + 1)[0] == d[j]);
    }
    crate::text::lemma_first_occurrence(d, seq!['!'], 0);
}

/// The cursor after the first `k` directives: where the text resumes.
spec fn resume_at(ms: Seq<DirectiveMatch>, k: int) -> int {
    if k <= 0 { 0 } else { ms[k - 1].end as int }
}

/// The output of the replacement up to the `k`-th directive's replacement:
/// the text before each earlier directive, then that directive's
/// replacement, then the text up to the `k`-th one.
spec fn replaced_prefix(b: Seq<u8>, ms: Seq<DirectiveMatch>, reps: Seq<Seq<char>>, k: int) -> Seq<char>
    decreases k,
{
    if k <= 0 {
        Seq::empty()
    } else {
        replaced_prefix(b, ms, reps, k - 1) + decode_utf8(b.subrange(resume_at(ms, k - 1), ms[k - 1].start as int))
            + reps[k - 1]
    }
}

proof fn lemma_spliced_split(b: Seq<u8>, ms: Seq<DirectiveMatch>, reps: Seq<Seq<char>>, k: int)
    requires
        0 <= k <= ms.len(),
    ensures
        spliced(b, ms, reps, 0, 0) == replaced_prefix(b, ms, reps, k) + spliced(b, ms, reps, k, resume_at(ms, k)),
    decreases k,
{
    if k > 0 {
        lemma_spliced_split(b, ms, reps, k - 1);
        assert(spliced(b, ms, reps, k - 1, resume_at(ms, k - 1)) == decode_utf8(
            b.subrange(resume_at(ms, k - 1), ms[k - 1].start as int),
        ) + reps[k - 1] + spliced(b, ms, reps, k, resume_at(ms, k)));
        assert(replaced_prefix(b, ms, reps, k) + spliced(b, ms, reps, k, resume_at(ms, k))
            =~= replaced_prefix(b, ms, reps, k - 1) + spliced(b, ms, reps, k - 1, resume_at(ms, k - 1)));
    } else {
        assert(replaced_prefix(b, ms, reps, 0) + spliced(b, ms, reps, 0, 0) =~= spliced(b, ms, reps, 0, 0));
    }
}

proof fn lemma_prefix_uses_earlier(b: Seq<u8>, ms: Seq<DirectiveMatch>, r1: Seq<Seq<char>>, r2: Seq<Seq<char>>, k: int)
    requires
        0 <= k <= ms.len(),
        forall|j: int| 0 <= j < k ==> r1[j] == r2[j],
    ensures
        replaced_prefix(b, ms, r1, k) == replaced_prefix(b, ms, r2, k),
    decreases k,
{
    if k > 0 {
        lemma_prefix_uses_earlier(b, ms, r1, r2, k - 1);
    }
}

proof fn lemma_rest_uses_later(b: Seq<u8>, ms: Seq<DirectiveMatch>, r1: Seq<Seq<char>>, r2: Seq<Seq<char>>, k: int, c: int)
    requires
        0 <= k <= ms.len(),
        forall|j: int| k <= j < ms.len() ==> r1[j] == r2[j],
    ensures
        spliced(b, ms, r1, k, c) == spliced(b, ms, r2, k, c),
    decreases ms.len() - k,
{
    if k < ms.len() {
        lemma_rest_uses_later(b, ms, r1, r2, k + 1, ms[k].end as int);
    }
}

/// Law: every directive, whatever its kind, is replaced by the text given
/// for it and by nothing else: two replacement lists that differ only at
/// directive `k` give outputs that share the text before and after that
/// directive's replacement, with each list's replacement in between.
pub proof fn law_each_directive_takes_its_replacement(
    content: Seq<char>,
    reps1: Seq<Seq<char>>,
    reps2: Seq<Seq<char>>,
    k: int,
)
    requires
        0 <= k < directive_matches(vstd::utf8::encode_utf8(content)).len(),
        reps1.len() == directive_matches(vstd::utf8::encode_utf8(content)).len(),
        reps2.len() == reps1.len(),
        forall|j: int| 0 <= j < reps1.len() && j != k ==> reps1[j] == reps2[j],
    ensures
        ({
            let b = vstd::utf8::encode_utf8(content);
            let ms = directive_matches(b);
            exists|before: Seq<char>, after: Seq<char>|
                spliced(b, ms, reps1, 0, 0) == before + reps1[k] + after && spliced(b, ms, reps2, 0, 0)
                    == before + reps2[k] + after
        }),
{
    let b = vstd::utf8::encode_utf8(content);
    let ms = directive_matches(b);
    lemma_spliced_split(b, ms, reps1, k);
    lemma_spliced_split(b, ms, reps2, k);
    lemma_prefix_uses_earlier(b, ms, reps1, reps2, k);
    lemma_rest_uses_later(b, ms, reps1, reps2, k + 1, ms[k].end as int);
    let before = replaced_prefix(b, ms, reps1, k) + decode_utf8(b.subrange(resume_at(ms, k), ms[k].start as int));
    let after = spliced(b, ms, reps1, k + 1, ms[k].end as int);
    assert(spliced(b, ms, reps1, 0, 0) =~= before + reps1[k] + after);
    assert(spliced(b, ms, reps2, 0, 0) =~= before + reps2[k] + after);
}

/// Law: every directive found is one: it starts at a line start with `#![`,
/// its kind's name and `!`, and ends at the first `]` after them that ends a
/// line; the directives found follow each other without overlapping.
pub proof fn law_found_directives_are_directives(b: Seq<u8>, j: int)
    requires
        b.len() <= usize::MAX,
        0 <= j < directive_matches(b).len(),
    ensures
        ({
            let m = directive_matches(b)[j];
            let q = m.start + 3 + name_bytes(m.kind).len() + 1;
            &&& crate::scan::starts_line(b, m.start as int)
            &&& crate::scan::bytes_at(b, m.start as int, seq![35u8, 33u8, 91u8])
            &&& crate::scan::bytes_at(b, m.start + 3, name_bytes(m.kind) + seq![33u8])
            &&& q <= m.end - 1 < b.len()
            &&& crate::scan::is_closing(b, m.end - 1)
            &&& forall|c: int| q <= c < m.end - 1 ==> !crate::scan::is_closing(b, c)
            &&& j + 1 < directive_matches(b).len() ==> m.end <= directive_matches(b)[j + 1].start
        }),
{
    law_directives_in_order(b, 0);
    let m = directive_matches(b)[j];
    lemma_match_at(b, m.start as int);
    crate::scan::lemma_first_closing(b, m.start + 3 + name_bytes(m.kind).len() + 1);
}

/// Law: a directive text is read as kind `k` exactly when it starts with the
/// name of `k` followed by `!`.
pub proof fn law_directive_kind_is_its_name(d: Seq<char>, k: DirectiveKind)
    ensures
        spec_directive_kind(d) == Some(k) <==> crate::text::has_prefix(d, kind_name(k) + seq!['!']),
{
    lemma_name_chars(k);
    let name = kind_name(k);
    let l = name.len() as int;
    let bang = seq!['!'];
    assert forall|j: int| 0 <= j < l implies name[j] != '!' by {
        assert(name[j] == name_bytes(k)[j] as char);
    }
    crate::text::lemma_first_occurrence(d, bang, 0);
    if crate::text::has_prefix(d, name + bang) {
        assert(d.subrange(0, l + 1) == name + bang);
        assert(d[l] == (name + bang)[l]);
        assert(occurs_at(d, bang, l)) by {
            assert(d.subrange(l, l + 1) =~= bang);
        }
        assert forall|j: int| 0 <= j < l implies !occurs_at(d, bang, j) by {
            assert(d[j] == (name + bang)[j]);
            assert(d.subrange(j, j + 1)[0] == d[j]);
        }
        assert(first_occurrence(d, bang, 0) == Some(l));
        assert(d.subrange(0, l) =~= name);
    }
    if spec_directive_kind(d) == Some(k) {
        let i = first_occurrence(d, bang, 0).unwrap();
        assert(d.subrange(0, i) == name);
        assert(d.subrange(i, i + 1) == bang);
        assert(d.subrange(0, l + 1) =~= name + bang) by {
            assert(d[i] == d.subrange(i, i + 1)[0]);
        }
    }
}

} // verus!
