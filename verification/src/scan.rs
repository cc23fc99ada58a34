//! The directive grammar: a line that starts with `#![`, a directive name
//! and `!`, and that runs, possibly over several lines, to the first `]`
//! that ends a line. The text between `#![` and that `]` is the directive.
use vstd::prelude::*;
use vstd::string::StringSliceAdditionalSpecFns;
use crate::directive::DirectiveKind;

verus! {

/// The bytes of a directive's name.
pub open spec fn name_bytes(k: DirectiveKind) -> Seq<u8> {
    match k {
        DirectiveKind::SourceFile => seq![115u8, 111u8, 117u8, 114u8, 99u8, 101u8, 95u8, 102u8, 105u8, 108u8, 101u8],
        DirectiveKind::Static => seq![115u8, 116u8, 97u8, 116u8, 105u8, 99u8],
        DirectiveKind::Const => seq![99u8, 111u8, 110u8, 115u8, 116u8],
        DirectiveKind::Function => seq![102u8, 117u8, 110u8, 99u8, 116u8, 105u8, 111u8, 110u8],
        DirectiveKind::Struct => seq![115u8, 116u8, 114u8, 117u8, 99u8, 116u8],
        DirectiveKind::Enum => seq![101u8, 110u8, 117u8, 109u8],
        DirectiveKind::Trait => seq![116u8, 114u8, 97u8, 105u8, 116u8],
        DirectiveKind::Impl => seq![105u8, 109u8, 112u8, 108u8],
        DirectiveKind::ImplMethod => seq![105u8, 109u8, 112u8, 108u8, 95u8, 109u8, 101u8, 116u8, 104u8, 111u8, 100u8],
        DirectiveKind::TraitImpl => seq![116u8, 114u8, 97u8, 105u8, 116u8, 95u8, 105u8, 109u8, 112u8, 108u8],
        DirectiveKind::FunctionBody => seq![102u8, 117u8, 110u8, 99u8, 116u8, 105u8, 111u8, 110u8, 95u8, 98u8, 111u8, 100u8, 121u8],
    }
}

/// The bytes `p` stand in `b` at `i`.
pub open spec fn bytes_at(b: Seq<u8>, i: int, p: Seq<u8>) -> bool {
    0 <= i && i + p.len() <= b.len() && b.subrange(i, i + p.len()) == p
}

/// The directive name followed by `!` that stands in `b` at `i`, trying the
/// names in the order of the grammar's alternation.
#[verifier::opaque]
pub open spec fn name_at(b: Seq<u8>, i: int) -> Option<DirectiveKind> {
    let bang = seq![33u8];
    if bytes_at(b, i, name_bytes(DirectiveKind::SourceFile) + bang) {
        Some(DirectiveKind::SourceFile)
    } else if bytes_at(b, i, name_bytes(DirectiveKind::Static) + bang) {
        Some(DirectiveKind::Static)
    } else if bytes_at(b, i, name_bytes(DirectiveKind::Const) + bang) {
        Some(DirectiveKind::Const)
    } else if bytes_at(b, i, name_bytes(DirectiveKind::Function) + bang) {
        Some(DirectiveKind::Function)
    } else if bytes_at(b, i, name_bytes(DirectiveKind::Struct) + bang) {
        Some(DirectiveKind::Struct)
    } else if bytes_at(b, i, name_bytes(DirectiveKind::Enum) + bang) {
        Some(DirectiveKind::Enum)
    } else if bytes_at(b, i, name_bytes(DirectiveKind::Trait) + bang) {
        Some(DirectiveKind::Trait)
    } else if bytes_at(b, i, name_bytes(DirectiveKind::Impl) + bang) {
        Some(DirectiveKind::Impl)
    } else if bytes_at(b, i, name_bytes(DirectiveKind::ImplMethod) + bang) {
        Some(DirectiveKind::ImplMethod)
    } else if bytes_at(b, i, name_bytes(DirectiveKind::TraitImpl) + bang) {
        Some(DirectiveKind::TraitImpl)
    } else if bytes_at(b, i, name_bytes(DirectiveKind::FunctionBody) + bang) {
        Some(DirectiveKind::FunctionBody)
    } else {
        None
    }
}

/// A `]` at `e` that ends a line: the text ends after it or a line feed
/// follows.
pub open spec fn is_closing(b: Seq<u8>, e: int) -> bool {
    0 <= e < b.len() && b[e] == 0x5du8 && (e + 1 == b.len() || b[e + 1] == 10u8)
}

/// The first closing `]` at or after `from`.
pub open spec fn first_closing(b: Seq<u8>, from: int) -> Option<int>
    decreases b.len() - from,
{
    if from < 0 || from >= b.len() {
        None
    } else if is_closing(b, from) {
        Some(from)
    } else {
        first_closing(b, from + 1)
    }
}

/// The start of a line.
pub open spec fn starts_line(b: Seq<u8>, s: int) -> bool {
    s == 0 || (0 < s <= b.len() && b[s - 1] == 10u8)
}

/// A directive starting at `s`: its kind and the index of its closing `]`.
#[verifier::opaque]
pub open spec fn match_at(b: Seq<u8>, s: int) -> Option<(DirectiveKind, int)> {
    if starts_line(b, s) && bytes_at(b, s, seq![35u8, 33u8, 91u8]) {
        match name_at(b, s + 3) {
            Some(k) => match first_closing(b, s + 3 + name_bytes(k).len() + 1) {
                Some(e) => Some((k, e)),
                None => None,
            },
            None => None,
        }
    } else {
        None
    }
}

/// A directive found in the text: the bytes `start..end` hold `#![`, the
/// directive and the closing `]`; the directive is `start + 3..end - 1`.
#[derive(Clone, Copy, Debug, PartialEq, Eq, Structural)]
pub struct DirectiveMatch {
    pub start: usize,
    pub end: usize,
    pub kind: DirectiveKind,
}

pub proof fn lemma_first_closing(b: Seq<u8>, from: int)
    requires
        from >= 0,
    ensures
        first_closing(b, from) matches Some(e) ==> from <= e && is_closing(b, e) && forall|j: int|
            from <= j < e ==> !is_closing(b, j),
        first_closing(b, from) is None ==> forall|j: int| from <= j ==> !is_closing(b, j),
    decreases b.len() - from,
{
    if 0 <= from < b.len() && !is_closing(b, from) {
        lemma_first_closing(b, from + 1);
    }
}

/// What a directive found at `s` consists of.
pub proof fn lemma_match_at(b: Seq<u8>, s: int)
    requires
        s >= 0,
    ensures
        match_at(b, s) matches Some((k, e)) ==> {
            &&& starts_line(b, s)
            &&& bytes_at(b, s, seq![35u8, 33u8, 91u8])
            &&& bytes_at(b, s + 3, name_bytes(k) + seq![33u8])
            &&& 4 <= name_bytes(k).len() <= 13
            &&& s + 3 + name_bytes(k).len() + 1 <= e
            &&& is_closing(b, e)
            &&& first_closing(b, s + 3 + name_bytes(k).len() + 1) == Some(e)
            &&& b[s] == 35u8
            &&& b[s + 3] < 128u8
        },
{
    reveal(match_at);
    reveal(name_at);
    if let Some((k, e)) = match_at(b, s) {
        lemma_first_closing(b, s + 3 + name_bytes(k).len() + 1);
        assert(b[s] == b.subrange(s, s + 3)[0]);
        assert(b[s + 3] == b.subrange(s + 3, s + 3 + name_bytes(k).len() + 1)[0]);
    }
}

/// The directives of `b` from byte `pos` on, as a left-to-right search
/// finds them: the first position where a directive starts, that
/// directive, then the search goes on after its closing `]`.
pub open spec fn matches_from(b: Seq<u8>, pos: int) -> Seq<DirectiveMatch>
    decreases b.len() - pos,
{
    if pos < 0 || pos >= b.len() {
        Seq::empty()
    } else {
        match match_at(b, pos) {
            Some((k, e)) => {
                proof {
                    lemma_match_at(b, pos);
                }
                seq![DirectiveMatch { start: pos as usize, end: (e + 1) as usize, kind: k }]
                    + matches_from(b, e + 1)
            },
            None => matches_from(b, pos + 1),
        }
    }
}

/// All directives of the text `b`.
pub open spec fn directive_matches(b: Seq<u8>) -> Seq<DirectiveMatch> {
    matches_from(b, 0)
}

/// Whether the bytes `p` stand in `b` at `i`.
fn bytes_match(b: &[u8], i: usize, p: &[u8]) -> (r: bool)
    ensures
        r == bytes_at(b@, i as int, p@),
{
    let n = b.len();
    let m = p.len();
    if i > n || m > n - i {
        return false;
    }
    let mut k: usize = 0;
    while k < m
        invariant
            n == b@.len(),
            m == p@.len(),
            i + m <= n,
            k <= m,
            forall|q: int| 0 <= q < k ==> b@[i + q] == p@[q],
        decreases m - k,
    {
        if b[i + k] != p[k] {
            assert(b@.subrange(i as int, i + m)[k as int] != p@[k as int]);
            return false;
        }
        k = k + 1;
    }
    assert(b@.subrange(i as int, i + m) =~= p@);
    true
}

/// The directive name followed by `!` at `i`, with the name's length.
fn directive_name_at(b: &[u8], i: usize) -> (r: Option<DirectiveKind>)
    ensures
        r == name_at(b@, i as int),
        r matches Some(k) ==> bytes_at(b@, i as int, name_bytes(k) + seq![33u8]),
{
    reveal(name_at);
    let a0 = [115u8, 111u8, 117u8, 114u8, 99u8, 101u8, 95u8, 102u8, 105u8, 108u8, 101u8, 33u8];
    let a1 = [115u8, 116u8, 97u8, 116u8, 105u8, 99u8, 33u8];
    let a2 = [99u8, 111u8, 110u8, 115u8, 116u8, 33u8];
    let a3 = [102u8, 117u8, 110u8, 99u8, 116u8, 105u8, 111u8, 110u8, 33u8];
    let a4 = [115u8, 116u8, 114u8, 117u8, 99u8, 116u8, 33u8];
    let a5 = [101u8, 110u8, 117u8, 109u8, 33u8];
    let a6 = [116u8, 114u8, 97u8, 105u8, 116u8, 33u8];
    let a7 = [105u8, 109u8, 112u8, 108u8, 33u8];
    let a8 = [105u8, 109u8, 112u8, 108u8, 95u8, 109u8, 101u8, 116u8, 104u8, 111u8, 100u8, 33u8];
    let a9 = [116u8, 114u8, 97u8, 105u8, 116u8, 95u8, 105u8, 109u8, 112u8, 108u8, 33u8];
    let a10 = [102u8, 117u8, 110u8, 99u8, 116u8, 105u8, 111u8, 110u8, 95u8, 98u8, 111u8, 100u8, 121u8, 33u8];
    let ghost bang = seq![33u8];
    assert(a0@ =~= name_bytes(DirectiveKind::SourceFile) + bang);
    assert(a1@ =~= name_bytes(DirectiveKind::Static) + bang);
    assert(a2@ =~= name_bytes(DirectiveKind::Const) + bang);
    assert(a3@ =~= name_bytes(DirectiveKind::Function) + bang);
    assert(a4@ =~= name_bytes(DirectiveKind::Struct) + bang);
    assert(a5@ =~= name_bytes(DirectiveKind::Enum) + bang);
    assert(a6@ =~= name_bytes(DirectiveKind::Trait) + bang);
    assert(a7@ =~= name_bytes(DirectiveKind::Impl) + bang);
    assert(a8@ =~= name_bytes(DirectiveKind::ImplMethod) + bang);
    assert(a9@ =~= name_bytes(DirectiveKind::TraitImpl) + bang);
    assert(a10@ =~= name_bytes(DirectiveKind::FunctionBody) + bang);
    if bytes_match(b, i, &a0) {
        Some(DirectiveKind::SourceFile)
    } else if bytes_match(b, i, &a1) {
        Some(DirectiveKind::Static)
    } else if bytes_match(b, i, &a2) {
        Some(DirectiveKind::Const)
    } else if bytes_match(b, i, &a3) {
        Some(DirectiveKind::Function)
    } else if bytes_match(b, i, &a4) {
        Some(DirectiveKind::Struct)
    } else if bytes_match(b, i, &a5) {
        Some(DirectiveKind::Enum)
    } else if bytes_match(b, i, &a6) {
        Some(DirectiveKind::Trait)
    } else if bytes_match(b, i, &a7) {
        Some(DirectiveKind::Impl)
    } else if bytes_match(b, i, &a8) {
        Some(DirectiveKind::ImplMethod)
    } else if bytes_match(b, i, &a9) {
        Some(DirectiveKind::TraitImpl)
    } else if bytes_match(b, i, &a10) {
        Some(DirectiveKind::FunctionBody)
    } else {
        None
    }
}

/// The length of the name of `k`.
fn name_len(k: DirectiveKind) -> (r: usize)
    ensures
        r == name_bytes(k).len(),
{
    match k {
        DirectiveKind::SourceFile => 11,
        DirectiveKind::Static => 6,
        DirectiveKind::Const => 5,
        DirectiveKind::Function => 8,
        DirectiveKind::Struct => 6,
        DirectiveKind::Enum => 4,
        DirectiveKind::Trait => 5,
        DirectiveKind::Impl => 4,
        DirectiveKind::ImplMethod => 11,
        DirectiveKind::TraitImpl => 10,
        DirectiveKind::FunctionBody => 13,
    }
}

/// Finds the directives of `content`, left to right, each starting where a
/// line starts and ending at the first `]` after its name that ends a line.
pub fn find_directives(content: &str) -> (r: Vec<DirectiveMatch>)
    ensures
        r@ == directive_matches(content.spec_bytes()),
{
    let b = content.as_bytes();
    let n = b.len();
    let ghost bs = b@;
    let mut out: Vec<DirectiveMatch> = Vec::new();
    let mut pos: usize = 0;
    // No `]` that ends a line lies at or after `no_close_from`.
    let mut no_close_from: usize = n;
    proof {
        lemma_first_closing(bs, n as int);
    }
    while pos < n
        invariant
            bs == b@,
            n == bs.len(),
            pos <= n,
            no_close_from <= n,
            forall|j: int| no_close_from <= j ==> !is_closing(bs, j),
            out@ + matches_from(bs, pos as int) == matches_from(bs, 0),
        decreases n - pos,
    {
        let head = [35u8, 33u8, 91u8];
        assert(head@ =~= seq![35u8, 33u8, 91u8]);
        proof {
            reveal(match_at);
        }
        let line_start = pos == 0 || b[pos - 1] == 10u8;
        let mut next = pos + 1;
        if line_start && bytes_match(b, pos, &head) {
            if let Some(k) = directive_name_at(b, pos + 3) {
                let q = pos + 3 + name_len(k) + 1;
                let mut e = q;
                if e < no_close_from {
                    while e < n && !(b[e] == 0x5du8 && (e + 1 == n || b[e + 1] == 10u8))
                        invariant
                            bs == b@,
                            n == bs.len(),
                            q <= e <= n,
                            forall|j: int| q <= j < e ==> !is_closing(bs, j),
                        decreases n - e,
                    {
                        e = e + 1;
                    }
                } else {
                    e = n;
                }
                proof {
                    lemma_first_closing(bs, q as int);
                }
                if e < n {
                    assert(is_closing(bs, e as int));
                    assert(forall|j: int| q <= j < e ==> !is_closing(bs, j));
                    assert(first_closing(bs, q as int) == Some(e as int));
                    let m = DirectiveMatch { start: pos, end: e + 1, kind: k };
                    assert(matches_from(bs, pos as int) == seq![m] + matches_from(bs, e + 1));
                    out.push(m);
                    assert(out@ + matches_from(bs, e + 1) =~= (out@.drop_last() + seq![m]) + matches_from(bs, e + 1));
                    next = e + 1;
                } else {
                    if q < no_close_from {
                        no_close_from = q;
                    }
                    assert(first_closing(bs, q as int) is None);
                }
            }
        }
        pos = next;
    }
    assert(matches_from(bs, pos as int) =~= Seq::<DirectiveMatch>::empty());
    assert(out@ =~= out@ + Seq::<DirectiveMatch>::empty());
    out
}

proof fn lemma_bytes_conflict(b: Seq<u8>, i: int, p: Seq<u8>, q: Seq<u8>, j: int)
    requires
        bytes_at(b, i, p),
        0 <= j < p.len(),
        j < q.len(),
        p[j] != q[j],
    ensures
        !bytes_at(b, i, q),
{
    assert(b.subrange(i, i + p.len())[j] == p[j]);
    if bytes_at(b, i, q) {
        assert(b.subrange(i, i + q.len())[j] == q[j]);
    }
}

/// Law: a directive name of any kind followed by `!` is read as that kind.
pub proof fn law_every_name_is_read(b: Seq<u8>, i: int, k: DirectiveKind)
    requires
        bytes_at(b, i, name_bytes(k) + seq![33u8]),
    ensures
        name_at(b, i) == Some(k),
{
    reveal(name_at);
    let bang = seq![33u8];
    let p = name_bytes(k) + bang;
    match k {
        DirectiveKind::SourceFile => {

        },
        DirectiveKind::Static => {
            lemma_bytes_conflict(b, i, p, name_bytes(DirectiveKind::SourceFile) + bang, 1);
        },
        DirectiveKind::Const => {
            lemma_bytes_conflict(b, i, p, name_bytes(DirectiveKind::SourceFile) + bang, 0);
            lemma_bytes_conflict(b, i, p, name_bytes(DirectiveKind::Static) + bang, 0);
        },
        DirectiveKind::Function => {
            lemma_bytes_conflict(b, i, p, name_bytes(DirectiveKind::SourceFile) + bang, 0);
            lemma_bytes_conflict(b, i, p, name_bytes(DirectiveKind::Static) + bang, 0);
            lemma_bytes_conflict(b, i, p, name_bytes(DirectiveKind::Const) + bang, 0);
        },
        DirectiveKind::Struct => {
            lemma_bytes_conflict(b, i, p, name_bytes(DirectiveKind::SourceFile) + bang, 1);
            lemma_bytes_conflict(b, i, p, name_bytes(DirectiveKind::Static) + bang, 2);
            lemma_bytes_conflict(b, i, p, name_bytes(DirectiveKind::Const) + bang, 0);
            lemma_bytes_conflict(b, i, p, name_bytes(DirectiveKind::Function) + bang, 0);
        },
        DirectiveKind::Enum => {
            lemma_bytes_conflict(b, i, p, name_bytes(DirectiveKind::SourceFile) + bang, 0);
            lemma_bytes_conflict(b, i, p, name_bytes(DirectiveKind::Static) + bang, 0);
            lemma_bytes_conflict(b, i, p, name_bytes(DirectiveKind::Const) + bang, 0);
            lemma_bytes_conflict(b, i, p, name_bytes(DirectiveKind::Function) + bang, 0);
            lemma_bytes_conflict(b, i, p, name_bytes(DirectiveKind::Struct) + bang, 0);
        },
        DirectiveKind::Trait => {
            lemma_bytes_conflict(b, i, p, name_bytes(DirectiveKind::SourceFile) + bang, 0);
            lemma_bytes_conflict(b, i, p, name_bytes(DirectiveKind::Static) + bang, 0);
            lemma_bytes_conflict(b, i, p, name_bytes(DirectiveKind::Const) + bang, 0);
            lemma_bytes_conflict(b, i, p, name_bytes(DirectiveKind::Function) + bang, 0);
            lemma_bytes_conflict(b, i, p, name_bytes(DirectiveKind::Struct) + bang, 0);
            lemma_bytes_conflict(b, i, p, name_bytes(DirectiveKind::Enum) + bang, 0);
        },
        DirectiveKind::Impl => {
            lemma_bytes_conflict(b, i, p, name_bytes(DirectiveKind::SourceFile) + bang, 0);
            lemma_bytes_conflict(b, i, p, name_bytes(DirectiveKind::Static) + bang, 0);
            lemma_bytes_conflict(b, i, p, name_bytes(DirectiveKind::Const) + bang, 0);
            lemma_bytes_conflict(b, i, p, name_bytes(DirectiveKind::Function) + bang, 0);
            lemma_bytes_conflict(b, i, p, name_bytes(DirectiveKind::Struct) + bang, 0);
            lemma_bytes_conflict(b, i, p, name_bytes(DirectiveKind::Enum) + bang, 0);
            lemma_bytes_conflict(b, i, p, name_bytes(DirectiveKind::Trait) + bang, 0);
        },
        DirectiveKind::ImplMethod => {
            lemma_bytes_conflict(b, i, p, name_bytes(DirectiveKind::SourceFile) + bang, 0);
            lemma_bytes_conflict(b, i, p, name_bytes(DirectiveKind::Static) + bang, 0);
            lemma_bytes_conflict(b, i, p, name_bytes(DirectiveKind::Const) + bang, 0);
            lemma_bytes_conflict(b, i, p, name_bytes(DirectiveKind::Function) + bang, 0);
            lemma_bytes_conflict(b, i, p, name_bytes(DirectiveKind::Struct) + bang, 0);
            lemma_bytes_conflict(b, i, p, name_bytes(DirectiveKind::Enum) + bang, 0);
            lemma_bytes_conflict(b, i, p, name_bytes(DirectiveKind::Trait) + bang, 0);
            lemma_bytes_conflict(b, i, p, name_bytes(DirectiveKind::Impl) + bang, 4);
        },
        DirectiveKind::TraitImpl => {
            lemma_bytes_conflict(b, i, p, name_bytes(DirectiveKind::SourceFile) + bang, 0);
            lemma_bytes_conflict(b, i, p, name_bytes(DirectiveKind::Static) + bang, 0);
            lemma_bytes_conflict(b, i, p, name_bytes(DirectiveKind::Const) + bang, 0);
            lemma_bytes_conflict(b, i, p, name_bytes(DirectiveKind::Function) + bang, 0);
            lemma_bytes_conflict(b, i, p, name_bytes(DirectiveKind::Struct) + bang, 0);
            lemma_bytes_conflict(b, i, p, name_bytes(DirectiveKind::Enum) + bang, 0);
            lemma_bytes_conflict(b, i, p, name_bytes(DirectiveKind::Trait) + bang, 5);
            lemma_bytes_conflict(b, i, p, name_bytes(DirectiveKind::Impl) + bang, 0);
            lemma_bytes_conflict(b, i, p, name_bytes(DirectiveKind::ImplMethod) + bang, 0);
        },
        DirectiveKind::FunctionBody => {
            lemma_bytes_conflict(b, i, p, name_bytes(DirectiveKind::SourceFile) + bang, 0);
            lemma_bytes_conflict(b, i, p, name_bytes(DirectiveKind::Static) + bang, 0);
            lemma_bytes_conflict(b, i, p, name_bytes(DirectiveKind::Const) + bang, 0);
            lemma_bytes_conflict(b, i, p, name_bytes(DirectiveKind::Function) + bang, 8);
            lemma_bytes_conflict(b, i, p, name_bytes(DirectiveKind::Struct) + bang, 0);
            lemma_bytes_conflict(b, i, p, name_bytes(DirectiveKind::Enum) + bang, 0);
            lemma_bytes_conflict(b, i, p, name_bytes(DirectiveKind::Trait) + bang, 0);
            lemma_bytes_conflict(b, i, p, name_bytes(DirectiveKind::Impl) + bang, 0);
            lemma_bytes_conflict(b, i, p, name_bytes(DirectiveKind::ImplMethod) + bang, 0);
            lemma_bytes_conflict(b, i, p, name_bytes(DirectiveKind::TraitImpl) + bang, 0);
        },
    }
}

/// Law: for every kind, a text made of `#![`, the kind's name (as the
/// directive dispatch spells it), `!`, arguments without `]`, and a closing
/// `]` at the end is exactly one directive of that kind spanning the text.
pub proof fn law_every_kind_is_found(k: DirectiveKind, args: Seq<u8>)
    requires
        forall|j: int| 0 <= j < args.len() ==> args[j] != 93u8,
        args.len() + 32 <= usize::MAX,
    ensures
        ({
            let b = seq![35u8, 33u8, 91u8] + name_bytes(k) + seq![33u8] + args + seq![93u8];
            directive_matches(b) == seq![DirectiveMatch { start: 0, end: b.len() as usize, kind: k }]
        }),
        forall|j: int| 0 <= j < name_bytes(k).len() ==> #[trigger] name_bytes(k)[j] as char == crate::directive::kind_name(k)[j],
        name_bytes(k).len() == crate::directive::kind_name(k).len(),
{
    let nb = name_bytes(k);
    let b = seq![35u8, 33u8, 91u8] + nb + seq![33u8] + args + seq![93u8];
    let q: int = 3 + nb.len() as int + 1;
    let last: int = b.len() - 1;
    assert(b.subrange(0, 3) =~= seq![35u8, 33u8, 91u8]);
    assert(b.subrange(3, q) =~= nb + seq![33u8]);
    law_every_name_is_read(b, 3, k);
    assert(nb.len() <= 13);
    assert forall|j: int| q <= j < last implies !is_closing(b, j) by {
        assert(b[j] == args[j - q]);
    }
    assert(is_closing(b, last));
    lemma_first_closing(b, q);
    assert(first_closing(b, q) == Some(last));
    assert(starts_line(b, 0));
    assert(match_at(b, 0) == Some((k, last))) by {
        reveal(match_at);
    }
    assert(matches_from(b, b.len() as int) =~= Seq::<DirectiveMatch>::empty());
    assert(matches_from(b, 0) =~= seq![DirectiveMatch { start: 0, end: b.len() as usize, kind: k }]);
    assert(crate::directive::kind_name(crate::directive::DirectiveKind::SourceFile).len() == 11);
}

proof fn lemma_found_from(b: Seq<u8>, pos: int, s: int, k: DirectiveKind, e: int)
    requires
        b.len() <= usize::MAX,
        0 <= pos <= s,
        starts_line(b, s),
        bytes_at(b, s, seq![35u8, 33u8, 91u8]),
        bytes_at(b, s + 3, name_bytes(k) + seq![33u8]),
        s + 3 + name_bytes(k).len() + 1 <= e,
        is_closing(b, e),
        forall|j: int| 0 <= j < matches_from(b, pos).len() ==> !(#[trigger] matches_from(b, pos)[j].start <= s < matches_from(b, pos)[j].end),
    ensures
        exists|j: int| 0 <= j < matches_from(b, pos).len() && (#[trigger] matches_from(b, pos)[j]).start == s && matches_from(b, pos)[j].kind == k
            && first_closing(b, s + 3 + name_bytes(k).len() + 1) == Some(matches_from(b, pos)[j].end - 1),
    decreases b.len() - pos,
{
    let ms = matches_from(b, pos);
    assert(pos < b.len()) by {
        assert(b.subrange(s, s + 3).len() == 3);
    }
    if pos == s {
        law_every_name_is_read(b, s + 3, k);
        lemma_first_closing(b, s + 3 + name_bytes(k).len() + 1);
        assert(match_at(b, s) is Some) by {
            reveal(match_at);
        }
        lemma_match_at(b, s);
        let (k2, e2) = match_at(b, s).unwrap();
        assert(k2 == k) by {
            reveal(match_at);
        }
        assert(ms[0].start == s);
    } else {
        match match_at(b, pos) {
            Some((k2, e2)) => {
                lemma_match_at(b, pos);
                let rest = matches_from(b, e2 + 1);
                assert(ms == seq![DirectiveMatch { start: pos as usize, end: (e2 + 1) as usize, kind: k2 }] + rest);
                assert(!(ms[0].start <= s < ms[0].end));
                assert forall|j: int| 0 <= j < rest.len() implies !(#[trigger] rest[j].start <= s < rest[j].end) by {
                    assert(rest[j] == ms[j + 1]);
                }
                lemma_found_from(b, e2 + 1, s, k, e);
                let j = choose|j: int| 0 <= j < rest.len() && (#[trigger] rest[j]).start == s && rest[j].kind == k
                    && first_closing(b, s + 3 + name_bytes(k).len() + 1) == Some(rest[j].end - 1);
                assert(ms[j + 1] == rest[j]);
            },
            None => {
                lemma_found_from(b, pos + 1, s, k, e);
            },
        }
    }
}

/// Law: every directive of the text is found: wherever a line starts with
/// `#![`, a directive name of kind `k` and `!`, and a `]` that ends a line
/// follows, and no found directive already covers that line start, a
/// directive of kind `k` is found there, ending at the first such `]`.
pub proof fn law_every_directive_is_found(b: Seq<u8>, s: int, k: DirectiveKind, e: int)
    requires
        b.len() <= usize::MAX,
        0 <= s,
        starts_line(b, s),
        bytes_at(b, s, seq![35u8, 33u8, 91u8]),
        bytes_at(b, s + 3, name_bytes(k) + seq![33u8]),
        s + 3 + name_bytes(k).len() + 1 <= e,
        is_closing(b, e),
        forall|j: int| 0 <= j < directive_matches(b).len() ==> !(#[trigger] directive_matches(b)[j].start <= s < directive_matches(b)[j].end),
    ensures
        exists|j: int| 0 <= j < directive_matches(b).len() && (#[trigger] directive_matches(b)[j]).start == s
            && directive_matches(b)[j].kind == k && is_closing(b, directive_matches(b)[j].end - 1)
            && forall|c: int| s + 3 + name_bytes(k).len() + 1 <= c < directive_matches(b)[j].end - 1 ==> !is_closing(b, c),
{
    lemma_found_from(b, 0, s, k, e);
    let ms = directive_matches(b);
    let j = choose|j: int| 0 <= j < ms.len() && (#[trigger] ms[j]).start == s && ms[j].kind == k
        && first_closing(b, s + 3 + name_bytes(k).len() + 1) == Some(ms[j].end - 1);
    lemma_first_closing(b, s + 3 + name_bytes(k).len() + 1);
}

} // verus!
