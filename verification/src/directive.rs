//! Kinds of include directives and the reading of their item names.
use vstd::prelude::*;
use vstd::string::StrSliceExecFns;
use crate::text::{
    chars_of, find_from, first_occurrence, range_is, split_at_first, split_in_two, split_once,
    split_pair, trim, trim_chars,
};

verus! {

/// The directives that the preprocessor replaces.
#[derive(Clone, Copy, Debug, PartialEq, Eq, Structural)]
pub enum DirectiveKind {
    SourceFile,
    Static,
    Const,
    Function,
    Struct,
    Enum,
    Trait,
    Impl,
    ImplMethod,
    TraitImpl,
    FunctionBody,
}

/// The name by which a directive is written before its `!`.
pub open spec fn kind_name(k: DirectiveKind) -> Seq<char> {
    match k {
        DirectiveKind::SourceFile => seq!['s', 'o', 'u', 'r', 'c', 'e', '_', 'f', 'i', 'l', 'e'],
        DirectiveKind::Static => seq!['s', 't', 'a', 't', 'i', 'c'],
        DirectiveKind::Const => seq!['c', 'o', 'n', 's', 't'],
        DirectiveKind::Function => seq!['f', 'u', 'n', 'c', 't', 'i', 'o', 'n'],
        DirectiveKind::Struct => seq!['s', 't', 'r', 'u', 'c', 't'],
        DirectiveKind::Enum => seq!['e', 'n', 'u', 'm'],
        DirectiveKind::Trait => seq!['t', 'r', 'a', 'i', 't'],
        DirectiveKind::Impl => seq!['i', 'm', 'p', 'l'],
        DirectiveKind::ImplMethod => seq!['i', 'm', 'p', 'l', '_', 'm', 'e', 't', 'h', 'o', 'd'],
        DirectiveKind::TraitImpl => seq!['t', 'r', 'a', 'i', 't', '_', 'i', 'm', 'p', 'l'],
        DirectiveKind::FunctionBody => seq!['f', 'u', 'n', 'c', 't', 'i', 'o', 'n', '_', 'b', 'o', 'd', 'y'],
    }
}

/// The directive kind written `name`, if any.
pub open spec fn kind_named(name: Seq<char>) -> Option<DirectiveKind> {
    if name == kind_name(DirectiveKind::SourceFile) {
        Some(DirectiveKind::SourceFile)
    } else if name == kind_name(DirectiveKind::Static) {
        Some(DirectiveKind::Static)
    } else if name == kind_name(DirectiveKind::Const) {
        Some(DirectiveKind::Const)
    } else if name == kind_name(DirectiveKind::Function) {
        Some(DirectiveKind::Function)
    } else if name == kind_name(DirectiveKind::Struct) {
        Some(DirectiveKind::Struct)
    } else if name == kind_name(DirectiveKind::Enum) {
        Some(DirectiveKind::Enum)
    } else if name == kind_name(DirectiveKind::Trait) {
        Some(DirectiveKind::Trait)
    } else if name == kind_name(DirectiveKind::Impl) {
        Some(DirectiveKind::Impl)
    } else if name == kind_name(DirectiveKind::ImplMethod) {
        Some(DirectiveKind::ImplMethod)
    } else if name == kind_name(DirectiveKind::TraitImpl) {
        Some(DirectiveKind::TraitImpl)
    } else if name == kind_name(DirectiveKind::FunctionBody) {
        Some(DirectiveKind::FunctionBody)
    } else {
        None
    }
}

/// The kind of the directive text `d`: the name before its first `!`.
/// `None` means that the text is no directive and stays as it is.
pub open spec fn spec_directive_kind(d: Seq<char>) -> Option<DirectiveKind> {
    match first_occurrence(d, seq!['!'], 0) {
        Some(i) => kind_named(d.subrange(0, i)),
        None => None,
    }
}

/// Reads the kind of the directive text `directive` (such as
/// `struct!("file.rs", Name)`) from the name before its first `!`.
pub fn directive_kind(directive: &str) -> (r: Option<DirectiveKind>)
    ensures
        r == spec_directive_kind(directive@),
{
    let cs = chars_of(directive);
    let bang = ['!'];
    assert(bang@ =~= seq!['!']);
    let pos = match find_from(&cs, &bang, 0) {
        Some(p) => p,
        None => {
            return None;
        },
    };
    proof {
        crate::text::lemma_first_occurrence(cs@, seq!['!'], 0);
    }
    if range_is(&cs, 0, pos, &['s', 'o', 'u', 'r', 'c', 'e', '_', 'f', 'i', 'l', 'e']) {
        Some(DirectiveKind::SourceFile)
    } else if range_is(&cs, 0, pos, &['s', 't', 'a', 't', 'i', 'c']) {
        Some(DirectiveKind::Static)
    } else if range_is(&cs, 0, pos, &['c', 'o', 'n', 's', 't']) {
        Some(DirectiveKind::Const)
    } else if range_is(&cs, 0, pos, &['f', 'u', 'n', 'c', 't', 'i', 'o', 'n']) {
        Some(DirectiveKind::Function)
    } else if range_is(&cs, 0, pos, &['s', 't', 'r', 'u', 'c', 't']) {
        Some(DirectiveKind::Struct)
    } else if range_is(&cs, 0, pos, &['e', 'n', 'u', 'm']) {
        Some(DirectiveKind::Enum)
    } else if range_is(&cs, 0, pos, &['t', 'r', 'a', 'i', 't']) {
        Some(DirectiveKind::Trait)
    } else if range_is(&cs, 0, pos, &['i', 'm', 'p', 'l']) {
        Some(DirectiveKind::Impl)
    } else if range_is(&cs, 0, pos, &['i', 'm', 'p', 'l', '_', 'm', 'e', 't', 'h', 'o', 'd']) {
        Some(DirectiveKind::ImplMethod)
    } else if range_is(&cs, 0, pos, &['t', 'r', 'a', 'i', 't', '_', 'i', 'm', 'p', 'l']) {
        Some(DirectiveKind::TraitImpl)
    } else if range_is(
        &cs,
        0,
        pos,
        &['f', 'u', 'n', 'c', 't', 'i', 'o', 'n', '_', 'b', 'o', 'd', 'y'],
    ) {
        Some(DirectiveKind::FunctionBody)
    } else {
        None
    }
}

/// The separator between a trait and a type in `Trait for Type`.
pub open spec fn for_sep() -> Seq<char> {
    seq![' ', 'f', 'o', 'r', ' ']
}

/// The separator between a type and its methods in `Type::a, b`.
pub open spec fn path_sep() -> Seq<char> {
    seq![':', ':']
}

/// The trait and the type named by `Trait for Type`, each trimmed, when the
/// text holds ` for ` exactly once.
pub open spec fn spec_trait_impl_target(n: Seq<char>) -> Option<(Seq<char>, Seq<char>)> {
    match split_pair(n, for_sep()) {
        Some((a, b)) => Some((trim_chars(a), trim_chars(b))),
        None => None,
    }
}

/// Reads `Trait for Type` into the trait's and the type's names.
pub fn trait_impl_target(n: &str) -> (r: Option<(&str, &str)>)
    ensures
        match spec_trait_impl_target(n@) {
            Some((a, b)) => r matches Some((x, y)) && x@ == a && y@ == b,
            None => r is None,
        },
{
    match split_in_two(n, &[' ', 'f', 'o', 'r', ' ']) {
        Some((a, b)) => Some((trim(a), trim(b))),
        None => None,
    }
}

/// The comma-separated names of `s` from character `pos` on, each trimmed,
/// empty ones left out.
pub open spec fn method_names_from(s: Seq<char>, pos: int) -> Seq<Seq<char>>
    decreases s.len() - pos,
{
    match first_occurrence(s, seq![','], pos) {
        Some(i) => if pos <= i < s.len() {
            keep_nonempty(trim_chars(s.subrange(pos, i))) + method_names_from(s, i + 1)
        } else {
            Seq::empty()
        },
        None => if 0 <= pos <= s.len() {
            keep_nonempty(trim_chars(s.subrange(pos, s.len() as int)))
        } else {
            Seq::empty()
        },
    }
}

pub open spec fn keep_nonempty(t: Seq<char>) -> Seq<Seq<char>> {
    if t.len() > 0 {
        seq![t]
    } else {
        Seq::empty()
    }
}

/// The type and method names of `Type::a, b, c`: the type trimmed, and the
/// comma-separated names after the first `::`, trimmed, without empty ones.
pub open spec fn spec_impl_method_target(n: Seq<char>) -> Option<(Seq<char>, Seq<Seq<char>>)> {
    match split_once(n, path_sep()) {
        Some((a, b)) => Some((trim_chars(a), method_names_from(b, 0))),
        None => None,
    }
}

/// Reads the comma-separated names of `s`, each trimmed, empty ones left out.
pub fn method_names(s: &str) -> (r: Vec<&str>)
    ensures
        crate::extractor::impl_finder::text_views(r@) == method_names_from(s@, 0),
{
    let cs = chars_of(s);
    let n = cs.len();
    let mut out: Vec<&str> = Vec::new();
    let mut pos: usize = 0;
    loop
        invariant
            cs@ == s@,
            n == s@.len(),
            pos <= n,
            crate::extractor::impl_finder::text_views(out@) + method_names_from(s@, pos as int)
                == method_names_from(s@, 0),
        decreases n - pos,
    {
        proof {
            crate::text::lemma_first_occurrence(s@, seq![','], pos as int);
        }
        let ghost before = crate::extractor::impl_finder::text_views(out@);
        let comma = [','];
        assert(comma@ =~= seq![',']);
        match find_from(&cs, &comma, pos) {
            Some(i) => {
                let piece = trim(s.substring_char(pos, i));
                if !piece.is_empty() {
                    out.push(piece);
                }
                proof {
                    assert(piece@.len() > 0 ==> crate::extractor::impl_finder::text_views(out@)
                        =~= before.push(piece@));
                    assert(piece@.len() == 0 ==> crate::extractor::impl_finder::text_views(out@)
                        =~= before);
                    assert(crate::extractor::impl_finder::text_views(out@) =~= before
                        + keep_nonempty(piece@));
                }
                pos = i + 1;
            },
            None => {
                let piece = trim(s.substring_char(pos, n));
                if !piece.is_empty() {
                    out.push(piece);
                }
                proof {
                    assert(piece@.len() > 0 ==> crate::extractor::impl_finder::text_views(out@)
                        =~= before.push(piece@));
                    assert(piece@.len() == 0 ==> crate::extractor::impl_finder::text_views(out@)
                        =~= before);
                    assert(crate::extractor::impl_finder::text_views(out@) =~= before
                        + keep_nonempty(piece@));
                }
                return out;
            },
        }
    }
}

/// Reads `Type::a, b` into the trimmed type name and the method names.
pub fn impl_method_target(n: &str) -> (r: Option<(&str, Vec<&str>)>)
    ensures
        match spec_impl_method_target(n@) {
            Some((a, ms)) => r matches Some((x, v)) && x@ == a
                && crate::extractor::impl_finder::text_views(v@) == ms,
            None => r is None,
        },
{
    match split_at_first(n, &[':', ':']) {
        Some((a, b)) => Some((trim(a), method_names(b))),
        None => None,
    }
}

/// Law: `T for S` is read as trait `T` and type `S` when ` for ` occurs in
/// it exactly once: the trimmed texts around that occurrence, neither of
/// which holds ` for `; with no occurrence, or two apart, it is no target.
pub proof fn law_trait_impl_target(n: Seq<char>, i: int, j: int)
    ensures
        spec_trait_impl_target(n) matches Some((t, s)) ==> exists|a: Seq<char>, b: Seq<char>|
            n == a + for_sep() + b && t == trim_chars(a) && s == trim_chars(b)
            && (forall|x: int| !crate::text::occurs_at(a, for_sep(), x))
            && (forall|x: int| !crate::text::occurs_at(b, for_sep(), x)),
        (forall|x: int| !crate::text::occurs_at(n, for_sep(), x)) ==> spec_trait_impl_target(n) is None,
        (crate::text::occurs_at(n, for_sep(), i) && crate::text::occurs_at(n, for_sep(), j) && i + 5 <= j)
            ==> spec_trait_impl_target(n) is None,
        (crate::text::occurs_at(n, for_sep(), i) && forall|x: int| x != i ==> !crate::text::occurs_at(n, for_sep(), x))
            ==> spec_trait_impl_target(n) == Some((trim_chars(n.subrange(0, i)), trim_chars(n.subrange(i + 5, n.len() as int)))),
{
    let p = for_sep();
    crate::text::lemma_first_occurrence(n, p, 0);
    if let Some(f) = first_occurrence(n, p, 0) {
        crate::text::lemma_first_occurrence(n, p, f + 5);
        let a = n.subrange(0, f);
        let b = n.subrange(f + 5, n.len() as int);
        assert(n =~= a + p + b) by {
            assert(n.subrange(f, f + 5) == p);
        }
        assert forall|x: int| !crate::text::occurs_at(a, p, x) by {
            if crate::text::occurs_at(a, p, x) {
                assert(n.subrange(x, x + 5) =~= a.subrange(x, x + 5));
                assert(crate::text::occurs_at(n, p, x));
            }
        }
        assert forall|x: int| !crate::text::occurs_at(b, p, x) || first_occurrence(n, p, f + 5) is Some by {
            if crate::text::occurs_at(b, p, x) {
                assert(n.subrange(f + 5 + x, f + 5 + x + 5) =~= b.subrange(x, x + 5));
                assert(crate::text::occurs_at(n, p, f + 5 + x));
            }
        }
        if crate::text::occurs_at(n, p, i) && crate::text::occurs_at(n, p, j) && i + 5 <= j {
            assert(f <= i);
        }
    }
}

/// `r[i..j]` is one of the comma-separated pieces of `r`.
pub open spec fn is_piece(r: Seq<char>, i: int, j: int) -> bool {
    &&& 0 <= i <= j <= r.len()
    &&& (i == 0 || r[i - 1] == ',')
    &&& (j == r.len() || r[j] == ',')
    &&& forall|c: int| i <= c < j ==> r[c] != ','
}

proof fn lemma_comma(r: Seq<char>, c: int)
    ensures
        crate::text::occurs_at(r, seq![','], c) <==> (0 <= c < r.len() && r[c] == ','),
{
    if 0 <= c < r.len() {
        assert(r.subrange(c, c + 1)[0] == r[c]);
        if r[c] == ',' {
            assert(r.subrange(c, c + 1) =~= seq![',']);
        }
    }
}

proof fn lemma_method_names_from(r: Seq<char>, pos: int, x: Seq<char>)
    requires
        pos == 0 || (0 < pos <= r.len() && r[pos - 1] == ','),
    ensures
        method_names_from(r, pos).contains(x) <==> exists|i: int, j: int|
            pos <= i && #[trigger] is_piece(r, i, j) && x == trim_chars(r.subrange(i, j)) && x.len() > 0,
    decreases r.len() - pos,
{
    let comma = seq![','];
    crate::text::lemma_first_occurrence(r, comma, pos);
    let names = method_names_from(r, pos);
    match first_occurrence(r, comma, pos) {
        Some(c) => {
            lemma_comma(r, c);
            lemma_method_names_from(r, c + 1, x);
            let head = keep_nonempty(trim_chars(r.subrange(pos, c)));
            let rest = method_names_from(r, c + 1);
            assert(names == head + rest);
            assert forall|q: int| pos <= q < c implies r[q] != ',' by {
                lemma_comma(r, q);
            }
            if names.contains(x) {
                let q = choose|q: int| 0 <= q < names.len() && names[q] == x;
                if q < head.len() {
                    assert(is_piece(r, pos, c));
                } else {
                    assert(rest[q - head.len()] == x);
                }
            }
            if exists|i: int, j: int| pos <= i && #[trigger] is_piece(r, i, j) && x == trim_chars(r.subrange(i, j)) && x.len() > 0 {
                let (i, j) = choose|i: int, j: int| pos <= i && #[trigger] is_piece(r, i, j) && x == trim_chars(r.subrange(i, j)) && x.len() > 0;
                if i == pos {
                    if j > c {
                        assert(r[c] != ',');
                    }
                    if j < c {
                        assert(r[j] == ',');
                    }
                    assert(head[0] == x);
                    assert(names[0] == x);
                } else {
                    assert(r[i - 1] == ',');
                    if i - 1 < c {
                        assert(r[i - 1] != ',');
                    }
                    assert(rest.contains(x));
                    let q = choose|q: int| 0 <= q < rest.len() && rest[q] == x;
                    assert(names[head.len() + q] == x);
                }
            }
        },
        None => {
            assert forall|q: int| pos <= q < r.len() implies r[q] != ',' by {
                lemma_comma(r, q);
            }
            let head = keep_nonempty(trim_chars(r.subrange(pos, r.len() as int)));
            assert(names == head);
            if names.contains(x) {
                assert(is_piece(r, pos, r.len() as int));
            }
            if exists|i: int, j: int| pos <= i && #[trigger] is_piece(r, i, j) && x == trim_chars(r.subrange(i, j)) && x.len() > 0 {
                let (i, j) = choose|i: int, j: int| pos <= i && #[trigger] is_piece(r, i, j) && x == trim_chars(r.subrange(i, j)) && x.len() > 0;
                if i > pos {
                    assert(r[i - 1] == ',');
                }
                if j < r.len() {
                    assert(r[j] == ',');
                }
                assert(names[0] == x);
            }
        },
    }
}

/// Law: `Type::a, b` is read, when `::` occurs in it, as the trimmed text
/// before the first `::` and the method names after it: exactly the
/// trimmed comma-separated pieces of the rest that are not empty.
pub proof fn law_impl_method_target(n: Seq<char>, x: Seq<char>)
    ensures
        (forall|c: int| !crate::text::occurs_at(n, path_sep(), c)) ==> spec_impl_method_target(n) is None,
        spec_impl_method_target(n) matches Some((t, ms)) ==> exists|a: Seq<char>, r: Seq<char>| {
            &&& n == a + path_sep() + r
            &&& t == trim_chars(a)
            &&& forall|c: int| !crate::text::occurs_at(a, path_sep(), c)
            &&& (ms.contains(x) <==> exists|i: int, j: int| #[trigger] is_piece(r, i, j) && x == trim_chars(r.subrange(i, j)) && x.len() > 0)
        },
{
    let p = path_sep();
    crate::text::lemma_first_occurrence(n, p, 0);
    if let Some(f) = first_occurrence(n, p, 0) {
        let a = n.subrange(0, f);
        let r = n.subrange(f + 2, n.len() as int);
        assert(n =~= a + p + r) by {
            assert(n.subrange(f, f + 2) == p);
        }
        assert forall|c: int| !crate::text::occurs_at(a, p, c) by {
            if crate::text::occurs_at(a, p, c) {
                assert(n.subrange(c, c + 2) =~= a.subrange(c, c + 2));
                assert(crate::text::occurs_at(n, p, c));
            }
        }
        lemma_method_names_from(r, 0, x);
    }
}

} // verus!
