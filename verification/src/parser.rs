//! The resolution of an item directive against a parsed file: which item it
//! names, which parts of the source it marks, and which other items of the
//! file are shown or hidden around it.
use vstd::prelude::*;
use vstd::string::StrSliceExecFns;
use crate::directive::{
    for_sep, impl_method_target, spec_impl_method_target, spec_trait_impl_target,
    trait_impl_target, DirectiveKind,
};
use crate::extractor::const_finder::{find_const, spec_find_const};
use crate::extractor::impl_finder::{
    find_impl_methods, find_struct_impl, find_trait_impl, impl_method_spans_upto,
    spec_find_struct_impl, trait_impl_pred, blocks_fit, is_requested_method, law_impl_methods_are_the_requested_ones,
    inherent_impl_pred, trait_impl_spans_upto, trait_impls_upto, ImplType,
    SpanRef,
};
use crate::extractor::item_finder::{find_enum, find_function, find_struct, spec_find_named};
use crate::extractor::static_finder::{find_static, spec_find_static};
use crate::extractor::trait_finder::{find_trait, spec_find_trait};
use crate::model::{all_where, FileModel, ItemKind, ItemModel};
use crate::text::{
    chars_of, contains_pattern, first_occurrence, has_prefix, split_in_two, split_pair,
    starts_with, strip_prefixes, strip_prefixes_end, trim, trim_chars,
};

verus! {

pub open spec fn struct_kw() -> Seq<char> {
    seq!['s', 't', 'r', 'u', 'c', 't', ' ']
}

pub open spec fn enum_kw() -> Seq<char> {
    seq!['e', 'n', 'u', 'm', ' ']
}

pub open spec fn trait_kw() -> Seq<char> {
    seq!['t', 'r', 'a', 'i', 't', ' ']
}

pub open spec fn impl_kw() -> Seq<char> {
    seq!['i', 'm', 'p', 'l', ' ']
}

pub open spec fn opt_index(o: Option<usize>) -> Seq<usize> {
    match o {
        Some(i) => seq![i],
        None => Seq::empty(),
    }
}

/// The items that the extra entry `e` of a directive makes visible:
/// `struct X`, `enum X`, `trait X`, `impl X` (the inherent impl),
/// `impl T for X` (all impls of `T` for `X`), or a bare `X` (the struct of
/// that name, else the enum).
pub open spec fn extra_visible(file: FileModel, e: Seq<char>) -> Seq<usize> {
    let items = file.items@;
    if has_prefix(e, struct_kw()) {
        opt_index(spec_find_named(file, ItemKind::Struct, trim_chars(strip_prefixes(e, struct_kw()))))
    } else if has_prefix(e, enum_kw()) {
        opt_index(spec_find_named(file, ItemKind::Enum, trim_chars(strip_prefixes(e, enum_kw()))))
    } else if has_prefix(e, trait_kw()) {
        match spec_find_trait(file, trim_chars(strip_prefixes(e, trait_kw()))) {
            Some(t) => seq![t.index()],
            None => Seq::empty(),
        }
    } else if has_prefix(e, impl_kw()) {
        if first_occurrence(e, for_sep(), 0) is Some {
            match split_pair(strip_prefixes(e, impl_kw()), for_sep()) {
                Some((a, b)) => all_where(
                    items,
                    trait_impl_pred(trim_chars(a), trim_chars(b)),
                    items.len() as int,
                ),
                None => Seq::empty(),
            }
        } else {
            match spec_find_struct_impl(file, trim_chars(strip_prefixes(e, impl_kw()))) {
                Some(t) => seq![t.index()],
                None => Seq::empty(),
            }
        }
    } else {
        match spec_find_named(file, ItemKind::Struct, e) {
            Some(i) => seq![i],
            None => opt_index(spec_find_named(file, ItemKind::Enum, e)),
        }
    }
}

/// The items that the first `k` extra entries make visible, in order.
pub open spec fn visible_upto(file: FileModel, extras: Seq<Seq<char>>, k: int) -> Seq<usize>
    decreases k,
{
    if k <= 0 {
        Seq::empty()
    } else {
        visible_upto(file, extras, k - 1) + extra_visible(file, extras[k - 1])
    }
}

pub open spec fn string_views(list: Seq<String>) -> Seq<Seq<char>> {
    list.map_values(|s: String| s@)
}

/// The equality classes of the items at `indices`.
pub open spec fn classes_of(items: Seq<ItemModel>, indices: Seq<usize>) -> Seq<usize> {
    indices.map_values(|v: usize| items[v as int].class)
}

/// A top-level item is hidden when it equals neither the primary item nor a
/// visible one.
pub open spec fn hidden_pred(primary_class: usize, visible_classes: Seq<usize>) -> spec_fn(ItemModel) -> bool {
    |it: ItemModel| it.top_level && it.class != primary_class && !visible_classes.contains(it.class)
}

pub open spec fn spec_hidden(file: FileModel, primary: usize, visible: Seq<usize>) -> Seq<usize> {
    let items = file.items@;
    all_where(items, hidden_pred(items[primary as int].class, classes_of(items, visible)), items.len() as int)
}

pub open spec fn indices_below(s: Seq<usize>, n: int) -> bool {
    forall|k: int| 0 <= k < s.len() ==> s[k] < n
}

proof fn lemma_extra_visible_bound(file: FileModel, e: Seq<char>)
    requires
        file.items@.len() <= usize::MAX,
    ensures
        indices_below(extra_visible(file, e), file.items@.len() as int),
{
    let items = file.items@;
    let n = items.len() as int;
    crate::model::lemma_last_where_bound(items, crate::extractor::item_finder::named_pred(ItemKind::Struct, trim_chars(strip_prefixes(e, struct_kw()))), n);
    crate::model::lemma_last_where_bound(items, crate::extractor::item_finder::named_pred(ItemKind::Enum, trim_chars(strip_prefixes(e, enum_kw()))), n);
    crate::model::lemma_last_where_bound(items, crate::extractor::item_finder::named_pred(ItemKind::Struct, e), n);
    crate::model::lemma_last_where_bound(items, crate::extractor::item_finder::named_pred(ItemKind::Enum, e), n);
    crate::extractor::trait_finder::lemma_trait_upto_bound(items, trim_chars(strip_prefixes(e, trait_kw())), n);
    crate::model::lemma_last_where_bound(items, crate::extractor::impl_finder::inherent_impl_pred(trim_chars(strip_prefixes(e, impl_kw()))), n);
    match split_pair(strip_prefixes(e, impl_kw()), for_sep()) {
        Some((a, b)) => {
            crate::model::lemma_all_where_bound(items, trait_impl_pred(trim_chars(a), trim_chars(b)), n);
        },
        None => {},
    }
}

proof fn lemma_impl_types_index(items: Seq<ItemModel>, t: Seq<char>, s: Seq<char>, n: int)
    ensures
        trait_impls_upto(items, t, s, n).map_values(|x: ImplType| x.index()) =~= all_where(items, trait_impl_pred(t, s), n),
{
}

/// The items that the extra entry `e` makes visible.
fn extra_visible_items(parsed_file: &FileModel, e: &str) -> (r: Vec<usize>)
    ensures
        r@ == extra_visible(*parsed_file, e@),
{
    let cs = chars_of(e);
    let n = cs.len();
    let struct_kw_c = ['s', 't', 'r', 'u', 'c', 't', ' '];
    let enum_kw_c = ['e', 'n', 'u', 'm', ' '];
    let trait_kw_c = ['t', 'r', 'a', 'i', 't', ' '];
    let impl_kw_c = ['i', 'm', 'p', 'l', ' '];
    let for_c = [' ', 'f', 'o', 'r', ' '];
    assert(struct_kw_c@ =~= struct_kw());
    assert(enum_kw_c@ =~= enum_kw());
    assert(trait_kw_c@ =~= trait_kw());
    assert(impl_kw_c@ =~= impl_kw());
    assert(for_c@ =~= for_sep());
    let mut out: Vec<usize> = Vec::new();
    if starts_with(&cs, &struct_kw_c) {
        let k = strip_prefixes_end(&cs, &struct_kw_c);
        let name = trim(e.substring_char(k, n));
        if let Some(i) = find_struct(parsed_file, name) {
            out.push(i);
        }
    } else if starts_with(&cs, &enum_kw_c) {
        let k = strip_prefixes_end(&cs, &enum_kw_c);
        let name = trim(e.substring_char(k, n));
        if let Some(i) = find_enum(parsed_file, name) {
            out.push(i);
        }
    } else if starts_with(&cs, &trait_kw_c) {
        let k = strip_prefixes_end(&cs, &trait_kw_c);
        let name = trim(e.substring_char(k, n));
        if let Some(t) = find_trait(parsed_file, name) {
            out.push(t.item());
        }
    } else if starts_with(&cs, &impl_kw_c) {
        let k = strip_prefixes_end(&cs, &impl_kw_c);
        let rest = e.substring_char(k, n);
        if contains_pattern(e, &for_c) {
            if let Some((a, b)) = split_in_two(rest, &for_c) {
                let trait_name = trim(a);
                let struct_name = trim(b);
                let (impls, _) = find_trait_impl(parsed_file, trait_name, struct_name);
                let m = impls.len();
                let mut j: usize = 0;
                while j < m
                    invariant
                        m == impls@.len(),
                        j <= m,
                        out@ == impls@.subrange(0, j as int).map_values(|x: ImplType| x.index()),
                    decreases m - j,
                {
                    out.push(impls[j].item());
                    proof {
                        assert(impls@.subrange(0, j + 1).map_values(|x: ImplType| x.index())
                            =~= impls@.subrange(0, j as int).map_values(|x: ImplType| x.index()).push(impls@[j as int].index()));
                    }
                    j = j + 1;
                }
                proof {
                    assert(impls@.subrange(0, m as int) =~= impls@);
                    lemma_impl_types_index(parsed_file.items@, trait_name@, struct_name@, parsed_file.items@.len() as int);
                }
            }
        } else {
            let name = trim(rest);
            if let Some(t) = find_struct_impl(parsed_file, name) {
                out.push(t.item());
            }
        }
    } else {
        match find_struct(parsed_file, e) {
            Some(i) => {
                out.push(i);
            },
            None => {
                if let Some(i) = find_enum(parsed_file, e) {
                    out.push(i);
                }
            },
        }
    }
    out
}

/// Sorts the items of the file around the primary one: the extra entries
/// name the items to show (`visible`, in the order of the entries), and
/// every other top-level item that equals neither the primary item nor a
/// visible one is `hidden` (in file order). Returns `(hidden, visible)`.
pub fn process_extra(parsed_file: &FileModel, primary_item: usize, extra_items: &Vec<String>) -> (r: (Vec<usize>, Vec<usize>))
    requires
        primary_item < parsed_file.items@.len(),
    ensures
        r.1@ == visible_upto(*parsed_file, string_views(extra_items@), extra_items@.len() as int),
        r.0@ == spec_hidden(*parsed_file, primary_item, r.1@),
        indices_below(r.1@, parsed_file.items@.len() as int),
{
    let ghost extras = string_views(extra_items@);
    let n = parsed_file.items.len();
    let mut visible: Vec<usize> = Vec::new();
    let m = extra_items.len();
    let mut k: usize = 0;
    while k < m
        invariant
            m == extra_items@.len(),
            n == parsed_file.items@.len(),
            extras == string_views(extra_items@),
            k <= m,
            visible@ == visible_upto(*parsed_file, extras, k as int),
            indices_below(visible@, n as int),
        decreases m - k,
    {
        let more = extra_visible_items(parsed_file, extra_items[k].as_str());
        proof {
            lemma_extra_visible_bound(*parsed_file, extra_items@[k as int]@);
        }
        let ghost before = visible@;
        let mm = more.len();
        let mut j: usize = 0;
        while j < mm
            invariant
                mm == more@.len(),
                j <= mm,
                n == parsed_file.items@.len(),
                indices_below(more@, n as int),
                indices_below(before, n as int),
                visible@ == before + more@.subrange(0, j as int),
            decreases mm - j,
        {
            visible.push(more[j]);
            assert(before + more@.subrange(0, j + 1) =~= (before + more@.subrange(0, j as int)).push(more@[j as int]));
            j = j + 1;
        }
        assert(more@.subrange(0, mm as int) =~= more@);
        assert(visible@ =~= before + more@);
        k = k + 1;
    }
    let ghost vclasses = classes_of(parsed_file.items@, visible@);
    let primary_class = parsed_file.items[primary_item].class;
    let mut hidden: Vec<usize> = Vec::new();
    let mut i: usize = 0;
    while i < n
        invariant
            n == parsed_file.items@.len(),
            i <= n,
            indices_below(visible@, n as int),
            vclasses == classes_of(parsed_file.items@, visible@),
            primary_item < n,
            primary_class == parsed_file.items@[primary_item as int].class,
            hidden@ == all_where(parsed_file.items@, hidden_pred(primary_class, vclasses), i as int),
        decreases n - i,
    {
        let item = &parsed_file.items[i];
        if item.top_level && item.class != primary_class {
            let ic = item.class;
            let vn = visible.len();
            let mut seen = false;
            let mut j: usize = 0;
            while j < vn
                invariant
                    vn == visible@.len(),
                    n == parsed_file.items@.len(),
                    i < n,
                    j <= vn,
                    indices_below(visible@, n as int),
                    vclasses == classes_of(parsed_file.items@, visible@),
                    ic == parsed_file.items@[i as int].class,
                    seen == exists|q: int| 0 <= q < j && vclasses[q] == ic,
                decreases vn - j,
            {
                let vc = parsed_file.items[visible[j]].class;
                assert(vclasses[j as int] == vc);
                if vc == ic {
                    seen = true;
                }
                j = j + 1;
            }
            proof {
                let c = parsed_file.items@[i as int].class;
                if vclasses.contains(c) {
                    let q = choose|q: int| 0 <= q < vclasses.len() && vclasses[q] == c;
                    assert(seen);
                }
            }
            if !seen {
                hidden.push(i);
            }
        }
        i = i + 1;
    }
    (hidden, visible)
}

/// What an item directive resolves to in a file: the primary item, the
/// parts of the source it marks, and the items hidden and shown with it
/// (indices into the file model).
pub struct Resolution {
    pub primary: usize,
    pub spans: Vec<SpanRef>,
    pub hidden: Vec<usize>,
    pub visible: Vec<usize>,
}

/// The item that a directive of kind `kind` names with `name`, and the parts
/// of the source that its finder marks (empty when the finder marks none):
/// - `const`, `static`, `function`, `function_body`, `struct`, `enum`,
///   `trait`: the last item of that kind with that name;
/// - `impl`: the last inherent impl of the type `name`;
/// - `trait_impl` (`Trait for Type`): the first impl of the trait for the
///   type, marking all of them;
/// - `impl_method` (`Type::a, b`): the last inherent impl of the type,
///   marking the header, the named methods and the closing brace of each;
/// - `source_file` names no item.
pub open spec fn spec_locate(kind: DirectiveKind, file: FileModel, name: Seq<char>) -> Option<(usize, Seq<SpanRef>)> {
    let items = file.items@;
    let n = items.len() as int;
    match kind {
        DirectiveKind::Const => match spec_find_const(file, name) {
            Some(i) => Some((i, Seq::empty())),
            None => None,
        },
        DirectiveKind::Static => match spec_find_static(file, name) {
            Some(i) => Some((i, Seq::empty())),
            None => None,
        },
        DirectiveKind::Function | DirectiveKind::FunctionBody => match spec_find_named(file, ItemKind::Fn, name) {
            Some(i) => Some((i, Seq::empty())),
            None => None,
        },
        DirectiveKind::Struct => match spec_find_named(file, ItemKind::Struct, name) {
            Some(i) => Some((i, Seq::empty())),
            None => None,
        },
        DirectiveKind::Enum => match spec_find_named(file, ItemKind::Enum, name) {
            Some(i) => Some((i, Seq::empty())),
            None => None,
        },
        DirectiveKind::Trait => match spec_find_trait(file, name) {
            Some(t) => Some((t.index(), Seq::empty())),
            None => None,
        },
        DirectiveKind::Impl => match spec_find_struct_impl(file, name) {
            Some(t) => Some((t.index(), Seq::empty())),
            None => None,
        },
        DirectiveKind::TraitImpl => match spec_trait_impl_target(name) {
            Some((t, s)) => Some((
                trait_impls_upto(items, t, s, n)[0].index(),
                trait_impl_spans_upto(items, t, s, n),
            )),
            None => None,
        },
        DirectiveKind::ImplMethod => match spec_impl_method_target(name) {
            Some((s, ms)) => match spec_find_struct_impl(file, s) {
                Some(t) => Some((t.index(), impl_method_spans_upto(items, s, ms, n))),
                None => None,
            },
            None => None,
        },
        DirectiveKind::SourceFile => None,
    }
}

/// A `trait_impl` directive whose `Trait for Type` names no impl in the file
/// (resolving it would take the first of no impls, which panics).
pub open spec fn trait_impl_missing(kind: DirectiveKind, file: FileModel, name: Seq<char>) -> bool {
    &&& kind is TraitImpl
    &&& spec_trait_impl_target(name) matches Some((t, s))
    &&& all_where(file.items@, trait_impl_pred(t, s), file.items@.len() as int).len() == 0
}

proof fn lemma_locate_bound(kind: DirectiveKind, file: FileModel, name: Seq<char>)
    requires
        file.items@.len() <= usize::MAX,
        !trait_impl_missing(kind, file, name),
    ensures
        spec_locate(kind, file, name) matches Some((p, _)) ==> p < file.items@.len(),
{
    let items = file.items@;
    let n = items.len() as int;
    crate::model::lemma_last_where_bound(items, crate::extractor::const_finder::const_pred(name), n);
    crate::model::lemma_last_where_bound(items, crate::extractor::static_finder::static_pred(name), n);
    crate::model::lemma_last_where_bound(items, crate::extractor::item_finder::named_pred(ItemKind::Fn, name), n);
    crate::model::lemma_last_where_bound(items, crate::extractor::item_finder::named_pred(ItemKind::Struct, name), n);
    crate::model::lemma_last_where_bound(items, crate::extractor::item_finder::named_pred(ItemKind::Enum, name), n);
    crate::extractor::trait_finder::lemma_trait_upto_bound(items, name, n);
    crate::model::lemma_last_where_bound(items, crate::extractor::impl_finder::inherent_impl_pred(name), n);
    match spec_trait_impl_target(name) {
        Some((t, s)) => {
            crate::model::lemma_all_where_bound(items, trait_impl_pred(t, s), n);
            if kind is TraitImpl {
                assert(all_where(items, trait_impl_pred(t, s), n).len() > 0);
                assert(trait_impls_upto(items, t, s, n)[0].index() == all_where(items, trait_impl_pred(t, s), n)[0]);
            }
        },
        None => {},
    }
    match spec_impl_method_target(name) {
        Some((s, ms)) => {
            crate::model::lemma_last_where_bound(items, crate::extractor::impl_finder::inherent_impl_pred(s), n);
        },
        None => {},
    }
}

/// Resolves an item directive of kind `kind` with item name `item_name` and
/// extra entries `extra_items` against the parsed file: `None` when the
/// named item is not in the file; otherwise the item, the parts of the source
/// it marks (the item itself when its finder marks none), and the items
/// shown and hidden with it (see `process_extra`).
pub fn process_directive(
    kind: DirectiveKind,
    parsed_file: &FileModel,
    item_name: &str,
    extra_items: &Vec<String>,
) -> (r: Option<Resolution>)
    requires
        !trait_impl_missing(kind, *parsed_file, item_name@),
    ensures
        match spec_locate(kind, *parsed_file, item_name@) {
            None => r is None,
            Some((p, sp)) => r matches Some(res) && {
                &&& res.primary == p
                &&& res.spans@ == if sp.len() == 0 { seq![SpanRef::Item(p)] } else { sp }
                &&& res.spans@.len() > 0
                &&& res.visible@ == visible_upto(*parsed_file, string_views(extra_items@), extra_items@.len() as int)
                &&& res.hidden@ == spec_hidden(*parsed_file, p, res.visible@)
            },
        },
{
    let _count = parsed_file.items.len();
    proof {
        lemma_locate_bound(kind, *parsed_file, item_name@);
    }
    let found: Option<(usize, Vec<SpanRef>)> = match kind {
        DirectiveKind::Const => match find_const(parsed_file, item_name) {
            Some(i) => Some((i, Vec::new())),
            None => None,
        },
        DirectiveKind::Static => match find_static(parsed_file, item_name) {
            Some(i) => Some((i, Vec::new())),
            None => None,
        },
        DirectiveKind::Function | DirectiveKind::FunctionBody => match find_function(parsed_file, item_name) {
            Some(i) => Some((i, Vec::new())),
            None => None,
        },
        DirectiveKind::Struct => match find_struct(parsed_file, item_name) {
            Some(i) => Some((i, Vec::new())),
            None => None,
        },
        DirectiveKind::Enum => match find_enum(parsed_file, item_name) {
            Some(i) => Some((i, Vec::new())),
            None => None,
        },
        DirectiveKind::Trait => match find_trait(parsed_file, item_name) {
            Some(t) => Some((t.item(), Vec::new())),
            None => None,
        },
        DirectiveKind::Impl => match find_struct_impl(parsed_file, item_name) {
            Some(t) => Some((t.item(), Vec::new())),
            None => None,
        },
        DirectiveKind::TraitImpl => match trait_impl_target(item_name) {
            Some((trait_name, struct_name)) => {
                let (items, spans) = find_trait_impl(parsed_file, trait_name, struct_name);
                proof {
                    crate::model::lemma_all_where_bound(parsed_file.items@, trait_impl_pred(trait_name@, struct_name@), parsed_file.items@.len() as int);
                }
                Some((items[0].item(), spans))
            },
            None => None,
        },
        DirectiveKind::ImplMethod => match impl_method_target(item_name) {
            Some((struct_name, methods)) => match find_struct_impl(parsed_file, struct_name) {
                Some(t) => {
                    let (_, spans) = find_impl_methods(parsed_file, struct_name, methods);
                    Some((t.item(), spans))
                },
                None => None,
            },
            None => None,
        },
        DirectiveKind::SourceFile => None,
    };
    match found {
        Some((primary, spans)) => {
            let mut result_spans = spans;
            if result_spans.len() == 0 {
                result_spans.push(SpanRef::Item(primary));
            }
            let (hidden, visible) = process_extra(parsed_file, primary, extra_items);
            Some(Resolution { primary, spans: result_spans, hidden, visible })
        },
        None => None,
    }
}

/// Law: around a primary item, a top-level item of the file is hidden
/// exactly when it equals neither the primary item nor a shown one; nothing
/// else is hidden, and the hidden items keep the order of the file.
pub proof fn law_hidden_items(file: FileModel, primary: usize, visible: Seq<usize>, i: int)
    requires
        primary < file.items@.len() <= usize::MAX,
        indices_below(visible, file.items@.len() as int),
    ensures
        ({
            let items = file.items@;
            let hidden = spec_hidden(file, primary, visible);
            &&& (0 <= i <= usize::MAX && hidden.contains(i as usize)) <==> (0 <= i < items.len()
                && items[i].top_level && items[i].class != items[primary as int].class
                && !(exists|v: int| 0 <= v < visible.len() && items[visible[v] as int].class == items[i].class))
            &&& forall|a: int, c: int| 0 <= a < c < hidden.len() ==> #[trigger] hidden[a] < #[trigger] hidden[c]
        }),
{
    let items = file.items@;
    let vc = classes_of(items, visible);
    crate::model::law_finder_collects_all_matches(items, hidden_pred(items[primary as int].class, vc), items.len() as int, i);
    if 0 <= i < items.len() {
        let c = items[i].class;
        if vc.contains(c) {
            let q = choose|q: int| 0 <= q < vc.len() && vc[q] == c;
            assert(items[visible[q] as int].class == c);
        }
        if exists|v: int| 0 <= v < visible.len() && items[visible[v] as int].class == c {
            let v = choose|v: int| 0 <= v < visible.len() && items[visible[v] as int].class == c;
            assert(vc[v] == c);
        }
    }
}

/// Law: an `impl_method` directive `Type::a, b` names the last inherent impl
/// of the type, and marks exactly the header and closing brace of every
/// inherent impl of the type and every requested method in them (a method
/// of one of those impls whose name is listed); without an inherent impl of
/// the type it resolves to nothing.
pub proof fn law_impl_method_directive_marks(file: FileModel, name: Seq<char>, x: SpanRef)
    requires
        file.items@.len() <= usize::MAX,
        blocks_fit(file.items@),
    ensures
        ({
            let items = file.items@;
            match spec_impl_method_target(name) {
                Some((s, ms)) => match spec_locate(DirectiveKind::ImplMethod, file, name) {
                    Some((p, sp)) => {
                        &&& p < items.len()
                        &&& crate::model::is_inherent_impl_of(items[p as int], s)
                        &&& forall|j: int| p < j < items.len() ==> !crate::model::is_inherent_impl_of(#[trigger] items[j], s)
                        &&& sp.contains(SpanRef::ImplHeader(p))
                        &&& (sp.contains(x) <==> match x {
                            SpanRef::ImplHeader(i) => i < items.len() && crate::model::is_inherent_impl_of(items[i as int], s),
                            SpanRef::ImplClose(i) => i < items.len() && crate::model::is_inherent_impl_of(items[i as int], s),
                            SpanRef::Method(i, k) => is_requested_method(items, s, ms, i as int, k as int),
                            SpanRef::Item(_) => false,
                        })
                    },
                    None => forall|j: int| 0 <= j < items.len() ==> !crate::model::is_inherent_impl_of(#[trigger] items[j], s),
                },
                None => spec_locate(DirectiveKind::ImplMethod, file, name) is None,
            }
        }),
{
    let items = file.items@;
    match spec_impl_method_target(name) {
        Some((s, ms)) => {
            crate::model::law_finder_returns_last_match(items, inherent_impl_pred(s), items.len() as int);
            law_impl_methods_are_the_requested_ones(items, s, ms, (0, 0), x);
            match spec_find_struct_impl(file, s) {
                Some(t) => {
                    let p = t.index();
                    law_impl_methods_are_the_requested_ones(items, s, ms, (0, 0), SpanRef::ImplHeader(p));
                },
                None => {},
            }
        },
        None => {},
    }
}

proof fn lemma_strip_prefixes_suffix(e: Seq<char>, p: Seq<char>)
    ensures
        exists|k: int| 0 <= k <= e.len() && strip_prefixes(e, p) == e.subrange(k, e.len() as int),
    decreases e.len(),
{
    if p.len() > 0 && has_prefix(e, p) {
        let r = e.subrange(p.len() as int, e.len() as int);
        lemma_strip_prefixes_suffix(r, p);
        let k = choose|k: int| 0 <= k <= r.len() && strip_prefixes(r, p) == r.subrange(k, r.len() as int);
        assert(r.subrange(k, r.len() as int) =~= e.subrange(k + p.len(), e.len() as int));
    } else {
        assert(e.subrange(0, e.len() as int) =~= e);
    }
}

/// Law: an extra entry `impl T for S` (starting with `impl `, with exactly
/// one ` for ` after the prefix) shows every impl of `T` for `S` (both names
/// trimmed) in the file, in file order, and nothing else.
pub proof fn law_impl_entry_shows_every_trait_impl(file: FileModel, e: Seq<char>, i: int)
    requires
        file.items@.len() <= usize::MAX,
        has_prefix(e, seq!['i', 'm', 'p', 'l', ' ']),
        split_pair(strip_prefixes(e, seq!['i', 'm', 'p', 'l', ' ']), seq![' ', 'f', 'o', 'r', ' ']) is Some,
    ensures
        ({
            let items = file.items@;
            let (t, s) = split_pair(strip_prefixes(e, seq!['i', 'm', 'p', 'l', ' ']), seq![' ', 'f', 'o', 'r', ' ']).unwrap();
            let shown = extra_visible(file, e);
            &&& (0 <= i <= usize::MAX && shown.contains(i as usize)) <==> (0 <= i < items.len()
                && crate::model::is_trait_impl_of(items[i], trim_chars(t), trim_chars(s)))
            &&& forall|a: int, c: int| 0 <= a < c < shown.len() ==> #[trigger] shown[a] < #[trigger] shown[c]
        }),
{
    let items = file.items@;
    let ikw = seq!['i', 'm', 'p', 'l', ' '];
    let fsep = seq![' ', 'f', 'o', 'r', ' '];
    assert(ikw =~= impl_kw());
    assert(fsep =~= for_sep());
    let st = strip_prefixes(e, ikw);
    let (t, s) = split_pair(st, fsep).unwrap();
    assert(e[0] == 'i') by {
        assert(e.subrange(0, 5)[0] == ikw[0]);
    }
    assert(!has_prefix(e, struct_kw())) by {
        if has_prefix(e, struct_kw()) {
            assert(e.subrange(0, 7)[0] == struct_kw()[0]);
        }
    }
    assert(!has_prefix(e, enum_kw())) by {
        if has_prefix(e, enum_kw()) {
            assert(e.subrange(0, 5)[0] == enum_kw()[0]);
        }
    }
    assert(!has_prefix(e, trait_kw())) by {
        if has_prefix(e, trait_kw()) {
            assert(e.subrange(0, 6)[0] == trait_kw()[0]);
        }
    }
    // The stripped entry holds ` for `, so the entry does too.
    lemma_strip_prefixes_suffix(e, ikw);
    let k = choose|k: int| 0 <= k <= e.len() && st == e.subrange(k, e.len() as int);
    crate::text::lemma_first_occurrence(st, fsep, 0);
    let j = first_occurrence(st, fsep, 0).unwrap();
    assert(e.subrange(k + j, k + j + 5) =~= st.subrange(j, j + 5));
    crate::text::lemma_first_occurrence(e, fsep, 0);
    assert(crate::text::occurs_at(e, fsep, k + j));
    assert(first_occurrence(e, for_sep(), 0) is Some);
    crate::model::law_finder_collects_all_matches(items, trait_impl_pred(trim_chars(t), trim_chars(s)), items.len() as int, i);
}

/// The kind of item that a directive of kind `kind` looks for by name.
pub open spec fn sought_item_kind(kind: DirectiveKind) -> ItemKind {
    match kind {
        DirectiveKind::Const => ItemKind::Const,
        DirectiveKind::Static => ItemKind::Static,
        DirectiveKind::Struct => ItemKind::Struct,
        DirectiveKind::Enum => ItemKind::Enum,
        _ => ItemKind::Fn,
    }
}

/// Law: a `const`, `static`, `function`, `function_body`, `struct` or
/// `enum` directive names the last item of that kind with exactly that name
/// and marks no part of its own (the item as a whole is marked); it
/// resolves to nothing when there is no such item.
pub proof fn law_named_item_directive(file: FileModel, kind: DirectiveKind, name: Seq<char>)
    requires
        file.items@.len() <= usize::MAX,
        kind is Const || kind is Static || kind is Function || kind is FunctionBody || kind is Struct || kind is Enum,
    ensures
        ({
            let items = file.items@;
            let ek = sought_item_kind(kind);
            match spec_locate(kind, file, name) {
                Some((p, sp)) => {
                    &&& sp.len() == 0
                    &&& p < items.len()
                    &&& items[p as int].kind == ek && crate::model::names(items[p as int].ident, name)
                    &&& forall|j: int| p < j < items.len() ==> !(#[trigger] items[j].kind == ek && crate::model::names(items[j].ident, name))
                },
                None => forall|j: int| 0 <= j < items.len() ==> !(#[trigger] items[j].kind == ek && crate::model::names(items[j].ident, name)),
            }
        }),
{
    let items = file.items@;
    let n = items.len() as int;
    crate::model::law_finder_returns_last_match(items, crate::extractor::const_finder::const_pred(name), n);
    crate::model::law_finder_returns_last_match(items, crate::extractor::static_finder::static_pred(name), n);
    crate::model::law_finder_returns_last_match(items, crate::extractor::item_finder::named_pred(ItemKind::Fn, name), n);
    crate::model::law_finder_returns_last_match(items, crate::extractor::item_finder::named_pred(ItemKind::Struct, name), n);
    crate::model::law_finder_returns_last_match(items, crate::extractor::item_finder::named_pred(ItemKind::Enum, name), n);
}

/// Law: a `trait` directive names the last trait of that name (a plain
/// trait, or a `const trait` kept as verbatim tokens), and an `impl`
/// directive the last inherent impl of the type; neither marks a part of
/// its own; each resolves to nothing when there is no such item.
pub proof fn law_trait_and_impl_directives(file: FileModel, name: Seq<char>)
    requires
        file.items@.len() <= usize::MAX,
    ensures
        ({
            let items = file.items@;
            let is_trait = |it: ItemModel| (it.kind is Trait && crate::model::names(it.ident, name))
                || (it.kind is Verbatim && crate::model::names(it.const_trait_ident, name));
            &&& match spec_locate(DirectiveKind::Trait, file, name) {
                Some((p, sp)) => sp.len() == 0 && p < items.len() && is_trait(items[p as int])
                    && forall|j: int| p < j < items.len() ==> !is_trait(#[trigger] items[j]),
                None => forall|j: int| 0 <= j < items.len() ==> !is_trait(#[trigger] items[j]),
            }
            &&& match spec_locate(DirectiveKind::Impl, file, name) {
                Some((p, sp)) => sp.len() == 0 && p < items.len() && crate::model::is_inherent_impl_of(items[p as int], name)
                    && forall|j: int| p < j < items.len() ==> !crate::model::is_inherent_impl_of(#[trigger] items[j], name),
                None => forall|j: int| 0 <= j < items.len() ==> !crate::model::is_inherent_impl_of(#[trigger] items[j], name),
            }
        }),
{
    let items = file.items@;
    let n = items.len() as int;
    crate::extractor::trait_finder::law_find_trait_returns_last_match(items, name, n);
    crate::model::law_finder_returns_last_match(items, inherent_impl_pred(name), n);
    let is_trait = |it: ItemModel| (it.kind is Trait && crate::model::names(it.ident, name))
        || (it.kind is Verbatim && crate::model::names(it.const_trait_ident, name));
    assert forall|j: int| 0 <= j < n implies (crate::extractor::trait_finder::trait_match(#[trigger] items[j], j as usize, name) is None
        <==> !is_trait(items[j])) by {}
}

/// The item that a part marks as a whole, or -1.
pub open spec fn marked_item(x: SpanRef) -> int {
    match x {
        SpanRef::Item(i) => i as int,
        _ => -1,
    }
}

/// Law: a `trait_impl` directive `T for S` (exactly one ` for `) names the
/// first impl of `T` for `S` (both trimmed) in the file and marks every such
/// impl, in file order, and nothing else.
pub proof fn law_trait_impl_directive(file: FileModel, name: Seq<char>, x: SpanRef)
    requires
        file.items@.len() <= usize::MAX,
        !trait_impl_missing(DirectiveKind::TraitImpl, file, name),
    ensures
        ({
            let items = file.items@;
            match spec_trait_impl_target(name) {
                Some((t, s)) => match spec_locate(DirectiveKind::TraitImpl, file, name) {
                    Some((p, sp)) => {
                        &&& p < items.len()
                        &&& crate::model::is_trait_impl_of(items[p as int], t, s)
                        &&& forall|j: int| 0 <= j < p ==> !crate::model::is_trait_impl_of(#[trigger] items[j], t, s)
                        &&& (sp.contains(x) <==> (x matches SpanRef::Item(i) && i < items.len()
                            && crate::model::is_trait_impl_of(items[i as int], t, s)))
                        &&& forall|a: int, c: int| 0 <= a < c < sp.len() ==> 0 <= marked_item(#[trigger] sp[a]) < marked_item(#[trigger] sp[c])
                    },
                    None => false,
                },
                None => spec_locate(DirectiveKind::TraitImpl, file, name) is None,
            }
        }),
{
    let items = file.items@;
    let n = items.len() as int;
    match spec_trait_impl_target(name) {
        Some((t, s)) => {
            let pr = trait_impl_pred(t, s);
            let all = all_where(items, pr, n);
            crate::model::lemma_all_where_bound(items, pr, n);
            let idx = match x { SpanRef::Item(i) => i as int, _ => -1 };
            crate::model::law_finder_collects_all_matches(items, pr, n, idx);
            let p = all[0];
            assert(trait_impls_upto(items, t, s, n)[0].index() == p);
            assert forall|j: int| 0 <= j < p implies !crate::model::is_trait_impl_of(#[trigger] items[j], t, s) by {
                crate::model::law_finder_collects_all_matches(items, pr, n, j);
                if crate::model::is_trait_impl_of(items[j], t, s) {
                    let q = choose|q: int| 0 <= q < all.len() && all[q] == j as usize;
                    if q > 0 {
                        assert(all[0] < all[q]);
                    }
                }
            }
            let sp = trait_impl_spans_upto(items, t, s, n);
            assert(sp == all.map_values(|i: usize| SpanRef::Item(i)));
            if sp.contains(x) {
                let q = choose|q: int| 0 <= q < sp.len() && sp[q] == x;
                assert(all[q] == idx);
            }
            if let SpanRef::Item(i) = x {
                if i < n && crate::model::is_trait_impl_of(items[i as int], t, s) {
                    let q = choose|q: int| 0 <= q < all.len() && all[q] == i;
                    assert(sp[q] == x);
                }
            }
            assert forall|a: int, c: int| 0 <= a < c < sp.len() implies 0 <= marked_item(#[trigger] sp[a]) < marked_item(#[trigger] sp[c]) by {
                crate::model::law_finder_collects_all_matches(items, pr, n, 0);
                assert(all[a] < all[c]);
            }
        },
        None => {},
    }
}

/// `shown` is the last item that satisfies `p`, or nothing when no item does.
pub open spec fn shows_last(items: Seq<ItemModel>, shown: Seq<usize>, p: spec_fn(ItemModel) -> bool) -> bool {
    &&& shown.len() <= 1
    &&& shown.len() == 1 ==> shown[0] < items.len() && p(items[shown[0] as int])
        && forall|j: int| shown[0] < j < items.len() ==> !p(#[trigger] items[j])
    &&& shown.len() == 0 ==> forall|j: int| 0 <= j < items.len() ==> !p(#[trigger] items[j])
}

proof fn lemma_shows_last(items: Seq<ItemModel>, p: spec_fn(ItemModel) -> bool)
    requires
        items.len() <= usize::MAX,
    ensures
        shows_last(items, opt_index(crate::model::last_where(items, p, items.len() as int)), p),
{
    crate::model::law_finder_returns_last_match(items, p, items.len() as int);
}

/// Law: an extra entry `struct X`, `enum X` or `trait X` shows the last item
/// of that kind named `X` (the rest of the entry after the repeated prefix,
/// trimmed; for traits plain or `const`), `impl X` without ` for ` the last
/// inherent impl of `X`, and a bare `X` the last struct named `X`, else the
/// last enum named `X`; each shows nothing when there is no such item.
pub proof fn law_extra_entry_forms(file: FileModel, e: Seq<char>)
    requires
        file.items@.len() <= usize::MAX,
    ensures
        ({
            let items = file.items@;
            let shown = extra_visible(file, e);
            let sk = seq!['s', 't', 'r', 'u', 'c', 't', ' '];
            let ek = seq!['e', 'n', 'u', 'm', ' '];
            let tk = seq!['t', 'r', 'a', 'i', 't', ' '];
            let ik = seq!['i', 'm', 'p', 'l', ' '];
            let fs = seq![' ', 'f', 'o', 'r', ' '];
            &&& has_prefix(e, sk) ==> shows_last(items, shown, |it: ItemModel| it.kind is Struct
                && crate::model::names(it.ident, trim_chars(strip_prefixes(e, sk))))
            &&& has_prefix(e, ek) ==> shows_last(items, shown, |it: ItemModel| it.kind is Enum
                && crate::model::names(it.ident, trim_chars(strip_prefixes(e, ek))))
            &&& has_prefix(e, tk) ==> shows_last(items, shown, |it: ItemModel|
                (it.kind is Trait && crate::model::names(it.ident, trim_chars(strip_prefixes(e, tk))))
                || (it.kind is Verbatim && crate::model::names(it.const_trait_ident, trim_chars(strip_prefixes(e, tk)))))
            &&& (has_prefix(e, ik) && first_occurrence(e, fs, 0) is None) ==> shows_last(items, shown,
                |it: ItemModel| crate::model::is_inherent_impl_of(it, trim_chars(strip_prefixes(e, ik))))
            &&& (!has_prefix(e, sk) && !has_prefix(e, ek) && !has_prefix(e, tk) && !has_prefix(e, ik)) ==> {
                if exists|j: int| 0 <= j < items.len() && #[trigger] items[j].kind is Struct && crate::model::names(items[j].ident, e) {
                    shows_last(items, shown, |it: ItemModel| it.kind is Struct && crate::model::names(it.ident, e))
                } else {
                    shows_last(items, shown, |it: ItemModel| it.kind is Enum && crate::model::names(it.ident, e))
                }
            }
        }),
{
    let items = file.items@;
    let n = items.len() as int;
    let sk = seq!['s', 't', 'r', 'u', 'c', 't', ' '];
    let ek = seq!['e', 'n', 'u', 'm', ' '];
    let tk = seq!['t', 'r', 'a', 'i', 't', ' '];
    let ik = seq!['i', 'm', 'p', 'l', ' '];
    assert(sk =~= struct_kw());
    assert(ek =~= enum_kw());
    assert(tk =~= trait_kw());
    assert(ik =~= impl_kw());
    assert(seq![' ', 'f', 'o', 'r', ' '] =~= for_sep());
    // The four prefixes begin with different letters.
    if has_prefix(e, sk) || has_prefix(e, ek) || has_prefix(e, tk) || has_prefix(e, ik) {
        assert(e.subrange(0, 5)[0] == e[0]);
    }
    if has_prefix(e, sk) {
        assert(e.subrange(0, 7)[0] == sk[0]);
    }
    if has_prefix(e, ek) {
        assert(e.subrange(0, 5)[0] == ek[0]);
    }
    if has_prefix(e, tk) {
        assert(e.subrange(0, 6)[0] == tk[0]);
    }
    if has_prefix(e, ik) {
        assert(e.subrange(0, 5)[0] == ik[0]);
    }
    let sn = trim_chars(strip_prefixes(e, sk));
    let en = trim_chars(strip_prefixes(e, ek));
    let tn = trim_chars(strip_prefixes(e, tk));
    let inn = trim_chars(strip_prefixes(e, ik));
    lemma_shows_last(items, crate::extractor::item_finder::named_pred(ItemKind::Struct, sn));
    lemma_shows_last(items, crate::extractor::item_finder::named_pred(ItemKind::Enum, en));
    lemma_shows_last(items, inherent_impl_pred(inn));
    lemma_shows_last(items, crate::extractor::item_finder::named_pred(ItemKind::Struct, e));
    lemma_shows_last(items, crate::extractor::item_finder::named_pred(ItemKind::Enum, e));
    crate::extractor::trait_finder::law_find_trait_returns_last_match(items, tn, n);
    crate::model::law_finder_returns_last_match(items, crate::extractor::item_finder::named_pred(ItemKind::Struct, e), n);
    let is_trait = |it: ItemModel| (it.kind is Trait && crate::model::names(it.ident, tn))
        || (it.kind is Verbatim && crate::model::names(it.const_trait_ident, tn));
    assert forall|j: int| 0 <= j < n implies (crate::extractor::trait_finder::trait_match(#[trigger] items[j], j as usize, tn) is None
        <==> !is_trait(items[j])) by {}
    assert(shows_last(items, extra_visible(file, e), |it: ItemModel| it.kind is Struct && crate::model::names(it.ident, sn))
        || !has_prefix(e, sk));
}

/// Law: the items shown for a list of extra entries are those shown for its
/// first part followed by those shown for the rest: each entry contributes
/// its own items, in the order of the entries.
pub proof fn law_visible_follows_entries(file: FileModel, e1: Seq<Seq<char>>, e2: Seq<Seq<char>>)
    ensures
        visible_upto(file, e1 + e2, (e1 + e2).len() as int) == visible_upto(file, e1, e1.len() as int) + visible_upto(file, e2, e2.len() as int),
    decreases e2.len(),
{
    if e2.len() == 0 {
        assert(e1 + e2 =~= e1);
        assert(visible_upto(file, e2, 0) =~= Seq::<usize>::empty());
        assert(visible_upto(file, e1, e1.len() as int) + Seq::<usize>::empty() =~= visible_upto(file, e1, e1.len() as int));
    } else {
        let init = e2.drop_last();
        law_visible_follows_entries(file, e1, init);
        let all = e1 + e2;
        assert(all.drop_last() =~= e1 + init);
        lemma_visible_prefix(file, all, all.len() - 1);
        lemma_visible_prefix(file, e2, e2.len() - 1);
        assert(all[all.len() - 1] == e2[e2.len() - 1]);
        assert(visible_upto(file, all, all.len() as int) =~= visible_upto(file, e1, e1.len() as int) + visible_upto(file, e2, e2.len() as int));
    }
}

proof fn lemma_visible_same(file: FileModel, a: Seq<Seq<char>>, b: Seq<Seq<char>>, k: int)
    requires
        0 <= k <= a.len(),
        k <= b.len(),
        forall|j: int| 0 <= j < k ==> a[j] == b[j],
    ensures
        visible_upto(file, a, k) == visible_upto(file, b, k),
    decreases k,
{
    if k > 0 {
        lemma_visible_same(file, a, b, k - 1);
    }
}

proof fn lemma_visible_prefix(file: FileModel, a: Seq<Seq<char>>, k: int)
    requires
        0 <= k <= a.len(),
    ensures
        visible_upto(file, a, k) == visible_upto(file, a.subrange(0, k), k),
{
    lemma_visible_same(file, a, a.subrange(0, k), k);
}

} // verus!
