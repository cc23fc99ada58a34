//! A plain-value model of a parsed Rust source file.
//!
//! The file is held as the list of all its items in the order in which a
//! depth-first visit of the syntax tree meets them (a parent before the
//! items nested in it). Each entry keeps what the item finders read: the
//! kind of item, its name, the shape of an `impl` block, and an equality
//! class (two entries hold the same class exactly when the items are equal
//! as syntax trees).
use vstd::prelude::*;

verus! {

/// The kind of a Rust item.
pub enum ItemKind {
    Const,
    Static,
    Fn,
    Struct,
    Enum,
    Trait,
    Impl,
    /// Tokens that are no standard item, such as `const trait` or
    /// `impl const` blocks.
    Verbatim,
    Other,
}

/// A path, of which the finders read the identifier of the last segment.
pub struct PathModel {
    pub last_segment: Option<String>,
}

/// The self type of an `impl` block.
pub enum TypeModel {
    /// A type written as a path.
    Path(PathModel),
    /// Any other type (reference, tuple, slice, ...).
    Other,
}

/// An item inside an `impl` block.
pub enum ImplItemModel {
    /// A method or associated function, with its name.
    Fn(String),
    Other,
}

/// The shape of an `impl` block.
pub struct ImplModel {
    /// The implemented trait, `None` for an inherent impl.
    pub trait_path: Option<PathModel>,
    pub self_ty: TypeModel,
    /// The items of the block, in order.
    pub items: Vec<ImplItemModel>,
}

/// One item of the file.
pub struct ItemModel {
    pub kind: ItemKind,
    /// The name of a `const`, `static`, `fn`, `struct`, `enum` or `trait`.
    pub ident: Option<String>,
    /// For an `impl` item, and for verbatim tokens that parse as an
    /// `impl const` block: the block's shape.
    pub impl_block: Option<ImplModel>,
    /// For verbatim tokens that parse as a `const trait`: its name.
    pub const_trait_ident: Option<String>,
    /// Whether the item stands directly in the file (not nested).
    pub top_level: bool,
    /// Equality class: equal items have equal classes and only they do.
    pub class: usize,
}

/// All items of a file in visiting order.
pub struct FileModel {
    pub items: Vec<ItemModel>,
}

/// `o` holds a name whose characters are `name`.
pub open spec fn names(o: Option<String>, name: Seq<char>) -> bool {
    match o {
        Some(s) => s@ == name,
        None => false,
    }
}

/// The last segment of path `p` is the identifier `name`.
pub open spec fn path_ends_with(p: PathModel, name: Seq<char>) -> bool {
    names(p.last_segment, name)
}

/// Type `t` is a path whose last segment is the identifier `name`.
pub open spec fn type_path_ends_with(t: TypeModel, name: Seq<char>) -> bool {
    match t {
        TypeModel::Path(p) => path_ends_with(p, name),
        TypeModel::Other => false,
    }
}

/// The item is an `impl` block (plain, or `impl const` held as verbatim
/// tokens) and `b` is its shape.
pub open spec fn impl_block_of(item: ItemModel) -> Option<ImplModel> {
    if item.kind is Impl || item.kind is Verbatim {
        item.impl_block
    } else {
        None
    }
}

/// The item is an inherent `impl` block for a type whose path ends in `name`.
pub open spec fn is_inherent_impl_of(item: ItemModel, name: Seq<char>) -> bool {
    match impl_block_of(item) {
        Some(b) => b.trait_path is None && type_path_ends_with(b.self_ty, name),
        None => false,
    }
}

/// The item is an `impl` of a trait whose path ends in `trait_name` for a
/// type whose path ends in `struct_name`.
pub open spec fn is_trait_impl_of(item: ItemModel, trait_name: Seq<char>, struct_name: Seq<char>) -> bool {
    match impl_block_of(item) {
        Some(b) => match b.trait_path {
            Some(p) => path_ends_with(p, trait_name) && type_path_ends_with(b.self_ty, struct_name),
            None => false,
        },
        None => false,
    }
}

/// The item is of kind `kind` and is named `name`.
pub open spec fn is_named(item: ItemModel, kind: ItemKind, name: Seq<char>) -> bool {
    item.kind == kind && names(item.ident, name)
}

/// Index of the last of the first `n` items that satisfy `p`.
pub open spec fn last_where(items: Seq<ItemModel>, p: spec_fn(ItemModel) -> bool, n: int) -> Option<usize>
    decreases n,
{
    if n <= 0 {
        None
    } else if p(items[n - 1]) {
        Some((n - 1) as usize)
    } else {
        last_where(items, p, n - 1)
    }
}

/// Indices, in order, of the first `n` items that satisfy `p`.
pub open spec fn all_where(items: Seq<ItemModel>, p: spec_fn(ItemModel) -> bool, n: int) -> Seq<usize>
    decreases n,
{
    if n <= 0 {
        Seq::empty()
    } else if p(items[n - 1]) {
        all_where(items, p, n - 1).push((n - 1) as usize)
    } else {
        all_where(items, p, n - 1)
    }
}

pub proof fn lemma_last_where_bound(items: Seq<ItemModel>, p: spec_fn(ItemModel) -> bool, n: int)
    requires
        n <= items.len() <= usize::MAX,
    ensures
        last_where(items, p, n) matches Some(i) ==> i < n && p(items[i as int]),
    decreases n,
{
    if n > 0 {
        lemma_last_where_bound(items, p, n - 1);
    }
}

pub proof fn lemma_all_where_bound(items: Seq<ItemModel>, p: spec_fn(ItemModel) -> bool, n: int)
    requires
        n <= items.len() <= usize::MAX,
    ensures
        forall|k: int| 0 <= k < all_where(items, p, n).len() ==> {
            &&& all_where(items, p, n)[k] < n
            &&& p(items[all_where(items, p, n)[k] as int])
        },
        all_where(items, p, n).len() <= if n < 0 { 0 } else { n },
    decreases n,
{
    if n > 0 {
        lemma_all_where_bound(items, p, n - 1);
    }
}

/// Law: a finder that keeps overwriting its result while visiting returns
/// the last item that matches, and none exactly when no item matches.
pub proof fn law_finder_returns_last_match(items: Seq<ItemModel>, p: spec_fn(ItemModel) -> bool, n: int)
    requires
        0 <= n <= items.len() <= usize::MAX,
    ensures
        last_where(items, p, n) matches Some(i) ==> i < n && p(items[i as int]) && forall|j: int|
            i < j < n ==> !p(#[trigger] items[j]),
        last_where(items, p, n) is None <==> forall|j: int| 0 <= j < n ==> !p(#[trigger] items[j]),
    decreases n,
{
    if n > 0 {
        law_finder_returns_last_match(items, p, n - 1);
    }
}

/// Law: a finder that collects while visiting returns, in visiting order,
/// exactly the items that match.
pub proof fn law_finder_collects_all_matches(items: Seq<ItemModel>, p: spec_fn(ItemModel) -> bool, n: int, i: int)
    requires
        0 <= n <= items.len() <= usize::MAX,
    ensures
        all_where(items, p, n).contains(i as usize) && 0 <= i <= usize::MAX <==> 0 <= i < n && p(items[i]),
        forall|a: int, c: int| 0 <= a < c < all_where(items, p, n).len() ==> #[trigger] all_where(items, p, n)[a] < #[trigger] all_where(items, p, n)[c],
    decreases n,
{
    lemma_all_where_bound(items, p, n);
    if n > 0 {
        law_finder_collects_all_matches(items, p, n - 1, i);
        let prev = all_where(items, p, n - 1);
        lemma_all_where_bound(items, p, n - 1);
        if p(items[n - 1]) {
            let cur = prev.push((n - 1) as usize);
            assert(all_where(items, p, n) == cur);
            if 0 <= i <= usize::MAX && cur.contains(i as usize) && i != n - 1 {
                let q = choose|q: int| 0 <= q < cur.len() && cur[q] == i as usize;
                assert(prev[q] == i as usize);
            }
            if 0 <= i < n - 1 && p(items[i]) {
                let q = choose|q: int| 0 <= q < prev.len() && prev[q] == i as usize;
                assert(cur[q] == i as usize);
            }
            if i == n - 1 {
                assert(cur[cur.len() - 1] == i as usize);
            }
        }
    }
}

/// Whether the optional name is the text `name`.
pub fn names_text(o: &Option<String>, name: &str) -> (r: bool)
    ensures
        r == names(*o, name@),
{
    match o {
        Some(s) => crate::text::same_text(s.as_str(), name),
        None => false,
    }
}

/// Whether the last segment of `p` is `name`.
pub fn path_ends_with_text(p: &PathModel, name: &str) -> (r: bool)
    ensures
        r == path_ends_with(*p, name@),
{
    names_text(&p.last_segment, name)
}

/// Whether `item` is an inherent impl for `name` (see `is_inherent_impl_of`).
pub fn inherent_impl_of(item: &ItemModel, name: &str) -> (r: bool)
    ensures
        r == is_inherent_impl_of(*item, name@),
{
    let is_block = match item.kind {
        ItemKind::Impl => true,
        ItemKind::Verbatim => true,
        _ => false,
    };
    if !is_block {
        return false;
    }
    match &item.impl_block {
        Some(b) => match &b.trait_path {
            Some(_) => false,
            None => match &b.self_ty {
                TypeModel::Path(p) => path_ends_with_text(p, name),
                TypeModel::Other => false,
            },
        },
        None => false,
    }
}

/// Whether `item` is an impl of `trait_name` for `struct_name`.
pub fn trait_impl_of(item: &ItemModel, trait_name: &str, struct_name: &str) -> (r: bool)
    ensures
        r == is_trait_impl_of(*item, trait_name@, struct_name@),
{
    let is_block = match item.kind {
        ItemKind::Impl => true,
        ItemKind::Verbatim => true,
        _ => false,
    };
    if !is_block {
        return false;
    }
    match &item.impl_block {
        Some(b) => match &b.trait_path {
            Some(tp) => {
                if !path_ends_with_text(tp, trait_name) {
                    return false;
                }
                match &b.self_ty {
                    TypeModel::Path(p) => path_ends_with_text(p, struct_name),
                    TypeModel::Other => false,
                }
            },
            None => false,
        },
        None => false,
    }
}

} // verus!
