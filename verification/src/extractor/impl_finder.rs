//! Finders for `impl` blocks: the inherent impl of a type, the impls of a
//! trait for a type, and selected methods of a type's inherent impls.
use vstd::prelude::*;
use crate::model::{
    impl_block_of, is_inherent_impl_of, is_trait_impl_of, last_where, all_where, path_ends_with_text,
    inherent_impl_of, FileModel, ImplItemModel, ItemKind, ItemModel, TypeModel, PathModel,
};
use crate::text::same_text;

verus! {

/// An `impl` block that a finder returned: a plain `impl` item, or an
/// `impl const` block held as verbatim tokens; each holds the block's index
/// in the file model.
#[derive(Clone, Copy, Debug, PartialEq, Eq, Structural)]
pub enum ImplType {
    Const(usize),
    Reg(usize),
}

/// A part of the source that a directive marks: a whole item, the header of
/// an `impl` block (from `impl` to its opening brace), one of its methods,
/// or its closing brace. Items are indices into the file model; methods are
/// an item index and a position among the block's items.
#[derive(Clone, Copy, Debug, PartialEq, Eq, Structural)]
pub enum SpanRef {
    Item(usize),
    ImplHeader(usize),
    Method(usize, usize),
    ImplClose(usize),
}

impl ImplType {
    pub open spec fn index(self) -> usize {
        match self {
            ImplType::Const(i) => i,
            ImplType::Reg(i) => i,
        }
    }

    /// The item that the block stands for: its index in the file model.
    pub fn item(self) -> (r: usize)
        ensures
            r == self.index(),
    {
        match self {
            ImplType::Const(i) => i,
            ImplType::Reg(i) => i,
        }
    }
}

/// The `ImplType` of item `i`: `Reg` for an `impl` item, `Const` for
/// verbatim tokens.
pub open spec fn impl_type_at(items: Seq<ItemModel>, i: usize) -> ImplType {
    if items[i as int].kind is Impl {
        ImplType::Reg(i)
    } else {
        ImplType::Const(i)
    }
}

pub open spec fn inherent_impl_pred(name: Seq<char>) -> spec_fn(ItemModel) -> bool {
    |it: ItemModel| is_inherent_impl_of(it, name)
}

pub open spec fn trait_impl_pred(trait_name: Seq<char>, struct_name: Seq<char>) -> spec_fn(ItemModel) -> bool {
    |it: ItemModel| is_trait_impl_of(it, trait_name, struct_name)
}

/// The last inherent impl for `name` among the first `n` items.
pub open spec fn struct_impl_upto(items: Seq<ItemModel>, name: Seq<char>, n: int) -> Option<ImplType> {
    match last_where(items, inherent_impl_pred(name), n) {
        Some(i) => Some(impl_type_at(items, i)),
        None => None,
    }
}

/// The last inherent impl for `name` in the file, as `find_struct_impl`
/// returns it.
pub open spec fn spec_find_struct_impl(file: FileModel, name: Seq<char>) -> Option<ImplType> {
    struct_impl_upto(file.items@, name, file.items@.len() as int)
}

/// The impls of `trait_name` for `struct_name` among the first `n` items.
pub open spec fn trait_impls_upto(items: Seq<ItemModel>, trait_name: Seq<char>, struct_name: Seq<char>, n: int) -> Seq<ImplType> {
    all_where(items, trait_impl_pred(trait_name, struct_name), n).map_values(|i: usize| impl_type_at(items, i))
}

pub open spec fn trait_impl_spans_upto(items: Seq<ItemModel>, trait_name: Seq<char>, struct_name: Seq<char>, n: int) -> Seq<SpanRef> {
    all_where(items, trait_impl_pred(trait_name, struct_name), n).map_values(|i: usize| SpanRef::Item(i))
}

/// The method `m` is a function whose name is in `methods`.
pub open spec fn method_selected(m: ImplItemModel, methods: Seq<Seq<char>>) -> bool {
    match m {
        ImplItemModel::Fn(n) => methods.contains(n@),
        ImplItemModel::Other => false,
    }
}

/// The selected methods among the first `n` items of the block of item `i`.
pub open spec fn selected_methods(i: usize, block: Seq<ImplItemModel>, methods: Seq<Seq<char>>, n: int) -> Seq<(usize, usize)>
    decreases n,
{
    if n <= 0 {
        Seq::empty()
    } else if method_selected(block[n - 1], methods) {
        selected_methods(i, block, methods, n - 1).push((i, (n - 1) as usize))
    } else {
        selected_methods(i, block, methods, n - 1)
    }
}

pub open spec fn method_spans(sel: Seq<(usize, usize)>) -> Seq<SpanRef> {
    sel.map_values(|p: (usize, usize)| SpanRef::Method(p.0, p.1))
}

/// The selected methods of the inherent impl that is item `i`.
pub open spec fn selected_in_item(items: Seq<ItemModel>, i: usize, methods: Seq<Seq<char>>) -> Seq<(usize, usize)> {
    let block = impl_block_of(items[i as int]).unwrap().items@;
    selected_methods(i, block, methods, block.len() as int)
}

/// Selected methods of all inherent impls for `name` among the first `n` items.
pub open spec fn impl_method_fns_upto(items: Seq<ItemModel>, name: Seq<char>, methods: Seq<Seq<char>>, n: int) -> Seq<(usize, usize)>
    decreases n,
{
    if n <= 0 {
        Seq::empty()
    } else if is_inherent_impl_of(items[n - 1], name) {
        impl_method_fns_upto(items, name, methods, n - 1) + selected_in_item(items, (n - 1) as usize, methods)
    } else {
        impl_method_fns_upto(items, name, methods, n - 1)
    }
}

/// The marked parts for the selected methods among the first `n` items:
/// for each inherent impl for `name`, its header, its selected methods and
/// its closing brace.
pub open spec fn impl_method_spans_upto(items: Seq<ItemModel>, name: Seq<char>, methods: Seq<Seq<char>>, n: int) -> Seq<SpanRef>
    decreases n,
{
    if n <= 0 {
        Seq::empty()
    } else if is_inherent_impl_of(items[n - 1], name) {
        impl_method_spans_upto(items, name, methods, n - 1)
            + seq![SpanRef::ImplHeader((n - 1) as usize)]
            + method_spans(selected_in_item(items, (n - 1) as usize, methods))
            + seq![SpanRef::ImplClose((n - 1) as usize)]
    } else {
        impl_method_spans_upto(items, name, methods, n - 1)
    }
}

pub open spec fn text_views(list: Seq<&str>) -> Seq<Seq<char>> {
    list.map_values(|m: &str| m@)
}

/// The last segment of the path of `ty`, when `ty` is a path.
fn get_type_path(ty: &TypeModel) -> (r: Option<&PathModel>)
    ensures
        match *ty {
            TypeModel::Path(p) => r == Some(&p),
            TypeModel::Other => r is None,
        },
{
    match ty {
        TypeModel::Path(p) => Some(p),
        TypeModel::Other => None,
    }
}

/// Finds the last inherent impl of `struct_name` in the file.
pub fn find_struct_impl(parsed_file: &FileModel, struct_name: &str) -> (r: Option<ImplType>)
    ensures
        r == spec_find_struct_impl(*parsed_file, struct_name@),
{
    let mut finder = StructImplFinder::new(struct_name);
    let n = parsed_file.items.len();
    let mut i: usize = 0;
    while i < n
        invariant
            n == parsed_file.items@.len(),
            i <= n,
            finder.struct_name@ == struct_name@,
            finder.impl_item == struct_impl_upto(parsed_file.items@, struct_name@, i as int),
        decreases n - i,
    {
        finder.visit_item(i, &parsed_file.items[i]);
        i = i + 1;
    }
    finder.impl_item
}

/// Finds the impls of `trait_name` for `struct_name`, with the part of the
/// source that each one covers.
pub fn find_trait_impl(parsed_file: &FileModel, trait_name: &str, struct_name: &str) -> (r: (Vec<ImplType>, Vec<SpanRef>))
    ensures
        r.0@ == trait_impls_upto(parsed_file.items@, trait_name@, struct_name@, parsed_file.items@.len() as int),
        r.1@ == trait_impl_spans_upto(parsed_file.items@, trait_name@, struct_name@, parsed_file.items@.len() as int),
{
    let mut finder = TraitImplFinder::new(trait_name, struct_name);
    let n = parsed_file.items.len();
    let mut i: usize = 0;
    while i < n
        invariant
            n == parsed_file.items@.len(),
            i <= n,
            finder.trait_name@ == trait_name@,
            finder.struct_name@ == struct_name@,
            finder.impl_items@ == trait_impls_upto(parsed_file.items@, trait_name@, struct_name@, i as int),
            finder.spans@ == trait_impl_spans_upto(parsed_file.items@, trait_name@, struct_name@, i as int),
        decreases n - i,
    {
        finder.visit_item(i, &parsed_file.items[i]);
        i = i + 1;
    }
    (finder.impl_items, finder.spans)
}

/// The finder of the last inherent impl of a type.
pub struct StructImplFinder {
    pub struct_name: String,
    pub impl_item: Option<ImplType>,
}

impl StructImplFinder {
    pub fn new(struct_name: &str) -> (r: Self)
        ensures
            r.struct_name@ == struct_name@,
            r.impl_item is None,
    {
        Self { struct_name: struct_name.to_owned(), impl_item: None }
    }

    /// Visits item `index`: keeps it when it is an inherent impl of the type.
    fn visit_item(&mut self, index: usize, item: &ItemModel)
        ensures
            final(self).struct_name == old(self).struct_name,
            final(self).impl_item == if is_inherent_impl_of(*item, old(self).struct_name@) {
                Some(if item.kind is Impl { ImplType::Reg(index) } else { ImplType::Const(index) })
            } else {
                old(self).impl_item
            },
    {
        let is_reg = match item.kind {
            ItemKind::Impl => true,
            _ => false,
        };
        let is_verbatim = match item.kind {
            ItemKind::Verbatim => true,
            _ => false,
        };
        if is_reg || is_verbatim {
            if let Some(b) = &item.impl_block {
                if b.trait_path.is_none() {
                    if let Some(path) = get_type_path(&b.self_ty) {
                        if path_ends_with_text(path, self.struct_name.as_str()) {
                            self.impl_item = Some(if is_reg { ImplType::Reg(index) } else { ImplType::Const(index) });
                        }
                    }
                }
            }
        }
    }
}

/// The finder of the impls of a trait for a type.
pub struct TraitImplFinder {
    pub trait_name: String,
    pub struct_name: String,
    pub impl_items: Vec<ImplType>,
    pub spans: Vec<SpanRef>,
}

impl TraitImplFinder {
    pub fn new(trait_name: &str, struct_name: &str) -> (r: Self)
        ensures
            r.trait_name@ == trait_name@,
            r.struct_name@ == struct_name@,
            r.impl_items@.len() == 0,
            r.spans@.len() == 0,
    {
        Self {
            trait_name: trait_name.to_owned(),
            struct_name: struct_name.to_owned(),
            impl_items: Vec::new(),
            spans: Vec::new(),
        }
    }

    /// Visits item `index`: appends it when it implements the trait for the type.
    fn visit_item(&mut self, index: usize, item: &ItemModel)
        ensures
            final(self).trait_name == old(self).trait_name,
            final(self).struct_name == old(self).struct_name,
            is_trait_impl_of(*item, old(self).trait_name@, old(self).struct_name@) ==> {
                &&& final(self).impl_items@ == old(self).impl_items@.push(
                    if item.kind is Impl { ImplType::Reg(index) } else { ImplType::Const(index) })
                &&& final(self).spans@ == old(self).spans@.push(SpanRef::Item(index))
            },
            !is_trait_impl_of(*item, old(self).trait_name@, old(self).struct_name@) ==> {
                &&& final(self).impl_items@ == old(self).impl_items@
                &&& final(self).spans@ == old(self).spans@
            },
    {
        let is_reg = match item.kind {
            ItemKind::Impl => true,
            _ => false,
        };
        let is_verbatim = match item.kind {
            ItemKind::Verbatim => true,
            _ => false,
        };
        if is_reg || is_verbatim {
            if let Some(b) = &item.impl_block {
                if let Some(trait_path) = &b.trait_path {
                    if path_ends_with_text(trait_path, self.trait_name.as_str()) {
                        if let Some(path) = get_type_path(&b.self_ty) {
                            if path_ends_with_text(path, self.struct_name.as_str()) {
                                self.impl_items.push(if is_reg { ImplType::Reg(index) } else { ImplType::Const(index) });
                                self.spans.push(SpanRef::Item(index));
                            }
                        }
                    }
                }
            }
        }
    }
}

/// Whether `name` is one of `list`.
fn contains_text(list: &Vec<&str>, name: &str) -> (r: bool)
    ensures
        r == text_views(list@).contains(name@),
{
    let n = list.len();
    let mut i: usize = 0;
    while i < n
        invariant
            n == list@.len(),
            i <= n,
            forall|j: int| 0 <= j < i ==> list@[j]@ != name@,
        decreases n - i,
    {
        if same_text(list[i], name) {
            assert(text_views(list@)[i as int] == name@);
            return true;
        }
        i = i + 1;
    }
    proof {
        if text_views(list@).contains(name@) {
            let j = choose|j: int| 0 <= j < text_views(list@).len() && text_views(list@)[j] == name@;
            assert(list@[j]@ == name@);
        }
    }
    false
}

/// Finds the methods named in `methods` in the inherent impls of
/// `struct_name`, with the parts of the source they cover: for each such
/// impl, its header, the selected methods, and its closing brace.
pub fn find_impl_methods(parsed_file: &FileModel, struct_name: &str, methods: Vec<&str>) -> (r: (Vec<(usize, usize)>, Vec<SpanRef>))
    ensures
        r.0@ == impl_method_fns_upto(parsed_file.items@, struct_name@, text_views(methods@), parsed_file.items@.len() as int),
        r.1@ == impl_method_spans_upto(parsed_file.items@, struct_name@, text_views(methods@), parsed_file.items@.len() as int),
{
    let ghost mviews = text_views(methods@);
    let mut finder = ImplMethodFinder::new(struct_name, methods);
    let n = parsed_file.items.len();
    let mut i: usize = 0;
    while i < n
        invariant
            n == parsed_file.items@.len(),
            i <= n,
            finder.struct_name@ == struct_name@,
            text_views(finder.methods@) == mviews,
            finder.functions@ == impl_method_fns_upto(parsed_file.items@, struct_name@, mviews, i as int),
            finder.spans@ == impl_method_spans_upto(parsed_file.items@, struct_name@, mviews, i as int),
        decreases n - i,
    {
        finder.visit_item(i, &parsed_file.items[i]);
        i = i + 1;
    }
    (finder.functions, finder.spans)
}

/// The finder of selected methods in a type's inherent impls.
pub struct ImplMethodFinder<'a> {
    pub struct_name: String,
    pub methods: Vec<&'a str>,
    pub functions: Vec<(usize, usize)>,
    pub spans: Vec<SpanRef>,
}

impl<'a> ImplMethodFinder<'a> {
    fn new(struct_name: &str, methods: Vec<&'a str>) -> (r: Self)
        ensures
            r.struct_name@ == struct_name@,
            r.methods == methods,
            r.functions@.len() == 0,
            r.spans@.len() == 0,
    {
        Self { struct_name: struct_name.to_owned(), methods, functions: Vec::new(), spans: Vec::new() }
    }

    /// Visits item `index`: for an inherent impl of the type, records its
    /// header, the selected methods and its closing brace.
    fn visit_item(&mut self, index: usize, item: &ItemModel)
        ensures
            final(self).struct_name == old(self).struct_name,
            final(self).methods == old(self).methods,
            is_inherent_impl_of(*item, old(self).struct_name@) ==> {
                let sel = selected_methods(index, impl_block_of(*item).unwrap().items@,
                    text_views(old(self).methods@), impl_block_of(*item).unwrap().items@.len() as int);
                &&& final(self).functions@ == old(self).functions@ + sel
                &&& final(self).spans@ == old(self).spans@ + seq![SpanRef::ImplHeader(index)]
                    + method_spans(sel) + seq![SpanRef::ImplClose(index)]
            },
            !is_inherent_impl_of(*item, old(self).struct_name@) ==> {
                &&& final(self).functions@ == old(self).functions@
                &&& final(self).spans@ == old(self).spans@
            },
    {
        if !inherent_impl_of(item, self.struct_name.as_str()) {
            return;
        }
        let ghost mviews = text_views(self.methods@);
        let ghost old_functions = self.functions@;
        let ghost old_spans = self.spans@;
        let ghost old_name = self.struct_name;
        let ghost old_methods = self.methods;
        match &item.impl_block {
            Some(b) => {
                self.spans.push(SpanRef::ImplHeader(index));
                let ghost base_spans = self.spans@;
                let m = b.items.len();
                let mut k: usize = 0;
                while k < m
                    invariant
                        m == b.items@.len(),
                        k <= m,
                        text_views(self.methods@) == mviews,
                        self.struct_name == old_name,
                        self.methods == old_methods,
                        self.functions@ == old_functions + selected_methods(index, b.items@, mviews, k as int),
                        self.spans@ == base_spans + method_spans(selected_methods(index, b.items@, mviews, k as int)),
                    decreases m - k,
                {
                    let ghost prev = selected_methods(index, b.items@, mviews, k as int);
                    if let ImplItemModel::Fn(name) = &b.items[k] {
                        if contains_text(&self.methods, name.as_str()) {
                            self.functions.push((index, k));
                            self.spans.push(SpanRef::Method(index, k));
                        }
                    }
                    proof {
                        let next = selected_methods(index, b.items@, mviews, k + 1);
                        assert(b.items@[k as int] == b.items[k as int]);
                        if method_selected(b.items@[k as int], mviews) {
                            assert(next == prev.push((index, k)));
                            assert(method_spans(next) =~= method_spans(prev).push(SpanRef::Method(index, k)));
                            assert(old_functions + next =~= (old_functions + prev).push((index, k)));
                            assert(base_spans + method_spans(next) =~= (base_spans + method_spans(prev)).push(SpanRef::Method(index, k)));
                        } else {
                            assert(next == prev);
                        }
                    }
                    k = k + 1;
                }
                self.spans.push(SpanRef::ImplClose(index));
                proof {
                    let sel = selected_methods(index, b.items@, mviews, m as int);
                    assert(self.spans@ =~= old_spans + seq![SpanRef::ImplHeader(index)] + method_spans(sel) + seq![SpanRef::ImplClose(index)]);
                }
            },
            None => {},
        }
    }
}

/// Member `k` of the inherent impl of `name` that is item `i` is a method
/// whose name is one of `methods`.
pub open spec fn is_requested_method(items: Seq<ItemModel>, name: Seq<char>, methods: Seq<Seq<char>>, i: int, k: int) -> bool {
    &&& 0 <= i < items.len()
    &&& is_inherent_impl_of(items[i], name)
    &&& 0 <= k < impl_block_of(items[i]).unwrap().items@.len()
    &&& impl_block_of(items[i]).unwrap().items@[k] matches ImplItemModel::Fn(m) && methods.contains(m@)
}

proof fn lemma_selected_methods(i: usize, block: Seq<ImplItemModel>, methods: Seq<Seq<char>>, n: int, x: (usize, usize))
    requires
        0 <= n <= block.len() <= usize::MAX,
    ensures
        selected_methods(i, block, methods, n).contains(x) <==> (x.0 == i && x.1 < n && (block[x.1 as int] matches ImplItemModel::Fn(m) && methods.contains(m@))),
        forall|a: int, c: int| 0 <= a < c < selected_methods(i, block, methods, n).len() ==>
            #[trigger] selected_methods(i, block, methods, n)[a].1 < #[trigger] selected_methods(i, block, methods, n)[c].1,
        forall|a: int| 0 <= a < selected_methods(i, block, methods, n).len() ==> #[trigger] selected_methods(i, block, methods, n)[a].1 < n,
    decreases n,
{
    if n > 0 {
        lemma_selected_methods(i, block, methods, n - 1, x);
        let prev = selected_methods(i, block, methods, n - 1);
        let cur = selected_methods(i, block, methods, n);
        if method_selected(block[n - 1], methods) {
            assert(cur == prev.push((i, (n - 1) as usize)));
            if cur.contains(x) && x != (i, (n - 1) as usize) {
                let q = choose|q: int| 0 <= q < cur.len() && cur[q] == x;
                assert(prev[q] == x);
            }
            if prev.contains(x) {
                let q = choose|q: int| 0 <= q < prev.len() && prev[q] == x;
                assert(cur[q] == x);
            }
            assert(cur[cur.len() - 1] == (i, (n - 1) as usize));
            assert forall|a: int, c: int| 0 <= a < c < cur.len() implies #[trigger] cur[a].1 < #[trigger] cur[c].1 by {
                assert(cur[a] == prev[a]);
                if c < prev.len() {
                    assert(cur[c] == prev[c]);
                }
            }
            assert forall|a: int| 0 <= a < cur.len() implies #[trigger] cur[a].1 < n by {
                if a < prev.len() {
                    assert(cur[a] == prev[a]);
                }
            }
        } else {
            assert(cur == prev);
            if x.1 == n - 1 {
                assert(!prev.contains(x));
            }
        }
    }
}

/// Every impl block of the model has a length that fits in `usize`, as the
/// length of any `Vec` does.
pub open spec fn blocks_fit(items: Seq<ItemModel>) -> bool {
    forall|i: int| 0 <= i < items.len() && (#[trigger] impl_block_of(items[i])) is Some ==> impl_block_of(items[i]).unwrap().items@.len() <= usize::MAX
}

proof fn lemma_impl_method_parts(items: Seq<ItemModel>, name: Seq<char>, methods: Seq<Seq<char>>, n: int, x: (usize, usize), sp: SpanRef)
    requires
        0 <= n <= items.len() <= usize::MAX,
        blocks_fit(items),
    ensures
        impl_method_fns_upto(items, name, methods, n).contains(x) <==> x.0 < n && is_requested_method(items, name, methods, x.0 as int, x.1 as int),
        impl_method_spans_upto(items, name, methods, n).contains(sp) <==> match sp {
            SpanRef::ImplHeader(i) => i < n && is_inherent_impl_of(items[i as int], name),
            SpanRef::ImplClose(i) => i < n && is_inherent_impl_of(items[i as int], name),
            SpanRef::Method(i, k) => i < n && is_requested_method(items, name, methods, i as int, k as int),
            SpanRef::Item(_) => false,
        },
    decreases n,
{
    if n > 0 {
        lemma_impl_method_parts(items, name, methods, n - 1, x, sp);
        let j = (n - 1) as usize;
        if is_inherent_impl_of(items[n - 1], name) {
            let block = impl_block_of(items[n - 1]).unwrap().items@;
            assert(impl_block_of(items[n - 1]) is Some);
            let sel = selected_in_item(items, j, methods);
            let fprev = impl_method_fns_upto(items, name, methods, n - 1);
            let sprev = impl_method_spans_upto(items, name, methods, n - 1);
            lemma_selected_methods(j, block, methods, block.len() as int, x);
            assert(impl_method_fns_upto(items, name, methods, n) == fprev + sel);
            if (fprev + sel).contains(x) {
                let q = choose|q: int| 0 <= q < (fprev + sel).len() && (fprev + sel)[q] == x;
                if q < fprev.len() {
                    assert(fprev[q] == x);
                } else {
                    assert(sel[q - fprev.len()] == x);
                }
            }
            if fprev.contains(x) {
                let q = choose|q: int| 0 <= q < fprev.len() && fprev[q] == x;
                assert((fprev + sel)[q] == x);
            } else if sel.contains(x) {
                let q = choose|q: int| 0 <= q < sel.len() && sel[q] == x;
                assert((fprev + sel)[fprev.len() + q] == x);
            }
            let ms = method_spans(sel);
            let whole = sprev + seq![SpanRef::ImplHeader(j)] + ms + seq![SpanRef::ImplClose(j)];
            assert(impl_method_spans_upto(items, name, methods, n) == whole);
            if let SpanRef::Method(a, c) = sp {
                lemma_selected_methods(j, block, methods, block.len() as int, (a, c));
                if ms.contains(sp) {
                    let q = choose|q: int| 0 <= q < ms.len() && ms[q] == sp;
                    assert(sel[q] == (a, c));
                }
                if sel.contains((a, c)) {
                    let q = choose|q: int| 0 <= q < sel.len() && sel[q] == (a, c);
                    assert(ms[q] == sp);
                }
            }
            if whole.contains(sp) {
                let q = choose|q: int| 0 <= q < whole.len() && whole[q] == sp;
                if q < sprev.len() {
                    assert(sprev[q] == sp);
                } else if q == sprev.len() {
                } else if q < sprev.len() + 1 + ms.len() {
                    assert(ms[q - sprev.len() - 1] == sp);
                }
            }
            if sprev.contains(sp) {
                let q = choose|q: int| 0 <= q < sprev.len() && sprev[q] == sp;
                assert(whole[q] == sp);
            } else if ms.contains(sp) {
                let q = choose|q: int| 0 <= q < ms.len() && ms[q] == sp;
                assert(whole[sprev.len() + 1 + q] == sp);
            } else if sp == SpanRef::ImplHeader(j) {
                assert(whole[sprev.len() as int] == sp);
            } else if sp == SpanRef::ImplClose(j) {
                assert(whole[whole.len() - 1] == sp);
            }
        }
    }
}

/// Law: `find_impl_methods` returns exactly the requested methods of the
/// type's inherent impls, each as the pair (impl item, position of the
/// method in that impl), and marks exactly the header and the closing brace
/// of every inherent impl of the type and every requested method.
pub proof fn law_impl_methods_are_the_requested_ones(
    items: Seq<ItemModel>,
    name: Seq<char>,
    methods: Seq<Seq<char>>,
    x: (usize, usize),
    sp: SpanRef,
)
    requires
        items.len() <= usize::MAX,
        blocks_fit(items),
    ensures
        impl_method_fns_upto(items, name, methods, items.len() as int).contains(x)
            <==> is_requested_method(items, name, methods, x.0 as int, x.1 as int),
        impl_method_spans_upto(items, name, methods, items.len() as int).contains(sp) <==> match sp {
            SpanRef::ImplHeader(i) => i < items.len() && is_inherent_impl_of(items[i as int], name),
            SpanRef::ImplClose(i) => i < items.len() && is_inherent_impl_of(items[i as int], name),
            SpanRef::Method(i, k) => is_requested_method(items, name, methods, i as int, k as int),
            SpanRef::Item(_) => false,
        },
{
    lemma_impl_method_parts(items, name, methods, items.len() as int, x, sp);
}

} // verus!
