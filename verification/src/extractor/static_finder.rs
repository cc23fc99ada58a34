//! Finder for `static` items.
use vstd::prelude::*;
use crate::model::{is_named, last_where, names_text, FileModel, ItemKind, ItemModel};

verus! {

pub open spec fn static_pred(name: Seq<char>) -> spec_fn(ItemModel) -> bool {
    |it: ItemModel| is_named(it, ItemKind::Static, name)
}

/// The last `static` named `name` in the file (the visit keeps overwriting).
pub open spec fn spec_find_static(file: FileModel, name: Seq<char>) -> Option<usize> {
    last_where(file.items@, static_pred(name), file.items@.len() as int)
}

/// Finds the `static` item named `static_name`: the last one in visiting order.
pub fn find_static(parsed_file: &FileModel, static_name: &str) -> (r: Option<usize>)
    ensures
        r == spec_find_static(*parsed_file, static_name@),
{
    let mut finder = StaticFinder::new(static_name);
    let n = parsed_file.items.len();
    let mut i: usize = 0;
    while i < n
        invariant
            n == parsed_file.items@.len(),
            i <= n,
            finder.static_name@ == static_name@,
            finder.static_item == last_where(parsed_file.items@, static_pred(static_name@), i as int),
        decreases n - i,
    {
        let item = &parsed_file.items[i];
        let is_static = match item.kind {
            ItemKind::Static => true,
            _ => false,
        };
        if is_static {
            finder.visit_item_static(i, item);
        }
        i = i + 1;
    }
    finder.static_item
}

/// The finder of a `static` item by name.
pub struct StaticFinder {
    pub static_name: String,
    pub static_item: Option<usize>,
}

impl StaticFinder {
    pub fn new(static_name: &str) -> (r: Self)
        ensures
            r.static_name@ == static_name@,
            r.static_item is None,
    {
        Self { static_name: static_name.to_owned(), static_item: None }
    }

    /// Visits the `static` item `index`: keeps it when its name matches.
    pub fn visit_item_static(&mut self, index: usize, item_static: &ItemModel)
        ensures
            final(self).static_name == old(self).static_name,
            final(self).static_item == if crate::model::names(item_static.ident, old(self).static_name@) {
                Some(index)
            } else {
                old(self).static_item
            },
    {
        if names_text(&item_static.ident, self.static_name.as_str()) {
            self.static_item = Some(index);
        }
    }
}

} // verus!
