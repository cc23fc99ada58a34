//! Finder for `const` items.
use vstd::prelude::*;
use crate::model::{is_named, last_where, names_text, FileModel, ItemKind, ItemModel};

verus! {

pub open spec fn const_pred(name: Seq<char>) -> spec_fn(ItemModel) -> bool {
    |it: ItemModel| is_named(it, ItemKind::Const, name)
}

/// The last `const` named `name` in the file (the visit keeps overwriting).
pub open spec fn spec_find_const(file: FileModel, name: Seq<char>) -> Option<usize> {
    last_where(file.items@, const_pred(name), file.items@.len() as int)
}

/// Finds the `const` item named `const_name`: the last one in visiting order.
pub fn find_const(parsed_file: &FileModel, const_name: &str) -> (r: Option<usize>)
    ensures
        r == spec_find_const(*parsed_file, const_name@),
{
    let mut finder = ConstFinder::new(const_name);
    let n = parsed_file.items.len();
    let mut i: usize = 0;
    while i < n
        invariant
            n == parsed_file.items@.len(),
            i <= n,
            finder.const_name@ == const_name@,
            finder.const_item == last_where(parsed_file.items@, const_pred(const_name@), i as int),
        decreases n - i,
    {
        let item = &parsed_file.items[i];
        let is_const = match item.kind {
            ItemKind::Const => true,
            _ => false,
        };
        if is_const {
            finder.visit_item_const(i, item);
        }
        i = i + 1;
    }
    finder.const_item
}

/// The finder of a `const` item by name.
pub struct ConstFinder {
    pub const_name: String,
    pub const_item: Option<usize>,
}

impl ConstFinder {
    pub fn new(const_name: &str) -> (r: Self)
        ensures
            r.const_name@ == const_name@,
            r.const_item is None,
    {
        Self { const_name: const_name.to_owned(), const_item: None }
    }

    /// Visits the `const` item `index`: keeps it when its name matches.
    pub fn visit_item_const(&mut self, index: usize, item_const: &ItemModel)
        ensures
            final(self).const_name == old(self).const_name,
            final(self).const_item == if crate::model::names(item_const.ident, old(self).const_name@) {
                Some(index)
            } else {
                old(self).const_item
            },
    {
        if names_text(&item_const.ident, self.const_name.as_str()) {
            self.const_item = Some(index);
        }
    }
}

} // verus!
