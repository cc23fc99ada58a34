//! Finders for functions, structs and enums by name.
use vstd::prelude::*;
use crate::model::{is_named, last_where, names_text, FileModel, ItemKind, ItemModel};

verus! {

pub open spec fn named_pred(kind: ItemKind, name: Seq<char>) -> spec_fn(ItemModel) -> bool {
    |it: ItemModel| is_named(it, kind, name)
}

/// The last item of kind `kind` named `name` in the file.
pub open spec fn spec_find_named(file: FileModel, kind: ItemKind, name: Seq<char>) -> Option<usize> {
    last_where(file.items@, named_pred(kind, name), file.items@.len() as int)
}

fn same_kind(a: &ItemKind, b: &ItemKind) -> (r: bool)
    ensures
        r == (*a == *b),
{
    match (a, b) {
        (ItemKind::Const, ItemKind::Const) => true,
        (ItemKind::Static, ItemKind::Static) => true,
        (ItemKind::Fn, ItemKind::Fn) => true,
        (ItemKind::Struct, ItemKind::Struct) => true,
        (ItemKind::Enum, ItemKind::Enum) => true,
        (ItemKind::Trait, ItemKind::Trait) => true,
        (ItemKind::Impl, ItemKind::Impl) => true,
        (ItemKind::Verbatim, ItemKind::Verbatim) => true,
        (ItemKind::Other, ItemKind::Other) => true,
        _ => false,
    }
}

/// Finds the item of kind `kind` named `name`: the last one in visiting order.
pub fn find_named(parsed_file: &FileModel, kind: ItemKind, name: &str) -> (r: Option<usize>)
    ensures
        r == spec_find_named(*parsed_file, kind, name@),
{
    let n = parsed_file.items.len();
    let mut found: Option<usize> = None;
    let mut i: usize = 0;
    while i < n
        invariant
            n == parsed_file.items@.len(),
            i <= n,
            found == last_where(parsed_file.items@, named_pred(kind, name@), i as int),
        decreases n - i,
    {
        let item = &parsed_file.items[i];
        if same_kind(&item.kind, &kind) && names_text(&item.ident, name) {
            found = Some(i);
        }
        i = i + 1;
    }
    found
}

/// Finds the function named `name`.
pub fn find_function(parsed_file: &FileModel, name: &str) -> (r: Option<usize>)
    ensures
        r == spec_find_named(*parsed_file, ItemKind::Fn, name@),
{
    find_named(parsed_file, ItemKind::Fn, name)
}

/// Finds the struct named `name`.
pub fn find_struct(parsed_file: &FileModel, name: &str) -> (r: Option<usize>)
    ensures
        r == spec_find_named(*parsed_file, ItemKind::Struct, name@),
{
    find_named(parsed_file, ItemKind::Struct, name)
}

/// Finds the enum named `name`.
pub fn find_enum(parsed_file: &FileModel, name: &str) -> (r: Option<usize>)
    ensures
        r == spec_find_named(*parsed_file, ItemKind::Enum, name@),
{
    find_named(parsed_file, ItemKind::Enum, name)
}

} // verus!
