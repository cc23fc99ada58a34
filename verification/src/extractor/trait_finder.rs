//! Finder for traits, plain or `const`.
use vstd::prelude::*;
use crate::model::{names, names_text, FileModel, ItemKind, ItemModel};

verus! {

/// A trait that the finder returned: a `const trait` held as verbatim
/// tokens, or a plain trait item; each holds its index in the file model.
#[derive(Clone, Copy, Debug, PartialEq, Eq, Structural)]
pub enum TraitType {
    Const(usize),
    Reg(usize),
}

impl TraitType {
    pub open spec fn index(self) -> usize {
        match self {
            TraitType::Const(i) => i,
            TraitType::Reg(i) => i,
        }
    }

    /// The item that the trait stands for: its index in the file model.
    pub fn item(self) -> (r: usize)
        ensures
            r == self.index(),
    {
        match self {
            TraitType::Const(i) => i,
            TraitType::Reg(i) => i,
        }
    }
}

/// What the finder makes of one item: a match as a plain or as a const
/// trait, or none.
pub open spec fn trait_match(item: ItemModel, index: usize, name: Seq<char>) -> Option<TraitType> {
    if item.kind is Trait && names(item.ident, name) {
        Some(TraitType::Reg(index))
    } else if item.kind is Verbatim && names(item.const_trait_ident, name) {
        Some(TraitType::Const(index))
    } else {
        None
    }
}

/// The last trait named `name` among the first `n` items.
pub open spec fn trait_upto(items: Seq<ItemModel>, name: Seq<char>, n: int) -> Option<TraitType>
    decreases n,
{
    if n <= 0 {
        None
    } else {
        match trait_match(items[n - 1], (n - 1) as usize, name) {
            Some(t) => Some(t),
            None => trait_upto(items, name, n - 1),
        }
    }
}

pub proof fn lemma_trait_upto_bound(items: Seq<ItemModel>, name: Seq<char>, n: int)
    requires
        n <= items.len() <= usize::MAX,
    ensures
        trait_upto(items, name, n) matches Some(t) ==> t.index() < n,
    decreases n,
{
    if n > 0 {
        lemma_trait_upto_bound(items, name, n - 1);
    }
}

/// Law: the trait finder returns the last trait of that name in visiting
/// order (plain or `const`), and none exactly when there is no such trait.
pub proof fn law_find_trait_returns_last_match(items: Seq<ItemModel>, name: Seq<char>, n: int)
    requires
        0 <= n <= items.len() <= usize::MAX,
    ensures
        trait_upto(items, name, n) matches Some(t) ==> t.index() < n && trait_match(items[t.index() as int], t.index(), name) == Some(t)
            && forall|j: int| t.index() < j < n ==> trait_match(#[trigger] items[j], j as usize, name) is None,
        trait_upto(items, name, n) is None <==> forall|j: int| 0 <= j < n ==> trait_match(#[trigger] items[j], j as usize, name) is None,
    decreases n,
{
    if n > 0 {
        law_find_trait_returns_last_match(items, name, n - 1);
    }
}

pub open spec fn spec_find_trait(file: FileModel, name: Seq<char>) -> Option<TraitType> {
    trait_upto(file.items@, name, file.items@.len() as int)
}

/// Finds the trait named `trait_name`, plain or `const`: the last one in
/// visiting order.
pub fn find_trait(parsed_file: &FileModel, trait_name: &str) -> (r: Option<TraitType>)
    ensures
        r == spec_find_trait(*parsed_file, trait_name@),
{
    let mut finder = TraitFinder::new(trait_name);
    let n = parsed_file.items.len();
    let mut i: usize = 0;
    while i < n
        invariant
            n == parsed_file.items@.len(),
            i <= n,
            finder.trait_name@ == trait_name@,
            finder.trait_item == trait_upto(parsed_file.items@, trait_name@, i as int),
        decreases n - i,
    {
        finder.visit_item(i, &parsed_file.items[i]);
        i = i + 1;
    }
    finder.trait_item
}

/// The finder of a trait by name.
pub struct TraitFinder {
    pub trait_name: String,
    pub trait_item: Option<TraitType>,
}

impl TraitFinder {
    pub fn new(trait_name: &str) -> (r: Self)
        ensures
            r.trait_name@ == trait_name@,
            r.trait_item is None,
    {
        Self { trait_name: trait_name.to_owned(), trait_item: None }
    }

    /// Visits item `index`: keeps it when it is a trait of that name.
    pub fn visit_item(&mut self, index: usize, item: &ItemModel)
        ensures
            final(self).trait_name == old(self).trait_name,
            final(self).trait_item == match trait_match(*item, index, old(self).trait_name@) {
                Some(t) => Some(t),
                None => old(self).trait_item,
            },
    {
        match item.kind {
            ItemKind::Trait => {
                if names_text(&item.ident, self.trait_name.as_str()) {
                    self.trait_item = Some(TraitType::Reg(index));
                }
            },
            ItemKind::Verbatim => {
                if names_text(&item.const_trait_ident, self.trait_name.as_str()) {
                    self.trait_item = Some(TraitType::Const(index));
                }
            },
            _ => {},
        }
    }
}

} // verus!
