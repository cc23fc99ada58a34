//! Finders that look up items by name in a file model.
pub mod const_finder;
pub mod impl_finder;
pub mod item_finder;
pub mod static_finder;
pub mod trait_finder;
