//! Parsing, canonicalization and rendering of boolean requirement
//! expressions found in crafting-recipe records: statements such as
//! "need item A quantity X, and either item B quantity Y or item C
//! quantity Z", kept both as a flat connective chain and as a
//! canonical nested tree.

use vstd::prelude::*;

pub mod book;
pub mod display;
pub mod key;
pub mod logic;
pub mod parse;
pub mod recipe;
pub mod typed;

verus! {

/// A recipe whose expressions are flat chains.
pub type Recipe<S, K> = recipe::GenericRecipe<S, logic::LogicChain<K>>;

/// A recipe whose expressions are canonical trees.
pub type NodeRecipe<S, K> = recipe::GenericRecipe<S, logic::LogicNode<K>>;

/// A tree recipe whose identifiers are human-readable names.
pub type ReadableOwnedNodeRecipe = NodeRecipe<String, String>;

/// A book of human-readable tree recipes.
pub type UserFriendlyRecipeBook = book::RecipeBook<ReadableOwnedNodeRecipe>;

/// A tree recipe whose identifiers are numeric.
pub type OwnedNodeRecipe = NodeRecipe<String, u32>;

/// A book of numeric tree recipes.
pub type OwnedRecipeBook = book::RecipeBook<OwnedNodeRecipe>;

/// A failure while building a recipe book: the sequence number of the
/// record that failed, and the structured parse failure itself.
#[derive(Debug, Clone, Copy, PartialEq, Eq, Structural)]
pub struct RecipeError {
    pub index: u32,
    pub error: parse::ParseError,
}

} // verus!
