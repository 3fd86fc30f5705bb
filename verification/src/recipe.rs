//! The recipe record around the requirement expressions: its textual
//! fields, its five expression fields and its side effect.

use vstd::prelude::*;

use crate::key::KeyMeaning;
use crate::logic::chain::{chain_node_view, remap_chain, ChainView};
use crate::logic::node::{node_mirror, remap_node, NodeView};
use crate::logic::{LogicChain, LogicNode};
use crate::parse::{ParseError, ParseErrorKind};
use crate::typed::{ItemLogic, ParamLogic, TypedKeyMapper, TypedLogic};

verus! {

/// What crafting the recipe does besides producing its output: runs a
/// script function or grants experience.
#[derive(Debug, Clone, PartialEq)]
pub enum SideEffect<S> {
    Script { module: S, function: S },
    Experience(u32),
}

impl<S: View> View for SideEffect<S> {
    type V = SideEffect<S::V>;

    open spec fn view(&self) -> SideEffect<S::V> {
        match self {
            SideEffect::Script { module, function } => SideEffect::Script {
                module: module@,
                function: function@,
            },
            SideEffect::Experience(exp) => SideEffect::Experience(*exp),
        }
    }
}

impl SideEffect<String> {
    /// The side effect with its texts emptied: only the variant and an
    /// experience amount of zero are kept.
    pub fn truncated(&self) -> (r: Self)
        ensures
            r@ == match self@ {
                SideEffect::Script { .. } => SideEffect::Script {
                    module: Seq::<char>::empty(),
                    function: Seq::<char>::empty(),
                },
                SideEffect::Experience(_) => SideEffect::<Seq<char>>::Experience(0),
            },
    {
        match self {
            SideEffect::Script { .. } => SideEffect::Script {
                module: String::new(),
                function: String::new(),
            },
            SideEffect::Experience(_) => SideEffect::Experience(0),
        }
    }
}

/// The model of a recipe: every field at its view.
#[verifier::ext_equal]
pub struct RecipeView<SV, LV> {
    pub name: SV,
    pub description: Option<SV>,
    pub params_to_see: Option<LV>,
    pub params_to_craft: Option<LV>,
    pub ingredients: LV,
    pub tools: Option<LV>,
    pub output: LV,
    pub side_effect: SideEffect<SV>,
}

/// A recipe record, generic over its text representation `S` and the
/// representation `L` of its requirement expressions.
#[derive(Debug, Clone, PartialEq)]
pub struct GenericRecipe<S, L> {
    pub name: S,
    pub description: Option<S>,
    pub params_to_see: Option<L>,
    pub params_to_craft: Option<L>,
    pub ingredients: L,
    pub tools: Option<L>,
    pub output: L,
    pub side_effect: SideEffect<S>,
}

/// The view of an optional value.
pub open spec fn opt_view<T: View>(o: Option<T>) -> Option<T::V> {
    match o {
        Some(v) => Some(v@),
        None => None,
    }
}

impl<S: View, L: View> View for GenericRecipe<S, L> {
    type V = RecipeView<S::V, L::V>;

    open spec fn view(&self) -> RecipeView<S::V, L::V> {
        RecipeView {
            name: self.name@,
            description: opt_view(self.description),
            params_to_see: opt_view(self.params_to_see),
            params_to_craft: opt_view(self.params_to_craft),
            ingredients: self.ingredients@,
            tools: opt_view(self.tools),
            output: self.output@,
            side_effect: self.side_effect@,
        }
    }
}

impl<S, L> GenericRecipe<S, L> {
    /// The recipe's internal name.
    pub fn internal_name(&self) -> (r: &S)
        ensures
            r == &self.name,
    {
        &self.name
    }

    /// The recipe's description, if it has one.
    pub fn description(&self) -> (r: Option<&S>)
        ensures
            match r {
                Some(d) => self.description == Some(*d),
                None => self.description is None,
            },
    {
        self.description.as_ref()
    }

    /// The parameters one must have to see the recipe, if restricted.
    pub fn params_to_see(&self) -> (r: Option<ParamLogic<L>>)
        ensures
            match r {
                Some(t) => self.params_to_see matches Some(l) && t.logic_spec() == &l,
                None => self.params_to_see is None,
            },
    {
        TypedLogic::map(&self.params_to_see)
    }

    /// The parameters one must have to craft, if restricted.
    pub fn params_to_craft(&self) -> (r: Option<ParamLogic<L>>)
        ensures
            match r {
                Some(t) => self.params_to_craft matches Some(l) && t.logic_spec() == &l,
                None => self.params_to_craft is None,
            },
    {
        TypedLogic::map(&self.params_to_craft)
    }

    /// The items the recipe consumes.
    pub fn ingredients(&self) -> (r: ItemLogic<L>)
        ensures
            r.logic_spec() == &self.ingredients,
    {
        TypedLogic::new(&self.ingredients)
    }

    /// The items that must be at hand but are not consumed, if any.
    pub fn tools(&self) -> (r: Option<ItemLogic<L>>)
        ensures
            match r {
                Some(t) => self.tools matches Some(l) && t.logic_spec() == &l,
                None => self.tools is None,
            },
    {
        TypedLogic::map(&self.tools)
    }

    /// The items the recipe produces.
    pub fn output(&self) -> (r: ItemLogic<L>)
        ensures
            r.logic_spec() == &self.output,
    {
        TypedLogic::new(&self.output)
    }
}

/// The model of a chain recipe once every chain is converted to its
/// canonical tree.
pub open spec fn recipe_nodes_view<SV, V>(r: RecipeView<SV, ChainView<V>>) -> RecipeView<
    SV,
    NodeView<V>,
> {
    RecipeView {
        name: r.name,
        description: r.description,
        params_to_see: match r.params_to_see {
            Some(c) => Some(chain_node_view(c)),
            None => None,
        },
        params_to_craft: match r.params_to_craft {
            Some(c) => Some(chain_node_view(c)),
            None => None,
        },
        ingredients: chain_node_view(r.ingredients),
        tools: match r.tools {
            Some(c) => Some(chain_node_view(c)),
            None => None,
        },
        output: chain_node_view(r.output),
        side_effect: r.side_effect,
    }
}

impl<S: View, K: View> GenericRecipe<S, LogicChain<K>> {
    /// Converts every expression field of the recipe to its canonical
    /// tree; the other fields are untouched.
    pub fn into_nodes(self) -> (r: GenericRecipe<S, LogicNode<K>>)
        ensures
            r@ == recipe_nodes_view(self@),
    {
        let GenericRecipe {
            name,
            description,
            params_to_see,
            params_to_craft,
            ingredients,
            tools,
            output,
            side_effect,
        } = self;
        GenericRecipe {
            name,
            description,
            params_to_see: match params_to_see {
                Some(c) => Some(c.logic_nodes()),
                None => None,
            },
            params_to_craft: match params_to_craft {
                Some(c) => Some(c.logic_nodes()),
                None => None,
            },
            ingredients: ingredients.logic_nodes(),
            tools: match tools {
                Some(c) => Some(c.logic_nodes()),
                None => None,
            },
            output: output.logic_nodes(),
            side_effect,
        }
    }
}

/// What remapping an optional chain field yields.
pub open spec fn remap_opt_chain<K, K2, E, M: TypedKeyMapper<K, K2, E>>(
    m: M,
    meaning: KeyMeaning,
    o: Option<LogicChain<K>>,
) -> Result<Option<ChainView<K2>>, E> {
    match o {
        None => Ok(None),
        Some(c) => match remap_chain(m, meaning, c.first, c.rest@) {
            Err(e) => Err(e),
            Ok(cv) => Ok(Some(cv)),
        },
    }
}

/// What remapping a whole chain recipe yields: parameter fields under
/// the parameter meaning, item fields under the item meaning, in field
/// order, stopping at the first failure. Texts and the side effect are
/// untouched.
pub open spec fn remap_recipe_chains<S, K, K2, E, M: TypedKeyMapper<K, K2, E>>(
    m: M,
    a: GenericRecipe<S, LogicChain<K>>,
) -> Result<RecipeView<S, ChainView<K2>>, E> {
    match remap_opt_chain(m, KeyMeaning::Param, a.params_to_see) {
        Err(e) => Err(e),
        Ok(see) => match remap_opt_chain(m, KeyMeaning::Param, a.params_to_craft) {
            Err(e) => Err(e),
            Ok(craft) => match remap_chain(m, KeyMeaning::Item, a.ingredients.first, a.ingredients.rest@) {
                Err(e) => Err(e),
                Ok(ing) => match remap_opt_chain(m, KeyMeaning::Item, a.tools) {
                    Err(e) => Err(e),
                    Ok(tools) => match remap_chain(m, KeyMeaning::Item, a.output.first, a.output.rest@) {
                        Err(e) => Err(e),
                        Ok(out) => Ok(
                            RecipeView {
                                name: a.name,
                                description: a.description,
                                params_to_see: see,
                                params_to_craft: craft,
                                ingredients: ing,
                                tools,
                                output: out,
                                side_effect: a.side_effect,
                            },
                        ),
                    },
                },
            },
        },
    }
}

/// A chain recipe with its identifiers kept as they are: the form the
/// remapping contract compares against.
pub open spec fn recipe_chains_mirror<S, K>(r: GenericRecipe<S, LogicChain<K>>) -> RecipeView<
    S,
    ChainView<K>,
> {
    RecipeView {
        name: r.name,
        description: r.description,
        params_to_see: match r.params_to_see {
            Some(c) => Some(ChainView { first: c.first, rest: c.rest@ }),
            None => None,
        },
        params_to_craft: match r.params_to_craft {
            Some(c) => Some(ChainView { first: c.first, rest: c.rest@ }),
            None => None,
        },
        ingredients: ChainView { first: r.ingredients.first, rest: r.ingredients.rest@ },
        tools: match r.tools {
            Some(c) => Some(ChainView { first: c.first, rest: c.rest@ }),
            None => None,
        },
        output: ChainView { first: r.output.first, rest: r.output.rest@ },
        side_effect: r.side_effect,
    }
}

impl<S, K> GenericRecipe<S, LogicChain<K>> {
    /// Remaps every identifier of the recipe's expressions: parameter
    /// fields under the parameter meaning, item fields under the item
    /// meaning. The first failing lookup, in field order, is the
    /// result; no partial recipe is returned.
    pub fn with_keys<K2, E, M: TypedKeyMapper<K, K2, E>>(self, mapper: &M) -> (r: Result<
        GenericRecipe<S, LogicChain<K2>>,
        E,
    >)
        ensures
            match r {
                Ok(b) => remap_recipe_chains(*mapper, self) == Ok::<RecipeView<S, ChainView<K2>>, E>(
                    recipe_chains_mirror(b),
                ),
                Err(e) => remap_recipe_chains(*mapper, self) == Err::<
                    RecipeView<S, ChainView<K2>>,
                    E,
                >(e),
            },
    {
        let GenericRecipe {
            name,
            description,
            params_to_see,
            params_to_craft,
            ingredients,
            tools,
            output,
            side_effect,
        } = self;
        let params_to_see = match params_to_see {
            None => None,
            Some(c) => match c.with_keys(mapper, KeyMeaning::Param) {
                Err(e) => {
                    return Err(e);
                },
                Ok(c2) => Some(c2),
            },
        };
        let params_to_craft = match params_to_craft {
            None => None,
            Some(c) => match c.with_keys(mapper, KeyMeaning::Param) {
                Err(e) => {
                    return Err(e);
                },
                Ok(c2) => Some(c2),
            },
        };
        let ingredients = match ingredients.with_keys(mapper, KeyMeaning::Item) {
            Err(e) => {
                return Err(e);
            },
            Ok(c2) => c2,
        };
        let tools = match tools {
            None => None,
            Some(c) => match c.with_keys(mapper, KeyMeaning::Item) {
                Err(e) => {
                    return Err(e);
                },
                Ok(c2) => Some(c2),
            },
        };
        let output = match output.with_keys(mapper, KeyMeaning::Item) {
            Err(e) => {
                return Err(e);
            },
            Ok(c2) => c2,
        };
        Ok(
            GenericRecipe {
                name,
                description,
                params_to_see,
                params_to_craft,
                ingredients,
                tools,
                output,
                side_effect,
            },
        )
    }
}

/// As [`remap_opt_chain`], for an optional tree field.
pub open spec fn remap_opt_node<K, K2, E, M: TypedKeyMapper<K, K2, E>>(
    m: M,
    meaning: KeyMeaning,
    o: Option<LogicNode<K>>,
) -> Result<Option<NodeView<K2>>, E> {
    match o {
        None => Ok(None),
        Some(n) => match remap_node(m, meaning, n) {
            Err(e) => Err(e),
            Ok(nv) => Ok(Some(nv)),
        },
    }
}

/// As [`remap_recipe_chains`], for a tree recipe.
pub open spec fn remap_recipe_nodes<S, K, K2, E, M: TypedKeyMapper<K, K2, E>>(
    m: M,
    a: GenericRecipe<S, LogicNode<K>>,
) -> Result<RecipeView<S, NodeView<K2>>, E> {
    match remap_opt_node(m, KeyMeaning::Param, a.params_to_see) {
        Err(e) => Err(e),
        Ok(see) => match remap_opt_node(m, KeyMeaning::Param, a.params_to_craft) {
            Err(e) => Err(e),
            Ok(craft) => match remap_node(m, KeyMeaning::Item, a.ingredients) {
                Err(e) => Err(e),
                Ok(ing) => match remap_opt_node(m, KeyMeaning::Item, a.tools) {
                    Err(e) => Err(e),
                    Ok(tools) => match remap_node(m, KeyMeaning::Item, a.output) {
                        Err(e) => Err(e),
                        Ok(out) => Ok(
                            RecipeView {
                                name: a.name,
                                description: a.description,
                                params_to_see: see,
                                params_to_craft: craft,
                                ingredients: ing,
                                tools,
                                output: out,
                                side_effect: a.side_effect,
                            },
                        ),
                    },
                },
            },
        },
    }
}

/// A tree recipe with its identifiers kept as they are.
pub open spec fn recipe_nodes_mirror<S, K>(r: GenericRecipe<S, LogicNode<K>>) -> RecipeView<
    S,
    NodeView<K>,
> {
    RecipeView {
        name: r.name,
        description: r.description,
        params_to_see: match r.params_to_see {
            Some(n) => Some(node_mirror(n)),
            None => None,
        },
        params_to_craft: match r.params_to_craft {
            Some(n) => Some(node_mirror(n)),
            None => None,
        },
        ingredients: node_mirror(r.ingredients),
        tools: match r.tools {
            Some(n) => Some(node_mirror(n)),
            None => None,
        },
        output: node_mirror(r.output),
        side_effect: r.side_effect,
    }
}

impl<S, K> GenericRecipe<S, LogicNode<K>> {
    /// As the chain recipe's remapping, for a tree recipe.
    pub fn with_keys<K2, E, M: TypedKeyMapper<K, K2, E>>(self, mapper: &M) -> (r: Result<
        GenericRecipe<S, LogicNode<K2>>,
        E,
    >)
        ensures
            match r {
                Ok(b) => remap_recipe_nodes(*mapper, self) == Ok::<RecipeView<S, NodeView<K2>>, E>(
                    recipe_nodes_mirror(b),
                ),
                Err(e) => remap_recipe_nodes(*mapper, self) == Err::<
                    RecipeView<S, NodeView<K2>>,
                    E,
                >(e),
            },
    {
        let GenericRecipe {
            name,
            description,
            params_to_see,
            params_to_craft,
            ingredients,
            tools,
            output,
            side_effect,
        } = self;
        let params_to_see = match params_to_see {
            None => None,
            Some(n) => match n.with_keys(mapper, KeyMeaning::Param) {
                Err(e) => {
                    return Err(e);
                },
                Ok(n2) => Some(n2),
            },
        };
        let params_to_craft = match params_to_craft {
            None => None,
            Some(n) => match n.with_keys(mapper, KeyMeaning::Param) {
                Err(e) => {
                    return Err(e);
                },
                Ok(n2) => Some(n2),
            },
        };
        let ingredients = match ingredients.with_keys(mapper, KeyMeaning::Item) {
            Err(e) => {
                return Err(e);
            },
            Ok(n2) => n2,
        };
        let tools = match tools {
            None => None,
            Some(n) => match n.with_keys(mapper, KeyMeaning::Item) {
                Err(e) => {
                    return Err(e);
                },
                Ok(n2) => Some(n2),
            },
        };
        let output = match output.with_keys(mapper, KeyMeaning::Item) {
            Err(e) => {
                return Err(e);
            },
            Ok(n2) => n2,
        };
        Ok(
            GenericRecipe {
                name,
                description,
                params_to_see,
                params_to_craft,
                ingredients,
                tools,
                output,
                side_effect,
            },
        )
    }
}

/// A parsed recipe in whichever grammar its record used: textual
/// identifiers or numeric ones.
#[derive(Debug, PartialEq)]
pub enum AnyRecipe<S> {
    Textual(crate::Recipe<S, S>),
    Numeric(crate::Recipe<S, u32>),
}

/// The model of a recipe of either grammar.
pub enum AnyRecipeView<V> {
    Textual(RecipeView<V, crate::logic::chain::ChainView<V>>),
    Numeric(RecipeView<V, crate::logic::chain::ChainView<u32>>),
}

impl<S: View> View for AnyRecipe<S> {
    type V = AnyRecipeView<S::V>;

    open spec fn view(&self) -> AnyRecipeView<S::V> {
        match self {
            AnyRecipe::Textual(r) => AnyRecipeView::Textual(r@),
            AnyRecipe::Numeric(r) => AnyRecipeView::Numeric(r@),
        }
    }
}

/// A recipe form that a parsed record of either grammar may convert
/// into — or refuse, when the record's grammar does not fit the form.
pub trait FromAny: Sized + View {
    /// Which converted recipes a parsed record admits.
    spec fn from_any_ok(a: AnyRecipeView<Seq<char>>, r: Self::V) -> bool;

    /// Whether, and how, a parsed record is refused.
    spec fn from_any_err(a: AnyRecipeView<Seq<char>>) -> Option<ParseError>;

    /// Converts a parsed record into this form.
    fn from_any(a: AnyRecipe<String>) -> (r: Result<Self, ParseError>)
        ensures
            match r {
                Ok(v) => Self::from_any_err(a@) is None && Self::from_any_ok(a@, v@),
                Err(e) => Self::from_any_err(a@) == Some(e),
            },
    ;
}

/// The refusal of a record whose grammar does not fit the requested
/// instantiation.
pub open spec fn mismatch_error() -> ParseError {
    ParseError { pos: 0, kind: ParseErrorKind::StructuralMismatch }
}

impl FromAny for crate::Recipe<String, String> {
    /// Only a textual record fits, and is kept as parsed.
    open spec fn from_any_ok(a: AnyRecipeView<Seq<char>>, r: Self::V) -> bool {
        a matches AnyRecipeView::Textual(v) && r == v
    }

    open spec fn from_any_err(a: AnyRecipeView<Seq<char>>) -> Option<ParseError> {
        match a {
            AnyRecipeView::Textual(_) => None,
            AnyRecipeView::Numeric(_) => Some(mismatch_error()),
        }
    }

    fn from_any(a: AnyRecipe<String>) -> (r: Result<Self, ParseError>) {
        match a {
            AnyRecipe::Textual(v) => Ok(v),
            AnyRecipe::Numeric(_) => Err(
                ParseError { pos: 0, kind: ParseErrorKind::StructuralMismatch },
            ),
        }
    }
}

impl FromAny for crate::Recipe<String, u32> {
    /// Only a numeric record fits, and is kept as parsed.
    open spec fn from_any_ok(a: AnyRecipeView<Seq<char>>, r: Self::V) -> bool {
        a matches AnyRecipeView::Numeric(v) && r == v
    }

    open spec fn from_any_err(a: AnyRecipeView<Seq<char>>) -> Option<ParseError> {
        match a {
            AnyRecipeView::Numeric(_) => None,
            AnyRecipeView::Textual(_) => Some(mismatch_error()),
        }
    }

    fn from_any(a: AnyRecipe<String>) -> (r: Result<Self, ParseError>) {
        match a {
            AnyRecipe::Numeric(v) => Ok(v),
            AnyRecipe::Textual(_) => Err(
                ParseError { pos: 0, kind: ParseErrorKind::StructuralMismatch },
            ),
        }
    }
}

impl FromAny for crate::NodeRecipe<String, String> {
    /// Only a textual record fits; its chains become canonical trees.
    open spec fn from_any_ok(a: AnyRecipeView<Seq<char>>, r: Self::V) -> bool {
        a matches AnyRecipeView::Textual(v) && r == recipe_nodes_view(v)
    }

    open spec fn from_any_err(a: AnyRecipeView<Seq<char>>) -> Option<ParseError> {
        match a {
            AnyRecipeView::Textual(_) => None,
            AnyRecipeView::Numeric(_) => Some(mismatch_error()),
        }
    }

    fn from_any(a: AnyRecipe<String>) -> (r: Result<Self, ParseError>) {
        match a {
            AnyRecipe::Textual(v) => Ok(v.into_nodes()),
            AnyRecipe::Numeric(_) => Err(
                ParseError { pos: 0, kind: ParseErrorKind::StructuralMismatch },
            ),
        }
    }
}

impl FromAny for crate::NodeRecipe<String, u32> {
    /// Only a numeric record fits; its chains become canonical trees.
    open spec fn from_any_ok(a: AnyRecipeView<Seq<char>>, r: Self::V) -> bool {
        a matches AnyRecipeView::Numeric(v) && r == recipe_nodes_view(v)
    }

    open spec fn from_any_err(a: AnyRecipeView<Seq<char>>) -> Option<ParseError> {
        match a {
            AnyRecipeView::Numeric(_) => None,
            AnyRecipeView::Textual(_) => Some(mismatch_error()),
        }
    }

    fn from_any(a: AnyRecipe<String>) -> (r: Result<Self, ParseError>) {
        match a {
            AnyRecipe::Numeric(v) => Ok(v.into_nodes()),
            AnyRecipe::Textual(_) => Err(
                ParseError { pos: 0, kind: ParseErrorKind::StructuralMismatch },
            ),
        }
    }
}

} // verus!
