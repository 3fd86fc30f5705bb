//! Typed access to a recipe's expression fields: each field carries a
//! marker saying which identifier namespace its keys live in, so a
//! lookup cannot be applied with the wrong meaning.

use vstd::prelude::*;

use crate::key::KeyMeaning;
use crate::logic::{LogicChain, LogicNode};

verus! {

/// An identifier lookup supplied by the caller. The lookup is a pure
/// function of the identifier and the meaning tag: what it returns is
/// fixed by `key_map_spec`, which each implementation defines.
pub trait TypedKeyMapper<K, K2, E>: Sized {
    /// What the lookup returns for an identifier under a meaning.
    spec fn key_map_spec(&self, from: K, meaning: KeyMeaning) -> Result<K2, E>;

    /// Looks one identifier up.
    fn key_map(&self, from: &K, meaning: KeyMeaning) -> (r: Result<K2, E>)
        ensures
            r == self.key_map_spec(*from, meaning),
    ;
}

/// Marker of the parameter namespace.
#[derive(Debug, Clone, Copy, PartialEq, Eq, Structural, Default)]
pub struct ParamKey;

/// Marker of the item namespace.
#[derive(Debug, Clone, Copy, PartialEq, Eq, Structural, Default)]
pub struct ItemKey;

/// The meaning tag a marker stands for.
pub trait KeyKind: Sized {
    /// The meaning this marker selects.
    spec fn meaning_spec() -> KeyMeaning;

    /// The meaning this marker selects.
    fn meaning() -> (m: KeyMeaning)
        ensures
            m == Self::meaning_spec(),
    ;
}

impl KeyKind for ParamKey {
    open spec fn meaning_spec() -> KeyMeaning {
        KeyMeaning::Param
    }

    fn meaning() -> (m: KeyMeaning) {
        KeyMeaning::Param
    }
}

impl KeyKind for ItemKey {
    open spec fn meaning_spec() -> KeyMeaning {
        KeyMeaning::Item
    }

    fn meaning() -> (m: KeyMeaning) {
        KeyMeaning::Item
    }
}

/// A lookup that maps every identifier to itself and never fails.
#[derive(Debug, Clone, Copy, PartialEq, Eq, Structural, Default)]
pub struct IdentityMapper;

impl TypedKeyMapper<u32, u32, crate::parse::ParseError> for IdentityMapper {
    open spec fn key_map_spec(&self, from: u32, meaning: KeyMeaning) -> Result<
        u32,
        crate::parse::ParseError,
    > {
        Ok(from)
    }

    fn key_map(&self, from: &u32, meaning: KeyMeaning) -> (r: Result<
        u32,
        crate::parse::ParseError,
    >) {
        Ok(*from)
    }
}

impl TypedKeyMapper<String, String, crate::parse::ParseError> for IdentityMapper {
    open spec fn key_map_spec(&self, from: String, meaning: KeyMeaning) -> Result<
        String,
        crate::parse::ParseError,
    > {
        Ok(from)
    }

    fn key_map(&self, from: &String, meaning: KeyMeaning) -> (r: Result<
        String,
        crate::parse::ParseError,
    >) {
        Ok(from.clone())
    }
}

/// A lookup that knows every numeric identifier but one, which it
/// rejects as not found, reporting the rejected identifier in the
/// error's position field.
#[derive(Debug, Clone, Copy, PartialEq, Eq, Structural)]
pub struct RejectKey {
    pub key: u32,
}

impl TypedKeyMapper<u32, u32, crate::parse::ParseError> for RejectKey {
    open spec fn key_map_spec(&self, from: u32, meaning: KeyMeaning) -> Result<
        u32,
        crate::parse::ParseError,
    > {
        if from == self.key {
            Err(
                crate::parse::ParseError {
                    pos: self.key as usize,
                    kind: crate::parse::ParseErrorKind::IdentifierNotFound,
                },
            )
        } else {
            Ok(from)
        }
    }

    fn key_map(&self, from: &u32, meaning: KeyMeaning) -> (r: Result<
        u32,
        crate::parse::ParseError,
    >) {
        if *from == self.key {
            Err(
                crate::parse::ParseError {
                    pos: self.key as usize,
                    kind: crate::parse::ParseErrorKind::IdentifierNotFound,
                },
            )
        } else {
            Ok(*from)
        }
    }
}

/// A borrowed expression together with the namespace marker of the
/// field it came from.
pub struct TypedLogic<'a, L, T> {
    logic: &'a L,
    ty: T,
}

/// A typed view of a parameter-threshold field.
pub type ParamLogic<'a, L> = TypedLogic<'a, L, ParamKey>;

/// A typed view of an item field.
pub type ItemLogic<'a, L> = TypedLogic<'a, L, ItemKey>;

impl<'a, L, T> TypedLogic<'a, L, T> {
    /// The borrowed expression, as the contracts speak of it.
    pub closed spec fn logic_spec(&self) -> &'a L {
        self.logic
    }

    /// The expression itself.
    pub fn logic(&self) -> (r: &'a L)
        ensures
            r == self.logic_spec(),
    {
        self.logic
    }
}

impl<'a, L, T: Default> TypedLogic<'a, L, T> {
    /// Wraps one field.
    pub fn new(logic: &'a L) -> (r: Self)
        ensures
            r.logic_spec() == logic,
    {
        TypedLogic { logic, ty: Default::default() }
    }

    /// Wraps an optional field.
    pub fn map(logic: &'a Option<L>) -> (r: Option<Self>)
        ensures
            match r {
                Some(t) => *logic matches Some(l) && t.logic_spec() == &l,
                None => logic is None,
            },
    {
        match logic {
            Some(l) => Some(Self::new(l)),
            None => None,
        }
    }
}

impl<'a, K, T: KeyKind> TypedLogic<'a, LogicChain<K>, T> {
    /// Remaps the identifiers of the wrapped chain under this field's
    /// namespace.
    pub fn map_keys<K2, E, M: TypedKeyMapper<K, K2, E>>(&self, key_mapper: &M) -> (r: Result<
        LogicChain<K2>,
        E,
    >)
        ensures
            match r {
                Ok(b) => crate::logic::chain::remap_chain(
                    *key_mapper,
                    T::meaning_spec(),
                    self.logic_spec().first,
                    self.logic_spec().rest@,
                ) == Ok::<crate::logic::chain::ChainView<K2>, E>(
                    crate::logic::chain::ChainView { first: b.first, rest: b.rest@ },
                ),
                Err(e) => crate::logic::chain::remap_chain(
                    *key_mapper,
                    T::meaning_spec(),
                    self.logic_spec().first,
                    self.logic_spec().rest@,
                ) == Err::<crate::logic::chain::ChainView<K2>, E>(e),
            },
    {
        self.logic.with_keys(key_mapper, T::meaning())
    }
}

impl<'a, K, T: KeyKind> TypedLogic<'a, LogicNode<K>, T> {
    /// Remaps the identifiers of the wrapped tree under this field's
    /// namespace.
    pub fn map_keys<K2, E, M: TypedKeyMapper<K, K2, E>>(&self, key_mapper: &M) -> (r: Result<
        LogicNode<K2>,
        E,
    >)
        ensures
            match r {
                Ok(b) => crate::logic::node::remap_node(
                    *key_mapper,
                    T::meaning_spec(),
                    *self.logic_spec(),
                ) == Ok::<crate::logic::node::NodeView<K2>, E>(
                    crate::logic::node::node_mirror(b),
                ),
                Err(e) => crate::logic::node::remap_node(
                    *key_mapper,
                    T::meaning_spec(),
                    *self.logic_spec(),
                ) == Err::<crate::logic::node::NodeView<K2>, E>(e),
            },
    {
        self.logic.with_keys(key_mapper, T::meaning())
    }
}

} // verus!
