//! The two representations of a requirement expression: the flat
//! [`LogicChain`] and the canonical nested [`LogicNode`] tree, plus the
//! atomic [`KeyValue`] term and the [`Logical`] connective that joins terms.

use vstd::prelude::*;

pub mod chain;
pub mod node;

pub use chain::LogicChain;
pub use node::LogicNode;

verus! {

/// A connective between two adjacent terms of a chain. It has no
/// precedence of its own: its meaning comes from its position.
#[derive(PartialEq, Eq, Structural, Debug, Clone, Copy)]
pub enum Logical {
    And,
    Or,
}

/// The atomic requirement: an identifier together with the quantity
/// threshold that must be met.
#[derive(Debug, Clone, PartialEq)]
#[verifier::ext_equal]
pub struct KeyValue<K> {
    pub key: K,
    pub value: u32,
}

impl<K: View> View for KeyValue<K> {
    type V = KeyValue<K::V>;

    open spec fn view(&self) -> KeyValue<K::V> {
        KeyValue { key: self.key@, value: self.value }
    }
}

impl<K> KeyValue<K> {
    /// Replaces the identifier by what the lookup returns for it, or
    /// fails with the lookup's error. The threshold is untouched.
    pub fn convert_with<K2, E, M: crate::typed::TypedKeyMapper<K, K2, E>>(
        &self,
        mapper: &M,
        meaning: crate::key::KeyMeaning,
    ) -> (r: Result<KeyValue<K2>, E>)
        ensures
            match r {
                Ok(kv) => mapper.key_map_spec(self.key, meaning) == Ok::<K2, E>(kv.key)
                    && kv.value == self.value,
                Err(e) => mapper.key_map_spec(self.key, meaning) == Err::<K2, E>(e),
            },
    {
        match mapper.key_map(&self.key, meaning) {
            Ok(key) => Ok(KeyValue { key, value: self.value }),
            Err(e) => Err(e),
        }
    }
}

} // verus!
