//! Identifier instantiation for the textual grammar, and the meaning
//! tag handed to identifier lookups.

use vstd::prelude::*;
use vstd::string::StrSliceExecFns;

use crate::parse::lexer::{digit_end, lemma_digit_end, num_val, scan_number, spec_number};

verus! {

/// An identifier representation the textual grammar can produce from a
/// lexed word.
pub trait Key: View + Sized {
    /// Which words yield an identifier, and which identifier.
    spec fn key_from_spec(s: Seq<char>) -> Option<Self::V>;

    /// Builds the identifier from a lexed word.
    fn key_from(s: &str) -> (r: Option<Self>)
        ensures
            match r {
                Some(k) => Self::key_from_spec(s@) == Some(k@),
                None => Self::key_from_spec(s@) is None,
            },
    ;
}

impl Key for String {
    /// Any word is an identifier, kept as it is.
    open spec fn key_from_spec(s: Seq<char>) -> Option<Seq<char>> {
        Some(s)
    }

    fn key_from(s: &str) -> (r: Option<Self>) {
        Some(s.to_owned())
    }
}

impl Key for u32 {
    /// Only words that are entirely one decimal number fitting 32 bits.
    open spec fn key_from_spec(s: Seq<char>) -> Option<u32> {
        if s.len() >= 1 && digit_end(s, 0) == s.len() && num_val(s) <= u32::MAX {
            Some(num_val(s) as u32)
        } else {
            None
        }
    }

    fn key_from(s: &str) -> (r: Option<Self>) {
        let n = s.unicode_len();
        proof {
            lemma_digit_end(s@, 0);
            assert(s@.subrange(0, s@.len() as int) =~= s@);
        }
        match scan_number(s, n, 0) {
            Ok((j, v)) => {
                if j == n {
                    Some(v)
                } else {
                    None
                }
            },
            Err(_) => None,
        }
    }
}

/// Which identifier namespace a lookup concerns: quantity-threshold
/// parameters or item identifiers.
#[derive(Debug, Clone, Copy, PartialEq, Eq, Structural)]
pub enum KeyMeaning {
    Param,
    Item,
}

impl KeyMeaning {
    /// The name of the dictionary list file serving this namespace.
    pub open spec fn lst_file_name_spec(self) -> Seq<char> {
        match self {
            KeyMeaning::Item => "ItemNames"@,
            KeyMeaning::Param => "ParamNames"@,
        }
    }

    /// The name of the dictionary list file serving this namespace.
    pub fn lst_file_name(self) -> (r: &'static str)
        ensures
            r@ == self.lst_file_name_spec(),
    {
        match self {
            KeyMeaning::Item => "ItemNames",
            KeyMeaning::Param => "ParamNames",
        }
    }
}

} // verus!
