//! Grammar A: the textual chain grammar
//! `IDENT VALUE (OP IDENT VALUE)*`, with `&` and `|` as operators.

use vstd::prelude::*;
use vstd::string::StrSliceExecFns;

use super::lexer::{
    is_word_char, lemma_space_end, lemma_word_end, scan_number, scan_spaces, scan_word, space_end,
    spec_number, word_end,
};
use super::{ParseError, ParseErrorKind};
use crate::key::Key;
use crate::logic::chain::{pairs_view, ChainView};
use crate::logic::{KeyValue, LogicChain, Logical};

verus! {

/// One `IDENT VALUE` pair, blanks allowed around it and required
/// between the identifier and the value.
pub open spec fn spec_key_value<K: Key>(s: Seq<char>, i: int) -> Result<
    (int, KeyValue<K::V>),
    ParseError,
> {
    let a = space_end(s, i);
    let b = word_end(s, a);
    if b == a {
        Err(ParseError { pos: a as usize, kind: ParseErrorKind::MalformedToken })
    } else {
        let c = space_end(s, b);
        if c == b {
            Err(ParseError { pos: b as usize, kind: ParseErrorKind::MalformedToken })
        } else {
            match spec_number(s, c) {
                Err(e) => Err(e),
                Ok((d, v)) => match K::key_from_spec(s.subrange(a, b)) {
                    None => Err(ParseError { pos: a as usize, kind: ParseErrorKind::MalformedToken }),
                    Some(k) => Ok((space_end(s, d), KeyValue { key: k, value: v })),
                },
            }
        }
    }
}

/// A successful `IDENT VALUE` pair consumes at least one character.
pub proof fn lemma_spec_key_value_ok<K: Key>(s: Seq<char>, i: int)
    requires
        0 <= i <= s.len(),
    ensures
        spec_key_value::<K>(s, i) matches Ok(p) ==> i < p.0 <= s.len(),
{
    lemma_space_end(s, i);
    let a = space_end(s, i);
    lemma_word_end(s, a);
    let b = word_end(s, a);
    if b != a {
        lemma_space_end(s, b);
        let c = space_end(s, b);
        if c != b {
            super::lexer::lemma_digit_end(s, c);
            let j = super::lexer::digit_end(s, c);
            lemma_space_end(s, j);
        }
    }
}

/// One connective, blanks allowed around it: `&` is And, `|` is Or.
pub open spec fn spec_logical(s: Seq<char>, i: int) -> Result<(int, Logical), ParseError> {
    let a = space_end(s, i);
    if a < s.len() && s[a] == '&' {
        Ok((space_end(s, a + 1), Logical::And))
    } else if a < s.len() && s[a] == '|' {
        Ok((space_end(s, a + 1), Logical::Or))
    } else {
        Err(ParseError { pos: a as usize, kind: ParseErrorKind::MalformedToken })
    }
}

/// A successful connective consumes at least one character.
pub proof fn lemma_spec_logical_ok(s: Seq<char>, i: int)
    requires
        0 <= i <= s.len(),
    ensures
        spec_logical(s, i) matches Ok(p) ==> i < p.0 <= s.len(),
{
    lemma_space_end(s, i);
    let a = space_end(s, i);
    if a < s.len() {
        lemma_space_end(s, a + 1);
    }
}

/// The greedy run of `OP IDENT VALUE` continuations starting at `i`:
/// where it ends, and the connective/term pairs it holds. The run stops
/// before the first position where no further complete continuation
/// parses.
pub open spec fn spec_chain_rest<K: Key>(s: Seq<char>, i: int) -> (int, Seq<
    (Logical, KeyValue<K::V>),
>)
    decreases s.len() - i,
        when 0 <= i <= s.len()
        via spec_chain_rest_dec::<K>
{
    match spec_logical(s, i) {
        Err(_) => (i, Seq::empty()),
        Ok((j, op)) => match spec_key_value::<K>(s, j) {
            Err(_) => (i, Seq::empty()),
            Ok((k, kv)) => {
                let rec = spec_chain_rest::<K>(s, k);
                (rec.0, seq![(op, kv)] + rec.1)
            },
        },
    }
}

#[via_fn]
proof fn spec_chain_rest_dec<K: Key>(s: Seq<char>, i: int) {
    lemma_spec_logical_ok(s, i);
    match spec_logical(s, i) {
        Err(_) => {
        },
        Ok((j, _)) => {
            lemma_spec_key_value_ok::<K>(s, j);
        },
    }
}

/// A whole chain at `i`: a leading term, then the greedy continuation
/// run.
pub open spec fn spec_chain<K: Key>(s: Seq<char>, i: int) -> Result<
    (int, ChainView<K::V>),
    ParseError,
> {
    match spec_key_value::<K>(s, i) {
        Err(e) => Err(e),
        Ok((j, first)) => {
            let rec = spec_chain_rest::<K>(s, j);
            Ok((rec.0, ChainView { first, rest: rec.1 }))
        },
    }
}

/// Reads one `IDENT VALUE` pair.
pub fn parse_key_value<K: Key>(s: &str, n: usize, i: usize) -> (r: Result<
    (usize, KeyValue<K>),
    ParseError,
>)
    requires
        n == s@.len(),
        i <= n,
    ensures
        match r {
            Ok(p) => spec_key_value::<K>(s@, i as int) matches Ok(q) && q.0 == p.0 as int && q.1
                == p.1@ && i < p.0 <= n,
            Err(e) => spec_key_value::<K>(s@, i as int) == Err::<(int, KeyValue<K::V>), ParseError>(
                e,
            ),
        },
{
    proof {
        lemma_spec_key_value_ok::<K>(s@, i as int);
    }
    let a = scan_spaces(s, n, i);
    let b = scan_word(s, n, a);
    if b == a {
        return Err(ParseError { pos: a, kind: ParseErrorKind::MalformedToken });
    }
    let c = scan_spaces(s, n, b);
    if c == b {
        return Err(ParseError { pos: b, kind: ParseErrorKind::MalformedToken });
    }
    match scan_number(s, n, c) {
        Err(e) => Err(e),
        Ok((d, v)) => {
            let word = s.substring_char(a, b);
            match K::key_from(word) {
                None => Err(ParseError { pos: a, kind: ParseErrorKind::MalformedToken }),
                Some(k) => {
                    let e = scan_spaces(s, n, d);
                    Ok((e, KeyValue { key: k, value: v }))
                },
            }
        },
    }
}

/// Reads one connective.
pub fn parse_logical(s: &str, n: usize, i: usize) -> (r: Result<(usize, Logical), ParseError>)
    requires
        n == s@.len(),
        i <= n,
    ensures
        match r {
            Ok(p) => spec_logical(s@, i as int) matches Ok(q) && q.0 == p.0 as int && q.1 == p.1
                && i < p.0 <= n,
            Err(e) => spec_logical(s@, i as int) == Err::<(int, Logical), ParseError>(e),
        },
{
    proof {
        lemma_spec_logical_ok(s@, i as int);
    }
    let a = scan_spaces(s, n, i);
    if a < n {
        let c = s.get_char(a);
        if c == '&' {
            let j = scan_spaces(s, n, a + 1);
            return Ok((j, Logical::And));
        }
        if c == '|' {
            let j = scan_spaces(s, n, a + 1);
            return Ok((j, Logical::Or));
        }
    }
    Err(ParseError { pos: a, kind: ParseErrorKind::MalformedToken })
}

/// Reads a whole chain, greedily.
pub fn parse_chain<K: Key>(s: &str, n: usize, i: usize) -> (r: Result<
    (usize, LogicChain<K>),
    ParseError,
>)
    requires
        n == s@.len(),
        i <= n,
    ensures
        match r {
            Ok(p) => spec_chain::<K>(s@, i as int) matches Ok(q) && q.0 == p.0 as int && q.1
                == p.1@ && i <= p.0 <= n,
            Err(e) => spec_chain::<K>(s@, i as int) == Err::<(int, ChainView<K::V>), ParseError>(e),
        },
{
    let first = match parse_key_value::<K>(s, n, i) {
        Err(e) => {
            return Err(e);
        },
        Ok(p) => p,
    };
    let ghost j0 = first.0 as int;
    let mut cur = first.0;
    let mut rest: Vec<(Logical, KeyValue<K>)> = Vec::new();
    loop
        invariant
            n == s@.len(),
            first.0 <= cur <= n,
            spec_chain_rest::<K>(s@, j0) == {
                let rec = spec_chain_rest::<K>(s@, cur as int);
                (rec.0, pairs_view(rest@) + rec.1)
            },
        ensures
            cur as int == spec_chain_rest::<K>(s@, j0).0,
            pairs_view(rest@) == spec_chain_rest::<K>(s@, j0).1,
            first.0 <= cur <= n,
        decreases n - cur,
    {
        let ghost at_entry = cur as int;
        let op = match parse_logical(s, n, cur) {
            Err(_) => {
                proof {
                    assert(spec_chain_rest::<K>(s@, cur as int) == (cur as int, Seq::<
                        (Logical, KeyValue<K::V>),
                    >::empty()));
                    assert(pairs_view(rest@) + Seq::empty() =~= pairs_view(rest@));
                }
                break ;
            },
            Ok(p) => p,
        };
        match parse_key_value::<K>(s, n, op.0) {
            Err(_) => {
                proof {
                    assert(spec_chain_rest::<K>(s@, cur as int) == (cur as int, Seq::<
                        (Logical, KeyValue<K::V>),
                    >::empty()));
                    assert(pairs_view(rest@) + Seq::empty() =~= pairs_view(rest@));
                }
                break ;
            },
            Ok(p) => {
                let ghost old_rest = rest@;
                rest.push((op.1, p.1));
                cur = p.0;
                proof {
                    let rec_entry = spec_chain_rest::<K>(s@, at_entry);
                    let rec_next = spec_chain_rest::<K>(s@, cur as int);
                    assert(rec_entry == (rec_next.0, seq![(op.1, p.1@)] + rec_next.1));
                    assert(pairs_view(rest@) =~= pairs_view(old_rest) + seq![(op.1, p.1@)]);
                    assert(pairs_view(old_rest) + rec_entry.1 =~= pairs_view(rest@) + rec_next.1);
                }
            },
        }
    }
    Ok((cur, LogicChain { first: first.1, rest }))
}

/// A chain filling a whole field: trailing text beyond the chain is
/// refused.
pub open spec fn spec_chain_exact<K: Key>(s: Seq<char>) -> Result<ChainView<K::V>, ParseError> {
    match spec_chain::<K>(s, 0) {
        Err(e) => Err(e),
        Ok((j, c)) => if j == s.len() {
            Ok(c)
        } else {
            Err(ParseError { pos: j as usize, kind: ParseErrorKind::TrailingUnconsumed })
        },
    }
}

/// Reads a chain that must fill the whole input.
pub fn logic_chain<K: Key>(s: &str) -> (r: Result<LogicChain<K>, ParseError>)
    ensures
        match r {
            Ok(c) => spec_chain_exact::<K>(s@) == Ok::<ChainView<K::V>, ParseError>(c@),
            Err(e) => spec_chain_exact::<K>(s@) == Err::<ChainView<K::V>, ParseError>(e),
        },
{
    let n = s.unicode_len();
    match parse_chain::<K>(s, n, 0) {
        Err(e) => Err(e),
        Ok((j, c)) => {
            if j == n {
                Ok(c)
            } else {
                Err(ParseError { pos: j, kind: ParseErrorKind::TrailingUnconsumed })
            }
        },
    }
}

} // verus!
