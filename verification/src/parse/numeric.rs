//! Grammar B: the positional numeric encoding. A field is a set of
//! length-prefixed integer runs — identifiers, values, and (for fields
//! that support disjunction) or-flags — zipped into a chain.

use vstd::prelude::*;
use vstd::string::StrSliceExecFns;

use super::lexer::{scan_number, scan_spaces, space_end, spec_number};
use super::{ParseError, ParseErrorKind};
use crate::logic::chain::ChainView;
use crate::logic::{KeyValue, LogicChain, Logical};

verus! {

/// Exactly `count` numbers, each followed by optional blanks. A number
/// that fails to lex here means the input ran out of tokens.
pub open spec fn spec_nums(s: Seq<char>, i: int, count: nat) -> Result<(int, Seq<u32>), ParseError>
    decreases count,
{
    if count == 0 {
        Ok((i, Seq::empty()))
    } else {
        match spec_number(s, i) {
            Err(e) => Err(ParseError { pos: e.pos, kind: ParseErrorKind::UnexpectedEnd }),
            Ok((j, v)) => {
                let k = space_end(s, j);
                match spec_nums(s, k, (count - 1) as nat) {
                    Err(e) => Err(e),
                    Ok(p) => Ok((p.0, seq![v] + p.1)),
                }
            },
        }
    }
}

/// A length-prefixed number run: the count, blanks, then that many
/// numbers.
pub open spec fn spec_spacenums(s: Seq<char>, i: int) -> Result<(int, Seq<u32>), ParseError> {
    match spec_number(s, i) {
        Err(e) => Err(e),
        Ok((j, count)) => {
            let k = space_end(s, j);
            spec_nums(s, k, count as nat)
        },
    }
}

/// Reads exactly `count` numbers, each followed by optional blanks.
fn parse_nums(s: &str, n: usize, i: usize, count: u32) -> (r: Result<(usize, Vec<u32>), ParseError>)
    requires
        n == s@.len(),
        i <= n,
    ensures
        match r {
            Ok(p) => spec_nums(s@, i as int, count as nat) matches Ok(q) && q.0 == p.0 as int
                && q.1 == p.1@ && i <= p.0 <= n,
            Err(e) => spec_nums(s@, i as int, count as nat) == Err::<(int, Seq<u32>), ParseError>(
                e,
            ),
        },
{
    let mut done: Vec<u32> = Vec::new();
    let mut cur = i;
    let mut t: u32 = 0;
    while t < count
        invariant
            n == s@.len(),
            i <= cur <= n,
            t <= count,
            done@.len() == t as nat,
            spec_nums(s@, i as int, count as nat) == (match spec_nums(
                s@,
                cur as int,
                (count - t) as nat,
            ) {
                Ok(p) => Ok::<(int, Seq<u32>), ParseError>((p.0, done@ + p.1)),
                Err(e) => Err::<(int, Seq<u32>), ParseError>(e),
            }),
        decreases count - t,
    {
        let ghost at_entry = cur as int;
        let ghost rem = (count - t) as nat;
        match scan_number(s, n, cur) {
            Err(e) => {
                return Err(ParseError { pos: e.pos, kind: ParseErrorKind::UnexpectedEnd });
            },
            Ok((j, v)) => {
                let k = scan_spaces(s, n, j);
                let ghost old_done = done@;
                done.push(v);
                cur = k;
                t = t + 1;
                proof {
                    let rec = spec_nums(s@, cur as int, (count - t) as nat);
                    match rec {
                        Err(_) => {
                        },
                        Ok(p) => {
                            assert(old_done + (seq![v] + p.1) =~= done@ + p.1);
                        },
                    }
                }
            },
        }
    }
    proof {
        assert(done@ + Seq::<u32>::empty() =~= done@);
    }
    Ok((cur, done))
}

/// Reads a length-prefixed number run.
pub fn spacenums(s: &str, n: usize, i: usize) -> (r: Result<(usize, Vec<u32>), ParseError>)
    requires
        n == s@.len(),
        i <= n,
    ensures
        match r {
            Ok(p) => spec_spacenums(s@, i as int) matches Ok(q) && q.0 == p.0 as int && q.1
                == p.1@ && i <= p.0 <= n,
            Err(e) => spec_spacenums(s@, i as int) == Err::<(int, Seq<u32>), ParseError>(e),
        },
{
    match scan_number(s, n, i) {
        Err(e) => Err(e),
        Ok((j, count)) => {
            let k = scan_spaces(s, n, j);
            parse_nums(s, n, k, count)
        },
    }
}

/// The connective encoded by an or-flag position: a nonzero flag means
/// the position is OR-joined to the one before it, a zero or missing
/// flag means AND-joined. The leading position's flag is never read.
pub open spec fn flag_connective(flags: Seq<u32>, idx: int) -> Logical {
    if idx < flags.len() && flags[idx] != 0 {
        Logical::Or
    } else {
        Logical::And
    }
}

/// The chain zipped out of the three runs: identifier and value runs
/// paired positionwise (extra entries of the longer run are dropped),
/// connectives taken from the or-flags. An empty zip is an absent
/// expression, not an error.
pub open spec fn zip_chain(ids: Seq<u32>, vals: Seq<u32>, flags: Seq<u32>) -> Option<
    ChainView<u32>,
> {
    let m = if ids.len() <= vals.len() {
        ids.len() as int
    } else {
        vals.len() as int
    };
    if m == 0 {
        None
    } else {
        Some(
            ChainView {
                first: KeyValue { key: ids[0], value: vals[0] },
                rest: Seq::new(
                    (m - 1) as nat,
                    |t: int| (flag_connective(flags, t + 1), KeyValue { key: ids[t + 1], value: vals[t + 1] }),
                ),
            },
        )
    }
}

/// A whole positional field: identifiers, values, and — only when the
/// field supports disjunction — or-flags, zipped into an optional chain.
pub open spec fn spec_numeric_chain(s: Seq<char>, i: int, with_ors: bool) -> Result<
    (int, Option<ChainView<u32>>),
    ParseError,
> {
    match spec_spacenums(s, i) {
        Err(e) => Err(e),
        Ok((p1, ids)) => match spec_spacenums(s, p1) {
            Err(e) => Err(e),
            Ok((p2, vals)) => {
                if with_ors {
                    match spec_spacenums(s, p2) {
                        Err(e) => Err(e),
                        Ok((p3, flags)) => Ok((p3, zip_chain(ids, vals, flags))),
                    }
                } else {
                    Ok((p2, zip_chain(ids, vals, Seq::empty())))
                }
            },
        },
    }
}

/// Reads a positional field into an optional chain.
pub fn optional_numeric_logic_chain_ext(s: &str, n: usize, i: usize, with_ors: bool) -> (r: Result<
    (usize, Option<LogicChain<u32>>),
    ParseError,
>)
    requires
        n == s@.len(),
        i <= n,
    ensures
        match r {
            Ok(p) => spec_numeric_chain(s@, i as int, with_ors) matches Ok(q) && q.0 == p.0 as int
                && i <= p.0 <= n && (match p.1 {
                Some(c) => q.1 == Some(c@),
                None => q.1 is None,
            }),
            Err(e) => spec_numeric_chain(s@, i as int, with_ors) == Err::<
                (int, Option<ChainView<u32>>),
                ParseError,
            >(e),
        },
{
    let (p1, ids) = match spacenums(s, n, i) {
        Err(e) => {
            return Err(e);
        },
        Ok(p) => p,
    };
    let (p2, vals) = match spacenums(s, n, p1) {
        Err(e) => {
            return Err(e);
        },
        Ok(p) => p,
    };
    let (end, flags) = if with_ors {
        match spacenums(s, n, p2) {
            Err(e) => {
                return Err(e);
            },
            Ok(p) => p,
        }
    } else {
        (p2, Vec::new())
    };
    let ghost flags_spec = flags@;
    proof {
        if !with_ors {
            assert(flags_spec =~= Seq::<u32>::empty());
        }
    }
    let m = if ids.len() <= vals.len() {
        ids.len()
    } else {
        vals.len()
    };
    if m == 0 {
        return Ok((end, None));
    }
    let first = KeyValue { key: ids[0], value: vals[0] };
    let mut rest: Vec<(Logical, KeyValue<u32>)> = Vec::new();
    let mut t: usize = 1;
    while t < m
        invariant
            1 <= t <= m,
            m <= ids@.len(),
            m <= vals@.len(),
            flags_spec == flags@,
            rest@.len() == t - 1,
            forall|u: int|
                0 <= u < t - 1 ==> #[trigger] rest@[u] == (
                    flag_connective(flags_spec, u + 1),
                    KeyValue { key: ids@[u + 1], value: vals@[u + 1] },
                ),
        decreases m - t,
    {
        let conn = if t < flags.len() {
            if flags[t] != 0 {
                Logical::Or
            } else {
                Logical::And
            }
        } else {
            Logical::And
        };
        proof {
            assert(conn == flag_connective(flags_spec, t as int));
        }
        rest.push((conn, KeyValue { key: ids[t], value: vals[t] }));
        t = t + 1;
    }
    let chain = LogicChain { first, rest };
    proof {
        if !with_ors {
            assert(flags_spec =~= Seq::<u32>::empty());
        }
        let q = zip_chain(ids@, vals@, flags_spec);
        assert(q is Some);
        let cv = q.unwrap();
        assert(chain@.first == cv.first);
        assert(chain@.rest =~= cv.rest);
    }
    Ok((end, Some(chain)))
}

/// Reads a positional field that supports disjunction into an optional
/// chain.
pub fn optional_numeric_logic_chain(s: &str, n: usize, i: usize) -> (r: Result<
    (usize, Option<LogicChain<u32>>),
    ParseError,
>)
    requires
        n == s@.len(),
        i <= n,
    ensures
        match r {
            Ok(p) => spec_numeric_chain(s@, i as int, true) matches Ok(q) && q.0 == p.0 as int
                && i <= p.0 <= n && (match p.1 {
                Some(c) => q.1 == Some(c@),
                None => q.1 is None,
            }),
            Err(e) => spec_numeric_chain(s@, i as int, true) == Err::<
                (int, Option<ChainView<u32>>),
                ParseError,
            >(e),
        },
{
    optional_numeric_logic_chain_ext(s, n, i, true)
}

/// Reads a positional field that must hold an expression: a zero count
/// is refused here.
pub fn numeric_logic_chain(s: &str, n: usize, i: usize, with_ors: bool) -> (r: Result<
    (usize, LogicChain<u32>),
    ParseError,
>)
    requires
        n == s@.len(),
        i <= n,
    ensures
        match r {
            Ok(p) => spec_numeric_chain(s@, i as int, with_ors) matches Ok(q) && q.0 == p.0 as int
                && i <= p.0 <= n && q.1 == Some(p.1@),
            Err(e) => (spec_numeric_chain(s@, i as int, with_ors) matches Err(e2) && e == e2) || (
            spec_numeric_chain(s@, i as int, with_ors) matches Ok(q) && q.1 is None && e
                == ParseError { pos: q.0 as usize, kind: ParseErrorKind::MalformedToken }),
        },
{
    match optional_numeric_logic_chain_ext(s, n, i, with_ors) {
        Err(e) => Err(e),
        Ok((j, opt)) => match opt {
            Some(c) => Ok((j, c)),
            None => Err(ParseError { pos: j, kind: ParseErrorKind::MalformedToken }),
        },
    }
}

} // verus!
