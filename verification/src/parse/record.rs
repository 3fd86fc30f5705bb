//! The record grammar: `@`-separated recipe fields, the side-effect
//! tail, and the choice between the textual and the numeric record
//! form.

use vstd::prelude::*;
use vstd::string::StrSliceExecFns;

use super::lexer::{scan_number, scan_spaces, scan_word, space_end, spec_number, word_end};
use super::text::{parse_chain, spec_chain};
use super::numeric::{optional_numeric_logic_chain_ext, numeric_logic_chain, spec_numeric_chain};
use super::{ParseError, ParseErrorKind};
use crate::key::Key;
use crate::logic::chain::ChainView;
use crate::logic::LogicChain;
use crate::recipe::{AnyRecipe, AnyRecipeView, GenericRecipe, RecipeView, SideEffect};
use crate::Recipe;

verus! {

/// Where the current `@`-delimited segment ends.
pub open spec fn seg_end(s: Seq<char>, i: int) -> int
    decreases s.len() - i,
{
    if i < s.len() && s[i] != '@' {
        seg_end(s, i + 1)
    } else {
        i
    }
}

/// A segment stays within the input, holds no `@`, and ends at one or
/// at the end of the input.
pub proof fn lemma_seg_end(s: Seq<char>, i: int)
    requires
        0 <= i <= s.len(),
    ensures
        i <= seg_end(s, i) <= s.len(),
        forall|k: int| i <= k < seg_end(s, i) ==> #[trigger] s[k] != '@',
        seg_end(s, i) < s.len() ==> s[seg_end(s, i)] == '@',
    decreases s.len() - i,
{
    if i < s.len() && s[i] != '@' {
        lemma_seg_end(s, i + 1);
    }
}

/// Scans to the end of the current segment.
pub fn scan_seg(s: &str, n: usize, i: usize) -> (j: usize)
    requires
        n == s@.len(),
        i <= n,
    ensures
        j == seg_end(s@, i as int),
        i <= j <= n,
{
    let mut j = i;
    loop
        invariant
            i <= j <= n,
            n == s@.len(),
            seg_end(s@, i as int) == seg_end(s@, j as int),
        ensures
            i <= j <= n,
            j == seg_end(s@, i as int),
        decreases n - j,
    {
        if j >= n {
            break ;
        }
        let c = s.get_char(j);
        if c == '@' {
            break ;
        }
        j = j + 1;
    }
    j
}

/// A non-empty segment followed by its `@`: the name form of a field.
pub open spec fn spec_dog_text(s: Seq<char>, i: int) -> Result<(int, Seq<char>), ParseError> {
    let d = seg_end(s, i);
    if d == i {
        Err(ParseError { pos: i as usize, kind: ParseErrorKind::MalformedToken })
    } else if d == s.len() {
        Err(ParseError { pos: d as usize, kind: ParseErrorKind::MalformedToken })
    } else {
        Ok((d + 1, s.subrange(i, d)))
    }
}

/// Reads a non-empty segment and its terminating `@`.
pub fn parse_dog_text(s: &str, n: usize, i: usize) -> (r: Result<(usize, String), ParseError>)
    requires
        n == s@.len(),
        i <= n,
    ensures
        match r {
            Ok(p) => spec_dog_text(s@, i as int) matches Ok(q) && q.0 == p.0 as int && q.1 == p.1@
                && i < p.0 <= n,
            Err(e) => spec_dog_text(s@, i as int) == Err::<(int, Seq<char>), ParseError>(e),
        },
{
    proof {
        lemma_seg_end(s@, i as int);
    }
    let d = scan_seg(s, n, i);
    if d == i {
        Err(ParseError { pos: i, kind: ParseErrorKind::MalformedToken })
    } else if d == n {
        Err(ParseError { pos: d, kind: ParseErrorKind::MalformedToken })
    } else {
        let text = s.substring_char(i, d).to_owned();
        Ok((d + 1, text))
    }
}

/// A possibly empty segment followed by its `@`.
pub open spec fn spec_opt_dog_text(s: Seq<char>, i: int) -> Result<
    (int, Option<Seq<char>>),
    ParseError,
> {
    let d = seg_end(s, i);
    if d == s.len() {
        Err(ParseError { pos: d as usize, kind: ParseErrorKind::MalformedToken })
    } else if d == i {
        Ok((d + 1, None))
    } else {
        Ok((d + 1, Some(s.subrange(i, d))))
    }
}

/// Reads a possibly empty segment and its terminating `@`.
pub fn parse_opt_dog_text(s: &str, n: usize, i: usize) -> (r: Result<
    (usize, Option<String>),
    ParseError,
>)
    requires
        n == s@.len(),
        i <= n,
    ensures
        match r {
            Ok(p) => spec_opt_dog_text(s@, i as int) matches Ok(q) && q.0 == p.0 as int && i
                < p.0 <= n && (match p.1 {
                Some(t) => q.1 == Some(t@),
                None => q.1 is None,
            }),
            Err(e) => spec_opt_dog_text(s@, i as int) == Err::<
                (int, Option<Seq<char>>),
                ParseError,
            >(e),
        },
{
    proof {
        lemma_seg_end(s@, i as int);
    }
    let d = scan_seg(s, n, i);
    if d == n {
        Err(ParseError { pos: d, kind: ParseErrorKind::MalformedToken })
    } else if d == i {
        Ok((d + 1, None))
    } else {
        let text = s.substring_char(i, d).to_owned();
        Ok((d + 1, Some(text)))
    }
}

/// A chain filling one field: the chain, then the field's `@`. Text
/// between the chain and the `@` is refused.
pub open spec fn spec_dog_chain<K: Key>(s: Seq<char>, i: int) -> Result<
    (int, ChainView<K::V>),
    ParseError,
> {
    match spec_chain::<K>(s, i) {
        Err(e) => Err(e),
        Ok((j, c)) => if j < s.len() && s[j] == '@' {
            Ok((j + 1, c))
        } else {
            Err(ParseError { pos: j as usize, kind: ParseErrorKind::TrailingUnconsumed })
        },
    }
}

/// Reads a chain filling one field.
pub fn dog_logic_chain<K: Key>(s: &str, n: usize, i: usize) -> (r: Result<
    (usize, LogicChain<K>),
    ParseError,
>)
    requires
        n == s@.len(),
        i <= n,
    ensures
        match r {
            Ok(p) => spec_dog_chain::<K>(s@, i as int) matches Ok(q) && q.0 == p.0 as int && q.1
                == p.1@ && i < p.0 <= n,
            Err(e) => spec_dog_chain::<K>(s@, i as int) == Err::<(int, ChainView<K::V>), ParseError>(
                e,
            ),
        },
{
    match parse_chain::<K>(s, n, i) {
        Err(e) => Err(e),
        Ok((j, c)) => {
            if j < n {
                let ch = s.get_char(j);
                if ch == '@' {
                    return Ok((j + 1, c));
                }
            }
            Err(ParseError { pos: j, kind: ParseErrorKind::TrailingUnconsumed })
        },
    }
}

/// An optional chain field: an empty segment means no expression; a
/// non-empty one must hold a chain filling it.
pub open spec fn spec_opt_dog_chain<K: Key>(s: Seq<char>, i: int) -> Result<
    (int, Option<ChainView<K::V>>),
    ParseError,
> {
    if i < s.len() && s[i] == '@' {
        Ok((i + 1, None))
    } else {
        match spec_dog_chain::<K>(s, i) {
            Err(e) => Err(e),
            Ok((j, c)) => Ok((j, Some(c))),
        }
    }
}

/// Reads an optional chain field.
pub fn optional_dog_logic_chain<K: Key>(s: &str, n: usize, i: usize) -> (r: Result<
    (usize, Option<LogicChain<K>>),
    ParseError,
>)
    requires
        n == s@.len(),
        i <= n,
    ensures
        match r {
            Ok(p) => spec_opt_dog_chain::<K>(s@, i as int) matches Ok(q) && q.0 == p.0 as int && i
                < p.0 <= n && (match p.1 {
                Some(c) => q.1 == Some(c@),
                None => q.1 is None,
            }),
            Err(e) => spec_opt_dog_chain::<K>(s@, i as int) == Err::<
                (int, Option<ChainView<K::V>>),
                ParseError,
            >(e),
        },
{
    if i < n {
        let ch = s.get_char(i);
        if ch == '@' {
            return Ok((i + 1, None));
        }
    }
    match dog_logic_chain::<K>(s, n, i) {
        Err(e) => Err(e),
        Ok((j, c)) => Ok((j, Some(c))),
    }
}

/// Does the literal stand at `i`?
pub open spec fn lit_at(s: Seq<char>, i: int, lit: Seq<char>) -> bool {
    i + lit.len() <= s.len() && s.subrange(i, i + lit.len()) == lit
}

/// Checks for the word `script` at `i`.
fn has_script(s: &str, n: usize, i: usize) -> (r: bool)
    requires
        n == s@.len(),
        i <= n,
    ensures
        r == lit_at(s@, i as int, "script"@),
{
    proof {
        reveal_strlit("script");
    }
    if n - i < 6 {
        proof {
            assert(!lit_at(s@, i as int, "script"@));
        }
        return false;
    }
    let r = s.get_char(i) == 's' && s.get_char(i + 1) == 'c' && s.get_char(i + 2) == 'r'
        && s.get_char(i + 3) == 'i' && s.get_char(i + 4) == 'p' && s.get_char(i + 5) == 't';
    proof {
        if r {
            assert(s@.subrange(i as int, i as int + 6) =~= "script"@);
        } else {
            assert(s@.subrange(i as int, i as int + 6) != "script"@) by {
                if s@.subrange(i as int, i as int + 6) == "script"@ {
                    assert(s@.subrange(i as int, i as int + 6)[0] == 's');
                    assert(s@.subrange(i as int, i as int + 6)[1] == 'c');
                    assert(s@.subrange(i as int, i as int + 6)[2] == 'r');
                    assert(s@.subrange(i as int, i as int + 6)[3] == 'i');
                    assert(s@.subrange(i as int, i as int + 6)[4] == 'p');
                    assert(s@.subrange(i as int, i as int + 6)[5] == 't');
                }
            }
        }
    }
    r
}

/// Checks for the word `exp` at `i`.
fn has_exp(s: &str, n: usize, i: usize) -> (r: bool)
    requires
        n == s@.len(),
        i <= n,
    ensures
        r == lit_at(s@, i as int, "exp"@),
{
    proof {
        reveal_strlit("exp");
    }
    if n - i < 3 {
        proof {
            assert(!lit_at(s@, i as int, "exp"@));
        }
        return false;
    }
    let r = s.get_char(i) == 'e' && s.get_char(i + 1) == 'x' && s.get_char(i + 2) == 'p';
    proof {
        if r {
            assert(s@.subrange(i as int, i as int + 3) =~= "exp"@);
        } else {
            assert(s@.subrange(i as int, i as int + 3) != "exp"@) by {
                if s@.subrange(i as int, i as int + 3) == "exp"@ {
                    assert(s@.subrange(i as int, i as int + 3)[0] == 'e');
                    assert(s@.subrange(i as int, i as int + 3)[1] == 'x');
                    assert(s@.subrange(i as int, i as int + 3)[2] == 'p');
                }
            }
        }
    }
    r
}

/// The full script form: `script`, blanks, a module segment, `@`, a
/// function word.
pub open spec fn spec_side_effect_script(s: Seq<char>, i: int) -> Option<
    (int, SideEffect<Seq<char>>),
> {
    if !lit_at(s, i, "script"@) {
        None
    } else {
        let a = i + 6;
        let b = space_end(s, a);
        if b == a {
            None
        } else {
            let d = seg_end(s, b);
            if d == b || d >= s.len() {
                None
            } else {
                let f = word_end(s, d + 1);
                if f == d + 1 {
                    None
                } else {
                    Some(
                        (
                            f,
                            SideEffect::Script {
                                module: s.subrange(b, d),
                                function: s.subrange(d + 1, f),
                            },
                        ),
                    )
                }
            }
        }
    }
}

/// The experience form: `exp`, blanks, a number.
pub open spec fn spec_side_effect_exp(s: Seq<char>, i: int) -> Option<
    (int, SideEffect<Seq<char>>),
> {
    if !lit_at(s, i, "exp"@) {
        None
    } else {
        let a = i + 3;
        let b = space_end(s, a);
        if b == a {
            None
        } else {
            match spec_number(s, b) {
                Err(_) => None,
                Ok((j, v)) => Some((j, SideEffect::Experience(v))),
            }
        }
    }
}

/// The side-effect tail of a record: a full script form, an experience
/// form, or a bare `script` or `exp` ending the input.
pub open spec fn spec_side_effect(s: Seq<char>, i: int) -> Result<
    (int, SideEffect<Seq<char>>),
    ParseError,
> {
    match spec_side_effect_script(s, i) {
        Some(p) => Ok(p),
        None => match spec_side_effect_exp(s, i) {
            Some(p) => Ok(p),
            None => if lit_at(s, i, "script"@) && i + 6 == s.len() {
                Ok((i + 6, SideEffect::Script { module: Seq::empty(), function: Seq::empty() }))
            } else if lit_at(s, i, "exp"@) && i + 3 == s.len() {
                Ok((i + 3, SideEffect::Experience(0)))
            } else {
                Err(ParseError { pos: i as usize, kind: ParseErrorKind::MalformedToken })
            },
        },
    }
}

/// Reads the side-effect tail of a record.
pub fn side_effect(s: &str, n: usize, i: usize) -> (r: Result<
    (usize, SideEffect<String>),
    ParseError,
>)
    requires
        n == s@.len(),
        i <= n,
    ensures
        match r {
            Ok(p) => spec_side_effect(s@, i as int) matches Ok(q) && q.0 == p.0 as int && q.1
                == p.1@ && i <= p.0 <= n,
            Err(e) => spec_side_effect(s@, i as int) == Err::<
                (int, SideEffect<Seq<char>>),
                ParseError,
            >(e),
        },
{
    proof {
        reveal_strlit("script");
        reveal_strlit("exp");
    }
    let is_script = has_script(s, n, i);
    if is_script {
        let a = i + 6;
        let b = scan_spaces(s, n, a);
        if b != a {
            proof {
                lemma_seg_end(s@, b as int);
            }
            let d = scan_seg(s, n, b);
            if d != b && d < n {
                proof {
                    super::lexer::lemma_word_end(s@, d as int + 1);
                }
                let f = scan_word(s, n, d + 1);
                if f != d + 1 {
                    let module = s.substring_char(b, d).to_owned();
                    let function = s.substring_char(d + 1, f).to_owned();
                    return Ok((f, SideEffect::Script { module, function }));
                }
            }
        }
    }
    let is_exp = has_exp(s, n, i);
    if is_exp {
        let a = i + 3;
        let b = scan_spaces(s, n, a);
        if b != a {
            match scan_number(s, n, b) {
                Ok((j, v)) => {
                    return Ok((j, SideEffect::Experience(v)));
                },
                Err(_) => {
                },
            }
        }
    }
    if is_script && i + 6 == n {
        return Ok((i + 6, SideEffect::Script { module: String::new(), function: String::new() }));
    }
    if is_exp && i + 3 == n {
        return Ok((i + 3, SideEffect::Experience(0)));
    }
    Err(ParseError { pos: i, kind: ParseErrorKind::MalformedToken })
}

/// A whole textual record: name, optional description, five expression
/// fields, then the side-effect tail.
pub open spec fn spec_recipe(s: Seq<char>, i: int) -> Result<
    (int, RecipeView<Seq<char>, ChainView<Seq<char>>>),
    ParseError,
> {
    match spec_dog_text(s, i) {
        Err(e) => Err(e),
        Ok((p1, name)) => match spec_opt_dog_text(s, p1) {
            Err(e) => Err(e),
            Ok((p2, description)) => match spec_opt_dog_chain::<String>(s, p2) {
                Err(e) => Err(e),
                Ok((p3, see)) => match spec_opt_dog_chain::<String>(s, p3) {
                    Err(e) => Err(e),
                    Ok((p4, craft)) => match spec_dog_chain::<String>(s, p4) {
                        Err(e) => Err(e),
                        Ok((p5, ingredients)) => match spec_opt_dog_chain::<String>(s, p5) {
                            Err(e) => Err(e),
                            Ok((p6, tools)) => match spec_dog_chain::<String>(s, p6) {
                                Err(e) => Err(e),
                                Ok((p7, output)) => match spec_side_effect(s, p7) {
                                    Err(e) => Err(e),
                                    Ok((p8, side)) => Ok(
                                        (
                                            p8,
                                            RecipeView {
                                                name,
                                                description,
                                                params_to_see: see,
                                                params_to_craft: craft,
                                                ingredients,
                                                tools,
                                                output,
                                                side_effect: side,
                                            },
                                        ),
                                    ),
                                },
                            },
                        },
                    },
                },
            },
        },
    }
}

/// Reads a whole textual record.
pub fn recipe(s: &str, n: usize, i: usize) -> (r: Result<(usize, Recipe<String, String>), ParseError>)
    requires
        n == s@.len(),
        i <= n,
    ensures
        match r {
            Ok(p) => spec_recipe(s@, i as int) matches Ok(q) && q.0 == p.0 as int && q.1 == p.1@
                && i <= p.0 <= n,
            Err(e) => spec_recipe(s@, i as int) == Err::<
                (int, RecipeView<Seq<char>, ChainView<Seq<char>>>),
                ParseError,
            >(e),
        },
{
    let (p1, name) = match parse_dog_text(s, n, i) {
        Err(e) => {
            return Err(e);
        },
        Ok(p) => p,
    };
    let (p2, description) = match parse_opt_dog_text(s, n, p1) {
        Err(e) => {
            return Err(e);
        },
        Ok(p) => p,
    };
    let (p3, params_to_see) = match optional_dog_logic_chain::<String>(s, n, p2) {
        Err(e) => {
            return Err(e);
        },
        Ok(p) => p,
    };
    let (p4, params_to_craft) = match optional_dog_logic_chain::<String>(s, n, p3) {
        Err(e) => {
            return Err(e);
        },
        Ok(p) => p,
    };
    let (p5, ingredients) = match dog_logic_chain::<String>(s, n, p4) {
        Err(e) => {
            return Err(e);
        },
        Ok(p) => p,
    };
    let (p6, tools) = match optional_dog_logic_chain::<String>(s, n, p5) {
        Err(e) => {
            return Err(e);
        },
        Ok(p) => p,
    };
    let (p7, output) = match dog_logic_chain::<String>(s, n, p6) {
        Err(e) => {
            return Err(e);
        },
        Ok(p) => p,
    };
    let (p8, side) = match side_effect(s, n, p7) {
        Err(e) => {
            return Err(e);
        },
        Ok(p) => p,
    };
    Ok(
        (
            p8,
            GenericRecipe {
                name,
                description,
                params_to_see,
                params_to_craft,
                ingredients,
                tools,
                output,
                side_effect: side,
            },
        ),
    )
}

/// A whole numeric record: name, optional description, five positional
/// expression fields — the output field carries no or-flags — then the
/// side-effect tail. The two required fields refuse an absent
/// expression.
pub open spec fn spec_numeric_recipe(s: Seq<char>, i: int) -> Result<
    (int, RecipeView<Seq<char>, ChainView<u32>>),
    ParseError,
> {
    match spec_dog_text(s, i) {
        Err(e) => Err(e),
        Ok((p1, name)) => match spec_opt_dog_text(s, p1) {
            Err(e) => Err(e),
            Ok((p2, description)) => match spec_numeric_chain(s, p2, true) {
                Err(e) => Err(e),
                Ok((p3, see)) => match spec_numeric_chain(s, p3, true) {
                    Err(e) => Err(e),
                    Ok((p4, craft)) => match spec_numeric_chain(s, p4, true) {
                        Err(e) => Err(e),
                        Ok((p5, None)) => Err(
                            ParseError { pos: p5 as usize, kind: ParseErrorKind::MalformedToken },
                        ),
                        Ok((p5, Some(ingredients))) => match spec_numeric_chain(s, p5, true) {
                            Err(e) => Err(e),
                            Ok((p6, tools)) => match spec_numeric_chain(s, p6, false) {
                                Err(e) => Err(e),
                                Ok((p7, None)) => Err(
                                    ParseError {
                                        pos: p7 as usize,
                                        kind: ParseErrorKind::MalformedToken,
                                    },
                                ),
                                Ok((p7, Some(output))) => match spec_side_effect(s, p7) {
                                    Err(e) => Err(e),
                                    Ok((p8, side)) => Ok(
                                        (
                                            p8,
                                            RecipeView {
                                                name,
                                                description,
                                                params_to_see: see,
                                                params_to_craft: craft,
                                                ingredients,
                                                tools,
                                                output,
                                                side_effect: side,
                                            },
                                        ),
                                    ),
                                },
                            },
                        },
                    },
                },
            },
        },
    }
}

/// Reads a whole numeric record.
pub fn numeric_recipe(s: &str, n: usize, i: usize) -> (r: Result<
    (usize, Recipe<String, u32>),
    ParseError,
>)
    requires
        n == s@.len(),
        i <= n,
    ensures
        match r {
            Ok(p) => spec_numeric_recipe(s@, i as int) matches Ok(q) && q.0 == p.0 as int && q.1
                == p.1@ && i <= p.0 <= n,
            Err(e) => spec_numeric_recipe(s@, i as int) == Err::<
                (int, RecipeView<Seq<char>, ChainView<u32>>),
                ParseError,
            >(e),
        },
{
    let (p1, name) = match parse_dog_text(s, n, i) {
        Err(e) => {
            return Err(e);
        },
        Ok(p) => p,
    };
    let (p2, description) = match parse_opt_dog_text(s, n, p1) {
        Err(e) => {
            return Err(e);
        },
        Ok(p) => p,
    };
    let (p3, params_to_see) = match optional_numeric_logic_chain_ext(s, n, p2, true) {
        Err(e) => {
            return Err(e);
        },
        Ok(p) => p,
    };
    let (p4, params_to_craft) = match optional_numeric_logic_chain_ext(s, n, p3, true) {
        Err(e) => {
            return Err(e);
        },
        Ok(p) => p,
    };
    let (p5, ingredients) = match numeric_logic_chain(s, n, p4, true) {
        Err(e) => {
            return Err(e);
        },
        Ok(p) => p,
    };
    let (p6, tools) = match optional_numeric_logic_chain_ext(s, n, p5, true) {
        Err(e) => {
            return Err(e);
        },
        Ok(p) => p,
    };
    let (p7, output) = match numeric_logic_chain(s, n, p6, false) {
        Err(e) => {
            return Err(e);
        },
        Ok(p) => p,
    };
    let (p8, side) = match side_effect(s, n, p7) {
        Err(e) => {
            return Err(e);
        },
        Ok(p) => p,
    };
    Ok(
        (
            p8,
            GenericRecipe {
                name,
                description,
                params_to_see,
                params_to_craft,
                ingredients,
                tools,
                output,
                side_effect: side,
            },
        ),
    )
}

/// A record in either grammar: a leading `!` selects the numeric form.
pub open spec fn spec_any_recipe(s: Seq<char>) -> Result<
    (int, AnyRecipeView<Seq<char>>),
    ParseError,
> {
    if s.len() > 0 && s[0] == '!' {
        match spec_numeric_recipe(s, 1) {
            Err(e) => Err(e),
            Ok((j, r)) => Ok((j, AnyRecipeView::Numeric(r))),
        }
    } else {
        match spec_recipe(s, 0) {
            Err(e) => Err(e),
            Ok((j, r)) => Ok((j, AnyRecipeView::Textual(r))),
        }
    }
}

/// Reads a record in either grammar. Returns how many characters were
/// read and the parsed recipe; text beyond the record is left to the
/// caller.
pub fn any_recipe(s: &str) -> (r: Result<(usize, AnyRecipe<String>), ParseError>)
    ensures
        match r {
            Ok(p) => spec_any_recipe(s@) matches Ok(q) && q.0 == p.0 as int && q.1 == p.1@,
            Err(e) => spec_any_recipe(s@) == Err::<(int, AnyRecipeView<Seq<char>>), ParseError>(e),
        },
{
    let n = s.unicode_len();
    if n > 0 {
        let c = s.get_char(0);
        if c == '!' {
            return match numeric_recipe(s, n, 1) {
                Err(e) => Err(e),
                Ok((j, r)) => Ok((j, AnyRecipe::Numeric(r))),
            };
        }
    }
    match recipe(s, n, 0) {
        Err(e) => Err(e),
        Ok((j, r)) => Ok((j, AnyRecipe::Textual(r))),
    }
}

} // verus!
