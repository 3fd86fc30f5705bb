//! The collection of parsed recipes, ordered by their record numbers.

use vstd::prelude::*;

use crate::parse::record::{any_recipe, spec_any_recipe};
use crate::parse::ParseError;
use crate::recipe::FromAny;
use crate::RecipeError;

verus! {

/// Whether, and how, one source line is refused: either its record
/// fails to parse, or the parsed record does not fit the requested
/// recipe form.
pub open spec fn line_error<R: FromAny>(s: Seq<char>) -> Option<ParseError> {
    match spec_any_recipe(s) {
        Err(e) => Some(e),
        Ok(p) => R::from_any_err(p.1),
    }
}

/// Which recipes one source line admits.
pub open spec fn line_value_ok<R: FromAny>(s: Seq<char>, r: R) -> bool {
    spec_any_recipe(s) matches Ok(p) && R::from_any_ok(p.1, r@)
}

/// The recipes of one source, each under the number of its record,
/// kept in ascending order with no number twice.
#[derive(Debug, PartialEq)]
pub struct RecipeBook<R> {
    pub recipes: Vec<(u32, R)>,
}

impl<R> RecipeBook<R> {
    /// The book's order invariant: record numbers strictly ascend.
    pub open spec fn wf(&self) -> bool {
        forall|i: int, j: int|
            0 <= i < j < self.recipes@.len() ==> (#[trigger] self.recipes@[i]).0 < (
            #[trigger] self.recipes@[j]).0
    }

    /// The book as a map from record number to recipe.
    pub open spec fn as_map(&self) -> Map<u32, R> {
        Map::new(
            |k: u32| exists|i: int| 0 <= i < self.recipes@.len() && (#[trigger] self.recipes@[i]).0 == k,
            |k: u32|
                {
                    let i = choose|i: int|
                        0 <= i < self.recipes@.len() && (#[trigger] self.recipes@[i]).0 == k;
                    self.recipes@[i].1
                },
        )
    }

    /// Puts a recipe under a number, replacing what was there, and
    /// keeps the order.
    pub fn upsert(&mut self, key: u32, value: R)
        requires
            old(self).wf(),
        ensures
            final(self).wf(),
            final(self).as_map() == old(self).as_map().insert(key, value),
    {
        let mut pos: usize = 0;
        while pos < self.recipes.len() && self.recipes[pos].0 < key
            invariant
                0 <= pos <= self.recipes@.len(),
                self.recipes@ == old(self).recipes@,
                old(self).wf(),
                forall|i: int| 0 <= i < pos ==> (#[trigger] self.recipes@[i]).0 < key,
            decreases self.recipes@.len() - pos,
        {
            pos = pos + 1;
        }
        let ghost pre = self.recipes@;
        if pos < self.recipes.len() && self.recipes[pos].0 == key {
            self.recipes.remove(pos);
            self.recipes.insert(pos, (key, value));
            proof {
                assert(self.recipes@ =~= pre.update(pos as int, (key, value)));
            }
        } else {
            self.recipes.insert(pos, (key, value));
        }
        proof {
            assert forall|i: int, j: int|
                0 <= i < j < self.recipes@.len() implies (#[trigger] self.recipes@[i]).0 < (
            #[trigger] self.recipes@[j]).0 by {
                if pre.len() < self.recipes@.len() {
                    // a fresh entry was inserted at `pos`
                    if i < pos && j > pos {
                        assert(pre[i] == self.recipes@[i]);
                        assert(pre[j - 1] == self.recipes@[j]);
                    }
                }
            }
            assert(self.as_map() =~= old(self).as_map().insert(key, value)) by {
                let m1 = self.as_map();
                let m2 = old(self).as_map();
                assert forall|k: u32| m1.dom().contains(k) implies m2.insert(key, value).dom()
                    .contains(k) by {
                    let i = choose|i: int|
                        0 <= i < self.recipes@.len() && (#[trigger] self.recipes@[i]).0 == k;
                    if k != key {
                        if i < pos {
                            assert(pre[i].0 == k);
                        } else if pre.len() < self.recipes@.len() {
                            assert(pre[i - 1].0 == k);
                        } else {
                            assert(pre[i].0 == k);
                        }
                    }
                }
                assert forall|k: u32| m2.insert(key, value).dom().contains(k) implies m1.dom()
                    .contains(k) by {
                    if k == key {
                        assert(self.recipes@[pos as int].0 == k);
                    } else {
                        let i = choose|i: int|
                            0 <= i < pre.len() && (#[trigger] pre[i]).0 == k;
                        if i < pos {
                            assert(self.recipes@[i].0 == k);
                        } else if pre.len() < self.recipes@.len() {
                            assert(self.recipes@[i + 1].0 == k);
                        } else {
                            assert(self.recipes@[i].0 == k);
                        }
                    }
                }
                assert forall|k: u32| m1.dom().contains(k) implies m1[k] == m2.insert(
                    key,
                    value,
                )[k] by {
                    let i = choose|i: int|
                        0 <= i < self.recipes@.len() && (#[trigger] self.recipes@[i]).0 == k;
                    assert(self.recipes@[i].1 == m1[k]) by {
                        let i2 = choose|i2: int|
                            0 <= i2 < self.recipes@.len() && (#[trigger] self.recipes@[i2]).0 == k;
                        if i < i2 {
                            assert(self.recipes@[i].0 < self.recipes@[i2].0);
                        }
                        if i2 < i {
                            assert(self.recipes@[i2].0 < self.recipes@[i].0);
                        }
                    }
                    if k == key {
                        assert(self.recipes@[pos as int] == (key, value));
                        if i < pos as int {
                            assert(self.recipes@[i].0 < self.recipes@[pos as int].0);
                        }
                        if (pos as int) < i {
                            assert(self.recipes@[pos as int].0 < self.recipes@[i].0);
                        }
                    } else {
                        let j = choose|j: int| 0 <= j < pre.len() && (#[trigger] pre[j]).0 == k;
                        assert(m2[k] == pre[j].1) by {
                            let j2 = choose|j2: int|
                                0 <= j2 < pre.len() && (#[trigger] pre[j2]).0 == k;
                            if j < j2 {
                                assert(pre[j].0 < pre[j2].0);
                            }
                            if j2 < j {
                                assert(pre[j2].0 < pre[j].0);
                            }
                        }
                        if i < pos {
                            assert(self.recipes@[i] == pre[i]);
                        } else if pre.len() < self.recipes@.len() {
                            assert(self.recipes@[i] == pre[i - 1]);
                        } else {
                            assert(self.recipes@[i] == pre[i]);
                        }
                    }
                }
            }
        }
    }
}

impl<R> RecipeBook<R> {
    /// Rebuilds the book by passing every recipe through a fallible
    /// transform, keeping each record number and the order. The first
    /// failing transform is the result.
    pub fn map_recipes<R2, E, F: Fn(R) -> Result<R2, E>>(self, map: F) -> (r: Result<
        RecipeBook<R2>,
        E,
    >)
        requires
            forall|i: int|
                0 <= i < self.recipes@.len() ==> call_requires(map, ((#[trigger] self.recipes@[i]).1,)),
        ensures
            match r {
                Ok(b2) => {
                    &&& b2.recipes@.len() == self.recipes@.len()
                    &&& forall|i: int|
                        0 <= i < b2.recipes@.len() ==> (#[trigger] b2.recipes@[i]).0
                            == self.recipes@[i].0
                    &&& forall|i: int|
                        0 <= i < b2.recipes@.len() ==> call_ensures(
                            map,
                            (self.recipes@[i].1,),
                            Ok::<R2, E>((#[trigger] b2.recipes@[i]).1),
                        )
                    &&& self.wf() ==> b2.wf()
                },
                Err(e) => exists|i: int|
                    0 <= i < self.recipes@.len() && call_ensures(
                        map,
                        ((#[trigger] self.recipes@[i]).1,),
                        Err::<R2, E>(e),
                    ),
            },
    {
        let ghost orig = self.recipes@;
        let mut rem = self.recipes;
        let mut out: Vec<(u32, R2)> = Vec::new();
        let mut failure: Option<E> = None;
        while rem.len() > 0
            invariant
                failure is Some ==> rem@.len() == 0,
                failure is None ==> out@.len() + rem@.len() == orig.len(),
                failure is None ==> rem@ =~= orig.subrange(out@.len() as int, orig.len() as int),
                forall|i: int|
                    0 <= i < orig.len() ==> call_requires(map, ((#[trigger] orig[i]).1,)),
                forall|i: int|
                    0 <= i < out@.len() ==> (#[trigger] out@[i]).0 == orig[i].0 && call_ensures(
                        map,
                        (orig[i].1,),
                        Ok::<R2, E>(out@[i].1),
                    ),
                failure matches Some(e) ==> exists|i: int|
                    0 <= i < orig.len() && call_ensures(map, ((#[trigger] orig[i]).1,), Err::<
                        R2,
                        E,
                    >(e)),
            ensures
                match failure {
                    None => {
                        &&& out@.len() == orig.len()
                        &&& forall|i: int|
                            0 <= i < out@.len() ==> (#[trigger] out@[i]).0 == orig[i].0
                                && call_ensures(map, (orig[i].1,), Ok::<R2, E>(out@[i].1))
                    },
                    Some(e) => exists|i: int|
                        0 <= i < orig.len() && call_ensures(map, ((#[trigger] orig[i]).1,), Err::<
                            R2,
                            E,
                        >(e)),
                },
            decreases rem@.len(),
        {
            let ghost done = out@.len() as int;
            let (num, recipe) = rem.remove(0);
            proof {
                assert(orig[done] == (num, recipe));
            }
            match map(recipe) {
                Err(e) => {
                    proof {
                        assert(call_ensures(map, (orig[done].1,), Err::<R2, E>(e)));
                    }
                    failure = Some(e);
                    rem.clear();
                },
                Ok(r2) => {
                    out.push((num, r2));
                    proof {
                        assert(rem@ =~= orig.subrange(out@.len() as int, orig.len() as int));
                    }
                },
            }
        }
        if let Some(e) = failure {
            return Err(e);
        }
        let b2 = RecipeBook { recipes: out };
        proof {
            if self.wf() {
                assert forall|i: int, j: int|
                    0 <= i < j < b2.recipes@.len() implies (#[trigger] b2.recipes@[i]).0 < (
                #[trigger] b2.recipes@[j]).0 by {
                    assert(orig[i].0 < orig[j].0);
                }
            }
        }
        Ok(b2)
    }
}

impl<R: FromAny> RecipeBook<R> {
    /// Builds a book from numbered record lines: each line is parsed in
    /// whichever grammar it uses and converted to the requested recipe
    /// form. A later line with the same number replaces the earlier
    /// one. The first failing line is the result, its error wrapped
    /// with the line's record number; no partial book is returned.
    #[verifier::rlimit(100)]
    pub fn try_from_iter(lines: &Vec<(u32, String)>) -> (r: Result<Self, RecipeError>)
        ensures
            match r {
                Ok(book) => {
                    &&& book.wf()
                    &&& forall|i: int|
                        0 <= i < lines@.len() ==> line_error::<R>(
                            (#[trigger] lines@[i]).1@,
                        ) is None
                    &&& forall|k: u32|
                        #[trigger] book.as_map().dom().contains(k) <==> exists|i: int|
                            0 <= i < lines@.len() && (#[trigger] lines@[i]).0 == k
                    &&& forall|k: u32|
                        #[trigger] book.as_map().dom().contains(k) ==> exists|i: int|
                            {
                                &&& 0 <= i < lines@.len()
                                &&& (#[trigger] lines@[i]).0 == k
                                &&& forall|i2: int|
                                    i < i2 < lines@.len() ==> (#[trigger] lines@[i2]).0 != k
                                &&& line_value_ok::<R>(lines@[i].1@, book.as_map()[k])
                            }
                },
                Err(re) => exists|i: int|
                    {
                        &&& 0 <= i < lines@.len()
                        &&& re.index == (#[trigger] lines@[i]).0
                        &&& line_error::<R>(lines@[i].1@) == Some(re.error)
                        &&& forall|j: int|
                            0 <= j < i ==> line_error::<R>((#[trigger] lines@[j]).1@) is None
                    },
            },
    {
        let mut book = RecipeBook { recipes: Vec::new() };
        let mut t: usize = 0;
        while t < lines.len()
            invariant
                t <= lines@.len(),
                book.wf(),
                forall|j: int|
                    0 <= j < t ==> line_error::<R>((#[trigger] lines@[j]).1@) is None,
                forall|k: u32|
                    #[trigger] book.as_map().dom().contains(k) <==> exists|i: int|
                        0 <= i < t && (#[trigger] lines@[i]).0 == k,
                forall|k: u32|
                    #[trigger] book.as_map().dom().contains(k) ==> exists|i: int|
                        {
                            &&& 0 <= i < t
                            &&& (#[trigger] lines@[i]).0 == k
                            &&& forall|i2: int| i < i2 < t ==> (#[trigger] lines@[i2]).0 != k
                            &&& line_value_ok::<R>(lines@[i].1@, book.as_map()[k])
                        },
            decreases lines@.len() - t,
        {
            let line = &lines[t];
            let index = line.0;
            match any_recipe(line.1.as_str()) {
                Err(e) => {
                    return Err(RecipeError { index, error: e });
                },
                Ok((_, any)) => {
                    match R::from_any(any) {
                        Err(e) => {
                            return Err(RecipeError { index, error: e });
                        },
                        Ok(v) => {
                            let ghost pre = book;
                            let ghost vv = v;
                            book.upsert(index, v);
                            proof {
                                assert forall|k: u32| #[trigger] book.as_map().dom().contains(k)
                                    implies exists|i: int|
                                    0 <= i < t + 1 && (#[trigger] lines@[i]).0 == k by {
                                    if k == index {
                                        assert(lines@[t as int].0 == k);
                                    } else {
                                        assert(pre.as_map().dom().contains(k));
                                    }
                                }
                                assert forall|k: u32|
                                    #[trigger] book.as_map().dom().contains(k) implies exists|
                                    i: int,
                                |
                                    {
                                        &&& 0 <= i < t + 1
                                        &&& (#[trigger] lines@[i]).0 == k
                                        &&& forall|i2: int|
                                            i < i2 < t + 1 ==> (#[trigger] lines@[i2]).0 != k
                                        &&& line_value_ok::<R>(lines@[i].1@, book.as_map()[k])
                                    } by {
                                    if k == index {
                                        assert(book.as_map()[k] == vv);
                                        assert(line_value_ok::<R>(lines@[t as int].1@, vv));
                                        assert({
                                            &&& 0 <= t < t + 1
                                            &&& lines@[t as int].0 == k
                                            &&& forall|i2: int|
                                                t < i2 < t + 1 ==> (#[trigger] lines@[i2]).0 != k
                                            &&& line_value_ok::<R>(
                                                lines@[t as int].1@,
                                                book.as_map()[k],
                                            )
                                        });
                                    } else {
                                        assert(pre.as_map().dom().contains(k));
                                        let i = choose|i: int|
                                            {
                                                &&& 0 <= i < t
                                                &&& (#[trigger] lines@[i]).0 == k
                                                &&& forall|i2: int|
                                                    i < i2 < t ==> (#[trigger] lines@[i2]).0 != k
                                                &&& line_value_ok::<R>(
                                                    lines@[i].1@,
                                                    pre.as_map()[k],
                                                )
                                            };
                                        assert(book.as_map()[k] == pre.as_map()[k]);
                                        assert({
                                            &&& 0 <= i < t + 1
                                            &&& lines@[i].0 == k
                                            &&& forall|i2: int|
                                                i < i2 < t + 1 ==> (#[trigger] lines@[i2]).0 != k
                                            &&& line_value_ok::<R>(lines@[i].1@, book.as_map()[k])
                                        });
                                    }
                                }
                            }
                        },
                    }
                },
            }
            t = t + 1;
        }
        Ok(book)
    }
}

impl<R> Default for RecipeBook<R> {
    /// An empty book.
    fn default() -> (r: Self)
        ensures
            r.recipes@.len() == 0,
            r.wf(),
    {
        RecipeBook { recipes: Vec::new() }
    }
}

} // verus!
