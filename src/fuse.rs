//! Matching supplied tokens against fuse recipes.

use vstd::prelude::*;

use crate::ids::{series_part, token_series_part};
use crate::types::copy_ids;

verus! {

/// The position of the first `s` in `req` at or after `i`, or the length of `req`.
pub open spec fn first_index(req: Seq<Seq<char>>, s: Seq<char>, i: int) -> int
    decreases req.len() - i,
{
    if i < 0 || i >= req.len() {
        req.len() as int
    } else if req[i] == s {
        i
    } else {
        first_index(req, s, i + 1)
    }
}

/// `req` without its first `s`; unchanged where it holds none.
pub open spec fn remove_first(req: Seq<Seq<char>>, s: Seq<char>) -> Seq<Seq<char>> {
    let p = first_index(req, s, 0);
    if p < req.len() {
        req.remove(p)
    } else {
        req
    }
}

/// What is left of the recipe `req` once each supplied series, in order,
/// takes away the first entry equal to it.
pub open spec fn leftover(req: Seq<Seq<char>>, supplied: Seq<Seq<char>>) -> Seq<Seq<char>>
    decreases supplied.len(),
{
    if supplied.len() == 0 {
        req
    } else {
        leftover(remove_first(req, supplied[0]), supplied.drop_first())
    }
}

/// The supplied series cover the recipe `req`.
pub open spec fn satisfies(req: Seq<Seq<char>>, supplied: Seq<Seq<char>>) -> bool {
    leftover(req, supplied).len() == 0
}

/// Some recipe of `alternatives` is covered by the supplied series.
pub open spec fn any_satisfied(alternatives: Seq<Seq<Seq<char>>>, supplied: Seq<Seq<char>>) -> bool {
    exists|k: int| 0 <= k < alternatives.len() && satisfies(#[trigger] alternatives[k], supplied)
}

/// The series of each supplied token id.
pub open spec fn series_of_tokens(tokens: Seq<Seq<char>>) -> Seq<Seq<char>> {
    tokens.map_values(|t: Seq<char>| series_part(t))
}

/// The series of each of `token_ids`, in order.
pub fn token_series_list(token_ids: &Vec<String>) -> (r: Vec<String>)
    ensures
        r.deep_view() == series_of_tokens(token_ids.deep_view()),
{
    let mut r: Vec<String> = Vec::new();
    let mut i: usize = 0;
    while i < token_ids.len()
        invariant
            i <= token_ids@.len(),
            r@.len() == i,
            forall|j: int| 0 <= j < i ==> #[trigger] r@[j]@ == series_part(token_ids@[j]@),
        decreases token_ids@.len() - i,
    {
        r.push(token_series_part(&token_ids[i]));
        i = i + 1;
    }
    assert(r.deep_view() =~= series_of_tokens(token_ids.deep_view()));
    r
}

/// Whether the supplied series cover the recipe `requirement`: each supplied
/// series removes the first equal entry of a working copy of the recipe, and
/// the recipe is covered when the copy ends empty. Series that the recipe does
/// not hold are passed over.
pub fn requirement_met(requirement: &Vec<String>, supplied: &Vec<String>) -> (r: bool)
    ensures
        r == satisfies(requirement.deep_view(), supplied.deep_view()),
{
    let mut work = copy_ids(requirement);
    let ghost sup = supplied.deep_view();
    let n = supplied.len();
    let mut i: usize = 0;
    proof {
        assert(sup.subrange(0, n as int) =~= sup);
    }
    while i < n
        invariant
            n == supplied@.len(),
            sup == supplied.deep_view(),
            i <= n,
            leftover(work.deep_view(), sup.subrange(i as int, n as int)) == leftover(
                requirement.deep_view(),
                sup,
            ),
        decreases n - i,
    {
        let ghost w = work.deep_view();
        let s = &supplied[i];
        let m = work.len();
        let mut p: usize = 0;
        while p < m && work[p] != *s
            invariant
                m == work@.len(),
                w == work.deep_view(),
                p <= m,
                first_index(w, s@, 0) == first_index(w, s@, p as int),
            decreases m - p,
        {
            p = p + 1;
        }
        proof {
            let rest = sup.subrange(i as int, n as int);
            assert(rest[0] == s@);
            assert(rest.drop_first() =~= sup.subrange(i + 1, n as int));
            if p < m {
                assert(first_index(w, s@, p as int) == p);
            }
        }
        if p < m {
            work.remove(p);
            proof {
                assert(work.deep_view() =~= w.remove(p as int));
            }
        }
        i = i + 1;
    }
    proof {
        assert(sup.subrange(n as int, n as int) =~= Seq::<Seq<char>>::empty());
    }
    work.len() == 0
}

/// Whether some recipe of `alternatives`, tried in order, is covered by the
/// supplied series.
pub fn any_requirement_met(alternatives: &Vec<Vec<String>>, supplied: &Vec<String>) -> (r: bool)
    ensures
        r == any_satisfied(alternatives.deep_view(), supplied.deep_view()),
{
    let mut k: usize = 0;
    while k < alternatives.len()
        invariant
            k <= alternatives@.len(),
            forall|j: int| 0 <= j < k ==> !satisfies(#[trigger] alternatives.deep_view()[j], supplied.deep_view()),
        decreases alternatives@.len() - k,
    {
        if requirement_met(&alternatives[k], supplied) {
            assert(satisfies(alternatives.deep_view()[k as int], supplied.deep_view()));
            return true;
        }
        k = k + 1;
    }
    false
}

} // verus!
