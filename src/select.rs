//! Choosing the recipes that feed the shopping list: a shuffle fixed by a
//! seed, then either the first recipes in that order or, in simple mode, the
//! recipes with at most the median number of ingredients first.

use crate::recipe::Recipe;
use crate::text::{chars_of, lower_case, same_chars, to_lower};
use rand::rngs::StdRng;
use rand::seq::SliceRandom;
use rand::SeedableRng;
use vstd::prelude::*;
use vstd::relations::sorted_by;

verus! {

/// The number of ingredients of each recipe.
pub open spec fn sizes(rs: Seq<Recipe>) -> Seq<int> {
    rs.map_values(|r: Recipe| r.ingredients@.len() as int)
}

/// The median of a non-empty list: its middle value once sorted, or the mean
/// of its two middle values, rounded down, when its length is even.
pub open spec fn median_of(s: Seq<int>) -> int {
    let t = s.sort();
    let m = (s.len() / 2) as int;
    if s.len() % 2 == 0 {
        (t[m - 1] + t[m]) / 2
    } else {
        t[m]
    }
}

pub open spec fn ints(v: Seq<usize>) -> Seq<int> {
    v.map_values(|x: usize| x as int)
}

pub open spec fn ascending(s: Seq<int>) -> bool {
    forall|i: int, j: int| 0 <= i < j < s.len() ==> #[trigger] s[i] <= #[trigger] s[j]
}

/// The list in ascending order.
fn sorted_sizes(v: &[usize]) -> (r: Vec<usize>)
    ensures
        r@.len() == v@.len(),
        ints(r@) == ints(v@).sort(),
{
    let mut r: Vec<usize> = Vec::new();
    let mut i: usize = 0;
    assert(ints(r@) =~= ints(v@.take(0)));
    while i < v.len()
        invariant
            i <= v@.len(),
            r@.len() == i,
            ascending(ints(r@)),
            ints(r@).to_multiset() == ints(v@.take(i as int)).to_multiset(),
        decreases v@.len() - i,
    {
        let x = v[i];
        let ghost rv = ints(r@);
        let mut p: usize = r.len();
        while p > 0 && r[p - 1] > x
            invariant
                p <= r@.len(),
                rv == ints(r@),
                ascending(rv),
                forall|j: int| p <= j < rv.len() ==> #[trigger] rv[j] > x,
            decreases p,
        {
            p = p - 1;
        }
        r.insert(p, x);
        let ghost nv = ints(r@);
        assert(nv =~= rv.insert(p as int, x as int));
        assert forall|a: int, b: int| 0 <= a < b < nv.len() implies #[trigger] nv[a] <= #[trigger] nv[b] by {
            if b < p {
                assert(nv[a] == rv[a] && nv[b] == rv[b]);
            } else if b == p {
                assert(nv[a] == rv[a]);
                assert(rv[a] <= rv[p - 1]);
            } else if a == p {
                assert(nv[b] == rv[b - 1]);
            } else if a < p {
                assert(nv[a] == rv[a] && nv[b] == rv[b - 1]);
            } else {
                assert(nv[a] == rv[a - 1] && nv[b] == rv[b - 1]);
            }
        }
        proof {
            vstd::seq_lib::to_multiset_insert(rv, p as int, x as int);
            assert(ints(v@.take(i + 1)) =~= ints(v@.take(i as int)).push(x as int));
            vstd::seq_lib::to_multiset_build(ints(v@.take(i as int)), x as int);
        }
        i = i + 1;
    }
    proof {
        assert(v@.take(v@.len() as int) =~= v@);
        ints(v@).lemma_sort_ensures();
        assert(sorted_by(ints(r@), |x: int, y: int| x <= y));
        vstd::seq_lib::lemma_sorted_unique(ints(r@), ints(v@).sort(), |x: int, y: int| x <= y);
    }
    r
}

/// The median of a non-empty list of sizes, see `median_of`.
pub fn median(list: &[usize]) -> (r: usize)
    requires
        list@.len() > 0,
    ensures
        r == median_of(ints(list@)),
{
    let t = sorted_sizes(list);
    let len: usize = t.len();
    let mid: usize = len / 2;
    assert(ints(t@)[mid as int] == t@[mid as int]);
    if len % 2 == 0 {
        assert(mid >= 1);
        let a = t[mid - 1];
        let b = t[mid];
        assert(ints(t@)[mid - 1] == a);
        a / 2 + b / 2 + (a % 2 + b % 2) / 2
    } else {
        t[mid]
    }
}

/// The recipes that could be read, in order.
pub open spec fn present(c: Seq<Option<Recipe>>) -> Seq<Recipe>
    decreases c.len(),
{
    if c.len() == 0 {
        Seq::empty()
    } else {
        match c[0] {
            Some(r) => seq![r] + present(c.drop_first()),
            None => present(c.drop_first()),
        }
    }
}

/// The recipes with at most `m` ingredients, in order.
pub open spec fn at_most(rs: Seq<Recipe>, m: int) -> Seq<Recipe>
    decreases rs.len(),
{
    if rs.len() == 0 {
        Seq::empty()
    } else if rs[0].ingredients@.len() <= m {
        seq![rs[0]] + at_most(rs.drop_first(), m)
    } else {
        at_most(rs.drop_first(), m)
    }
}

/// The recipes with more than `m` ingredients, in order.
pub open spec fn above(rs: Seq<Recipe>, m: int) -> Seq<Recipe>
    decreases rs.len(),
{
    if rs.len() == 0 {
        Seq::empty()
    } else if rs[0].ingredients@.len() <= m {
        above(rs.drop_first(), m)
    } else {
        seq![rs[0]] + above(rs.drop_first(), m)
    }
}

/// The recipes with at most the median number of ingredients, then the
/// others, each part in the order it had.
pub open spec fn simple_order(rs: Seq<Recipe>) -> Seq<Recipe> {
    if rs.len() == 0 {
        rs
    } else {
        at_most(rs, median_of(sizes(rs))) + above(rs, median_of(sizes(rs)))
    }
}

/// The first `limit` entries of a list, or all of it where it is shorter.
pub open spec fn first(s: Seq<Recipe>, limit: nat) -> Seq<Recipe> {
    if limit < s.len() {
        s.take(limit as int)
    } else {
        s
    }
}

/// The recipes chosen from the candidates, in order: in simple mode the first
/// `limit` of `simple_order` over the recipes that could be read; otherwise the
/// recipes among the first `limit` candidates.
pub open spec fn selection(c: Seq<Option<Recipe>>, limit: nat, simple: bool) -> Seq<Recipe> {
    if simple {
        first(simple_order(present(c)), limit)
    } else {
        present(
            if limit < c.len() {
                c.take(limit as int)
            } else {
                c
            },
        )
    }
}

/// The recipes that could be read, in order.
fn read_ones(c: Vec<Option<Recipe>>) -> (r: Vec<Recipe>)
    ensures
        r@ == present(c@),
{
    let mut c = c;
    let ghost c0 = c@;
    let mut out: Vec<Recipe> = Vec::new();
    while c.len() > 0
        invariant
            out@ + present(c@) == present(c0),
        decreases c@.len(),
    {
        let ghost before = c@;
        let x = c.remove(0);
        assert(c@ =~= before.drop_first());
        match x {
            Some(r) => {
                let ghost o = out@;
                out.push(r);
                assert(o + (seq![r] + present(c@)) =~= out@ + present(c@));
            },
            None => {},
        }
    }
    assert(out@ + present(c@) =~= out@);
    out
}

/// Picks the recipes for the list from candidates in a fixed order (`None`
/// for one that could not be read); see `selection`.
pub fn select_recipes(candidates: Vec<Option<Recipe>>, limit: usize, only_simple: bool) -> (r: Vec<
    Recipe,
>)
    ensures
        r@ == selection(candidates@, limit as nat, only_simple),
{
    if !only_simple {
        let mut c = candidates;
        c.truncate(limit);
        assert(c@ =~= if (limit as nat) < candidates@.len() {
            candidates@.take(limit as int)
        } else {
            candidates@
        });
        return read_ones(c);
    }
    let mut recipes = read_ones(candidates);
    if recipes.len() == 0 {
        return recipes;
    }
    let ghost rs = recipes@;
    let mut sizes_v: Vec<usize> = Vec::new();
    let mut i: usize = 0;
    while i < recipes.len()
        invariant
            i <= rs.len(),
            recipes@ == rs,
            ints(sizes_v@) == sizes(rs).take(i as int),
        decreases rs.len() - i,
    {
        let ghost prev = ints(sizes_v@);
        let n = recipes[i].size();
        sizes_v.push(n);
        assert(ints(sizes_v@) =~= prev.push(n as int));
        assert(sizes(rs).take(i + 1) =~= sizes(rs).take(i as int).push(
            rs[i as int].ingredients@.len() as int,
        ));
        i = i + 1;
    }
    assert(sizes(rs).take(rs.len() as int) =~= sizes(rs));
    let m = median(sizes_v.as_slice());
    let ghost mi = m as int;
    let mut under: Vec<Recipe> = Vec::new();
    let mut over: Vec<Recipe> = Vec::new();
    while recipes.len() > 0
        invariant
            under@ + at_most(recipes@, mi) == at_most(rs, mi),
            over@ + above(recipes@, mi) == above(rs, mi),
            mi == m,
        decreases recipes@.len(),
    {
        let ghost before = recipes@;
        let x = recipes.remove(0);
        assert(recipes@ =~= before.drop_first());
        let ghost u = under@;
        let ghost o = over@;
        if x.size() <= m {
            under.push(x);
            assert(u + (seq![x] + at_most(recipes@, mi)) =~= under@ + at_most(recipes@, mi));
        } else {
            over.push(x);
            assert(o + (seq![x] + above(recipes@, mi)) =~= over@ + above(recipes@, mi));
        }
    }
    assert(under@ + at_most(recipes@, mi) =~= under@);
    assert(over@ + above(recipes@, mi) =~= over@);
    under.append(&mut over);
    under.truncate(limit);
    under
}

/// The order in which a shuffle seeded with `seed` leaves a list of `len`
/// entries: position `i` receives the entry that stood at `shuffle_order(seed,
/// len)[i]`.
pub uninterp spec fn shuffle_order(seed: u64, len: nat) -> Seq<int>;

pub open spec fn shuffled(v: Seq<Option<Recipe>>, seed: u64) -> Seq<Option<Recipe>> {
    Seq::new(v.len(), |i: int| v[shuffle_order(seed, v.len())[i]])
}

/// Relies on rand's `SliceRandom::shuffle` driven by `StdRng::seed_from_u64`:
/// the swaps it makes depend on the generator's draws and the length alone, so
/// one seed and one length always give the same order, and the entries are only
/// moved.
#[verifier::external_body]
fn shuffle_with_seed(v: &mut Vec<Option<Recipe>>, seed: u64)
    ensures
        final(v)@.len() == old(v)@.len(),
        forall|i: int|
            0 <= i < old(v)@.len() ==> final(v)@[i] == old(v)@[shuffle_order(
                seed,
                old(v)@.len(),
            )[i]],
        final(v)@.to_multiset() == old(v)@.to_multiset(),
{
    let mut rng = StdRng::seed_from_u64(seed);
    v.shuffle(&mut rng);
}

/// Shuffles the candidates with the seed, then picks the recipes for the list
/// from them; see `selection`.
pub fn select(candidates: Vec<Option<Recipe>>, limit: usize, simple: bool, seed: u64) -> (r: Vec<
    Recipe,
>)
    ensures
        r@ == selection(shuffled(candidates@, seed), limit as nat, simple),
{
    let mut c = candidates;
    shuffle_with_seed(&mut c, seed);
    assert(c@ =~= shuffled(candidates@, seed));
    select_recipes(c, limit, simple)
}

/// The seed for a day: the number of whole weeks in the days counted, so that
/// the selection stays the same for a week.
pub fn seed_from_days(days: u64) -> (r: u64)
    ensures
        r == days / 7,
{
    days / 7
}

/// Whether a file extension marks a recipe document: `md` or `txt`, in any
/// letter case.
pub fn accept_file_ext(ext: &str) -> (r: bool)
    ensures
        r == (lower_case(ext@) == "md"@ || lower_case(ext@) == "txt"@),
{
    let lower = to_lower(&chars_of(ext));
    let chars = chars_of(lower.as_str());
    same_chars(&chars, "md") || same_chars(&chars, "txt")
}

proof fn lemma_at_most_small(rs: Seq<Recipe>, m: int)
    ensures
        forall|k: int| 0 <= k < at_most(rs, m).len() ==> (#[trigger] at_most(rs, m)[k]).ingredients@.len() <= m,
        forall|k: int| 0 <= k < above(rs, m).len() ==> (#[trigger] above(rs, m)[k]).ingredients@.len() > m,
    decreases rs.len(),
{
    if rs.len() > 0 {
        lemma_at_most_small(rs.drop_first(), m);
        let a = at_most(rs.drop_first(), m);
        let b = above(rs.drop_first(), m);
        assert forall|k: int| 0 <= k < at_most(rs, m).len() implies (#[trigger] at_most(rs, m)[k]).ingredients@.len() <= m by {
            if rs[0].ingredients@.len() <= m && k > 0 {
                assert(at_most(rs, m)[k] == a[k - 1]);
            }
        }
        assert forall|k: int| 0 <= k < above(rs, m).len() implies (#[trigger] above(rs, m)[k]).ingredients@.len() > m by {
            if rs[0].ingredients@.len() > m && k > 0 {
                assert(above(rs, m)[k] == b[k - 1]);
            }
        }
    }
}

/// In simple mode, no recipe with more ingredients than the median of the
/// recipes read comes before one with at most that many.
pub proof fn lemma_small_recipes_first(c: Seq<Option<Recipe>>, limit: nat)
    requires
        present(c).len() > 0,
    ensures
        forall|i: int, j: int|
            0 <= i < j < selection(c, limit, true).len() && (#[trigger] selection(
                c,
                limit,
                true,
            )[j]).ingredients@.len() <= median_of(sizes(present(c))) ==> (#[trigger] selection(
                c,
                limit,
                true,
            )[i]).ingredients@.len() <= median_of(sizes(present(c))),
{
    let rs = present(c);
    let m = median_of(sizes(rs));
    let a = at_most(rs, m);
    let b = above(rs, m);
    let o = a + b;
    let s = selection(c, limit, true);
    lemma_at_most_small(rs, m);
    assert(simple_order(rs) == o);
    assert forall|i: int, j: int|
        0 <= i < j < s.len() && (#[trigger] s[j]).ingredients@.len() <= m implies (#[trigger] s[
        i]).ingredients@.len() <= m by {
        assert(s[j] == o[j] && s[i] == o[i]);
        if j >= a.len() {
            assert(o[j] == b[j - a.len()]);
        }
        assert(o[i] == a[i]);
    }
}

/// Selection is a function of its inputs: with the same candidates, limit,
/// mode and seed, any two results that `select` promises are the same recipes in
/// the same order.
pub proof fn lemma_select_deterministic(
    c: Seq<Option<Recipe>>,
    limit: nat,
    simple: bool,
    seed: u64,
    r1: Seq<Recipe>,
    r2: Seq<Recipe>,
)
    requires
        r1 == selection(shuffled(c, seed), limit, simple),
        r2 == selection(shuffled(c, seed), limit, simple),
    ensures
        r1 == r2,
{
}

} // verus!
