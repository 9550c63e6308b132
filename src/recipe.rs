//! Ingredients and recipes: reading ingredient lines and recipe documents,
//! scaling a recipe to a number of servings, and merging ingredient lists
//! into one with an entry per name.

use crate::qty::{
    canonical, compatible, normalize, parse_quantity, quantity_text, scale_by, sum_fits, sum_of, Quantity,
    QuantityView, Volume, VolumeUnit, Weight, WeightUnit,
};
use crate::text::{
    chars_of, is_whitespace, is_ws, lower_case, parse_u32, to_lower, skip_whitespace,
    split_chars, split_on, string_of, trim, trim_chars, trim_start, u32_value, views,
};
use itertools::Itertools;
use vstd::prelude::*;

verus! {

/// An ingredient line: what to buy, and how much.
#[derive(Clone, Debug, Hash)]
pub struct Ingredient {
    pub item: String,
    pub amount: Quantity,
}

pub struct IngredientView {
    pub item: Seq<char>,
    pub amount: QuantityView,
}

impl View for Ingredient {
    type V = IngredientView;

    open spec fn view(&self) -> IngredientView {
        IngredientView { item: self.item@, amount: self.amount@ }
    }
}

impl PartialEq for Ingredient {
    fn eq(&self, other: &Ingredient) -> (r: bool) {
        self.item == other.item && self.amount == other.amount
    }
}

impl vstd::std_specs::cmp::PartialEqSpecImpl for Ingredient {
    open spec fn obeys_eq_spec() -> bool {
        true
    }

    open spec fn eq_spec(&self, other: &Ingredient) -> bool {
        self@ == other@
    }
}

impl Eq for Ingredient {

}

pub open spec fn ingredient_views(s: Seq<Ingredient>) -> Seq<IngredientView> {
    s.map_values(|i: Ingredient| i@)
}

/// Strict lexicographic order of names, character by character.
pub open spec fn name_lt(a: Seq<char>, b: Seq<char>) -> bool
    decreases a.len(),
{
    if a.len() == 0 {
        b.len() > 0
    } else if b.len() == 0 {
        false
    } else if a[0] != b[0] {
        a[0] < b[0]
    } else {
        name_lt(a.drop_first(), b.drop_first())
    }
}

pub proof fn lemma_name_lt_irreflexive(a: Seq<char>)
    ensures
        !name_lt(a, a),
    decreases a.len(),
{
    if a.len() > 0 {
        lemma_name_lt_irreflexive(a.drop_first());
    }
}

pub proof fn lemma_name_lt_asymmetric(a: Seq<char>, b: Seq<char>)
    ensures
        name_lt(a, b) ==> !name_lt(b, a),
    decreases a.len(),
{
    if a.len() > 0 && b.len() > 0 && a[0] == b[0] {
        lemma_name_lt_asymmetric(a.drop_first(), b.drop_first());
    }
}

pub proof fn lemma_name_lt_transitive(a: Seq<char>, b: Seq<char>, c: Seq<char>)
    ensures
        name_lt(a, b) && name_lt(b, c) ==> name_lt(a, c),
    decreases a.len(),
{
    if a.len() > 0 && b.len() > 0 && c.len() > 0 {
        lemma_name_lt_transitive(a.drop_first(), b.drop_first(), c.drop_first());
    }
}

pub proof fn lemma_name_lt_total(a: Seq<char>, b: Seq<char>)
    ensures
        a != b ==> name_lt(a, b) || name_lt(b, a),
    decreases a.len(),
{
    if a.len() > 0 && b.len() > 0 {
        if a[0] == b[0] {
            lemma_name_lt_total(a.drop_first(), b.drop_first());
            if a.drop_first() == b.drop_first() {
                assert(a =~= seq![a[0]] + a.drop_first());
                assert(b =~= seq![b[0]] + b.drop_first());
            }
        }
    } else if a.len() == 0 && b.len() == 0 {
        assert(a =~= b);
    }
}

/// Whether `a` comes before `b` in name order.
fn name_precedes(a: &Vec<char>, b: &Vec<char>) -> (r: bool)
    ensures
        r == name_lt(a@, b@),
{
    let mut i: usize = 0;
    assert(a@.skip(0) =~= a@);
    assert(b@.skip(0) =~= b@);
    while i < a.len() && i < b.len() && a[i] == b[i]
        invariant
            i <= a@.len(),
            i <= b@.len(),
            name_lt(a@, b@) == name_lt(a@.skip(i as int), b@.skip(i as int)),
        decreases a@.len() - i,
    {
        assert(a@.skip(i as int).drop_first() =~= a@.skip(i + 1));
        assert(b@.skip(i as int).drop_first() =~= b@.skip(i + 1));
        i = i + 1;
    }
    if i == a.len() {
        i < b.len()
    } else if i == b.len() {
        false
    } else {
        a[i] < b[i]
    }
}

/// The entries of a list that carry a given name, in their order.
pub open spec fn named(s: Seq<IngredientView>, n: Seq<char>) -> Seq<IngredientView>
    decreases s.len(),
{
    if s.len() == 0 {
        s
    } else if s.last().item == n {
        named(s.drop_last(), n).push(s.last())
    } else {
        named(s.drop_last(), n)
    }
}

pub proof fn lemma_named_add(a: Seq<IngredientView>, b: Seq<IngredientView>, n: Seq<char>)
    ensures
        named(a + b, n) == named(a, n) + named(b, n),
    decreases b.len(),
{
    if b.len() == 0 {
        assert(a + b =~= a);
        assert(named(a, n) + named(b, n) =~= named(a, n));
    } else {
        assert((a + b).drop_last() =~= a + b.drop_last());
        lemma_named_add(a, b.drop_last(), n);
        if b.last().item == n {
            assert(named(a, n) + named(b.drop_last(), n).push(b.last()) =~= (named(a, n) + named(
                b.drop_last(),
                n,
            )).push(b.last()));
        }
    }
}

/// Names never decrease along the list.
pub open spec fn sorted_by_name(s: Seq<IngredientView>) -> bool {
    forall|i: int, j: int| 0 <= i < j < s.len() ==> !name_lt(#[trigger] s[j].item, #[trigger] s[i].item)
}

impl Ingredient {
    /// A copy of the ingredient.
    pub fn duplicate(&self) -> (r: Ingredient)
        ensures
            r@ == self@,
    {
        Ingredient { item: self.item.clone(), amount: self.amount.duplicate() }
    }
}

/// The list ordered by name; entries with equal names keep their order.
fn sort_by_name(v: &Vec<Ingredient>) -> (r: Vec<Ingredient>)
    ensures
        sorted_by_name(ingredient_views(r@)),
        forall|n: Seq<char>|
            #[trigger] named(ingredient_views(r@), n) == named(ingredient_views(v@), n),
{
    let mut r: Vec<Ingredient> = Vec::new();
    let mut i: usize = 0;
    while i < v.len()
        invariant
            i <= v@.len(),
            sorted_by_name(ingredient_views(r@)),
            forall|n: Seq<char>|
                #[trigger] named(ingredient_views(r@), n) == named(
                    ingredient_views(v@.take(i as int)),
                    n,
                ),
        decreases v@.len() - i,
    {
        let x = v[i].duplicate();
        let xn = chars_of(x.item.as_str());
        let ghost rv = ingredient_views(r@);
        let mut p: usize = r.len();
        while p > 0 && name_precedes(&xn, &chars_of(r[p - 1].item.as_str()))
            invariant
                p <= r@.len(),
                rv == ingredient_views(r@),
                sorted_by_name(rv),
                xn@ == x@.item,
                forall|j: int| p <= j < rv.len() ==> name_lt(x@.item, #[trigger] rv[j].item),
            decreases p,
        {
            p = p - 1;
        }
        proof {
            assert forall|j: int| 0 <= j < p implies !name_lt(x@.item, #[trigger] rv[j].item) by {
                if j < p - 1 {
                    assert(!name_lt(rv[p - 1].item, rv[j].item));
                    lemma_name_lt_total(rv[p - 1].item, rv[j].item);
                    lemma_name_lt_transitive(x@.item, rv[j].item, rv[p - 1].item);
                }
            }
        }
        r.insert(p, x);
        let ghost nv = ingredient_views(r@);
        assert(nv =~= rv.insert(p as int, x@));
        assert(v@.take(i + 1) =~= v@.take(i as int).push(v@[i as int]));
        assert(ingredient_views(v@.take(i + 1)) =~= ingredient_views(v@.take(i as int)).push(
            x@,
        ));
        assert(ingredient_views(v@.take(i + 1)).drop_last() =~= ingredient_views(
            v@.take(i as int),
        ));
        proof {
            assert forall|a: int, b: int| 0 <= a < b < nv.len() implies !name_lt(
                #[trigger] nv[b].item,
                #[trigger] nv[a].item,
            ) by {
                if a < p && b == p {
                } else if a == p {
                    lemma_name_lt_asymmetric(x@.item, nv[b].item);
                } else if a < p && b > p {
                    assert(nv[b] == rv[b - 1]);
                    lemma_name_lt_asymmetric(x@.item, rv[b - 1].item);
                    lemma_name_lt_total(x@.item, rv[a].item);
                    lemma_name_lt_transitive(rv[b - 1].item, x@.item, rv[a].item);
                    if x@.item == rv[a].item {
                    }
                } else if a > p {
                    assert(nv[a] == rv[a - 1] && nv[b] == rv[b - 1]);
                } else {
                    assert(nv[a] == rv[a] && nv[b] == rv[b]);
                }
            }
            assert forall|n: Seq<char>| #[trigger]
                named(nv, n) == named(ingredient_views(v@.take(i + 1)), n) by {
                let left = rv.take(p as int);
                let right = rv.skip(p as int);
                assert(rv =~= left + right);
                assert(nv =~= left.push(x@) + right);
                lemma_named_add(left, right, n);
                lemma_named_add(left.push(x@), right, n);
                assert(left.push(x@).drop_last() =~= left);
                if n == x@.item {
                    assert forall|j: int| 0 <= j < right.len() implies right[j].item != n by {
                        assert(right[j] == rv[p + j]);
                        lemma_name_lt_irreflexive(n);
                    }
                    lemma_named_none(right, n);
                    assert(named(left, n) + named(right, n) =~= named(left, n));
                    assert(named(left.push(x@), n) + named(right, n) =~= named(left, n).push(x@));
                } else {
                }
            }
        }
        i = i + 1;
    }
    assert(v@.take(v@.len() as int) =~= v@);
    r
}

pub proof fn lemma_named_none(s: Seq<IngredientView>, n: Seq<char>)
    requires
        forall|j: int| 0 <= j < s.len() ==> s[j].item != n,
    ensures
        named(s, n) =~= Seq::<IngredientView>::empty(),
    decreases s.len(),
{
    if s.len() > 0 {
        lemma_named_none(s.drop_last(), n);
    }
}

/// The amounts of a list added up from the left, see `sum_of`; the first entry
/// starts the sum.
pub open spec fn total(g: Seq<IngredientView>) -> QuantityView
    decreases g.len(),
{
    if g.len() == 0 {
        QuantityView::Pieces(0)
    } else if g.len() == 1 {
        g[0].amount
    } else {
        sum_of(total(g.drop_last()), g.last().amount)
    }
}

/// Whether merging can be carried out in 32-bit magnitudes: for every name,
/// the total of its entries fits in its canonical unit.
pub open spec fn mergeable(s: Seq<IngredientView>) -> bool {
    forall|n: Seq<char>| canonical(#[trigger] total(named(s, n))) <= u32::MAX
}

/// `r` is the merge of `s`: one entry per name that occurs in `s`, in strictly
/// increasing name order, each holding the total of that name's entries, added
/// up in their order in `s`.
pub open spec fn merged(s: Seq<IngredientView>, r: Seq<IngredientView>) -> bool {
    &&& forall|i: int, j: int|
        0 <= i < j < r.len() ==> name_lt(#[trigger] r[i].item, #[trigger] r[j].item)
    &&& forall|k: int|
        0 <= k < r.len() ==> named(s, #[trigger] r[k].item).len() > 0 && r[k].amount == total(
            named(s, r[k].item),
        )
    &&& forall|i: int|
        0 <= i < s.len() ==> exists|k: int| 0 <= k < r.len() && r[k].item == #[trigger] s[i].item
}

pub open spec fn concat(gs: Seq<Seq<IngredientView>>) -> Seq<IngredientView>
    decreases gs.len(),
{
    if gs.len() == 0 {
        Seq::empty()
    } else {
        concat(gs.drop_last()) + gs.last()
    }
}

pub open spec fn group_views(r: Seq<Vec<Ingredient>>) -> Seq<Seq<IngredientView>> {
    r.map_values(|g: Vec<Ingredient>| ingredient_views(g@))
}

/// All entries of a group carry the name of its first.
pub open spec fn uniform(g: Seq<IngredientView>) -> bool {
    forall|i: int| 0 <= i < g.len() ==> #[trigger] g[i].item == g[0].item
}

/// Relies on itertools' `Itertools::chunk_by`, keyed by the ingredient name: it
/// cuts the list into its maximal runs of consecutive entries with equal names,
/// in order.
#[verifier::external_body]
fn chunk_by_name(v: Vec<Ingredient>) -> (r: Vec<Vec<Ingredient>>)
    ensures
        concat(group_views(r@)) == ingredient_views(v@),
        forall|k: int| 0 <= k < r@.len() ==> (#[trigger] r@[k])@.len() > 0,
        forall|k: int| 0 <= k < r@.len() ==> uniform(#[trigger] group_views(r@)[k]),
        forall|k: int|
            0 < k < r@.len() ==> (#[trigger] r@[k])@[0].item@ != r@[k - 1]@[0].item@,
{
    let chunks = v.into_iter().chunk_by(|i: &Ingredient| i.item.clone());
    let groups: Vec<Vec<Ingredient>> = chunks.into_iter().map(|(_, c)| c.collect()).collect();
    groups
}

pub proof fn lemma_named_uniform(g: Seq<IngredientView>, n: Seq<char>)
    requires
        g.len() > 0,
        uniform(g),
    ensures
        named(g, n) == if g[0].item == n {
            g
        } else {
            Seq::empty()
        },
    decreases g.len(),
{
    assert(named(g, n) == if g.last().item == n {
        named(g.drop_last(), n).push(g.last())
    } else {
        named(g.drop_last(), n)
    });
    if g.len() == 1 {
        assert(g.drop_last() =~= Seq::<IngredientView>::empty());
        assert(named(g.drop_last(), n) =~= Seq::<IngredientView>::empty());
        assert(Seq::<IngredientView>::empty().push(g.last()) =~= g);
        assert(g.last() == g[0]);
    } else {
        let h = g.drop_last();
        assert(h[0] == g[0]);
        assert forall|i: int| 0 <= i < h.len() implies #[trigger] h[i].item == h[0].item by {
            assert(h[i] == g[i]);
        }
        lemma_named_uniform(h, n);
        assert(g.last().item == g[0].item);
        assert(h.push(g.last()) =~= g);
    }
}

pub proof fn lemma_named_contains(s: Seq<IngredientView>, i: int)
    requires
        0 <= i < s.len(),
    ensures
        named(s, s[i].item).len() > 0,
    decreases s.len(),
{
    if i < s.len() - 1 {
        assert(s.drop_last()[i] == s[i]);
        lemma_named_contains(s.drop_last(), i);
    }
}

proof fn lemma_sorted_prefix(a: Seq<IngredientView>, b: Seq<IngredientView>)
    requires
        sorted_by_name(a + b),
    ensures
        sorted_by_name(a),
        forall|i: int, j: int|
            0 <= i < a.len() && 0 <= j < b.len() ==> !name_lt(#[trigger] b[j].item, #[trigger] a[i].item),
{
    assert forall|i: int, j: int| 0 <= i < j < a.len() implies !name_lt(
        #[trigger] a[j].item,
        #[trigger] a[i].item,
    ) by {
        assert((a + b)[i] == a[i] && (a + b)[j] == a[j]);
    }
    assert forall|i: int, j: int| 0 <= i < a.len() && 0 <= j < b.len() implies !name_lt(
        #[trigger] b[j].item,
        #[trigger] a[i].item,
    ) by {
        assert((a + b)[i] == a[i] && (a + b)[a.len() + j] == b[j]);
    }
}

/// The maximal runs of a name-sorted list are exactly the entries of each
/// name, and their names strictly increase.
#[verifier::rlimit(50)]
proof fn lemma_runs(gs: Seq<Seq<IngredientView>>)
    requires
        forall|k: int| 0 <= k < gs.len() ==> (#[trigger] gs[k]).len() > 0,
        forall|k: int| 0 <= k < gs.len() ==> uniform(#[trigger] gs[k]),
        forall|k: int| 0 < k < gs.len() ==> (#[trigger] gs[k])[0].item != gs[k - 1][0].item,
        sorted_by_name(concat(gs)),
    ensures
        forall|j: int, k: int|
            0 <= j < k < gs.len() ==> name_lt(#[trigger] gs[j][0].item, #[trigger] gs[k][0].item),
        forall|k: int| 0 <= k < gs.len() ==> named(concat(gs), (#[trigger] gs[k])[0].item) == gs[k],
        forall|n: Seq<char>|
            (forall|k: int| 0 <= k < gs.len() ==> (#[trigger] gs[k])[0].item != n) ==> #[trigger] named(
                concat(gs),
                n,
            ).len() == 0,
    decreases gs.len(),
{
    if gs.len() == 0 {
    } else {
        let h = gs.drop_last();
        let l = gs.last();
        let c = concat(h);
        assert(concat(gs) == c + l);
        lemma_sorted_prefix(c, l);
        assert forall|k: int| 0 < k < h.len() implies (#[trigger] h[k])[0].item != h[k - 1][0].item by {
            assert(h[k] == gs[k] && h[k - 1] == gs[k - 1]);
        }
        assert forall|k: int| 0 <= k < h.len() implies (#[trigger] h[k]).len() > 0 && uniform(h[k]) by {
            assert(h[k] == gs[k]);
        }
        lemma_runs(h);
        let last = gs.len() - 1;
        assert(gs[last] == l);
        if h.len() > 0 {
            let p = h.last();
            assert(p == gs[last - 1]);
            let hh = h.drop_last();
            assert(concat(h) == concat(hh) + p);
            assert(c[concat(hh).len() as int] == p[0]);
            assert(!name_lt(l[0].item, c[concat(hh).len() as int].item));
            lemma_name_lt_total(p[0].item, l[0].item);
        }
        assert forall|j: int, k: int| 0 <= j < k < gs.len() implies name_lt(
            #[trigger] gs[j][0].item,
            #[trigger] gs[k][0].item,
        ) by {
            if k < last {
                assert(gs[j] == h[j] && gs[k] == h[k]);
            } else if j < last - 1 {
                assert(gs[j] == h[j] && gs[last - 1] == h[last - 1]);
                lemma_name_lt_transitive(gs[j][0].item, gs[last - 1][0].item, l[0].item);
            }
        }
        assert forall|k: int| 0 <= k < gs.len() implies named(
            concat(gs),
            (#[trigger] gs[k])[0].item,
        ) == gs[k] by {
            let n = gs[k][0].item;
            lemma_named_add(c, l, n);
            lemma_named_uniform(l, n);
            if k < last {
                assert(gs[k] == h[k]);
                lemma_name_lt_irreflexive(n);
                assert(named(c, n) + Seq::<IngredientView>::empty() =~= named(c, n));
            } else {
                assert forall|j: int| 0 <= j < h.len() implies (#[trigger] h[j])[0].item != n by {
                    assert(gs[j] == h[j]);
                    lemma_name_lt_irreflexive(n);
                }
                assert(named(c, n).len() == 0);
                assert(named(c, n) + l =~= l);
            }
        }
        assert forall|n: Seq<char>|
            (forall|k: int| 0 <= k < gs.len() ==> (#[trigger] gs[k])[0].item != n) implies #[trigger] named(
                concat(gs),
                n,
            ).len() == 0 by {
            lemma_named_add(c, l, n);
            lemma_named_uniform(l, n);
            assert(gs[last][0].item != n);
            assert forall|j: int| 0 <= j < h.len() implies (#[trigger] h[j])[0].item != n by {
                assert(gs[j] == h[j]);
            }
        }
    }
}

proof fn lemma_sum_canonical(a: QuantityView, b: QuantityView)
    ensures
        canonical(sum_of(a, b)) == if crate::qty::compatible(a, b) {
            canonical(a) + canonical(b)
        } else {
            canonical(a)
        },
{
}

/// Adding entries never lowers the total's canonical magnitude.
proof fn lemma_total_grows(g: Seq<IngredientView>, k: int)
    requires
        1 <= k <= g.len(),
    ensures
        canonical(total(g.take(k))) <= canonical(total(g)),
    decreases g.len(),
{
    if k == g.len() {
        assert(g.take(k) =~= g);
    } else {
        assert(g.drop_last().take(k) =~= g.take(k));
        lemma_total_grows(g.drop_last(), k);
        lemma_sum_canonical(total(g.drop_last()), g.last().amount);
    }
}

/// The magnitude of a quantity in its canonical unit.
fn canonical_amount(q: &Quantity) -> (r: u64)
    ensures
        r == canonical(q@),
{
    match q {
        Quantity::Pieces(n) => *n as u64,
        Quantity::Custom(n, _) => *n as u64,
        Quantity::Weight(w) => {
            let n: u64 = match w {
                Weight::Kilogram(n) => *n as u64,
                Weight::Gram(n) => *n as u64,
                Weight::Pounds(n) => *n as u64,
                Weight::Ounces(n) => *n as u64,
            };
            assert(n * 45359237 <= 0xFFFF_FFFFu64 * 45359237) by (nonlinear_arith)
                requires
                    n <= 0xFFFF_FFFFu64,
            ;
            match w {
                Weight::Kilogram(_) => 1000 * n,
                Weight::Gram(_) => n,
                Weight::Pounds(_) => n * 45359237 / 100000,
                Weight::Ounces(_) => n * 45359237 / 1600000,
            }
        },
        Quantity::Volume(v) => {
            let n: u64 = match v {
                Volume::Liter(n) => *n as u64,
                Volume::Deciliter(n) => *n as u64,
                Volume::Centiliter(n) => *n as u64,
                Volume::Milliliter(n) => *n as u64,
                Volume::Tablespoon(n) => *n as u64,
                Volume::Teaspoon(n) => *n as u64,
                Volume::Spices(n) => *n as u64,
                Volume::Pints(n) => *n as u64,
                Volume::Cups(n) => *n as u64,
                Volume::Ounces(n) => *n as u64,
            };
            match v {
                Volume::Liter(_) => 1000 * n,
                Volume::Deciliter(_) => 100 * n,
                Volume::Centiliter(_) => 10 * n,
                Volume::Milliliter(_) => n,
                Volume::Spices(_) => n,
                Volume::Tablespoon(_) => 15 * n,
                Volume::Teaspoon(_) => 5 * n,
                Volume::Pints(_) => 473 * n,
                Volume::Cups(_) => 237 * n,
                Volume::Ounces(_) => n * 296 / 10,
            }
        },
    }
}

/// Whether two quantities can be added, see `compatible`.
fn combinable(a: &Quantity, b: &Quantity) -> (r: bool)
    ensures
        r == crate::qty::compatible(a@, b@),
{
    match (a, b) {
        (Quantity::Pieces(_), Quantity::Pieces(_)) => true,
        (Quantity::Weight(_), Quantity::Weight(_)) => true,
        (Quantity::Volume(_), Quantity::Volume(_)) => true,
        (Quantity::Custom(_, l), Quantity::Custom(_, m)) => *l == *m,
        _ => false,
    }
}

/// Adds the second ingredient to the first where both have the same name;
/// otherwise the first is kept. `None` where the sum does not fit in 32 bits.
fn try_add(i0: &Ingredient, i1: &Ingredient) -> (r: Option<Ingredient>)
    ensures
        i0.item@ != i1.item@ ==> r is Some && r->0@ == i0@,
        i0.item@ == i1.item@ ==> (r is None <==> !sum_fits(i0.amount@, i1.amount@)),
        i0.item@ == i1.item@ && r is Some ==> r->0@ == (IngredientView {
            item: i0.item@,
            amount: sum_of(i0.amount@, i1.amount@),
        }),
{
    if i0.item != i1.item {
        return Some(i0.duplicate());
    }
    if combinable(&i0.amount, &i1.amount) {
        let a = canonical_amount(&i0.amount);
        let b = canonical_amount(&i1.amount);
        if a > 0xFFFF_FFFF || b > 0xFFFF_FFFF || a + b > 0xFFFF_FFFF {
            return None;
        }
    }
    Some(i0.duplicate().add(i1.duplicate()))
}

/// The entries of a group, all of one name, added up from the left. `None`
/// where the total does not fit in 32 bits in its canonical unit.
fn sum(group: &Vec<Ingredient>) -> (r: Option<Ingredient>)
    requires
        group@.len() > 0,
        uniform(ingredient_views(group@)),
    ensures
        r is Some <==> canonical(total(ingredient_views(group@))) <= u32::MAX,
        r is Some ==> r->0@ == (IngredientView {
            item: group@[0]@.item,
            amount: total(ingredient_views(group@)),
        }),
{
    let ghost g = ingredient_views(group@);
    let mut acc = group[0].duplicate();
    assert(g.take(1) =~= seq![g[0]]);
    let mut i: usize = 1;
    while i < group.len()
        invariant
            1 <= i <= group@.len(),
            g == ingredient_views(group@),
            uniform(g),
            acc@ == (IngredientView { item: g[0].item, amount: total(g.take(i as int)) }),
        decreases group@.len() - i,
    {
        assert(g[i as int].item == g[0].item);
        assert(g.take(i + 1).drop_last() =~= g.take(i as int));
        match try_add(&acc, &group[i]) {
            None => {
                proof {
                    lemma_total_grows(g, i + 1);
                }
                return None;
            },
            Some(x) => {
                acc = x;
            },
        }
        i = i + 1;
    }
    assert(g.take(group@.len() as int) =~= g);
    if canonical_amount(&acc.amount) > 0xFFFF_FFFF {
        return None;
    }
    Some(acc)
}

/// Merges an ingredient list into one entry per name, see `merged`; `None`
/// where some name's total does not fit in 32 bits in its canonical unit.
pub fn try_merge(ingredients: Vec<Ingredient>) -> (r: Option<Vec<Ingredient>>)
    ensures
        r is Some <==> mergeable(ingredient_views(ingredients@)),
        r is Some ==> merged(ingredient_views(ingredients@), ingredient_views(r->0@)),
{
    let ghost s = ingredient_views(ingredients@);
    let sorted = sort_by_name(&ingredients);
    let ghost t = ingredient_views(sorted@);
    let groups = chunk_by_name(sorted);
    let ghost gs = group_views(groups@);
    proof {
        assert forall|k: int| 0 <= k < gs.len() implies (#[trigger] gs[k]).len() > 0 && uniform(
            gs[k],
        ) by {
            assert(groups@[k]@.len() > 0);
        }
        assert forall|k: int| 0 < k < gs.len() implies (#[trigger] gs[k])[0].item != gs[k
            - 1][0].item by {
            assert(groups@[k]@.len() > 0);
        }
        lemma_runs(gs);
    }
    let mut out: Vec<Ingredient> = Vec::new();
    let mut k: usize = 0;
    while k < groups.len()
        invariant
            k <= groups@.len(),
            s == ingredient_views(ingredients@),
            gs == group_views(groups@),
            forall|j: int| 0 <= j < gs.len() ==> (#[trigger] gs[j]).len() > 0 && uniform(gs[j]),
            forall|j: int| 0 <= j < gs.len() ==> named(t, (#[trigger] gs[j])[0].item) == gs[j],
            forall|n: Seq<char>| #[trigger] named(t, n) == named(s, n),
            out@.len() == k,
            forall|j: int|
                0 <= j < k ==> (#[trigger] out@[j])@ == (IngredientView {
                    item: gs[j][0].item,
                    amount: total(gs[j]),
                }),
            forall|j: int| 0 <= j < k ==> canonical(total(#[trigger] gs[j])) <= u32::MAX,
        decreases groups@.len() - k,
    {
        assert(gs[k as int] == ingredient_views(groups@[k as int]@));
        match sum(&groups[k]) {
            None => {
                let ghost n = gs[k as int][0].item;
                assert(named(s, n) == gs[k as int]);
                assert(canonical(total(named(s, n))) > u32::MAX);
                assert(!mergeable(s));
                return None;
            },
            Some(x) => {
                out.push(x);
            },
        }
        k = k + 1;
    }
    let ghost o = ingredient_views(out@);
    proof {
        assert forall|n: Seq<char>| canonical(#[trigger] total(named(s, n))) <= u32::MAX by {
            if exists|j: int| 0 <= j < gs.len() && (#[trigger] gs[j])[0].item == n {
                let j = choose|j: int| 0 <= j < gs.len() && (#[trigger] gs[j])[0].item == n;
                assert(named(s, n) == gs[j]);
            } else {
                assert(named(t, n).len() == 0);
                assert(named(s, n) =~= Seq::<IngredientView>::empty());
            }
        }
        assert forall|i: int, j: int| 0 <= i < j < o.len() implies name_lt(
            #[trigger] o[i].item,
            #[trigger] o[j].item,
        ) by {
            assert(o[i] == out@[i]@ && o[j] == out@[j]@);
        }
        assert forall|j: int| 0 <= j < o.len() implies named(s, #[trigger] o[j].item).len() > 0
            && o[j].amount == total(named(s, o[j].item)) by {
            assert(o[j] == out@[j]@);
        }
        assert forall|i: int| 0 <= i < s.len() implies exists|k: int|
            0 <= k < o.len() && o[k].item == #[trigger] s[i].item by {
            lemma_named_contains(s, i);
            let n = s[i].item;
            if forall|j: int| 0 <= j < gs.len() ==> (#[trigger] gs[j])[0].item != n {
                assert(named(t, n).len() == 0);
            } else {
                let j = choose|j: int| 0 <= j < gs.len() && (#[trigger] gs[j])[0].item == n;
                assert(o[j] == out@[j]@);
            }
        }
    }
    Some(out)
}

/// Merges an ingredient list into one entry per name: the entries are ordered
/// by name, grouped, and each group's amounts are added up in their order (see
/// `merged`).
pub fn merge(ingredients: Vec<Ingredient>) -> (r: Vec<Ingredient>)
    requires
        mergeable(ingredient_views(ingredients@)),
    ensures
        merged(ingredient_views(ingredients@), ingredient_views(r@)),
{
    match try_merge(ingredients) {
        Some(r) => r,
        None => Vec::new(),
    }
}

/// A name as written in an ingredient line: without a leading `- ` or `* `
/// bullet and without surrounding whitespace.
pub open spec fn bare_name(part: Seq<char>) -> Seq<char> {
    let t = trim_start(part);
    if t.len() >= 2 && (t[0] == '-' || t[0] == '*') && is_ws(t[1]) {
        trim(t.drop_first())
    } else {
        trim(t)
    }
}

pub open spec fn invalid_line(s: Seq<char>) -> Seq<char> {
    "Invalid line '"@ + s + "'"@
}

/// What an ingredient line reads as. The trimmed line is cut at its commas:
/// one piece is a name alone, one piece of the item, two pieces a name and a
/// quantity (see `parse_quantity`). More pieces, or an empty name, make the line
/// invalid. The name is kept in lower case.
pub open spec fn parse_ingredient(s: Seq<char>) -> Result<IngredientView, Seq<char>> {
    let parts = split_on(trim(s), ',');
    if parts.len() > 2 || bare_name(parts[0]).len() == 0 {
        Err(invalid_line(s))
    } else if parts.len() == 1 {
        Ok(IngredientView { item: lower_case(bare_name(parts[0])), amount: QuantityView::Pieces(1) })
    } else {
        match parse_quantity(parts[1]) {
            Ok(q) => Ok(IngredientView { item: lower_case(bare_name(parts[0])), amount: q }),
            Err(e) => Err(e),
        }
    }
}

/// An ingredient line as shown in a shopping list: `<name>, <quantity>`.
pub open spec fn ingredient_text(i: IngredientView) -> Seq<char> {
    i.item + ", "@ + quantity_text(i.amount)
}

/// The name in the first piece of an ingredient line, see `bare_name`.
fn extract_ingredient(part: &Vec<char>) -> (r: Vec<char>)
    ensures
        r@ == bare_name(part@),
{
    let a = skip_whitespace(part);
    let ghost t = trim_start(part@);
    let start: usize = if part.len() - a >= 2 && (part[a] == '-' || part[a] == '*')
        && crate::text::is_whitespace(part[a + 1]) {
        a + 1
    } else {
        a
    };
    let mut rest: Vec<char> = Vec::new();
    let mut i: usize = start;
    while i < part.len()
        invariant
            start <= i <= part@.len(),
            rest@ == part@.subrange(start as int, i as int),
        decreases part@.len() - i,
    {
        rest.push(part[i]);
        i = i + 1;
        assert(rest@ =~= part@.subrange(start as int, i as int));
    }
    if start != a {
        assert(rest@ =~= t.drop_first());
    } else {
        assert(rest@ =~= t);
    }
    trim_chars(&rest)
}

impl Ingredient {
    pub fn new(item: String, amount: Quantity) -> (r: Ingredient)
        ensures
            r.item == item,
            r.amount == amount,
    {
        Ingredient { item, amount }
    }

    /// Reads an ingredient line such as `- milk, 2 l` or `eggs`; see
    /// `parse_ingredient`.
    pub fn parse(input: &str) -> (r: Result<Ingredient, String>)
        ensures
            match r {
                Ok(i) => parse_ingredient(input@) == Ok::<IngredientView, Seq<char>>(i@),
                Err(e) => parse_ingredient(input@) == Err::<IngredientView, Seq<char>>(e@),
            },
    {
        let line = trim_chars(&chars_of(input));
        let parts = split_chars(&line, ',');
        let ghost ps = views(parts@);
        assert(ps[0] == parts@[0]@);
        let bare = extract_ingredient(&parts[0]);
        if parts.len() > 2 || bare.len() == 0 {
            let mut msg = String::new();
            msg.append("Invalid line '");
            msg.append(input);
            msg.append("'");
            return Err(msg);
        }
        let item = to_lower(&bare);
        if parts.len() == 1 {
            return Ok(Ingredient { item, amount: Quantity::Pieces(1) });
        }
        assert(ps[1] == parts@[1]@);
        let tail = string_of(&parts[1]);
        match Quantity::parse(tail.as_str()) {
            Ok(amount) => Ok(Ingredient { item, amount }),
            Err(e) => Err(e),
        }
    }

    /// The sum of two entries of the same ingredient.
    pub fn add(self, other: Ingredient) -> (r: Ingredient)
        requires
            self.item@ == other.item@,
            sum_fits(self.amount@, other.amount@),
        ensures
            r@ == (IngredientView { item: self.item@, amount: sum_of(self.amount@, other.amount@) }),
    {
        let amount = self.amount.add(other.amount);
        Ingredient::new(self.item, amount)
    }

    /// The line shown for the ingredient, such as `milk, 5 dl`.
    pub fn to_string(&self) -> (r: String)
        ensures
            r@ == ingredient_text(self@),
    {
        let mut r = self.item.clone();
        r.append(", ");
        let q = self.amount.to_string();
        r.append(q.as_str());
        r
    }
}

/// The ingredient with its amount in the most readable unit; see `normalize`.
pub fn divide_unit(i: &Ingredient) -> (r: Ingredient)
    requires
        canonical(i.amount@) <= u32::MAX,
    ensures
        r@ == (IngredientView { item: i.item@, amount: normalize(i.amount@) }),
{
    Ingredient { item: i.item.clone(), amount: i.amount.normalized() }
}

/// A recipe: its title, its ingredients in order, and the number of servings
/// it declares, if any.
#[derive(Clone, Debug, Hash)]
pub struct Recipe {
    pub title: String,
    pub ingredients: Vec<Ingredient>,
    pub servings: Option<u8>,
}

/// The ingredients scaled from the declared number of servings to `target`:
/// each amount is multiplied by `target / declared` (see `scale_by`). Without a
/// declared number, or where it is `target` already or zero, they stay as they
/// are.
pub open spec fn scaled_to(
    s: Seq<IngredientView>,
    declared: Option<u8>,
    target: u8,
) -> Seq<IngredientView> {
    if declared is Some && declared->0 != target && declared->0 != 0 {
        s.map_values(
            |i: IngredientView|
                IngredientView {
                    item: i.item,
                    amount: scale_by(i.amount, target as nat, declared->0 as nat),
                },
        )
    } else {
        s
    }
}

impl Recipe {
    pub fn new(title: &str, ingredients: Vec<Ingredient>, servings: u8) -> (r: Recipe)
        ensures
            r.title@ == title@,
            r.ingredients == ingredients,
            r.servings == Some(servings),
    {
        Recipe { title: title.to_owned(), ingredients, servings: Some(servings) }
    }

    /// The number of ingredients.
    pub fn size(&self) -> (r: usize)
        ensures
            r == self.ingredients@.len(),
    {
        self.ingredients.len()
    }

    /// Scales every ingredient from the declared number of servings to `size`
    /// (see `scaled_to`). The title and the declared number stay as they are.
    pub fn apply_serving_size(&mut self, size: u8)
        ensures
            final(self).title == old(self).title,
            final(self).servings == old(self).servings,
            ingredient_views(final(self).ingredients@) == scaled_to(
                ingredient_views(old(self).ingredients@),
                old(self).servings,
                size,
            ),
    {
        let current: u8 = match self.servings {
            None => {
                return ;
            },
            Some(n) => n,
        };
        if current == size || current == 0 {
            return ;
        }
        let ghost s0 = ingredient_views(self.ingredients@);
        let mut i: usize = 0;
        while i < self.ingredients.len()
            invariant
                self.title == old(self).title,
                self.servings == old(self).servings,
                self.servings == Some(current),
                current != 0,
                s0 == ingredient_views(old(self).ingredients@),
                self.ingredients@.len() == s0.len(),
                i <= s0.len(),
                forall|j: int|
                    0 <= j < i ==> (#[trigger] self.ingredients@[j])@ == (IngredientView {
                        item: s0[j].item,
                        amount: scale_by(s0[j].amount, size as nat, current as nat),
                    }),
                forall|j: int| i <= j < s0.len() ==> (#[trigger] self.ingredients@[j])@ == s0[j],
            decreases s0.len() - i,
        {
            let mut x = self.ingredients[i].duplicate();
            let mut q = x.amount.duplicate();
            q.scale(size as u32, current as u32);
            x.amount = q;
            self.ingredients.set(i, x);
            i = i + 1;
        }
        assert(ingredient_views(self.ingredients@) =~= scaled_to(s0, Some(current), size));
    }
}

/// The ingredients of all recipes, in order, merged into one entry per name;
/// see `merged`.
pub fn join_ingredients(recipes: Vec<Recipe>) -> (r: Vec<Ingredient>)
    requires
        mergeable(ingredient_views(all_ingredients(recipes@))),
    ensures
        merged(ingredient_views(all_ingredients(recipes@)), ingredient_views(r@)),
{
    let mut all: Vec<Ingredient> = Vec::new();
    let mut k: usize = 0;
    while k < recipes.len()
        invariant
            k <= recipes@.len(),
            ingredient_views(all@) == ingredient_views(all_ingredients(recipes@.take(k as int))),
        decreases recipes@.len() - k,
    {
        let r = &recipes[k];
        let ghost a0 = all@;
        let mut j: usize = 0;
        while j < r.ingredients.len()
            invariant
                j <= r.ingredients@.len(),
                ingredient_views(all@) == ingredient_views(a0) + ingredient_views(
                    r.ingredients@.take(j as int),
                ),
            decreases r.ingredients@.len() - j,
        {
            let ghost prev = ingredient_views(all@);
            let x = r.ingredients[j].duplicate();
            all.push(x);
            assert(ingredient_views(all@) =~= prev.push(r.ingredients@[j as int]@));
            assert(r.ingredients@.take(j + 1) =~= r.ingredients@.take(j as int).push(
                r.ingredients@[j as int],
            ));
            assert(ingredient_views(r.ingredients@.take(j + 1)) =~= ingredient_views(
                r.ingredients@.take(j as int),
            ).push(r.ingredients@[j as int]@));
            j = j + 1;
            assert(ingredient_views(all@) =~= ingredient_views(a0) + ingredient_views(
                r.ingredients@.take(j as int),
            ));
        }
        assert(r.ingredients@.take(r.ingredients@.len() as int) =~= r.ingredients@);
        assert(recipes@.take(k + 1).drop_last() =~= recipes@.take(k as int));
        assert(ingredient_views(all_ingredients(recipes@.take(k as int)) + r.ingredients@)
            =~= ingredient_views(all_ingredients(recipes@.take(k as int))) + ingredient_views(
            r.ingredients@,
        ));
        k = k + 1;
    }
    assert(recipes@.take(recipes@.len() as int) =~= recipes@);
    merge(all)
}

/// The ingredients of the recipes, one recipe after the other.
pub open spec fn all_ingredients(rs: Seq<Recipe>) -> Seq<Ingredient>
    decreases rs.len(),
{
    if rs.len() == 0 {
        Seq::empty()
    } else {
        all_ingredients(rs.drop_last()) + rs.last().ingredients@
    }
}

pub struct RecipeView {
    pub title: Seq<char>,
    pub ingredients: Seq<IngredientView>,
    pub servings: Option<u8>,
}

/// A line without the carriage return that may end it.
pub open spec fn without_cr(l: Seq<char>) -> Seq<char> {
    if l.len() > 0 && l.last() == '\r' {
        l.drop_last()
    } else {
        l
    }
}

/// The lines of a document: the text between line feeds, each without a final
/// carriage return; a line feed at the very end starts no further line.
pub open spec fn lines(s: Seq<char>) -> Seq<Seq<char>> {
    let raw = split_on(s, '\n');
    let kept = if raw.last().len() == 0 {
        raw.drop_last()
    } else {
        raw
    };
    kept.map_values(|l: Seq<char>| without_cr(l))
}

/// The first line that is not empty, as it stands.
pub open spec fn title_of(ls: Seq<Seq<char>>) -> Option<Seq<char>>
    decreases ls.len(),
{
    if ls.len() == 0 {
        None
    } else if ls[0].len() > 0 {
        Some(ls[0])
    } else {
        title_of(ls.drop_first())
    }
}

/// A list item: optional whitespace, a `-`, then whitespace.
pub open spec fn is_item_line(l: Seq<char>) -> bool {
    let t = trim_start(l);
    t.len() >= 2 && t[0] == '-' && is_ws(t[1])
}

/// The ingredients of the list items that read as ingredients, in order.
pub open spec fn recipe_items(ls: Seq<Seq<char>>) -> Seq<IngredientView>
    decreases ls.len(),
{
    if ls.len() == 0 {
        Seq::empty()
    } else {
        let r = recipe_items(ls.drop_last());
        if is_item_line(ls.last()) && parse_ingredient(ls.last()) is Ok {
            r.push(parse_ingredient(ls.last())->Ok_0)
        } else {
            r
        }
    }
}

pub open spec fn servings_tag() -> Seq<char> {
    seq!['s', 'e', 'r', 'v', 'i', 'n', 'g', 's', ':']
}

/// Equal letters, an upper-case ASCII letter matching its lower case.
pub open spec fn same_letter(c: char, t: char) -> bool {
    c == t || ('A' <= c <= 'Z' && 'a' <= t <= 'z' && (c as u32) + 32 == (t as u32))
}

pub open spec fn tag_at(l: Seq<char>, i: int) -> bool {
    forall|j: int| 0 <= j < 9 ==> same_letter(#[trigger] l[i + j], servings_tag()[j])
}

/// The number a `servings:` line declares (the tag in any letter case): the
/// text after its last colon, trimmed, read as a number up to 255.
pub open spec fn servings_in(l: Seq<char>) -> Option<u8> {
    if exists|i: int| 0 <= i && i + 9 <= l.len() && #[trigger] tag_at(l, i) {
        let v = u32_value(trim(split_on(l, ':').last()));
        if v is Some && v->0 <= 255 {
            Some(v->0 as u8)
        } else {
            None
        }
    } else {
        None
    }
}

/// The number of servings that the last line declaring one gives.
pub open spec fn declared_servings(ls: Seq<Seq<char>>) -> Option<u8>
    decreases ls.len(),
{
    if ls.len() == 0 {
        None
    } else if servings_in(ls.last()) is Some {
        servings_in(ls.last())
    } else {
        declared_servings(ls.drop_last())
    }
}

/// What a recipe document reads as: its first non-empty line is the title,
/// its list items are the ingredients (lines that do not read as one are left
/// out), and a `servings:` line declares the servings. A document without a
/// non-empty line holds no recipe.
pub open spec fn recipe_of(s: Seq<char>) -> Option<RecipeView> {
    let ls = lines(s);
    match title_of(ls) {
        None => None,
        Some(t) => Some(
            RecipeView { title: t, ingredients: recipe_items(ls), servings: declared_servings(ls) },
        ),
    }
}

fn tag_char(j: usize) -> (c: char)
    requires
        j < 9,
    ensures
        c == servings_tag()[j as int],
{
    match j {
        0 => 's',
        1 => 'e',
        2 => 'r',
        3 => 'v',
        4 => 'i',
        5 => 'n',
        6 => 'g',
        7 => 's',
        _ => ':',
    }
}

fn has_tag_at(l: &Vec<char>, i: usize) -> (r: bool)
    requires
        i + 9 <= l@.len(),
    ensures
        r == tag_at(l@, i as int),
{
    let n = l.len();
    let mut j: usize = 0;
    while j < 9
        invariant
            i + 9 <= l@.len(),
            n == l@.len(),
            j <= 9,
            forall|k: int| 0 <= k < j ==> same_letter(#[trigger] l@[i + k], servings_tag()[k]),
        decreases 9 - j,
    {
        let c = l[i + j];
        let t = tag_char(j);
        if !(c == t || ('A' <= c && c <= 'Z' && 'a' <= t && t <= 'z' && (c as u32) + 32 == (
        t as u32))) {
            assert(!same_letter(l@[i + j as int], servings_tag()[j as int]));
            return false;
        }
        j = j + 1;
    }
    true
}

/// The number of servings a line declares, see `servings_in`.
fn servings_of_line(l: &Vec<char>) -> (r: Option<u8>)
    ensures
        r == servings_in(l@),
{
    if l.len() < 9 {
        return None;
    }
    let mut i: usize = 0;
    let mut found = false;
    let last_start = l.len() - 8;
    while i < last_start && !found
        invariant
            9 <= l@.len(),
            last_start == l@.len() - 8,
            i <= last_start,
            found ==> exists|k: int| 0 <= k && k + 9 <= l@.len() && #[trigger] tag_at(l@, k),
            !found ==> forall|k: int| 0 <= k < i ==> !#[trigger] tag_at(l@, k),
        decreases last_start - i,
    {
        if has_tag_at(l, i) {
            found = true;
        }
        i = i + 1;
    }
    if !found {
        return None;
    }
    let parts = split_chars(l, ':');
    let last = trim_chars(&parts[parts.len() - 1]);
    assert(views(parts@).last() == parts@[parts@.len() - 1]@);
    match parse_u32(&last) {
        Some(n) => if n <= 255 {
            Some(n as u8)
        } else {
            None
        },
        None => None,
    }
}

/// Whether a line is a list item, see `is_item_line`.
fn item_line(l: &Vec<char>) -> (r: bool)
    ensures
        r == is_item_line(l@),
{
    let a = skip_whitespace(l);
    l.len() - a >= 2 && l[a] == '-' && is_whitespace(l[a + 1])
}

/// The lines of a document, see `lines`.
fn split_lines(s: &Vec<char>) -> (r: Vec<Vec<char>>)
    ensures
        views(r@) == lines(s@),
{
    let raw = split_chars(s, '\n');
    let ghost rv = views(raw@);
    let n: usize = if raw[raw.len() - 1].len() == 0 {
        raw.len() - 1
    } else {
        raw.len()
    };
    let ghost kept = if rv.last().len() == 0 {
        rv.drop_last()
    } else {
        rv
    };
    assert(rv.last() == raw@[raw@.len() - 1]@);
    let mut r: Vec<Vec<char>> = Vec::new();
    let mut i: usize = 0;
    while i < n
        invariant
            n <= raw@.len(),
            rv == views(raw@),
            kept.len() == n,
            forall|k: int| 0 <= k < n ==> #[trigger] kept[k] == rv[k],
            i <= n,
            views(r@) == kept.take(i as int).map_values(|l: Seq<char>| without_cr(l)),
        decreases n - i,
    {
        let line = &raw[i];
        let mut l: Vec<char> = Vec::new();
        let m: usize = if line.len() > 0 && line[line.len() - 1] == '\r' {
            line.len() - 1
        } else {
            line.len()
        };
        let mut j: usize = 0;
        while j < m
            invariant
                m <= line@.len(),
                j <= m,
                l@ == line@.take(j as int),
            decreases m - j,
        {
            l.push(line[j]);
            j = j + 1;
            assert(l@ =~= line@.take(j as int));
        }
        assert(rv[i as int] == line@);
        assert(l@ =~= without_cr(line@));
        let ghost prev = views(r@);
        r.push(l);
        assert(views(r@) =~= prev.push(without_cr(line@)));
        assert(kept.take(i + 1).map_values(|l: Seq<char>| without_cr(l)) =~= kept.take(
            i as int,
        ).map_values(|l: Seq<char>| without_cr(l)).push(without_cr(kept[i as int])));
        i = i + 1;
    }
    assert(kept.take(n as int) =~= kept);
    r
}

impl Recipe {
    /// Reads a recipe document, see `recipe_of`; `None` where it has no
    /// non-empty line to serve as the title.
    pub fn from_text(content: &str) -> (r: Option<Recipe>)
        ensures
            match r {
                None => recipe_of(content@) is None,
                Some(rec) => recipe_of(content@) == Some(
                    RecipeView {
                        title: rec.title@,
                        ingredients: ingredient_views(rec.ingredients@),
                        servings: rec.servings,
                    },
                ),
            },
    {
        let ls = split_lines(&chars_of(content));
        let ghost lv = views(ls@);
        let mut title: Option<Vec<char>> = None;
        let mut i: usize = 0;
        assert(lv.skip(0) =~= lv);
        while i < ls.len() && title.is_none()
            invariant
                lv == views(ls@),
                i <= lv.len(),
                title is None ==> title_of(lv) == title_of(lv.skip(i as int)),
                title is Some ==> title_of(lv) == Some(title->0@),
            decreases lv.len() - i + if title is None {
                1int
            } else {
                0
            },
        {
            let t = ls[i].clone();
            assert(lv.skip(i as int)[0] == ls@[i as int]@);
            assert(lv.skip(i as int).drop_first() =~= lv.skip(i + 1));
            if t.len() > 0 {
                title = Some(t);
            } else {
                i = i + 1;
            }
        }
        let title = match title {
            None => {
                assert(lv.skip(i as int).len() == 0);
                return None;
            },
            Some(t) => string_of(&t),
        };
        let mut ingredients: Vec<Ingredient> = Vec::new();
        let mut servings: Option<u8> = None;
        let mut k: usize = 0;
        assert(lv.take(0) =~= Seq::<Seq<char>>::empty());
        while k < ls.len()
            invariant
                lv == views(ls@),
                k <= lv.len(),
                ingredient_views(ingredients@) == recipe_items(lv.take(k as int)),
                servings == declared_servings(lv.take(k as int)),
            decreases lv.len() - k,
        {
            let line = &ls[k];
            assert(lv.take(k + 1).drop_last() =~= lv.take(k as int));
            assert(lv.take(k + 1).last() == line@);
            if item_line(line) {
                let text = string_of(line);
                match Ingredient::parse(text.as_str()) {
                    Ok(x) => {
                        let ghost prev = ingredient_views(ingredients@);
                        ingredients.push(x);
                        assert(ingredient_views(ingredients@) =~= prev.push(x@));
                    },
                    Err(_) => {},
                }
            }
            match servings_of_line(line) {
                Some(n) => {
                    servings = Some(n);
                },
                None => {},
            }
            k = k + 1;
        }
        assert(lv.take(lv.len() as int) =~= lv);
        Some(Recipe { title, ingredients, servings })
    }
}

/// Within each name, every two amounts can be added.
pub open spec fn names_compatible(s: Seq<IngredientView>) -> bool {
    forall|i: int, j: int|
        0 <= i < s.len() && 0 <= j < s.len() && s[i].item == s[j].item ==> compatible(
            #[trigger] s[i].amount,
            #[trigger] s[j].amount,
        )
}

/// The canonical magnitudes of the entries, added up.
pub open spec fn canonical_sum(g: Seq<IngredientView>) -> nat
    decreases g.len(),
{
    if g.len() == 0 {
        0
    } else {
        canonical_sum(g.drop_last()) + canonical(g.last().amount)
    }
}

/// The total of two or more entries that can all be added: the sum of their
/// canonical magnitudes, in the canonical unit of their kind.
pub open spec fn combined(g: Seq<IngredientView>) -> QuantityView {
    match g[0].amount {
        QuantityView::Pieces(_) => QuantityView::Pieces(canonical_sum(g)),
        QuantityView::Weight(_, _) => QuantityView::Weight(WeightUnit::Gram, canonical_sum(g)),
        QuantityView::Volume(_, _) => QuantityView::Volume(VolumeUnit::Milliliter, canonical_sum(g)),
        QuantityView::Custom(_, l) => QuantityView::Custom(canonical_sum(g), l),
    }
}

proof fn lemma_total_combined(g: Seq<IngredientView>)
    requires
        g.len() >= 2,
        forall|k: int| 0 <= k < g.len() ==> compatible(g[0].amount, #[trigger] g[k].amount),
    ensures
        total(g) == combined(g),
    decreases g.len(),
{
    let h = g.drop_last();
    assert(h[0] == g[0]);
    assert(compatible(g[0].amount, g[g.len() - 1].amount));
    assert(g.drop_last() == h);
    if h.len() == 1 {
        assert(h.drop_last().len() == 0);
        assert(canonical_sum(h.drop_last()) == 0);
        assert(h.last() == g[0]);
        assert(canonical_sum(h) == canonical(g[0].amount));
        assert(total(h) == g[0].amount);
    } else {
        assert forall|k: int| 0 <= k < h.len() implies compatible(h[0].amount, #[trigger] h[k].amount) by {
            assert(h[k] == g[k]);
        }
        lemma_total_combined(h);
    }
}

proof fn lemma_sum_remove(b: Seq<IngredientView>, j: int)
    requires
        0 <= j < b.len(),
    ensures
        canonical_sum(b) == canonical_sum(b.remove(j)) + canonical(b[j].amount),
    decreases b.len(),
{
    if j < b.len() - 1 {
        assert(b.remove(j).drop_last() =~= b.drop_last().remove(j));
        assert(b.remove(j).last() == b.last());
        lemma_sum_remove(b.drop_last(), j);
    } else {
        assert(b.remove(j) =~= b.drop_last());
    }
}

proof fn lemma_sum_permutation(a: Seq<IngredientView>, b: Seq<IngredientView>)
    requires
        a.to_multiset() == b.to_multiset(),
    ensures
        canonical_sum(a) == canonical_sum(b),
    decreases a.len(),
{
    broadcast use vstd::seq_lib::group_to_multiset_ensures, vstd::multiset::group_multiset_axioms;

    if a.len() == 0 {
        assert(b.to_multiset().len() == 0);
    } else {
        let x = a.last();
        assert(a.drop_last().push(x) =~= a);
        assert(b.to_multiset().count(x) > 0);
        assert(b.contains(x));
        let j = choose|j: int| 0 <= j < b.len() && b[j] == x;
        assert(a.drop_last().to_multiset() =~= b.remove(j).to_multiset());
        lemma_sum_permutation(a.drop_last(), b.remove(j));
        lemma_sum_remove(b, j);
    }
}

proof fn lemma_named_count(s: Seq<IngredientView>, n: Seq<char>, x: IngredientView)
    ensures
        named(s, n).to_multiset().count(x) == if x.item == n {
            s.to_multiset().count(x)
        } else {
            0
        },
    decreases s.len(),
{
    broadcast use vstd::seq_lib::group_to_multiset_ensures, vstd::multiset::group_multiset_axioms;

    if s.len() == 0 {
        assert(named(s, n).len() == 0);
    } else {
        lemma_named_count(s.drop_last(), n, x);
        assert(s.drop_last().push(s.last()) =~= s);
    }
}

/// For one name, reordering the list keeps the number of its entries and its
/// total, when its amounts can all be added.
proof fn lemma_named_reordered(s: Seq<IngredientView>, t: Seq<IngredientView>, n: Seq<char>)
    requires
        s.to_multiset() == t.to_multiset(),
        names_compatible(s),
    ensures
        named(s, n).len() == named(t, n).len(),
        total(named(s, n)) == total(named(t, n)),
{
    broadcast use vstd::seq_lib::group_to_multiset_ensures, vstd::multiset::group_multiset_axioms;

    let g = named(s, n);
    let h = named(t, n);
    assert forall|x: IngredientView| g.to_multiset().count(x) == h.to_multiset().count(x) by {
        lemma_named_count(s, n, x);
        lemma_named_count(t, n, x);
    }
    assert(g.to_multiset() =~= h.to_multiset());
    vstd::seq_lib::to_multiset_len(g);
    vstd::seq_lib::to_multiset_len(h);
    assert(g.len() == h.len());
    // Every entry of either group is an entry of `s` with name `n`.
    assert forall|k: int| 0 <= k < g.len() implies s.contains(#[trigger] g[k]) && g[k].item == n by {
        assert(g.contains(g[k]));
        lemma_named_count(s, n, g[k]);
    }
    assert forall|k: int| 0 <= k < h.len() implies s.contains(#[trigger] h[k]) && h[k].item == n by {
        assert(h.contains(h[k]));
        lemma_named_count(t, n, h[k]);
    }
    if g.len() == 1 {
        vstd::seq_lib::to_multiset_contains(h, h[0]);
        vstd::seq_lib::to_multiset_contains(g, h[0]);
        assert(h.contains(h[0]));
        assert(g.contains(h[0]));
        assert(h.drop_last().len() == 0 && g.drop_last().len() == 0);
    } else if g.len() >= 2 {
        assert forall|k: int| 0 <= k < g.len() implies compatible(g[0].amount, #[trigger] g[k].amount) by {
            assert(s.contains(g[0]) && s.contains(g[k]));
            let i = choose|i: int| 0 <= i < s.len() && s[i] == g[0];
            let j = choose|j: int| 0 <= j < s.len() && s[j] == g[k];
            assert(compatible(s[i].amount, s[j].amount));
        }
        assert forall|k: int| 0 <= k < h.len() implies compatible(h[0].amount, #[trigger] h[k].amount) by {
            assert(s.contains(h[0]) && s.contains(h[k]));
            let i = choose|i: int| 0 <= i < s.len() && s[i] == h[0];
            let j = choose|j: int| 0 <= j < s.len() && s[j] == h[k];
            assert(compatible(s[i].amount, s[j].amount));
        }
        lemma_total_combined(g);
        lemma_total_combined(h);
        lemma_sum_permutation(g, h);
        assert(s.contains(g[0]) && s.contains(h[0]));
        let i = choose|i: int| 0 <= i < s.len() && s[i] == g[0];
        let j = choose|j: int| 0 <= j < s.len() && s[j] == h[0];
        assert(compatible(s[i].amount, s[j].amount));
    }
}

/// Merging does not depend on the order of the entries when, within each
/// name, every two amounts can be added: a reordering of the list is merged
/// into exactly the same entries, and can be merged exactly when the list can.
pub proof fn lemma_merge_order_free(
    s: Seq<IngredientView>,
    t: Seq<IngredientView>,
    r: Seq<IngredientView>,
)
    requires
        s.to_multiset() == t.to_multiset(),
        names_compatible(s),
    ensures
        merged(s, r) <==> merged(t, r),
        mergeable(s) <==> mergeable(t),
{
    broadcast use vstd::seq_lib::group_to_multiset_ensures, vstd::multiset::group_multiset_axioms;

    assert forall|n: Seq<char>|
        named(s, n).len() == named(t, n).len() && #[trigger] total(named(s, n)) == total(
            named(t, n),
        ) by {
        lemma_named_reordered(s, t, n);
    }
    if mergeable(s) {
        assert forall|n: Seq<char>| canonical(#[trigger] total(named(t, n))) <= u32::MAX by {
            assert(total(named(s, n)) == total(named(t, n)));
        }
    }
    if mergeable(t) {
        assert forall|n: Seq<char>| canonical(#[trigger] total(named(s, n))) <= u32::MAX by {
            assert(total(named(s, n)) == total(named(t, n)));
        }
    }
    if merged(s, r) {
        assert forall|i: int| 0 <= i < t.len() implies exists|k: int|
            0 <= k < r.len() && r[k].item == #[trigger] t[i].item by {
            assert(t.contains(t[i]));
            vstd::seq_lib::to_multiset_contains(t, t[i]);
            vstd::seq_lib::to_multiset_contains(s, t[i]);
            assert(s.contains(t[i]));
            let j = choose|j: int| 0 <= j < s.len() && s[j] == t[i];
            assert(exists|k: int| 0 <= k < r.len() && r[k].item == #[trigger] s[j].item);
        }
        assert forall|k: int| 0 <= k < r.len() implies named(t, #[trigger] r[k].item).len() > 0
            && r[k].amount == total(named(t, r[k].item)) by {
            lemma_named_reordered(s, t, r[k].item);
        }
    }
    if merged(t, r) {
        assert forall|i: int| 0 <= i < s.len() implies exists|k: int|
            0 <= k < r.len() && r[k].item == #[trigger] s[i].item by {
            assert(s.contains(s[i]));
            vstd::seq_lib::to_multiset_contains(t, s[i]);
            vstd::seq_lib::to_multiset_contains(s, s[i]);
            assert(t.contains(s[i]));
            let j = choose|j: int| 0 <= j < t.len() && t[j] == s[i];
            assert(exists|k: int| 0 <= k < r.len() && r[k].item == #[trigger] t[j].item);
        }
        assert forall|k: int| 0 <= k < r.len() implies named(s, #[trigger] r[k].item).len() > 0
            && r[k].amount == total(named(s, r[k].item)) by {
            lemma_named_reordered(s, t, r[k].item);
        }
    }
}

} // verus!
