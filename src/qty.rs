//! Quantities: a count of pieces, a weight, a volume or a count of some other
//! named unit; their canonical units (grams, milliliters), addition, scaling,
//! re-expression in the most readable unit, parsing and display.

use crate::text::{
    chars_of, decimal, decimal_chars, join_from, join_words, lemma_decimal, lemma_join_nonempty,
    lemma_words_nonempty_words,
    lemma_words_after_word, all_ascii, ascii_lower, lower_case, parse_u32, to_lower, same_chars, split_words, string_of,
    u32_value, views, words,
};
use vstd::prelude::*;

verus! {

/// A weight in one of the known units.
#[derive(Clone, Copy, Debug, PartialEq, Eq, Hash, Structural)]
pub enum Weight {
    /// 1000 g each.
    Kilogram(u32),
    Gram(u32),
    /// 453.59237 g each.
    Pounds(u32),
    /// A sixteenth of a pound each.
    Ounces(u32),
}

/// A volume in one of the known units. `Spices` is the Swedish spice measure
/// (kryddmått), one milliliter.
#[derive(Clone, Copy, Debug, PartialEq, Eq, Hash, Structural)]
pub enum Volume {
    /// 1000 ml each.
    Liter(u32),
    /// 100 ml each.
    Deciliter(u32),
    /// 10 ml each.
    Centiliter(u32),
    Milliliter(u32),
    /// 15 ml each.
    Tablespoon(u32),
    /// 5 ml each.
    Teaspoon(u32),
    /// 1 ml each.
    Spices(u32),
    /// 473 ml each.
    Pints(u32),
    /// 237 ml each.
    Cups(u32),
    /// Fluid ounces, 29.6 ml each.
    Ounces(u32),
}

/// An amount together with its unit.
#[derive(Clone, Debug, Hash)]
pub enum Quantity {
    /// A count of things without a unit.
    Pieces(u32),
    Weight(Weight),
    Volume(Volume),
    /// A count of some other unit, by its lower-case name.
    Custom(u32, String),
}

pub enum WeightUnit {
    Kilogram,
    Gram,
    Pounds,
    Ounces,
}

pub enum VolumeUnit {
    Liter,
    Deciliter,
    Centiliter,
    Milliliter,
    Tablespoon,
    Teaspoon,
    Spices,
    Pints,
    Cups,
    Ounces,
}

/// The units that have a fixed conversion.
pub enum Unit {
    Weight(WeightUnit),
    Volume(VolumeUnit),
}

/// A quantity as a mathematical value: the magnitude is a natural number, the
/// label of a custom unit a character sequence.
pub enum QuantityView {
    Pieces(nat),
    Weight(WeightUnit, nat),
    Volume(VolumeUnit, nat),
    Custom(nat, Seq<char>),
}

/// Grams in `n` of a weight unit; a pound is 453.59237 g and an ounce a
/// sixteenth of it, and a fractional result is rounded down.
pub open spec fn grams_in(u: WeightUnit, n: nat) -> nat {
    match u {
        WeightUnit::Kilogram => 1000 * n,
        WeightUnit::Gram => n,
        WeightUnit::Pounds => n * 45359237 / 100000,
        WeightUnit::Ounces => n * 45359237 / 1600000,
    }
}

/// Milliliters in `n` of a volume unit; a fluid ounce is 29.6 ml, and a
/// fractional result is rounded down.
pub open spec fn milliliters_in(u: VolumeUnit, n: nat) -> nat {
    match u {
        VolumeUnit::Liter => 1000 * n,
        VolumeUnit::Deciliter => 100 * n,
        VolumeUnit::Centiliter => 10 * n,
        VolumeUnit::Milliliter => n,
        VolumeUnit::Spices => n,
        VolumeUnit::Tablespoon => 15 * n,
        VolumeUnit::Teaspoon => 5 * n,
        VolumeUnit::Pints => 473 * n,
        VolumeUnit::Cups => 237 * n,
        VolumeUnit::Ounces => n * 296 / 10,
    }
}

/// The magnitude in the canonical unit of the quantity's kind: pieces, grams,
/// milliliters, or the count of a custom unit.
pub open spec fn canonical(q: QuantityView) -> nat {
    match q {
        QuantityView::Pieces(n) => n,
        QuantityView::Weight(u, n) => grams_in(u, n),
        QuantityView::Volume(u, n) => milliliters_in(u, n),
        QuantityView::Custom(n, _) => n,
    }
}

/// The magnitude as written, in the quantity's own unit.
pub open spec fn magnitude(q: QuantityView) -> nat {
    match q {
        QuantityView::Pieces(n) => n,
        QuantityView::Weight(_, n) => n,
        QuantityView::Volume(_, n) => n,
        QuantityView::Custom(n, _) => n,
    }
}

/// Whether two quantities can be added: both pieces, both weights, both
/// volumes, or custom units with the same label.
pub open spec fn compatible(a: QuantityView, b: QuantityView) -> bool {
    match (a, b) {
        (QuantityView::Pieces(_), QuantityView::Pieces(_)) => true,
        (QuantityView::Weight(_, _), QuantityView::Weight(_, _)) => true,
        (QuantityView::Volume(_, _), QuantityView::Volume(_, _)) => true,
        (QuantityView::Custom(_, l0), QuantityView::Custom(_, l1)) => l0 == l1,
        _ => false,
    }
}

/// The sum of two quantities: weights add up in grams, volumes in
/// milliliters, pieces and equal custom units by their counts. Any other pair
/// leaves the left operand as it is.
pub open spec fn sum_of(a: QuantityView, b: QuantityView) -> QuantityView {
    if !compatible(a, b) {
        a
    } else {
        match a {
            QuantityView::Pieces(n) => QuantityView::Pieces(n + canonical(b)),
            QuantityView::Weight(_, _) => QuantityView::Weight(
                WeightUnit::Gram,
                canonical(a) + canonical(b),
            ),
            QuantityView::Volume(_, _) => QuantityView::Volume(
                VolumeUnit::Milliliter,
                canonical(a) + canonical(b),
            ),
            QuantityView::Custom(n, l) => QuantityView::Custom(n + canonical(b), l),
        }
    }
}

/// Whether the sum of two quantities fits in the magnitude's 32 bits.
pub open spec fn sum_fits(a: QuantityView, b: QuantityView) -> bool {
    compatible(a, b) ==> canonical(a) + canonical(b) <= u32::MAX
}

/// The same quantity in the most readable unit: kilograms when the grams are a
/// whole number of them, else grams; liters, deciliters or centiliters when the
/// milliliters are a whole number of one of them (the largest first), else
/// milliliters. Pieces and custom units stay as they are.
pub open spec fn normalize(q: QuantityView) -> QuantityView {
    match q {
        QuantityView::Weight(u, n) => {
            let g = grams_in(u, n);
            if g % 1000 == 0 {
                QuantityView::Weight(WeightUnit::Kilogram, g / 1000)
            } else {
                QuantityView::Weight(WeightUnit::Gram, g)
            }
        },
        QuantityView::Volume(u, n) => {
            let ml = milliliters_in(u, n);
            if ml % 1000 == 0 {
                QuantityView::Volume(VolumeUnit::Liter, ml / 1000)
            } else if ml % 100 == 0 {
                QuantityView::Volume(VolumeUnit::Deciliter, ml / 100)
            } else if ml % 10 == 0 {
                QuantityView::Volume(VolumeUnit::Centiliter, ml / 10)
            } else {
                QuantityView::Volume(VolumeUnit::Milliliter, ml)
            }
        },
        _ => q,
    }
}

/// A magnitude multiplied by `numer / denom`, rounded down, raised to 1 when
/// that gives 0, and held at the largest 32-bit value when it exceeds it.
pub open spec fn scaled(n: nat, numer: nat, denom: nat) -> nat {
    let v = n * numer / denom;
    if v == 0 {
        1
    } else if v > u32::MAX {
        u32::MAX as nat
    } else {
        v
    }
}

/// The quantity with its magnitude scaled, its unit unchanged.
pub open spec fn scale_by(q: QuantityView, numer: nat, denom: nat) -> QuantityView {
    match q {
        QuantityView::Pieces(n) => QuantityView::Pieces(scaled(n, numer, denom)),
        QuantityView::Weight(u, n) => QuantityView::Weight(u, scaled(n, numer, denom)),
        QuantityView::Volume(u, n) => QuantityView::Volume(u, scaled(n, numer, denom)),
        QuantityView::Custom(n, l) => QuantityView::Custom(scaled(n, numer, denom), l),
    }
}

impl Weight {
    pub open spec fn unit_of(&self) -> WeightUnit {
        match self {
            Weight::Kilogram(_) => WeightUnit::Kilogram,
            Weight::Gram(_) => WeightUnit::Gram,
            Weight::Pounds(_) => WeightUnit::Pounds,
            Weight::Ounces(_) => WeightUnit::Ounces,
        }
    }

    pub open spec fn count(&self) -> u32 {
        match self {
            Weight::Kilogram(n) => *n,
            Weight::Gram(n) => *n,
            Weight::Pounds(n) => *n,
            Weight::Ounces(n) => *n,
        }
    }

    pub open spec fn grams(&self) -> nat {
        grams_in(self.unit_of(), self.count() as nat)
    }
}

impl Volume {
    pub open spec fn unit_of(&self) -> VolumeUnit {
        match self {
            Volume::Liter(_) => VolumeUnit::Liter,
            Volume::Deciliter(_) => VolumeUnit::Deciliter,
            Volume::Centiliter(_) => VolumeUnit::Centiliter,
            Volume::Milliliter(_) => VolumeUnit::Milliliter,
            Volume::Tablespoon(_) => VolumeUnit::Tablespoon,
            Volume::Teaspoon(_) => VolumeUnit::Teaspoon,
            Volume::Spices(_) => VolumeUnit::Spices,
            Volume::Pints(_) => VolumeUnit::Pints,
            Volume::Cups(_) => VolumeUnit::Cups,
            Volume::Ounces(_) => VolumeUnit::Ounces,
        }
    }

    pub open spec fn count(&self) -> u32 {
        match self {
            Volume::Liter(n) => *n,
            Volume::Deciliter(n) => *n,
            Volume::Centiliter(n) => *n,
            Volume::Milliliter(n) => *n,
            Volume::Tablespoon(n) => *n,
            Volume::Teaspoon(n) => *n,
            Volume::Spices(n) => *n,
            Volume::Pints(n) => *n,
            Volume::Cups(n) => *n,
            Volume::Ounces(n) => *n,
        }
    }

    pub open spec fn milliliters(&self) -> nat {
        milliliters_in(self.unit_of(), self.count() as nat)
    }
}

impl View for Quantity {
    type V = QuantityView;

    open spec fn view(&self) -> QuantityView {
        match self {
            Quantity::Pieces(n) => QuantityView::Pieces(*n as nat),
            Quantity::Weight(w) => QuantityView::Weight(w.unit_of(), w.count() as nat),
            Quantity::Volume(v) => QuantityView::Volume(v.unit_of(), v.count() as nat),
            Quantity::Custom(n, l) => QuantityView::Custom(*n as nat, l@),
        }
    }
}

impl PartialEq for Quantity {
    fn eq(&self, other: &Quantity) -> (r: bool) {
        match (self, other) {
            (Quantity::Pieces(a), Quantity::Pieces(b)) => *a == *b,
            (Quantity::Weight(a), Quantity::Weight(b)) => *a == *b,
            (Quantity::Volume(a), Quantity::Volume(b)) => *a == *b,
            (Quantity::Custom(a, l), Quantity::Custom(b, m)) => *a == *b && *l == *m,
            _ => false,
        }
    }
}

impl vstd::std_specs::cmp::PartialEqSpecImpl for Quantity {
    open spec fn obeys_eq_spec() -> bool {
        true
    }

    open spec fn eq_spec(&self, other: &Quantity) -> bool {
        self@ == other@
    }
}

impl Eq for Quantity {

}

impl Weight {
    /// The weight in grams.
    pub fn as_grams(&self) -> (r: u32)
        requires
            self.grams() <= u32::MAX,
        ensures
            r == self.grams(),
    {
        let n: u64 = self.amount() as u64;
        assert(n * 45359237 <= 0xFFFF_FFFFu64 * 45359237) by (nonlinear_arith)
            requires
                n <= 0xFFFF_FFFFu64,
        ;
        let grams: u64 = match self {
            Weight::Kilogram(_) => n * 1000,
            Weight::Gram(_) => n,
            Weight::Pounds(_) => n * 45359237 / 100000,
            Weight::Ounces(_) => n * 45359237 / 1600000,
        };
        grams as u32
    }
}

impl Volume {
    /// The volume in milliliters.
    pub fn as_milliliters(&self) -> (r: u32)
        requires
            self.milliliters() <= u32::MAX,
        ensures
            r == self.milliliters(),
    {
        let n: u64 = self.amount() as u64;
        let ml: u64 = match self {
            Volume::Liter(_) => n * 1000,
            Volume::Deciliter(_) => n * 100,
            Volume::Centiliter(_) => n * 10,
            Volume::Milliliter(_) | Volume::Spices(_) => n,
            Volume::Tablespoon(_) => n * 15,
            Volume::Teaspoon(_) => n * 5,
            Volume::Pints(_) => n * 473,
            Volume::Cups(_) => n * 237,
            Volume::Ounces(_) => n * 296 / 10,
        };
        ml as u32
    }
}

/// The known spellings of each unit.
pub open spec fn spellings(u: Unit) -> Seq<Seq<char>> {
    match u {
        Unit::Volume(VolumeUnit::Liter) => seq!["l"@, "liter"@, "liters"@],
        Unit::Volume(VolumeUnit::Deciliter) => seq!["dl"@, "deciliter"@, "deciliters"@],
        Unit::Volume(VolumeUnit::Centiliter) => seq!["cl"@, "centiliter"@, "centiliters"@],
        Unit::Volume(VolumeUnit::Milliliter) => seq!["ml"@, "milliliter"@, "milliliters"@],
        Unit::Volume(VolumeUnit::Tablespoon) => seq!["tbsp"@, "tb"@, "msk"@, "matsked"@, "tablespoon"@, "tablespoons"@],
        Unit::Volume(VolumeUnit::Teaspoon) => seq!["tspn"@, "tsp"@, "ts"@, "tsk"@, "tesked"@, "teaspoon"@, "teaspoons"@],
        Unit::Volume(VolumeUnit::Spices) => seq!["krm"@, "kryddmått"@],
        Unit::Volume(VolumeUnit::Pints) => seq!["p"@, "pt"@, "pint"@, "pints"@],
        Unit::Volume(VolumeUnit::Cups) => seq!["cup"@, "cups"@],
        Unit::Volume(VolumeUnit::Ounces) => seq!["fl oz"@, "fluid ounce"@, "fluid ounces"@],
        Unit::Weight(WeightUnit::Gram) => seq!["g"@, "gram"@, "grams"@],
        Unit::Weight(WeightUnit::Kilogram) => seq!["kg"@, "kilogram"@, "kilograms"@],
        Unit::Weight(WeightUnit::Ounces) => seq!["oz"@, "ounce"@, "ounces"@],
        Unit::Weight(WeightUnit::Pounds) => seq!["lbs"@, "pound"@, "pounds"@],
    }
}

/// The unit that a lower-case spelling names, if it is one of the known
/// spellings.
pub open spec fn named_unit(p: Seq<char>) -> Option<Unit> {
    if p == "l"@ || p == "liter"@ || p == "liters"@ {
        Some(Unit::Volume(VolumeUnit::Liter))
    } else if p == "dl"@ || p == "deciliter"@ || p == "deciliters"@ {
        Some(Unit::Volume(VolumeUnit::Deciliter))
    } else if p == "cl"@ || p == "centiliter"@ || p == "centiliters"@ {
        Some(Unit::Volume(VolumeUnit::Centiliter))
    } else if p == "ml"@ || p == "milliliter"@ || p == "milliliters"@ {
        Some(Unit::Volume(VolumeUnit::Milliliter))
    } else if p == "tbsp"@ || p == "tb"@ || p == "msk"@ || p == "matsked"@ || p == "tablespoon"@ || p == "tablespoons"@ {
        Some(Unit::Volume(VolumeUnit::Tablespoon))
    } else if p == "tspn"@ || p == "tsp"@ || p == "ts"@ || p == "tsk"@ || p == "tesked"@ || p == "teaspoon"@ || p == "teaspoons"@ {
        Some(Unit::Volume(VolumeUnit::Teaspoon))
    } else if p == "krm"@ || p == "kryddmått"@ {
        Some(Unit::Volume(VolumeUnit::Spices))
    } else if p == "p"@ || p == "pt"@ || p == "pint"@ || p == "pints"@ {
        Some(Unit::Volume(VolumeUnit::Pints))
    } else if p == "cup"@ || p == "cups"@ {
        Some(Unit::Volume(VolumeUnit::Cups))
    } else if p == "fl oz"@ || p == "fluid ounce"@ || p == "fluid ounces"@ {
        Some(Unit::Volume(VolumeUnit::Ounces))
    } else if p == "g"@ || p == "gram"@ || p == "grams"@ {
        Some(Unit::Weight(WeightUnit::Gram))
    } else if p == "kg"@ || p == "kilogram"@ || p == "kilograms"@ {
        Some(Unit::Weight(WeightUnit::Kilogram))
    } else if p == "oz"@ || p == "ounce"@ || p == "ounces"@ {
        Some(Unit::Weight(WeightUnit::Ounces))
    } else if p == "lbs"@ || p == "pound"@ || p == "pounds"@ {
        Some(Unit::Weight(WeightUnit::Pounds))
    } else {
        None
    }
}

/// The quantity of `n` in the unit that a phrase names: pieces where there is
/// no phrase, a known unit where its lower-case form is one of that unit's
/// spellings, and otherwise a custom unit labelled with that lower-case form.
pub open spec fn with_unit(n: nat, p: Seq<char>) -> QuantityView {
    if p.len() == 0 {
        QuantityView::Pieces(n)
    } else {
        in_unit(n, lower_case(p))
    }
}

/// `n` of the unit that a lower-case spelling names: a known unit where it is
/// one of that unit's spellings, otherwise a custom unit with that label.
pub open spec fn in_unit(n: nat, lowered: Seq<char>) -> QuantityView {
    match named_unit(lowered) {
        Some(Unit::Weight(u)) => QuantityView::Weight(u, n),
        Some(Unit::Volume(u)) => QuantityView::Volume(u, n),
        None => QuantityView::Custom(n, lowered),
    }
}

/// What a quantity text reads as: no text is one piece; otherwise its first
/// word is the amount, a positive integer, and the remaining words, joined by
/// single spaces, name the unit.
pub open spec fn parse_quantity(s: Seq<char>) -> Result<QuantityView, Seq<char>> {
    if s.len() == 0 {
        Ok(QuantityView::Pieces(1))
    } else {
        let ws = words(s);
        let tok = if ws.len() > 0 {
            ws[0]
        } else {
            Seq::empty()
        };
        match u32_value(tok) {
            None => Err("Invalid quantifier/integer: "@ + tok),
            Some(n) => if n == 0 {
                Err("Invalid amount: 0"@)
            } else {
                Ok(with_unit(n, join_words(ws.drop_first())))
            },
        }
    }
}

/// The name under which a quantity's unit is shown; pieces have none.
pub open spec fn unit_text(q: QuantityView) -> Seq<char> {
    match q {
        QuantityView::Pieces(_) => Seq::empty(),
        QuantityView::Weight(u, _) => match u {
            WeightUnit::Kilogram => "kg"@,
            WeightUnit::Gram => "g"@,
            WeightUnit::Pounds => "lbs"@,
            WeightUnit::Ounces => "oz"@,
        },
        QuantityView::Volume(u, _) => match u {
            VolumeUnit::Liter => "l"@,
            VolumeUnit::Deciliter => "dl"@,
            VolumeUnit::Centiliter => "cl"@,
            VolumeUnit::Milliliter => "ml"@,
            VolumeUnit::Tablespoon => "tablespoon"@,
            VolumeUnit::Teaspoon => "teaspoon"@,
            VolumeUnit::Spices => "spices"@,
            VolumeUnit::Pints => "pints"@,
            VolumeUnit::Cups => "cups"@,
            VolumeUnit::Ounces => "fl oz"@,
        },
        QuantityView::Custom(_, l) => l,
    }
}

/// A quantity as shown: the amount, then a space and the unit unless it
/// counts pieces.
pub open spec fn quantity_text(q: QuantityView) -> Seq<char> {
    match q {
        QuantityView::Pieces(n) => decimal(n),
        _ => decimal(magnitude(q)) + seq![' '] + unit_text(q),
    }
}

/// The unit that a lower-case spelling names.
fn unit_named(p: &Vec<char>) -> (r: Option<Unit>)
    ensures
        r == named_unit(p@),
{
    if same_chars(p, "l") || same_chars(p, "liter") || same_chars(p, "liters") {
        Some(Unit::Volume(VolumeUnit::Liter))
    } else if same_chars(p, "dl") || same_chars(p, "deciliter") || same_chars(p, "deciliters") {
        Some(Unit::Volume(VolumeUnit::Deciliter))
    } else if same_chars(p, "cl") || same_chars(p, "centiliter") || same_chars(p, "centiliters") {
        Some(Unit::Volume(VolumeUnit::Centiliter))
    } else if same_chars(p, "ml") || same_chars(p, "milliliter") || same_chars(p, "milliliters") {
        Some(Unit::Volume(VolumeUnit::Milliliter))
    } else if same_chars(p, "tbsp") || same_chars(p, "tb") || same_chars(p, "msk") || same_chars(p, "matsked") || same_chars(p, "tablespoon") || same_chars(p, "tablespoons") {
        Some(Unit::Volume(VolumeUnit::Tablespoon))
    } else if same_chars(p, "tspn") || same_chars(p, "tsp") || same_chars(p, "ts") || same_chars(p, "tsk") || same_chars(p, "tesked") || same_chars(p, "teaspoon") || same_chars(p, "teaspoons") {
        Some(Unit::Volume(VolumeUnit::Teaspoon))
    } else if same_chars(p, "krm") || same_chars(p, "kryddmått") {
        Some(Unit::Volume(VolumeUnit::Spices))
    } else if same_chars(p, "p") || same_chars(p, "pt") || same_chars(p, "pint") || same_chars(p, "pints") {
        Some(Unit::Volume(VolumeUnit::Pints))
    } else if same_chars(p, "cup") || same_chars(p, "cups") {
        Some(Unit::Volume(VolumeUnit::Cups))
    } else if same_chars(p, "fl oz") || same_chars(p, "fluid ounce") || same_chars(p, "fluid ounces") {
        Some(Unit::Volume(VolumeUnit::Ounces))
    } else if same_chars(p, "g") || same_chars(p, "gram") || same_chars(p, "grams") {
        Some(Unit::Weight(WeightUnit::Gram))
    } else if same_chars(p, "kg") || same_chars(p, "kilogram") || same_chars(p, "kilograms") {
        Some(Unit::Weight(WeightUnit::Kilogram))
    } else if same_chars(p, "oz") || same_chars(p, "ounce") || same_chars(p, "ounces") {
        Some(Unit::Weight(WeightUnit::Ounces))
    } else if same_chars(p, "lbs") || same_chars(p, "pound") || same_chars(p, "pounds") {
        Some(Unit::Weight(WeightUnit::Pounds))
    } else {
        None
    }
}

fn quantity_in(u: Unit, n: u32) -> (r: Quantity)
    ensures
        r@ == match u {
            Unit::Weight(w) => QuantityView::Weight(w, n as nat),
            Unit::Volume(v) => QuantityView::Volume(v, n as nat),
        },
{
    match u {
        Unit::Weight(w) => Quantity::Weight(
            match w {
                WeightUnit::Kilogram => Weight::Kilogram(n),
                WeightUnit::Gram => Weight::Gram(n),
                WeightUnit::Pounds => Weight::Pounds(n),
                WeightUnit::Ounces => Weight::Ounces(n),
            },
        ),
        Unit::Volume(v) => Quantity::Volume(
            match v {
                VolumeUnit::Liter => Volume::Liter(n),
                VolumeUnit::Deciliter => Volume::Deciliter(n),
                VolumeUnit::Centiliter => Volume::Centiliter(n),
                VolumeUnit::Milliliter => Volume::Milliliter(n),
                VolumeUnit::Tablespoon => Volume::Tablespoon(n),
                VolumeUnit::Teaspoon => Volume::Teaspoon(n),
                VolumeUnit::Spices => Volume::Spices(n),
                VolumeUnit::Pints => Volume::Pints(n),
                VolumeUnit::Cups => Volume::Cups(n),
                VolumeUnit::Ounces => Volume::Ounces(n),
            },
        ),
    }
}

/// `n` of the unit that a lower-case unit phrase names, see `in_unit`; for
/// example `2` and `"l"` give 2 liters, `3` and `"packages"` 3 packages.
pub fn quantity_in_unit(n: u32, lowered: String) -> (r: Quantity)
    ensures
        r@ == in_unit(n as nat, lowered@),
{
    let chars = chars_of(lowered.as_str());
    match unit_named(&chars) {
        Some(u) => quantity_in(u, n),
        None => Quantity::Custom(n, lowered),
    }
}

/// A magnitude scaled by `numer / denom`, see `scaled`.
fn multi(n: u32, numer: u32, denom: u32) -> (r: u32)
    requires
        denom > 0,
    ensures
        r == scaled(n as nat, numer as nat, denom as nat),
{
    assert((n as u64) * (numer as u64) <= 0xFFFF_FFFFu64 * 0xFFFF_FFFFu64) by (nonlinear_arith)
        requires
            n <= 0xFFFF_FFFFu64,
            numer <= 0xFFFF_FFFFu64,
    ;
    let p: u64 = (n as u64) * (numer as u64);
    let v: u64 = p / (denom as u64);
    if v == 0 {
        1
    } else if v > 0xFFFF_FFFF {
        0xFFFF_FFFF
    } else {
        v as u32
    }
}

impl Weight {
    /// The sum of two weights, in grams.
    pub fn add(self, other: Weight) -> (r: Weight)
        requires
            self.grams() + other.grams() <= u32::MAX,
        ensures
            r == Weight::Gram((self.grams() + other.grams()) as u32),
    {
        Weight::Gram(self.as_grams() + other.as_grams())
    }

    /// The magnitude, in the weight's own unit.
    pub fn amount(&self) -> (r: u32)
        ensures
            r == self.count(),
    {
        match *self {
            Weight::Kilogram(n) | Weight::Gram(n) | Weight::Pounds(n) | Weight::Ounces(n) => n,
        }
    }

    /// The short name of the weight's unit.
    pub fn unit(&self) -> (r: &str)
        ensures
            r@ == unit_text(QuantityView::Weight(self.unit_of(), 0)),
    {
        match self {
            Weight::Kilogram(_) => "kg",
            Weight::Gram(_) => "g",
            Weight::Pounds(_) => "lbs",
            Weight::Ounces(_) => "oz",
        }
    }
}

impl Volume {
    /// The sum of two volumes, in milliliters.
    pub fn add(self, other: Volume) -> (r: Volume)
        requires
            self.milliliters() + other.milliliters() <= u32::MAX,
        ensures
            r == Volume::Milliliter((self.milliliters() + other.milliliters()) as u32),
    {
        Volume::Milliliter(self.as_milliliters() + other.as_milliliters())
    }

    /// The magnitude, in the volume's own unit.
    pub fn amount(&self) -> (r: u32)
        ensures
            r == self.count(),
    {
        match *self {
            Volume::Liter(n) | Volume::Deciliter(n) | Volume::Centiliter(n) | Volume::Milliliter(n)
            | Volume::Tablespoon(n) | Volume::Teaspoon(n) | Volume::Spices(n) | Volume::Pints(n)
            | Volume::Cups(n) | Volume::Ounces(n) => n,
        }
    }

    /// The short name of the volume's unit.
    pub fn unit(&self) -> (r: &str)
        ensures
            r@ == unit_text(QuantityView::Volume(self.unit_of(), 0)),
    {
        match self {
            Volume::Liter(_) => "l",
            Volume::Deciliter(_) => "dl",
            Volume::Centiliter(_) => "cl",
            Volume::Milliliter(_) => "ml",
            Volume::Tablespoon(_) => "tablespoon",
            Volume::Teaspoon(_) => "teaspoon",
            Volume::Spices(_) => "spices",
            Volume::Pints(_) => "pints",
            Volume::Cups(_) => "cups",
            Volume::Ounces(_) => "fl oz",
        }
    }
}

impl Quantity {
    /// A copy of the quantity.
    pub fn duplicate(&self) -> (r: Quantity)
        ensures
            r@ == self@,
    {
        match self {
            Quantity::Pieces(n) => Quantity::Pieces(*n),
            Quantity::Weight(w) => Quantity::Weight(*w),
            Quantity::Volume(v) => Quantity::Volume(*v),
            Quantity::Custom(n, l) => Quantity::Custom(*n, l.clone()),
        }
    }

    /// The magnitude, in the quantity's own unit.
    pub fn amount(&self) -> (r: u32)
        ensures
            r == magnitude(self@),
    {
        match self {
            Quantity::Pieces(n) | Quantity::Custom(n, _) => *n,
            Quantity::Volume(v) => v.amount(),
            Quantity::Weight(w) => w.amount(),
        }
    }

    /// The name of the unit; empty for pieces.
    pub fn unit(&self) -> (r: &str)
        ensures
            r@ == unit_text(self@),
    {
        proof {
            reveal_strlit("");
    assert(""@.len() == 0);
        }
        match self {
            Quantity::Weight(w) => w.unit(),
            Quantity::Volume(v) => v.unit(),
            Quantity::Custom(_, label) => label.as_str(),
            Quantity::Pieces(_) => "",
        }
    }

    /// The quantity as shown in a shopping list, such as `5 dl` or `3`.
    pub fn to_string(&self) -> (r: String)
        ensures
            r@ == quantity_text(self@),
    {
        let mut r = string_of(&decimal_chars(self.amount()));
        match self {
            Quantity::Pieces(_) => {},
            _ => {
                r.push(' ');
                r.append(self.unit());
            },
        }
        r
    }

    /// The sum of two quantities; see `sum_of`.
    pub fn add(self, other: Quantity) -> (r: Quantity)
        requires
            sum_fits(self@, other@),
        ensures
            r@ == sum_of(self@, other@),
    {
        match (&self, &other) {
            (Quantity::Pieces(a), Quantity::Pieces(b)) => {
                return Quantity::Pieces(*a + *b);
            },
            (Quantity::Weight(a), Quantity::Weight(b)) => {
                return Quantity::Weight(a.add(*b));
            },
            (Quantity::Volume(a), Quantity::Volume(b)) => {
                return Quantity::Volume(a.add(*b));
            },
            (Quantity::Custom(a, l), Quantity::Custom(b, m)) => {
                if *l == *m {
                    return Quantity::Custom(*a + *b, l.clone());
                }
            },
            _ => {},
        }
        self
    }

    /// Multiplies the magnitude by `numer / denom`; see `scaled`.
    pub fn scale(&mut self, numer: u32, denom: u32)
        requires
            denom > 0,
        ensures
            final(self)@ == scale_by(old(self)@, numer as nat, denom as nat),
    {
        let q = match &*self {
            Quantity::Pieces(n) => Quantity::Pieces(multi(*n, numer, denom)),
            Quantity::Weight(w) => Quantity::Weight(
                match w {
                    Weight::Kilogram(n) => Weight::Kilogram(multi(*n, numer, denom)),
                    Weight::Gram(n) => Weight::Gram(multi(*n, numer, denom)),
                    Weight::Pounds(n) => Weight::Pounds(multi(*n, numer, denom)),
                    Weight::Ounces(n) => Weight::Ounces(multi(*n, numer, denom)),
                },
            ),
            Quantity::Volume(v) => Quantity::Volume(
                match v {
                    Volume::Liter(n) => Volume::Liter(multi(*n, numer, denom)),
                    Volume::Deciliter(n) => Volume::Deciliter(multi(*n, numer, denom)),
                    Volume::Centiliter(n) => Volume::Centiliter(multi(*n, numer, denom)),
                    Volume::Milliliter(n) => Volume::Milliliter(multi(*n, numer, denom)),
                    Volume::Tablespoon(n) => Volume::Tablespoon(multi(*n, numer, denom)),
                    Volume::Teaspoon(n) => Volume::Teaspoon(multi(*n, numer, denom)),
                    Volume::Spices(n) => Volume::Spices(multi(*n, numer, denom)),
                    Volume::Pints(n) => Volume::Pints(multi(*n, numer, denom)),
                    Volume::Cups(n) => Volume::Cups(multi(*n, numer, denom)),
                    Volume::Ounces(n) => Volume::Ounces(multi(*n, numer, denom)),
                },
            ),
            Quantity::Custom(n, l) => Quantity::Custom(multi(*n, numer, denom), l.clone()),
        };
        *self = q;
    }

    /// The same quantity in its most readable unit; see `normalize`.
    pub fn normalized(&self) -> (r: Quantity)
        requires
            canonical(self@) <= u32::MAX,
        ensures
            r@ == normalize(self@),
    {
        match self {
            Quantity::Weight(w) => {
                let g = w.as_grams();
                Quantity::Weight(
                    if g % 1000 == 0 {
                        Weight::Kilogram(g / 1000)
                    } else {
                        Weight::Gram(g)
                    },
                )
            },
            Quantity::Volume(v) => {
                let ml: u32 = v.as_milliliters();
                if ml % 1000 == 0 {
                    Quantity::Volume(Volume::Liter(ml / 1000))
                } else if ml % 100 == 0 {
                    Quantity::Volume(Volume::Deciliter(ml / 100))
                } else if ml % 10 == 0 {
                    Quantity::Volume(Volume::Centiliter(ml / 10))
                } else {
                    Quantity::Volume(Volume::Milliliter(ml))
                }
            },
            _ => self.duplicate(),
        }
    }

    /// Reads a quantity such as `2 l`, `3 tbsp`, `5` or `2 packages`: an empty
    /// text is one piece, a first word that is not a positive integer is an
    /// error, and the words after it name the unit (see `parse_quantity`).
    pub fn parse(input: &str) -> (r: Result<Quantity, String>)
        ensures
            match r {
                Ok(q) => parse_quantity(input@) == Ok::<QuantityView, Seq<char>>(q@),
                Err(e) => parse_quantity(input@) == Err::<QuantityView, Seq<char>>(e@),
            },
    {
        let chars = chars_of(input);
        if chars.len() == 0 {
            return Ok(Quantity::Pieces(1));
        }
        let ws = split_words(&chars);
        let ghost w = words(input@);
        let tok: Vec<char> = if ws.len() > 0 {
            ws[0].clone()
        } else {
            Vec::new()
        };
        assert(tok@ == if w.len() > 0 {
            w[0]
        } else {
            Seq::empty()
        });
        let number: u32 = match parse_u32(&tok) {
            None => {
                let mut msg = String::new();
                msg.append("Invalid quantifier/integer: ");
                let t = string_of(&tok);
                msg.append(t.as_str());
                return Err(msg);
            },
            Some(0) => {
                let mut msg = String::new();
                msg.append("Invalid amount: 0");
                return Err(msg);
            },
            Some(n) => n,
        };
        let phrase = join_from(&ws, 1);
        assert(views(ws@).subrange(1, ws@.len() as int) =~= w.drop_first());
        if phrase.len() == 0 {
            return Ok(Quantity::Pieces(number));
        }
        let lowered = to_lower(&phrase);
        Ok(quantity_in_unit(number, lowered))
    }
}

/// Re-expressing a quantity in its most readable unit a second time changes
/// nothing.
pub proof fn lemma_normalize_idempotent(q: QuantityView)
    ensures
        normalize(normalize(q)) == normalize(q),
{
    match q {
        QuantityView::Weight(u, n) => {
            let g = grams_in(u, n);
            assert(g % 1000 == 0 ==> 1000 * (g / 1000) == g) by (nonlinear_arith);
        },
        QuantityView::Volume(u, n) => {
            let ml = milliliters_in(u, n);
            assert(ml % 1000 == 0 ==> 1000 * (ml / 1000) == ml) by (nonlinear_arith);
            assert(ml % 100 == 0 ==> 100 * (ml / 100) == ml) by (nonlinear_arith);
            assert(ml % 10 == 0 ==> 10 * (ml / 10) == ml) by (nonlinear_arith);
        },
        _ => {},
    }
}

/// `n` of a unit with a fixed conversion.
pub open spec fn of_unit(u: Unit, n: nat) -> QuantityView {
    match u {
        Unit::Weight(w) => QuantityView::Weight(w, n),
        Unit::Volume(v) => QuantityView::Volume(v, n),
    }
}

/// Two spellings differ when their lengths differ or they differ at `i`.
proof fn lemma_spellings_differ(a: Seq<char>, b: Seq<char>, i: int)
    requires
        a.len() != b.len() || (0 <= i < a.len() && i < b.len() && a[i] != b[i]),
    ensures
        a != b,
{
}

/// Each listed spelling names its own unit.
pub proof fn lemma_spelling_names_unit(u: Unit, i: int)
    requires
        0 <= i < spellings(u).len(),
    ensures
        named_unit(spellings(u)[i]) == Some(u),
        spellings(u)[i].len() > 0,
{
    reveal_strlit("l");
    assert("l"@.len() == 1);
    reveal_strlit("liter");
    assert("liter"@.len() == 5);
    reveal_strlit("liters");
    assert("liters"@.len() == 6);
    assert(spellings(Unit::Volume(VolumeUnit::Liter)).len() == 3);
    reveal_strlit("dl");
    assert("dl"@.len() == 2);
    reveal_strlit("deciliter");
    assert("deciliter"@.len() == 9);
    reveal_strlit("deciliters");
    assert("deciliters"@.len() == 10);
    assert(spellings(Unit::Volume(VolumeUnit::Deciliter)).len() == 3);
    reveal_strlit("cl");
    assert("cl"@.len() == 2);
    reveal_strlit("centiliter");
    assert("centiliter"@.len() == 10);
    reveal_strlit("centiliters");
    assert("centiliters"@.len() == 11);
    assert(spellings(Unit::Volume(VolumeUnit::Centiliter)).len() == 3);
    reveal_strlit("ml");
    assert("ml"@.len() == 2);
    reveal_strlit("milliliter");
    assert("milliliter"@.len() == 10);
    reveal_strlit("milliliters");
    assert("milliliters"@.len() == 11);
    assert(spellings(Unit::Volume(VolumeUnit::Milliliter)).len() == 3);
    reveal_strlit("tbsp");
    assert("tbsp"@.len() == 4);
    reveal_strlit("tb");
    assert("tb"@.len() == 2);
    reveal_strlit("msk");
    assert("msk"@.len() == 3);
    reveal_strlit("matsked");
    assert("matsked"@.len() == 7);
    reveal_strlit("tablespoon");
    assert("tablespoon"@.len() == 10);
    reveal_strlit("tablespoons");
    assert("tablespoons"@.len() == 11);
    assert(spellings(Unit::Volume(VolumeUnit::Tablespoon)).len() == 6);
    reveal_strlit("tspn");
    assert("tspn"@.len() == 4);
    reveal_strlit("tsp");
    assert("tsp"@.len() == 3);
    reveal_strlit("ts");
    assert("ts"@.len() == 2);
    reveal_strlit("tsk");
    assert("tsk"@.len() == 3);
    reveal_strlit("tesked");
    assert("tesked"@.len() == 6);
    reveal_strlit("teaspoon");
    assert("teaspoon"@.len() == 8);
    reveal_strlit("teaspoons");
    assert("teaspoons"@.len() == 9);
    assert(spellings(Unit::Volume(VolumeUnit::Teaspoon)).len() == 7);
    reveal_strlit("krm");
    assert("krm"@.len() == 3);
    reveal_strlit("kryddmått");
    assert("kryddmått"@.len() == 9);
    assert(spellings(Unit::Volume(VolumeUnit::Spices)).len() == 2);
    reveal_strlit("p");
    assert("p"@.len() == 1);
    reveal_strlit("pt");
    assert("pt"@.len() == 2);
    reveal_strlit("pint");
    assert("pint"@.len() == 4);
    reveal_strlit("pints");
    assert("pints"@.len() == 5);
    assert(spellings(Unit::Volume(VolumeUnit::Pints)).len() == 4);
    reveal_strlit("cup");
    assert("cup"@.len() == 3);
    reveal_strlit("cups");
    assert("cups"@.len() == 4);
    assert(spellings(Unit::Volume(VolumeUnit::Cups)).len() == 2);
    reveal_strlit("fl oz");
    assert("fl oz"@.len() == 5);
    reveal_strlit("fluid ounce");
    assert("fluid ounce"@.len() == 11);
    reveal_strlit("fluid ounces");
    assert("fluid ounces"@.len() == 12);
    assert(spellings(Unit::Volume(VolumeUnit::Ounces)).len() == 3);
    reveal_strlit("g");
    assert("g"@.len() == 1);
    reveal_strlit("gram");
    assert("gram"@.len() == 4);
    reveal_strlit("grams");
    assert("grams"@.len() == 5);
    assert(spellings(Unit::Weight(WeightUnit::Gram)).len() == 3);
    reveal_strlit("kg");
    assert("kg"@.len() == 2);
    reveal_strlit("kilogram");
    assert("kilogram"@.len() == 8);
    reveal_strlit("kilograms");
    assert("kilograms"@.len() == 9);
    assert(spellings(Unit::Weight(WeightUnit::Kilogram)).len() == 3);
    reveal_strlit("oz");
    assert("oz"@.len() == 2);
    reveal_strlit("ounce");
    assert("ounce"@.len() == 5);
    reveal_strlit("ounces");
    assert("ounces"@.len() == 6);
    assert(spellings(Unit::Weight(WeightUnit::Ounces)).len() == 3);
    reveal_strlit("lbs");
    assert("lbs"@.len() == 3);
    reveal_strlit("pound");
    assert("pound"@.len() == 5);
    reveal_strlit("pounds");
    assert("pounds"@.len() == 6);
    assert(spellings(Unit::Weight(WeightUnit::Pounds)).len() == 3);
    if u == Unit::Volume(VolumeUnit::Liter) {
        if i == 0 {
            assert(spellings(u)[i] == "l"@);
            assert(named_unit("l"@) == Some(Unit::Volume(VolumeUnit::Liter)));
        }
        if i == 1 {
            assert(spellings(u)[i] == "liter"@);
            assert(named_unit("liter"@) == Some(Unit::Volume(VolumeUnit::Liter)));
        }
        if i == 2 {
            assert(spellings(u)[i] == "liters"@);
            assert(named_unit("liters"@) == Some(Unit::Volume(VolumeUnit::Liter)));
        }
    }
    if u == Unit::Volume(VolumeUnit::Deciliter) {
        if i == 0 {
            assert(spellings(u)[i] == "dl"@);
            assert(named_unit("dl"@) == Some(Unit::Volume(VolumeUnit::Deciliter)));
        }
        if i == 1 {
            assert(spellings(u)[i] == "deciliter"@);
            assert(named_unit("deciliter"@) == Some(Unit::Volume(VolumeUnit::Deciliter)));
        }
        if i == 2 {
            assert(spellings(u)[i] == "deciliters"@);
            assert(named_unit("deciliters"@) == Some(Unit::Volume(VolumeUnit::Deciliter)));
        }
    }
    if u == Unit::Volume(VolumeUnit::Centiliter) {
        if i == 0 {
            assert(spellings(u)[i] == "cl"@);
            lemma_spellings_differ("cl"@, "dl"@, 0);
            assert(named_unit("cl"@) == Some(Unit::Volume(VolumeUnit::Centiliter)));
        }
        if i == 1 {
            assert(spellings(u)[i] == "centiliter"@);
            lemma_spellings_differ("centiliter"@, "deciliters"@, 0);
            assert(named_unit("centiliter"@) == Some(Unit::Volume(VolumeUnit::Centiliter)));
        }
        if i == 2 {
            assert(spellings(u)[i] == "centiliters"@);
            assert(named_unit("centiliters"@) == Some(Unit::Volume(VolumeUnit::Centiliter)));
        }
    }
    if u == Unit::Volume(VolumeUnit::Milliliter) {
        if i == 0 {
            assert(spellings(u)[i] == "ml"@);
            lemma_spellings_differ("ml"@, "dl"@, 0);
            lemma_spellings_differ("ml"@, "cl"@, 0);
            assert(named_unit("ml"@) == Some(Unit::Volume(VolumeUnit::Milliliter)));
        }
        if i == 1 {
            assert(spellings(u)[i] == "milliliter"@);
            lemma_spellings_differ("milliliter"@, "deciliters"@, 0);
            lemma_spellings_differ("milliliter"@, "centiliter"@, 0);
            assert(named_unit("milliliter"@) == Some(Unit::Volume(VolumeUnit::Milliliter)));
        }
        if i == 2 {
            assert(spellings(u)[i] == "milliliters"@);
            lemma_spellings_differ("milliliters"@, "centiliters"@, 0);
            assert(named_unit("milliliters"@) == Some(Unit::Volume(VolumeUnit::Milliliter)));
        }
    }
    if u == Unit::Volume(VolumeUnit::Tablespoon) {
        if i == 0 {
            assert(spellings(u)[i] == "tbsp"@);
            assert(named_unit("tbsp"@) == Some(Unit::Volume(VolumeUnit::Tablespoon)));
        }
        if i == 1 {
            assert(spellings(u)[i] == "tb"@);
            lemma_spellings_differ("tb"@, "dl"@, 0);
            lemma_spellings_differ("tb"@, "cl"@, 0);
            lemma_spellings_differ("tb"@, "ml"@, 0);
            assert(named_unit("tb"@) == Some(Unit::Volume(VolumeUnit::Tablespoon)));
        }
        if i == 2 {
            assert(spellings(u)[i] == "msk"@);
            assert(named_unit("msk"@) == Some(Unit::Volume(VolumeUnit::Tablespoon)));
        }
        if i == 3 {
            assert(spellings(u)[i] == "matsked"@);
            assert(named_unit("matsked"@) == Some(Unit::Volume(VolumeUnit::Tablespoon)));
        }
        if i == 4 {
            assert(spellings(u)[i] == "tablespoon"@);
            lemma_spellings_differ("tablespoon"@, "deciliters"@, 0);
            lemma_spellings_differ("tablespoon"@, "centiliter"@, 0);
            lemma_spellings_differ("tablespoon"@, "milliliter"@, 0);
            assert(named_unit("tablespoon"@) == Some(Unit::Volume(VolumeUnit::Tablespoon)));
        }
        if i == 5 {
            assert(spellings(u)[i] == "tablespoons"@);
            lemma_spellings_differ("tablespoons"@, "centiliters"@, 0);
            lemma_spellings_differ("tablespoons"@, "milliliters"@, 0);
            assert(named_unit("tablespoons"@) == Some(Unit::Volume(VolumeUnit::Tablespoon)));
        }
    }
    if u == Unit::Volume(VolumeUnit::Teaspoon) {
        if i == 0 {
            assert(spellings(u)[i] == "tspn"@);
            lemma_spellings_differ("tspn"@, "tbsp"@, 1);
            assert(named_unit("tspn"@) == Some(Unit::Volume(VolumeUnit::Teaspoon)));
        }
        if i == 1 {
            assert(spellings(u)[i] == "tsp"@);
            lemma_spellings_differ("tsp"@, "msk"@, 0);
            assert(named_unit("tsp"@) == Some(Unit::Volume(VolumeUnit::Teaspoon)));
        }
        if i == 2 {
            assert(spellings(u)[i] == "ts"@);
            lemma_spellings_differ("ts"@, "dl"@, 0);
            lemma_spellings_differ("ts"@, "cl"@, 0);
            lemma_spellings_differ("ts"@, "ml"@, 0);
            lemma_spellings_differ("ts"@, "tb"@, 1);
            assert(named_unit("ts"@) == Some(Unit::Volume(VolumeUnit::Teaspoon)));
        }
        if i == 3 {
            assert(spellings(u)[i] == "tsk"@);
            lemma_spellings_differ("tsk"@, "msk"@, 0);
            lemma_spellings_differ("tsk"@, "tsp"@, 2);
            assert(named_unit("tsk"@) == Some(Unit::Volume(VolumeUnit::Teaspoon)));
        }
        if i == 4 {
            assert(spellings(u)[i] == "tesked"@);
            lemma_spellings_differ("tesked"@, "liters"@, 0);
            assert(named_unit("tesked"@) == Some(Unit::Volume(VolumeUnit::Teaspoon)));
        }
        if i == 5 {
            assert(spellings(u)[i] == "teaspoon"@);
            assert(named_unit("teaspoon"@) == Some(Unit::Volume(VolumeUnit::Teaspoon)));
        }
        if i == 6 {
            assert(spellings(u)[i] == "teaspoons"@);
            lemma_spellings_differ("teaspoons"@, "deciliter"@, 0);
            assert(named_unit("teaspoons"@) == Some(Unit::Volume(VolumeUnit::Teaspoon)));
        }
    }
    if u == Unit::Volume(VolumeUnit::Spices) {
        if i == 0 {
            assert(spellings(u)[i] == "krm"@);
            lemma_spellings_differ("krm"@, "msk"@, 0);
            lemma_spellings_differ("krm"@, "tsp"@, 0);
            lemma_spellings_differ("krm"@, "tsk"@, 0);
            assert(named_unit("krm"@) == Some(Unit::Volume(VolumeUnit::Spices)));
        }
        if i == 1 {
            assert(spellings(u)[i] == "kryddmått"@);
            lemma_spellings_differ("kryddmått"@, "deciliter"@, 0);
            lemma_spellings_differ("kryddmått"@, "teaspoons"@, 0);
            assert(named_unit("kryddmått"@) == Some(Unit::Volume(VolumeUnit::Spices)));
        }
    }
    if u == Unit::Volume(VolumeUnit::Pints) {
        if i == 0 {
            assert(spellings(u)[i] == "p"@);
            lemma_spellings_differ("p"@, "l"@, 0);
            assert(named_unit("p"@) == Some(Unit::Volume(VolumeUnit::Pints)));
        }
        if i == 1 {
            assert(spellings(u)[i] == "pt"@);
            lemma_spellings_differ("pt"@, "dl"@, 0);
            lemma_spellings_differ("pt"@, "cl"@, 0);
            lemma_spellings_differ("pt"@, "ml"@, 0);
            lemma_spellings_differ("pt"@, "tb"@, 0);
            lemma_spellings_differ("pt"@, "ts"@, 0);
            assert(named_unit("pt"@) == Some(Unit::Volume(VolumeUnit::Pints)));
        }
        if i == 2 {
            assert(spellings(u)[i] == "pint"@);
            lemma_spellings_differ("pint"@, "tbsp"@, 0);
            lemma_spellings_differ("pint"@, "tspn"@, 0);
            assert(named_unit("pint"@) == Some(Unit::Volume(VolumeUnit::Pints)));
        }
        if i == 3 {
            assert(spellings(u)[i] == "pints"@);
            lemma_spellings_differ("pints"@, "liter"@, 0);
            assert(named_unit("pints"@) == Some(Unit::Volume(VolumeUnit::Pints)));
        }
    }
    if u == Unit::Volume(VolumeUnit::Cups) {
        if i == 0 {
            assert(spellings(u)[i] == "cup"@);
            lemma_spellings_differ("cup"@, "msk"@, 0);
            lemma_spellings_differ("cup"@, "tsp"@, 0);
            lemma_spellings_differ("cup"@, "tsk"@, 0);
            lemma_spellings_differ("cup"@, "krm"@, 0);
            assert(named_unit("cup"@) == Some(Unit::Volume(VolumeUnit::Cups)));
        }
        if i == 1 {
            assert(spellings(u)[i] == "cups"@);
            lemma_spellings_differ("cups"@, "tbsp"@, 0);
            lemma_spellings_differ("cups"@, "tspn"@, 0);
            lemma_spellings_differ("cups"@, "pint"@, 0);
            assert(named_unit("cups"@) == Some(Unit::Volume(VolumeUnit::Cups)));
        }
    }
    if u == Unit::Volume(VolumeUnit::Ounces) {
        if i == 0 {
            assert(spellings(u)[i] == "fl oz"@);
            lemma_spellings_differ("fl oz"@, "liter"@, 0);
            lemma_spellings_differ("fl oz"@, "pints"@, 0);
            assert(named_unit("fl oz"@) == Some(Unit::Volume(VolumeUnit::Ounces)));
        }
        if i == 1 {
            assert(spellings(u)[i] == "fluid ounce"@);
            lemma_spellings_differ("fluid ounce"@, "centiliters"@, 0);
            lemma_spellings_differ("fluid ounce"@, "milliliters"@, 0);
            lemma_spellings_differ("fluid ounce"@, "tablespoons"@, 0);
            assert(named_unit("fluid ounce"@) == Some(Unit::Volume(VolumeUnit::Ounces)));
        }
        if i == 2 {
            assert(spellings(u)[i] == "fluid ounces"@);
            assert(named_unit("fluid ounces"@) == Some(Unit::Volume(VolumeUnit::Ounces)));
        }
    }
    if u == Unit::Weight(WeightUnit::Gram) {
        if i == 0 {
            assert(spellings(u)[i] == "g"@);
            lemma_spellings_differ("g"@, "l"@, 0);
            lemma_spellings_differ("g"@, "p"@, 0);
            assert(named_unit("g"@) == Some(Unit::Weight(WeightUnit::Gram)));
        }
        if i == 1 {
            assert(spellings(u)[i] == "gram"@);
            lemma_spellings_differ("gram"@, "tbsp"@, 0);
            lemma_spellings_differ("gram"@, "tspn"@, 0);
            lemma_spellings_differ("gram"@, "pint"@, 0);
            lemma_spellings_differ("gram"@, "cups"@, 0);
            assert(named_unit("gram"@) == Some(Unit::Weight(WeightUnit::Gram)));
        }
        if i == 2 {
            assert(spellings(u)[i] == "grams"@);
            lemma_spellings_differ("grams"@, "liter"@, 0);
            lemma_spellings_differ("grams"@, "pints"@, 0);
            lemma_spellings_differ("grams"@, "fl oz"@, 0);
            assert(named_unit("grams"@) == Some(Unit::Weight(WeightUnit::Gram)));
        }
    }
    if u == Unit::Weight(WeightUnit::Kilogram) {
        if i == 0 {
            assert(spellings(u)[i] == "kg"@);
            lemma_spellings_differ("kg"@, "dl"@, 0);
            lemma_spellings_differ("kg"@, "cl"@, 0);
            lemma_spellings_differ("kg"@, "ml"@, 0);
            lemma_spellings_differ("kg"@, "tb"@, 0);
            lemma_spellings_differ("kg"@, "ts"@, 0);
            lemma_spellings_differ("kg"@, "pt"@, 0);
            assert(named_unit("kg"@) == Some(Unit::Weight(WeightUnit::Kilogram)));
        }
        if i == 1 {
            assert(spellings(u)[i] == "kilogram"@);
            lemma_spellings_differ("kilogram"@, "teaspoon"@, 0);
            assert(named_unit("kilogram"@) == Some(Unit::Weight(WeightUnit::Kilogram)));
        }
        if i == 2 {
            assert(spellings(u)[i] == "kilograms"@);
            lemma_spellings_differ("kilograms"@, "deciliter"@, 0);
            lemma_spellings_differ("kilograms"@, "teaspoons"@, 0);
            lemma_spellings_differ("kilograms"@, "kryddmått"@, 1);
            assert(named_unit("kilograms"@) == Some(Unit::Weight(WeightUnit::Kilogram)));
        }
    }
    if u == Unit::Weight(WeightUnit::Ounces) {
        if i == 0 {
            assert(spellings(u)[i] == "oz"@);
            lemma_spellings_differ("oz"@, "dl"@, 0);
            lemma_spellings_differ("oz"@, "cl"@, 0);
            lemma_spellings_differ("oz"@, "ml"@, 0);
            lemma_spellings_differ("oz"@, "tb"@, 0);
            lemma_spellings_differ("oz"@, "ts"@, 0);
            lemma_spellings_differ("oz"@, "pt"@, 0);
            lemma_spellings_differ("oz"@, "kg"@, 0);
            assert(named_unit("oz"@) == Some(Unit::Weight(WeightUnit::Ounces)));
        }
        if i == 1 {
            assert(spellings(u)[i] == "ounce"@);
            lemma_spellings_differ("ounce"@, "liter"@, 0);
            lemma_spellings_differ("ounce"@, "pints"@, 0);
            lemma_spellings_differ("ounce"@, "fl oz"@, 0);
            lemma_spellings_differ("ounce"@, "grams"@, 0);
            assert(named_unit("ounce"@) == Some(Unit::Weight(WeightUnit::Ounces)));
        }
        if i == 2 {
            assert(spellings(u)[i] == "ounces"@);
            lemma_spellings_differ("ounces"@, "liters"@, 0);
            lemma_spellings_differ("ounces"@, "tesked"@, 0);
            assert(named_unit("ounces"@) == Some(Unit::Weight(WeightUnit::Ounces)));
        }
    }
    if u == Unit::Weight(WeightUnit::Pounds) {
        if i == 0 {
            assert(spellings(u)[i] == "lbs"@);
            lemma_spellings_differ("lbs"@, "msk"@, 0);
            lemma_spellings_differ("lbs"@, "tsp"@, 0);
            lemma_spellings_differ("lbs"@, "tsk"@, 0);
            lemma_spellings_differ("lbs"@, "krm"@, 0);
            lemma_spellings_differ("lbs"@, "cup"@, 0);
            assert(named_unit("lbs"@) == Some(Unit::Weight(WeightUnit::Pounds)));
        }
        if i == 1 {
            assert(spellings(u)[i] == "pound"@);
            lemma_spellings_differ("pound"@, "liter"@, 0);
            lemma_spellings_differ("pound"@, "pints"@, 1);
            lemma_spellings_differ("pound"@, "fl oz"@, 0);
            lemma_spellings_differ("pound"@, "grams"@, 0);
            lemma_spellings_differ("pound"@, "ounce"@, 0);
            assert(named_unit("pound"@) == Some(Unit::Weight(WeightUnit::Pounds)));
        }
        if i == 2 {
            assert(spellings(u)[i] == "pounds"@);
            lemma_spellings_differ("pounds"@, "liters"@, 0);
            lemma_spellings_differ("pounds"@, "tesked"@, 0);
            lemma_spellings_differ("pounds"@, "ounces"@, 0);
            assert(named_unit("pounds"@) == Some(Unit::Weight(WeightUnit::Pounds)));
        }
    }
}

/// Every spelling of a unit gives the same quantity: for every positive 32-bit
/// `n` and every text `p` whose words, joined by single spaces and put in lower
/// case (see `lower_case`), are one of the spellings of unit `u`, the text `n`,
/// a space, `p` reads as `n` of `u`.
pub proof fn lemma_synonyms(n: nat, u: Unit, p: Seq<char>)
    requires
        0 < n <= u32::MAX,
        words(p).len() > 0,
        spellings(u).contains(lower_case(join_words(words(p)))),
    ensures
        parse_quantity(decimal(n) + seq![' '] + p) == Ok::<QuantityView, Seq<char>>(of_unit(u, n)),
{
    let d = decimal(n);
    lemma_decimal(n);
    lemma_words_after_word(d, p);
    let s = d + seq![' '] + p;
    assert(s.len() > 0);
    let ws = words(s);
    assert(ws[0] == d);
    assert(ws.drop_first() =~= words(p));
    let phrase = join_words(words(p));
    let i = choose|i: int| 0 <= i < spellings(u).len() && spellings(u)[i] == lower_case(phrase);
    lemma_spelling_names_unit(u, i);
    lemma_words_nonempty_words(p);
    lemma_join_nonempty(words(p));
}

/// A spelling of a unit in any mix of ASCII letter cases, after a positive
/// 32-bit number and a space, reads as that number of the unit: `2 l`, `2 L`,
/// `2 Liters` and `2 liter` all give 2 liters.
pub proof fn lemma_spelling_any_case(n: nat, u: Unit, i: int, p: Seq<char>)
    requires
        0 < n <= u32::MAX,
        0 <= i < spellings(u).len(),
        all_ascii(p),
        join_words(words(p)) == p,
        p.map_values(|c: char| ascii_lower(c)) == spellings(u)[i],
    ensures
        parse_quantity(decimal(n) + seq![' '] + p) == Ok::<QuantityView, Seq<char>>(of_unit(u, n)),
{
    lemma_spelling_names_unit(u, i);
    if words(p).len() == 0 {
        assert(join_words(words(p)).len() == 0);
    }
    assert(spellings(u).contains(lower_case(join_words(words(p)))));
    lemma_synonyms(n, u, p);
}


} // verus!
