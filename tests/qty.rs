use shopping_list::qty::{quantity_in_unit, Quantity, Volume, Weight};

#[test]
fn test_parse_quantity_volume_liter() {
    assert_eq!(
        Quantity::Volume(Volume::Liter(1)),
        Quantity::parse("1 liter").unwrap()
    );
    assert_eq!(
        Quantity::Volume(Volume::Liter(2)),
        Quantity::parse("2 l").unwrap()
    );
    assert_eq!(
        Quantity::Volume(Volume::Liter(3)),
        Quantity::parse("3 liters").unwrap()
    );
}

#[test]
fn test_parse_quantity_volume_deciliter() {
    assert_eq!(
        Quantity::Volume(Volume::Deciliter(1)),
        Quantity::parse("1 deciliter").unwrap()
    );
    assert_eq!(
        Quantity::Volume(Volume::Deciliter(2)),
        Quantity::parse("2 dl").unwrap()
    );
    assert_eq!(
        Quantity::Volume(Volume::Deciliter(3)),
        Quantity::parse("3 deciliters").unwrap()
    );
}

#[test]
fn test_parse_quantity_volume_centiliter() {
    assert_eq!(
        Quantity::Volume(Volume::Centiliter(1)),
        Quantity::parse("1 centiliter").unwrap()
    );
    assert_eq!(
        Quantity::Volume(Volume::Centiliter(2)),
        Quantity::parse("2 cl").unwrap()
    );
    assert_eq!(
        Quantity::Volume(Volume::Centiliter(3)),
        Quantity::parse("3 centiliters").unwrap()
    );
}

#[test]
fn test_parse_quantity_volume_milliliter() {
    assert_eq!(
        Quantity::Volume(Volume::Milliliter(1)),
        Quantity::parse("1 milliliter").unwrap()
    );
    assert_eq!(
        Quantity::Volume(Volume::Milliliter(2)),
        Quantity::parse("2 ml").unwrap()
    );
    assert_eq!(
        Quantity::Volume(Volume::Milliliter(3)),
        Quantity::parse("3 milliliters").unwrap()
    );
}

#[test]
fn test_parse_quantity_volume_tablespoon() {
    assert_eq!(
        Quantity::Volume(Volume::Tablespoon(1)),
        Quantity::parse("1 tablespoon").unwrap()
    );
    assert_eq!(
        Quantity::Volume(Volume::Tablespoon(2)),
        Quantity::parse("2 tbsp").unwrap()
    );
    assert_eq!(
        Quantity::Volume(Volume::Tablespoon(2)),
        Quantity::parse("2 tb").unwrap()
    );
    assert_eq!(
        Quantity::Volume(Volume::Tablespoon(2)),
        Quantity::parse("2 msk").unwrap()
    );
    assert_eq!(
        Quantity::Volume(Volume::Tablespoon(3)),
        Quantity::parse("3 tablespoons").unwrap()
    );
}

#[test]
fn test_parse_quantity_volume_teaspoon() {
    assert_eq!(
        Quantity::Volume(Volume::Teaspoon(1)),
        Quantity::parse("1 teaspoon").unwrap()
    );
    assert_eq!(
        Quantity::Volume(Volume::Teaspoon(2)),
        Quantity::parse("2 tsp").unwrap()
    );
    assert_eq!(
        Quantity::Volume(Volume::Teaspoon(2)),
        Quantity::parse("2 tspn").unwrap()
    );
    assert_eq!(
        Quantity::Volume(Volume::Teaspoon(2)),
        Quantity::parse("2 ts").unwrap()
    );
    assert_eq!(
        Quantity::Volume(Volume::Teaspoon(2)),
        Quantity::parse("2 tsk").unwrap()
    );
    assert_eq!(
        Quantity::Volume(Volume::Teaspoon(2)),
        Quantity::parse("2 tesked").unwrap()
    );
    assert_eq!(
        Quantity::Volume(Volume::Teaspoon(3)),
        Quantity::parse("3 teaspoons").unwrap()
    );
}

#[test]
fn test_parse_quantity_volume_spices() {
    assert_eq!(
        Quantity::Volume(Volume::Spices(1)),
        Quantity::parse("1 krm").unwrap()
    );
    assert_eq!(
        Quantity::Volume(Volume::Spices(2)),
        Quantity::parse("2 kryddmått").unwrap()
    );
}

#[test]
fn test_parse_quantity_volume_pints() {
    assert_eq!(
        Quantity::Volume(Volume::Pints(1)),
        Quantity::parse("1 pint").unwrap()
    );
    assert_eq!(
        Quantity::Volume(Volume::Pints(2)),
        Quantity::parse("2 p").unwrap()
    );
    assert_eq!(
        Quantity::Volume(Volume::Pints(2)),
        Quantity::parse("2 pt").unwrap()
    );
    assert_eq!(
        Quantity::Volume(Volume::Pints(3)),
        Quantity::parse("3 pints").unwrap()
    );
}

#[test]
fn test_parse_quantity_volume_cups() {
    assert_eq!(
        Quantity::Volume(Volume::Cups(1)),
        Quantity::parse("1 cup").unwrap()
    );
    assert_eq!(
        Quantity::Volume(Volume::Cups(2)),
        Quantity::parse("2 cups").unwrap()
    );
}

#[test]
fn test_parse_quantity_volume_ounces() {
    assert_eq!(
        Quantity::Volume(Volume::Ounces(1)),
        Quantity::parse("1 fluid ounce").unwrap()
    );
    assert_eq!(
        Quantity::Volume(Volume::Ounces(2)),
        Quantity::parse("2 fluid ounces").unwrap()
    );
    assert_eq!(
        Quantity::Volume(Volume::Ounces(3)),
        Quantity::parse("3 fl oz").unwrap()
    );
}

#[test]
fn test_parse_quantity_weights_kilogram() {
    assert_eq!(
        Quantity::Weight(Weight::Kilogram(1)),
        Quantity::parse("1 kilogram").unwrap()
    );
    assert_eq!(
        Quantity::Weight(Weight::Kilogram(2)),
        Quantity::parse("2 kg").unwrap()
    );
    assert_eq!(
        Quantity::Weight(Weight::Kilogram(3)),
        Quantity::parse("3 kilograms").unwrap()
    );
}

#[test]
fn test_parse_quantity_weights_gram() {
    assert_eq!(
        Quantity::Weight(Weight::Gram(1)),
        Quantity::parse("1 gram").unwrap()
    );
    assert_eq!(
        Quantity::Weight(Weight::Gram(2)),
        Quantity::parse("2 g").unwrap()
    );
    assert_eq!(
        Quantity::Weight(Weight::Gram(3)),
        Quantity::parse("3 grams").unwrap()
    );
}

#[test]
fn test_parse_quantity_weights_pounds() {
    assert_eq!(
        Quantity::Weight(Weight::Pounds(1)),
        Quantity::parse("1 pound").unwrap()
    );
    assert_eq!(
        Quantity::Weight(Weight::Pounds(2)),
        Quantity::parse("2 lbs").unwrap()
    );
    assert_eq!(
        Quantity::Weight(Weight::Pounds(3)),
        Quantity::parse("3 pounds").unwrap()
    );
}

#[test]
fn test_parse_quantity_weights_ounces() {
    assert_eq!(
        Quantity::Weight(Weight::Ounces(1)),
        Quantity::parse("1 ounce").unwrap()
    );
    assert_eq!(
        Quantity::Weight(Weight::Ounces(2)),
        Quantity::parse("2 ounces").unwrap()
    );
    assert_eq!(
        Quantity::Weight(Weight::Ounces(3)),
        Quantity::parse("3 oz").unwrap()
    );
}

#[test]
fn test_parse_quantity_pieces() {
    assert_eq!(Quantity::Pieces(1), Quantity::parse("").unwrap());
    assert_eq!(Quantity::Pieces(2), Quantity::parse("2").unwrap());
    assert!(Quantity::parse("0").is_err());
    assert!(Quantity::parse("-1").is_err());
}

#[test]
fn test_mul_assign() {
    let mut pieces = Quantity::Pieces(5);
    pieces.scale(2, 1);
    assert_eq!(10u32, pieces.amount());
}

#[test]
fn parse_ignores_letter_case_and_spacing_of_units() {
    assert_eq!(Quantity::Volume(Volume::Liter(2)), Quantity::parse("2 L").unwrap());
    assert_eq!(Quantity::Weight(Weight::Kilogram(2)), Quantity::parse("2 KG").unwrap());
    assert_eq!(
        Quantity::Volume(Volume::Ounces(4)),
        Quantity::parse("  4   Fl  Oz ").unwrap()
    );
    assert_eq!(
        Quantity::Volume(Volume::Tablespoon(1)),
        Quantity::parse("1 matsked").unwrap()
    );
}

#[test]
fn parse_keeps_unknown_units_in_lower_case() {
    assert_eq!(
        Quantity::Custom(3, "packages".to_string()),
        Quantity::parse("3 Packages").unwrap()
    );
    assert_eq!(
        Quantity::Custom(1, "large can".to_string()),
        Quantity::parse("1 large   can").unwrap()
    );
}

#[test]
fn parse_rejects_zero_and_non_numbers() {
    assert_eq!(Err("Invalid amount: 0".to_string()), Quantity::parse("0"));
    assert_eq!(Err("Invalid amount: 0".to_string()), Quantity::parse("0 kg"));
    assert_eq!(
        Err("Invalid quantifier/integer: -1".to_string()),
        Quantity::parse("-1")
    );
    assert_eq!(
        Err("Invalid quantifier/integer: two".to_string()),
        Quantity::parse("two dl")
    );
    assert_eq!(
        Err("Invalid quantifier/integer: 4294967296".to_string()),
        Quantity::parse("4294967296 g")
    );
    assert_eq!(
        Err("Invalid quantifier/integer: ".to_string()),
        Quantity::parse("   ")
    );
}

#[test]
fn parse_reads_numbers_as_str_parse_does() {
    assert_eq!(Quantity::Volume(Volume::Deciliter(3)), Quantity::parse("+3 dl").unwrap());
    assert_eq!(Quantity::Pieces(4294967295), Quantity::parse("4294967295").unwrap());
    assert_eq!(Quantity::Pieces(7), Quantity::parse("007").unwrap());
}

#[test]
fn conversions_to_canonical_units() {
    assert_eq!(2000, Weight::Kilogram(2).as_grams());
    assert_eq!(453, Weight::Pounds(1).as_grams());
    assert_eq!(907, Weight::Pounds(2).as_grams());
    assert_eq!(28, Weight::Ounces(1).as_grams());
    assert_eq!(283, Weight::Ounces(10).as_grams());
    assert_eq!(1500, Volume::Liter(1).as_milliliters() + Volume::Deciliter(5).as_milliliters());
    assert_eq!(45, Volume::Tablespoon(3).as_milliliters());
    assert_eq!(10, Volume::Teaspoon(2).as_milliliters());
    assert_eq!(2, Volume::Spices(2).as_milliliters());
    assert_eq!(946, Volume::Pints(2).as_milliliters());
    assert_eq!(474, Volume::Cups(2).as_milliliters());
    assert_eq!(29, Volume::Ounces(1).as_milliliters());
    assert_eq!(88, Volume::Ounces(3).as_milliliters());
}

#[test]
fn addition_by_kind() {
    let w = Quantity::Weight(Weight::Kilogram(1)).add(Quantity::Weight(Weight::Gram(250)));
    assert_eq!(Quantity::Weight(Weight::Gram(1250)), w);
    let p = Quantity::Pieces(2).add(Quantity::Pieces(3));
    assert_eq!(Quantity::Pieces(5), p);
    let c = Quantity::Custom(2, "cans".to_string()).add(Quantity::Custom(1, "cans".to_string()));
    assert_eq!(Quantity::Custom(3, "cans".to_string()), c);
    let d = Quantity::Custom(2, "cans".to_string()).add(Quantity::Custom(1, "jars".to_string()));
    assert_eq!(Quantity::Custom(2, "cans".to_string()), d);
    let x = Quantity::Weight(Weight::Gram(200)).add(Quantity::Volume(Volume::Liter(1)));
    assert_eq!(Quantity::Weight(Weight::Gram(200)), x);
    assert_eq!(Weight::Gram(1453), Weight::Kilogram(1).add(Weight::Pounds(1)));
    assert_eq!(Volume::Milliliter(20), Volume::Tablespoon(1).add(Volume::Teaspoon(1)));
}

#[test]
fn scaling_rounds_down_and_never_reaches_zero() {
    let mut q = Quantity::Volume(Volume::Deciliter(5));
    q.scale(8, 4);
    assert_eq!(Quantity::Volume(Volume::Deciliter(10)), q);
    let mut e = Quantity::Pieces(5);
    e.scale(2, 3);
    assert_eq!(Quantity::Pieces(3), e);
    let mut s = Quantity::Pieces(5);
    s.scale(1, 10);
    assert_eq!(Quantity::Pieces(1), s);
    let mut c = Quantity::Custom(4, "cans".to_string());
    c.scale(1, 2);
    assert_eq!(Quantity::Custom(2, "cans".to_string()), c);
    let mut big = Quantity::Pieces(4_000_000_000);
    big.scale(255, 1);
    assert_eq!(Quantity::Pieces(4294967295), big);
}

#[test]
fn normalized_picks_the_most_readable_unit() {
    let cases = vec![
        (Quantity::Weight(Weight::Gram(3000)), Quantity::Weight(Weight::Kilogram(3))),
        (Quantity::Weight(Weight::Gram(1500)), Quantity::Weight(Weight::Gram(1500))),
        (Quantity::Weight(Weight::Pounds(1)), Quantity::Weight(Weight::Gram(453))),
        (Quantity::Volume(Volume::Milliliter(1500)), Quantity::Volume(Volume::Deciliter(15))),
        (Quantity::Volume(Volume::Milliliter(2000)), Quantity::Volume(Volume::Liter(2))),
        (Quantity::Volume(Volume::Tablespoon(2)), Quantity::Volume(Volume::Centiliter(3))),
        (Quantity::Volume(Volume::Teaspoon(1)), Quantity::Volume(Volume::Milliliter(5))),
        (Quantity::Pieces(12), Quantity::Pieces(12)),
        (
            Quantity::Custom(3, "cans".to_string()),
            Quantity::Custom(3, "cans".to_string()),
        ),
    ];
    for (q, expected) in cases {
        let once = q.normalized();
        assert_eq!(expected, once);
        assert_eq!(once, once.normalized());
    }
}

#[test]
fn quantities_as_text() {
    assert_eq!("5 dl", Quantity::Volume(Volume::Deciliter(5)).to_string());
    assert_eq!("3", Quantity::Pieces(3).to_string());
    assert_eq!("2 fl oz", Quantity::Volume(Volume::Ounces(2)).to_string());
    assert_eq!("1 lbs", Quantity::Weight(Weight::Pounds(1)).to_string());
    assert_eq!("2 cans", Quantity::Custom(2, "cans".to_string()).to_string());
    assert_eq!("kg", Quantity::Weight(Weight::Kilogram(1)).unit());
    assert_eq!("", Quantity::Pieces(1).unit());
    assert_eq!(7, Quantity::Custom(7, "x".to_string()).amount());
}

#[test]
fn unit_lookup_from_lower_case_phrase() {
    assert_eq!(Quantity::Volume(Volume::Liter(2)), quantity_in_unit(2, "l".to_string()));
    assert_eq!(Quantity::Volume(Volume::Ounces(3)), quantity_in_unit(3, "fl oz".to_string()));
    assert_eq!(Quantity::Weight(Weight::Pounds(1)), quantity_in_unit(1, "lbs".to_string()));
    assert_eq!(
        Quantity::Custom(3, "packages".to_string()),
        quantity_in_unit(3, "packages".to_string())
    );
}

#[test]
fn spellings_in_any_letter_case() {
    for (text, n) in [("2 l", 2), ("2 L", 2), ("5 Liters", 5), ("7 LITER", 7)] {
        assert_eq!(Quantity::Volume(Volume::Liter(n)), Quantity::parse(text).unwrap());
    }
    assert_eq!(
        Quantity::Volume(Volume::Spices(2)),
        Quantity::parse("2 KRYDDMÅTT").unwrap()
    );
    assert_eq!(
        Quantity::Custom(1, "påse".to_string()),
        Quantity::parse("1 PÅSE").unwrap()
    );
}
