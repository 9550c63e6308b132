use shopping_list::qty::{Quantity, Volume, Weight};
use shopping_list::recipe::{divide_unit, join_ingredients, merge, try_merge, Ingredient, Recipe};

#[test]
fn test_parse_single_ingredient() {
    let ingr = Ingredient::parse("milk, 2 l").unwrap();
    assert_eq!("milk", ingr.item);
    assert_eq!(Quantity::Volume(Volume::Liter(2)), ingr.amount);
}

#[test]
fn test_parse_single_ingredient_with_dashes_and_whitespace() {
    let ingr = Ingredient::parse(" - milk, 2 l").unwrap();
    assert_eq!("milk", ingr.item);
    assert_eq!(Quantity::Volume(Volume::Liter(2)), ingr.amount);
}

#[test]
fn test_merge_same_ingredient_same_unit() {
    let items: Vec<Ingredient> = vec![
        Ingredient::parse(" - milk, 5 dl").unwrap(),
        Ingredient::parse(" - milk, 4 dl").unwrap(),
    ];

    let items: Vec<Ingredient> = merge(items);
    let milk: &Ingredient = items.first().unwrap();
    assert_eq!(Quantity::Volume(Volume::Milliliter(900)), milk.amount)
}

#[test]
fn test_merge_same_ingredient_different() {
    let items: Vec<Ingredient> = vec![
        Ingredient::parse(" - milk, 5 dl").unwrap(),
        Ingredient::parse(" - milk, 1 l").unwrap(),
    ];

    let items: Vec<Ingredient> = merge(items);
    let milk: &Ingredient = items.first().unwrap();
    assert_eq!(Quantity::Volume(Volume::Milliliter(1500u32)), milk.amount)
}

#[test]
fn test_change_unit_to_most_human_readable() {
    let items: Vec<Ingredient> = vec![
        Ingredient::parse(" - milk, 5 dl").unwrap(),
        Ingredient::parse(" - milk, 1 l").unwrap(),
    ];

    let items: Vec<Ingredient> = merge(items);
    let milk: &Ingredient = items.first().unwrap();
    let milk: Ingredient = divide_unit(milk);
    assert_eq!(Quantity::Volume(Volume::Deciliter(15u32)), milk.amount)
}

#[test]
fn test_change_servings_size() {
    let ingredients: Vec<Ingredient> = vec![
        Ingredient::parse(" - milk, 5 dl").unwrap(),
        Ingredient::parse(" - eggs, 5").unwrap(),
    ];
    let mut recipe = Recipe::new("Pancakes", ingredients, 4u8);
    recipe.apply_serving_size(8u8);

    let milk: u32 = match &recipe.ingredients.first().unwrap().amount {
        Quantity::Volume(v) => v.as_milliliters(),
        _ => 0u32,
    };

    assert_eq!(1_000u32, milk);

    let eggs: u32 = match &recipe.ingredients.last().unwrap().amount {
        Quantity::Pieces(p) => *p,
        _ => 0u32,
    };

    assert_eq!(10u32, eggs);
}

#[test]
fn ingredient_lines_with_other_bullets_and_case() {
    let ingr = Ingredient::parse("* Brown Sugar , 2 DL").unwrap();
    assert_eq!("brown sugar", ingr.item);
    assert_eq!(Quantity::Volume(Volume::Deciliter(2)), ingr.amount);
    let bare = Ingredient::parse("  - Eggs  ").unwrap();
    assert_eq!("eggs", bare.item);
    assert_eq!(Quantity::Pieces(1), bare.amount);
    let empty_tail = Ingredient::parse("salt,").unwrap();
    assert_eq!(Quantity::Pieces(1), empty_tail.amount);
}

#[test]
fn invalid_ingredient_lines() {
    assert_eq!(
        Err("Invalid line 'a, b, c'".to_string()),
        Ingredient::parse("a, b, c")
    );
    assert_eq!(
        Err("Invalid line ' - , 2 dl'".to_string()),
        Ingredient::parse(" - , 2 dl")
    );
    assert_eq!(
        Err("Invalid quantifier/integer: some".to_string()),
        Ingredient::parse("milk, some")
    );
    assert_eq!(
        Err("Invalid amount: 0".to_string()),
        Ingredient::parse("milk, 0 dl")
    );
}

#[test]
fn ingredient_as_text() {
    let milk = Ingredient::new("milk".to_string(), Quantity::Volume(Volume::Deciliter(5)));
    assert_eq!("milk, 5 dl", milk.to_string());
    let eggs = Ingredient::new("eggs".to_string(), Quantity::Pieces(3));
    assert_eq!("eggs, 3", eggs.to_string());
}

#[test]
fn merge_orders_by_name_and_sums_each_name() {
    let items: Vec<Ingredient> = vec![
        Ingredient::parse("sugar, 1 dl").unwrap(),
        Ingredient::parse("eggs, 2").unwrap(),
        Ingredient::parse("flour, 200 g").unwrap(),
        Ingredient::parse("eggs, 3").unwrap(),
        Ingredient::parse("flour, 1 kg").unwrap(),
        Ingredient::parse("butter").unwrap(),
    ];
    let merged = merge(items);
    let names: Vec<&str> = merged.iter().map(|i| i.item.as_str()).collect();
    assert_eq!(vec!["butter", "eggs", "flour", "sugar"], names);
    assert_eq!(Quantity::Pieces(1), merged[0].amount);
    assert_eq!(Quantity::Pieces(5), merged[1].amount);
    assert_eq!(Quantity::Weight(Weight::Gram(1200)), merged[2].amount);
    assert_eq!(Quantity::Volume(Volume::Deciliter(1)), merged[3].amount);
    assert_eq!(
        Quantity::Weight(Weight::Gram(1200)),
        divide_unit(&merged[2]).amount
    );
}

#[test]
fn merge_keeps_the_first_of_incompatible_amounts() {
    let items: Vec<Ingredient> = vec![
        Ingredient::parse("flour, 200 g").unwrap(),
        Ingredient::parse("flour, 3 packages").unwrap(),
        Ingredient::parse("flour, 100 g").unwrap(),
    ];
    let merged = merge(items);
    assert_eq!(1, merged.len());
    assert_eq!(Quantity::Weight(Weight::Gram(300)), merged[0].amount);
}

#[test]
fn merge_of_nothing_is_empty() {
    assert!(merge(Vec::new()).is_empty());
}

#[test]
fn try_merge_reports_totals_too_large() {
    let items: Vec<Ingredient> = vec![
        Ingredient::parse("water, 4294967 l").unwrap(),
        Ingredient::parse("water, 1 l").unwrap(),
    ];
    assert!(try_merge(items).is_none());
    let alone: Vec<Ingredient> = vec![Ingredient::parse("water, 4294968 l").unwrap()];
    assert!(try_merge(alone).is_none());
    let fine: Vec<Ingredient> = vec![Ingredient::parse("water, 4 l").unwrap()];
    let merged = try_merge(fine).unwrap();
    assert_eq!(Quantity::Volume(Volume::Liter(4)), merged[0].amount);
}

#[test]
fn join_ingredients_merges_across_recipes() {
    let a = Recipe::new(
        "Pancakes",
        vec![
            Ingredient::parse("- milk, 5 dl").unwrap(),
            Ingredient::parse("- eggs, 2").unwrap(),
        ],
        4,
    );
    let b = Recipe::new(
        "Omelette",
        vec![
            Ingredient::parse("- eggs, 3").unwrap(),
            Ingredient::parse("- milk, 1 dl").unwrap(),
        ],
        2,
    );
    let list = join_ingredients(vec![a, b]);
    assert_eq!(2, list.len());
    assert_eq!("eggs, 5", list[0].to_string());
    assert_eq!("milk, 6 dl", divide_unit(&list[1]).to_string());
}

#[test]
fn serving_size_without_declared_servings_changes_nothing() {
    let mut r = Recipe::from_text("Soup\n- water, 1 l\n").unwrap();
    assert_eq!(None, r.servings);
    r.apply_serving_size(8);
    assert_eq!(Quantity::Volume(Volume::Liter(1)), r.ingredients[0].amount);
    let mut same = Recipe::new("Soup", vec![Ingredient::parse("water, 1 l").unwrap()], 4);
    same.apply_serving_size(4);
    assert_eq!(Quantity::Volume(Volume::Liter(1)), same.ingredients[0].amount);
    let mut fewer = Recipe::new("Soup", vec![Ingredient::parse("eggs, 5").unwrap()], 3);
    fewer.apply_serving_size(2);
    assert_eq!(Quantity::Pieces(3), fewer.ingredients[0].amount);
    assert_eq!(Some(3), fewer.servings);
}

#[test]
fn recipe_documents() {
    let text = "\n# Pancakes\r\nServings: 4\r\n\nSome words.\n - milk, 5 dl\n- eggs, 3\n-not an item\n- a, b, c\n  - Flour, 2 DL\n";
    let r = Recipe::from_text(text).unwrap();
    assert_eq!("# Pancakes", r.title);
    assert_eq!(Some(4), r.servings);
    assert_eq!(3, r.size());
    assert_eq!("milk, 5 dl", r.ingredients[0].to_string());
    assert_eq!("eggs, 3", r.ingredients[1].to_string());
    assert_eq!("flour, 2 dl", r.ingredients[2].to_string());
    assert!(Recipe::from_text("").is_none());
    assert!(Recipe::from_text("\n\r\n\n").is_none());
    assert_eq!("  ", Recipe::from_text("  \n\t\n").unwrap().title);
    assert_eq!("T ", Recipe::from_text("\nT \n- eggs, 2\n").unwrap().title);
    let odd = Recipe::from_text("Stew\nservings: many\n").unwrap();
    assert_eq!(None, odd.servings);
}

#[test]
fn merge_does_not_depend_on_order_for_compatible_amounts() {
    let lines = [" - milk, 5 dl", " - eggs, 2", " - milk, 1 l", " - eggs, 3", " - milk, 2 tbsp"];
    let forward: Vec<Ingredient> = lines.iter().map(|l| Ingredient::parse(l).unwrap()).collect();
    let backward: Vec<Ingredient> = lines.iter().rev().map(|l| Ingredient::parse(l).unwrap()).collect();
    let a = merge(forward);
    let b = merge(backward);
    assert_eq!(a, b);
    assert_eq!(Quantity::Volume(Volume::Milliliter(1530)), a[1].amount);
    assert_eq!(Quantity::Pieces(5), a[0].amount);
    let two = merge(vec![
        Ingredient::parse("milk, 4 dl").unwrap(),
        Ingredient::parse("milk, 5 dl").unwrap(),
    ]);
    assert_eq!(Quantity::Volume(Volume::Milliliter(900)), two[0].amount);
}
