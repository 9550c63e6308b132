use shopping_list::recipe::{Ingredient, Recipe};
use shopping_list::select::{accept_file_ext, median, seed_from_days, select, select_recipes};

fn recipe_of_size(title: &str, size: usize) -> Recipe {
    let mut ingredients = Vec::new();
    for k in 0..size {
        ingredients.push(Ingredient::parse(&format!("item{}, 1 dl", k)).unwrap());
    }
    Recipe::new(title, ingredients, 2)
}

fn titles(rs: &[Recipe]) -> Vec<String> {
    rs.iter().map(|r| r.title.clone()).collect()
}

#[test]
fn median_of_even_and_odd_lists() {
    assert_eq!(5, median(&[2, 4, 6, 8]));
    assert_eq!(5, median(&[8, 2, 6, 4]));
    assert_eq!(3, median(&[5, 1, 3]));
    assert_eq!(2, median(&[2]));
    assert_eq!(2, median(&[1, 4]));
}

#[test]
fn simple_mode_puts_recipes_up_to_the_median_first() {
    let candidates = vec![
        Some(recipe_of_size("six", 6)),
        Some(recipe_of_size("two", 2)),
        None,
        Some(recipe_of_size("eight", 8)),
        Some(recipe_of_size("four", 4)),
    ];
    let chosen = select_recipes(candidates, 10, true);
    assert_eq!(vec!["two", "four", "six", "eight"], titles(&chosen));
}

#[test]
fn simple_mode_takes_the_limit_after_ordering() {
    let candidates = vec![
        Some(recipe_of_size("six", 6)),
        Some(recipe_of_size("two", 2)),
        Some(recipe_of_size("eight", 8)),
        Some(recipe_of_size("four", 4)),
    ];
    let chosen = select_recipes(candidates, 3, true);
    assert_eq!(vec!["two", "four", "six"], titles(&chosen));
}

#[test]
fn plain_mode_takes_the_first_candidates() {
    let candidates = vec![
        Some(recipe_of_size("a", 1)),
        None,
        Some(recipe_of_size("b", 3)),
        Some(recipe_of_size("c", 2)),
    ];
    let chosen = select_recipes(candidates, 2, false);
    assert_eq!(vec!["a"], titles(&chosen));
    let none = select_recipes(Vec::new(), 3, true);
    assert!(none.is_empty());
}

#[test]
fn select_is_the_same_for_the_same_seed() {
    let make = || -> Vec<Option<Recipe>> {
        (0..10)
            .map(|k| Some(recipe_of_size(&format!("r{}", k), 1)))
            .collect()
    };
    let first = titles(&select(make(), 10, false, 2800));
    let second = titles(&select(make(), 10, false, 2800));
    assert_eq!(first, second);
    let mut sorted = first.clone();
    sorted.sort();
    let mut expected: Vec<String> = (0..10).map(|k| format!("r{}", k)).collect();
    expected.sort();
    assert_eq!(expected, sorted);
    let unshuffled: Vec<String> = (0..10).map(|k| format!("r{}", k)).collect();
    assert_ne!(unshuffled, first);
}

#[test]
fn weekly_seed_and_extensions() {
    assert_eq!(2, seed_from_days(14));
    assert_eq!(2, seed_from_days(20));
    assert!(accept_file_ext("md"));
    assert!(accept_file_ext("TXT"));
    assert!(!accept_file_ext("rs"));
    assert!(!accept_file_ext(""));
}
