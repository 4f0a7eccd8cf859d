use recipes::recipe::{JsonRecipe, Recipe};
use recipes::store::RecipeStore;

fn record(id: i64, ingredients: &[&str]) -> JsonRecipe {
    JsonRecipe::new(
        Recipe {
            id,
            title: format!("Recipe {}", id),
            category: "Main".to_string(),
            preparation: "Cook.".to_string(),
        },
        ingredients.iter().map(|s| s.to_string()).collect(),
    )
}

fn sample_store() -> RecipeStore {
    let mut store = RecipeStore::new();
    store.add(&record(1, &["2 cups flour", "3 eggs", "1 cup sugar"])).unwrap();
    store.add(&record(2, &["1 lb pasta", "2 cloves garlic", "olive oil"])).unwrap();
    store.add(&record(3, &["1 cup flour", "1 cup milk", "2 eggs"])).unwrap();
    store
}

#[test]
fn one_match_resolves_to_that_recipe() {
    let store = sample_store();
    assert_eq!(store.resolve_query("Garlic"), Some(2));
    assert_eq!(store.resolve_query("Sugar"), Some(1));
    assert_eq!(store.resolve_query("2 Cups SUGAR"), None);
    assert_eq!(store.resolve_query("Olive-Oil"), Some(2));
    assert_eq!(store.resolve_query("flour, milk"), Some(3));
}

#[test]
fn several_matches_resolve_to_nothing() {
    let store = sample_store();
    assert_eq!(store.resolve_query("flour"), None);
    assert_eq!(store.resolve_query("eggs, flour"), None);
}

#[test]
fn no_match_resolves_to_nothing() {
    let store = sample_store();
    assert_eq!(store.resolve_query("chocolate"), None);
    assert_eq!(store.resolve_query("garlic, sugar"), None);
}

#[test]
fn empty_query_resolves_to_nothing() {
    let store = sample_store();
    assert_eq!(store.resolve_query(""), None);
    assert_eq!(store.resolve_query("12, 3 ,"), None);
    let mut single = RecipeStore::new();
    single.add(&record(9, &["salt"])).unwrap();
    assert_eq!(single.resolve_query(""), None);
    assert_eq!(single.resolve_query("salt"), Some(9));
}

#[test]
fn list_of_ingredients_resolves_like_a_query() {
    let store = sample_store();
    let list = vec!["Pasta".to_string(), "olive oil".to_string()];
    assert_eq!(store.get_by_ingredients(&list), Some(2));
    let ambiguous = vec!["eggs".to_string()];
    assert_eq!(store.get_by_ingredients(&ambiguous), None);
    assert_eq!(store.get_by_ingredients(&Vec::new()), None);
}

#[test]
fn match_terms_on_prepared_terms() {
    let store = sample_store();
    let terms: Vec<Vec<char>> = vec!["milk".chars().collect()];
    assert_eq!(store.match_terms(&terms), Some(3));
    assert_eq!(store.match_terms(&Vec::new()), None);
}

#[test]
fn interleaved_queries_agree_with_one_at_a_time() {
    let store = sample_store();
    let queries = ["flour, milk", "garlic", "eggs", "sugar", "oil, pasta", "flour"];
    let alone: Vec<Option<i64>> = queries.iter().map(|q| sample_store().resolve_query(q)).collect();
    for round in 0..3 {
        for (k, q) in queries.iter().enumerate().rev() {
            assert_eq!(store.resolve_query(q), alone[k], "round {} query {}", round, q);
        }
    }
    assert_eq!(alone, vec![Some(3), Some(2), None, Some(1), Some(2), None]);
}
