use recipes::recipe::{JsonRecipe, Recipe};
use recipes::selector::{parse_id, AppState, GetRecipeParams, Selection};
use recipes::store::RecipeStore;

fn record(id: i64, ingredients: &[&str]) -> JsonRecipe {
    JsonRecipe::new(
        Recipe {
            id,
            title: format!("Recipe {}", id),
            category: "Main".to_string(),
            preparation: "Cook.".to_string(),
        },
        ingredients.iter().map(|s| s.to_string()).collect(),
    )
}

fn state() -> AppState {
    let mut store = RecipeStore::new();
    store.add(&record(1, &["2 cups flour", "3 eggs"])).unwrap();
    store.add(&record(2, &["1 lb pasta", "garlic"])).unwrap();
    store.add(&record(3, &["1 cup flour", "milk"])).unwrap();
    AppState::new(store)
}

fn params(id: Option<&str>, ingredients: Option<&str>) -> GetRecipeParams {
    GetRecipeParams { id: id.map(String::from), ingredients: ingredients.map(String::from) }
}

fn found_id(s: &Selection) -> Option<i64> {
    match s {
        Selection::Found(r, _) => Some(r.id),
        _ => None,
    }
}

#[test]
fn new_state_holds_placeholder() {
    let st = state();
    assert_eq!(st.current_recipe.id, 0);
    assert_eq!(st.current_recipe.title, "thing");
    assert_eq!(st.current_recipe.category, "thingies");
    assert_eq!(st.current_recipe.preparation, "notreal");
}

#[test]
fn id_is_fetched_and_cached() {
    let mut st = state();
    let s = st.select(&params(Some("2"), Some("flour")), 0);
    match s {
        Selection::Found(r, ings) => {
            assert_eq!(r.id, 2);
            assert_eq!(ings, vec!["1 lb pasta".to_string(), "garlic".to_string()]);
        }
        _ => panic!("expected a recipe"),
    }
    assert_eq!(st.current_recipe.id, 2);
    assert_eq!(found_id(&st.select(&params(Some("+3"), None), 0)), Some(3));
    assert_eq!(st.current_recipe.id, 3);
}

#[test]
fn unknown_or_malformed_id_is_not_found() {
    let mut st = state();
    assert!(matches!(st.select(&params(Some("42"), None), 1), Selection::NotFound));
    assert!(matches!(st.select(&params(Some("abc"), Some("garlic")), 1), Selection::NotFound));
    assert!(matches!(st.select(&params(Some(""), None), 1), Selection::NotFound));
    assert!(matches!(st.select(&params(Some("99999999999999999999"), None), 1), Selection::NotFound));
    assert_eq!(st.current_recipe.id, 0);
}

#[test]
fn unique_ingredients_fetch_by_id() {
    let mut st = state();
    assert_eq!(found_id(&st.select(&params(None, Some("Garlic!")), 0)), Some(2));
    assert_eq!(st.current_recipe.id, 2);
}

#[test]
fn ambiguous_ingredients_fall_through_to_random() {
    let mut st = state();
    assert_eq!(found_id(&st.select(&params(None, Some("flour")), 2)), Some(3));
    assert_eq!(found_id(&st.select(&params(None, Some("chocolate")), 0)), Some(1));
    assert_eq!(found_id(&st.select(&params(None, None), 1)), Some(2));
    assert_eq!(st.current_recipe.id, 2);
}

#[test]
fn empty_store_serves_the_current_recipe() {
    let mut st = AppState::new(RecipeStore::new());
    match st.select(&params(None, Some("flour")), 0) {
        Selection::Fallback(r) => assert_eq!(r.title, "thing"),
        _ => panic!("expected the fallback"),
    }
    assert!(matches!(st.get_recipe(&params(None, None)), Selection::Fallback(_)));
}

#[test]
fn fallback_is_the_last_recipe_served() {
    let mut st = state();
    st.fetch(3);
    st.store = RecipeStore::new();
    match st.get_recipe(&params(None, None)) {
        Selection::Fallback(r) => assert_eq!(r.id, 3),
        _ => panic!("expected the fallback"),
    }
}

#[test]
fn random_page_request_serves_a_stored_recipe() {
    let mut st = state();
    for _ in 0..50 {
        let id = found_id(&st.get_recipe(&params(None, None))).unwrap();
        assert!([1, 2, 3].contains(&id));
        assert_eq!(st.current_recipe.id, id);
    }
}

#[test]
fn id_text_forms() {
    assert_eq!(parse_id("42"), Some(42));
    assert_eq!(parse_id("-7"), Some(-7));
    assert_eq!(parse_id("+7"), Some(7));
    assert_eq!(parse_id("007"), Some(7));
    assert_eq!(parse_id("9223372036854775807"), Some(i64::MAX));
    assert_eq!(parse_id("-9223372036854775808"), Some(i64::MIN));
    assert_eq!(parse_id("9223372036854775808"), None);
    assert_eq!(parse_id(""), None);
    assert_eq!(parse_id("-"), None);
    assert_eq!(parse_id(" 1"), None);
    assert_eq!(parse_id("1a"), None);
}
