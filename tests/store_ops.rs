use recipes::recipe::{JsonRecipe, Recipe};
use recipes::store::{RecipeStore, StoreError};

fn record(id: i64, title: &str, ingredients: &[&str]) -> JsonRecipe {
    JsonRecipe::new(
        Recipe {
            id,
            title: title.to_string(),
            category: "Dessert".to_string(),
            preparation: "Mix and bake.".to_string(),
        },
        ingredients.iter().map(|s| s.to_string()).collect(),
    )
}

fn sorted(mut v: Vec<String>) -> Vec<String> {
    v.sort();
    v
}

#[test]
fn add_then_get_returns_exactly_the_record() {
    let mut store = RecipeStore::new();
    let r = record(7, "Cake", &["2 cups flour", "3 eggs", "1 cup sugar"]);
    assert_eq!(store.add(&r), Ok(()));
    let (recipe, ingredients) = store.get(7).unwrap();
    assert_eq!(recipe.id, 7);
    assert_eq!(recipe.title, "Cake");
    assert_eq!(recipe.category, "Dessert");
    assert_eq!(recipe.preparation, "Mix and bake.");
    assert_eq!(ingredients.len(), 3);
    assert_eq!(
        sorted(ingredients),
        sorted(vec!["2 cups flour".to_string(), "3 eggs".to_string(), "1 cup sugar".to_string()])
    );
}

#[test]
fn json_recipe_round_trip_through_store() {
    let mut store = RecipeStore::new();
    let r = record(3, "Bread", &["flour", "water", "salt", "flour"]);
    let (_, listed) = r.to_recipe();
    assert_eq!(listed, vec!["flour".to_string(), "water".to_string(), "salt".to_string()]);
    store.add(&r).unwrap();
    let (recipe, ingredients) = store.get(3).unwrap();
    let back = JsonRecipe::new(recipe, ingredients);
    let (again, again_list) = back.to_recipe();
    assert_eq!(again.title, "Bread");
    assert_eq!(again_list, listed);
}

#[test]
fn add_duplicate_id_is_conflict_and_changes_nothing() {
    let mut store = RecipeStore::new();
    store.add(&record(1, "Cake", &["flour", "eggs", "sugar"])).unwrap();
    let recipes_before = store.len();
    let rows_before = store.row_count();
    assert_eq!(store.add(&record(1, "Pie", &["apples", "butter"])), Err(StoreError::Conflict));
    assert_eq!(store.len(), recipes_before);
    assert_eq!(store.row_count(), rows_before);
    let (recipe, ingredients) = store.get(1).unwrap();
    assert_eq!(recipe.title, "Cake");
    assert_eq!(ingredients.len(), 3);
}

#[test]
fn add_with_empty_field_is_validation_error() {
    let mut store = RecipeStore::new();
    assert_eq!(store.add(&record(1, "", &["flour"])), Err(StoreError::Validation));
    assert_eq!(store.add(&record(2, "Cake", &[])), Err(StoreError::Validation));
    assert_eq!(store.add(&record(3, "Cake", &["flour", ""])), Err(StoreError::Validation));
    let empty_prep = JsonRecipe::new(
        Recipe {
            id: 4,
            title: "Cake".to_string(),
            category: "Dessert".to_string(),
            preparation: String::new(),
        },
        vec!["flour".to_string()],
    );
    assert_eq!(store.add(&empty_prep), Err(StoreError::Validation));
    let empty_category = JsonRecipe::new(
        Recipe {
            id: 5,
            title: "Cake".to_string(),
            category: String::new(),
            preparation: "Bake.".to_string(),
        },
        vec!["flour".to_string()],
    );
    assert_eq!(store.add(&empty_category), Err(StoreError::Validation));
    assert_eq!(store.len(), 0);
    assert_eq!(store.row_count(), 0);
}

#[test]
fn validation_comes_before_conflict() {
    let mut store = RecipeStore::new();
    store.add(&record(1, "Cake", &["flour"])).unwrap();
    assert_eq!(store.add(&record(1, "", &["flour"])), Err(StoreError::Validation));
}

#[test]
fn get_missing_id_is_not_found() {
    let mut store = RecipeStore::new();
    assert_eq!(store.get(1).err(), Some(StoreError::NotFound));
    store.add(&record(1, "Cake", &["flour"])).unwrap();
    assert_eq!(store.get(2).err(), Some(StoreError::NotFound));
}

#[test]
fn import_skips_only_the_bad_row() {
    let mut store = RecipeStore::new();
    let mut batch = Vec::new();
    for i in 1..=10 {
        if i == 5 {
            batch.push(record(i, "", &["flour"]));
        } else {
            batch.push(record(i, "Recipe", &["flour", "eggs"]));
        }
    }
    let outcomes = store.import(&batch);
    assert_eq!(store.len(), 9);
    assert_eq!(store.row_count(), 18);
    assert_eq!(outcomes.len(), 10);
    for (k, outcome) in outcomes.iter().enumerate() {
        if k == 4 {
            assert_eq!(*outcome, Err(StoreError::Validation));
        } else {
            assert_eq!(*outcome, Ok(()));
        }
    }
    assert_eq!(store.get(5).err(), Some(StoreError::NotFound));
    for i in [1, 2, 3, 4, 6, 7, 8, 9, 10] {
        assert!(store.get(i).is_ok());
    }
}

#[test]
fn import_rejects_a_duplicate_id_row() {
    let mut store = RecipeStore::new();
    let mut batch = Vec::new();
    for i in 1..=10 {
        let id = if i == 5 { 1 } else { i };
        batch.push(record(id, &format!("Recipe {}", i), &["flour"]));
    }
    let outcomes = store.import(&batch);
    assert_eq!(store.len(), 9);
    assert_eq!(outcomes[4], Err(StoreError::Conflict));
    let (recipe, ingredients) = store.get(1).unwrap();
    assert_eq!(recipe.title, "Recipe 1");
    assert_eq!(ingredients, vec!["flour".to_string()]);
}

#[test]
fn random_from_empty_store_is_not_found() {
    let store = RecipeStore::new();
    assert_eq!(store.get_random(), Err(StoreError::NotFound));
}

#[test]
fn random_reaches_every_id() {
    fastrand::seed(7);
    let mut store = RecipeStore::new();
    let ids = [3, 14, 15, 92, 65, 35, 89, 79, 32, 38];
    for id in ids {
        store.add(&record(id, "R", &["x"])).unwrap();
    }
    let mut seen = std::collections::HashSet::new();
    for _ in 0..2000 {
        let id = store.get_random().unwrap();
        assert!(ids.contains(&id));
        seen.insert(id);
    }
    assert_eq!(seen.len(), ids.len());
}

#[test]
fn positions_name_the_stored_ids() {
    let mut store = RecipeStore::new();
    store.add(&record(10, "A", &["x"])).unwrap();
    store.add(&record(20, "B", &["y"])).unwrap();
    assert_eq!(store.id_at(0), 10);
    assert_eq!(store.id_at(1), 20);
    assert_eq!(store.row_at(1).ingredient_amount, "y");
}

#[test]
fn check_add_reports_without_adding() {
    let mut store = RecipeStore::new();
    let r = record(1, "Cake", &["flour"]);
    assert_eq!(store.check_add(&r), Ok(()));
    assert_eq!(store.len(), 0);
    store.add(&r).unwrap();
    assert_eq!(store.check_add(&r), Err(StoreError::Conflict));
    assert_eq!(store.check_add(&record(2, "", &["flour"])), Err(StoreError::Validation));
    assert_eq!(store.len(), 1);
}
