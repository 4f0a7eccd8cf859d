use recipes::client::format_ingredients;
use recipes::text::{chars_of, contains, join, normalize_ingredients, split_terms};

fn chars(s: &str) -> Vec<char> {
    s.chars().collect()
}

fn terms(s: &str) -> Vec<String> {
    split_terms(&chars(s)).into_iter().map(|t| t.into_iter().collect()).collect()
}

#[test]
fn normalize_drops_quantities_and_lowercases() {
    assert_eq!(normalize_ingredients("2 Cups Flour, Eggs"), "cupsflour,eggs");
    assert_eq!(normalize_ingredients("ABC"), "abc");
    assert_eq!(normalize_ingredients("1/2 tsp. salt!"), "tspsalt");
}

#[test]
fn normalize_keeps_non_ascii_letters() {
    assert_eq!(normalize_ingredients("Crème Brûlée"), "crèmebrûlée");
}

#[test]
fn normalize_of_empty_and_of_noise() {
    assert_eq!(normalize_ingredients(""), "");
    assert_eq!(normalize_ingredients("12 345 -- !!"), "");
    assert_eq!(normalize_ingredients(",,"), ",,");
}

#[test]
fn normalize_twice_is_normalize_once() {
    for s in ["2 Cups Flour, Eggs", "Sugar,BUTTER , 3 eggs", "", "x,y,,z"] {
        let once = normalize_ingredients(s);
        assert_eq!(normalize_ingredients(&once), once);
    }
}

#[test]
fn split_skips_empty_pieces() {
    assert_eq!(terms("flour,,eggs,"), vec!["flour".to_string(), "eggs".to_string()]);
    assert_eq!(terms(""), Vec::<String>::new());
    assert_eq!(terms(",,,"), Vec::<String>::new());
    assert_eq!(terms("salt"), vec!["salt".to_string()]);
}

#[test]
fn chars_of_keeps_order() {
    assert_eq!(chars_of("añb"), vec!['a', 'ñ', 'b']);
}

#[test]
fn substring_search() {
    assert!(contains(&chars("2 cups flour"), &chars("flour")));
    assert!(contains(&chars("2 cups flour"), &chars("")));
    assert!(contains(&chars("flour"), &chars("flour")));
    assert!(!contains(&chars("flo"), &chars("flour")));
    assert!(!contains(&chars("2 cups flour"), &chars("sugar")));
}

#[test]
fn join_with_separator() {
    let items = vec!["a".to_string(), "b".to_string(), "c".to_string()];
    assert_eq!(join(&items, ", "), "a, b, c");
    assert_eq!(join(&Vec::new(), ", "), "");
    assert_eq!(join(&vec!["only".to_string()], ","), "only");
}

#[test]
fn format_ingredients_joins_with_comma_space() {
    let items = vec!["1 egg".to_string(), "2 cups flour".to_string()];
    assert_eq!(format_ingredients(&items), "1 egg, 2 cups flour");
}
