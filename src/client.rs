//! The browser client's view of a recipe: what its recipe card shows.
use vstd::prelude::*;

use crate::text::{join, joined};

verus! {

/// A recipe as the client receives it; ingredients and preparation may be
/// missing.
#[derive(Clone, Debug, PartialEq)]
pub struct RecipeStruct {
    pub id: i64,
    pub title: String,
    pub category: String,
    pub ingredient_amount: Option<Vec<String>>,
    pub preparation: Option<String>,
}

/// The properties of the recipe card.
#[derive(Clone, Debug, PartialEq)]
pub struct RecipeProps {
    pub recipe: RecipeStruct,
}

/// The texts of a recipe card.
#[derive(Clone, Debug)]
pub struct RecipeCard {
    pub title: String,
    pub category: String,
    pub preparation: String,
    pub annotation: String,
}

pub open spec fn digit_char(d: nat) -> char {
    (('0' as u32) + d) as char
}

/// The decimal digits of `n`, without leading zeros.
pub open spec fn digits_of(n: nat) -> Seq<char>
    decreases n,
{
    if n < 10 {
        seq![digit_char(n)]
    } else {
        digits_of(n / 10).push(digit_char(n % 10))
    }
}

/// `n` written in decimal, with a leading `-` when negative.
pub open spec fn decimal_text(n: int) -> Seq<char> {
    if n < 0 {
        seq!['-'] + digits_of((-n) as nat)
    } else {
        digits_of(n as nat)
    }
}

/// Relies on `<i64 as ToString>::to_string`, through `Display`: a `-` for a
/// negative number, then the decimal digits without leading zeros.
#[verifier::external_body]
fn id_text(n: i64) -> (r: String)
    ensures
        r@ == decimal_text(n as int),
{
    n.to_string()
}

/// The ingredient strings as one line, separated by ", ".
pub fn format_ingredients(ingredients: &Vec<String>) -> (r: String)
    ensures
        r@ == joined(ingredients.deep_view(), ", "@),
{
    join(ingredients, ", ")
}

/// The bracketed note under a card: the id, then the ingredients if known.
pub open spec fn annotation_of(id: i64, ingredients: Option<Seq<Seq<char>>>) -> Seq<char> {
    "[id: "@ + decimal_text(id as int) + match ingredients {
        Some(v) => "; ingredients: "@ + joined(v, ", "@),
        None => Seq::empty(),
    } + "]"@
}

/// The texts of the recipe card for these properties; a missing
/// preparation reads "No preparation details available".
pub fn recipe(props: &RecipeProps) -> (r: RecipeCard)
    ensures
        r.title@ == props.recipe.title@,
        r.category@ == props.recipe.category@,
        r.preparation@ == match props.recipe.preparation {
            Some(p) => p@,
            None => "No preparation details available"@,
        },
        r.annotation@ == annotation_of(
            props.recipe.id,
            match props.recipe.ingredient_amount {
                Some(v) => Some(v.deep_view()),
                None => None,
            },
        ),
{
    let recipe = &props.recipe;
    let preparation = match &recipe.preparation {
        Some(p) => p.clone(),
        None => String::from_str("No preparation details available"),
    };
    let mut annotation = String::from_str("[id: ");
    let id = id_text(recipe.id);
    annotation.append(id.as_str());
    if let Some(ingredients) = &recipe.ingredient_amount {
        annotation.append("; ingredients: ");
        let line = format_ingredients(ingredients);
        annotation.append(line.as_str());
    }
    annotation.append("]");
    RecipeCard {
        title: recipe.title.clone(),
        category: recipe.category.clone(),
        preparation,
        annotation,
    }
}

} // verus!
