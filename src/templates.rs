//! What the HTML page is rendered from.
use vstd::prelude::*;

use crate::recipe::Recipe;
use crate::selector::Selection;
use crate::text::{join, joined};

verus! {

/// The data of the recipe page: the recipe, the stylesheet it links and its
/// ingredients as one line.
#[derive(Debug)]
pub struct IndexTemplate {
    pub recipe: Recipe,
    pub stylesheet: &'static str,
    pub ingredients: String,
}

impl IndexTemplate {
    pub fn new(recipe: Recipe, ingredients: String) -> (r: Self)
        ensures
            r.recipe@ == recipe@,
            r.stylesheet@ == "style.css"@,
            r.ingredients@ == ingredients@,
    {
        IndexTemplate { recipe, stylesheet: "style.css", ingredients }
    }

    /// The page for a selection: a found recipe with its ingredients joined by
    /// ", ", the fallback recipe with the line "empty", and no page when
    /// nothing was found.
    pub fn from_selection(selection: Selection) -> (r: Option<Self>)
        ensures
            match selection {
                Selection::Found(rec, ings) => r matches Some(t) && t.recipe@ == rec@
                    && t.ingredients@ == joined(ings.deep_view(), ", "@),
                Selection::NotFound => r is None,
                Selection::Fallback(rec) => r matches Some(t) && t.recipe@ == rec@
                    && t.ingredients@ == "empty"@,
            },
            r matches Some(t) ==> t.stylesheet@ == "style.css"@,
    {
        match selection {
            Selection::Found(recipe, ingredients) => {
                let line = join(&ingredients, ", ");
                Some(IndexTemplate::new(recipe, line))
            },
            Selection::NotFound => None,
            Selection::Fallback(recipe) => Some(IndexTemplate::new(recipe, String::from_str("empty"))),
        }
    }
}

} // verus!
