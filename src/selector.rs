//! Choosing the recipe a page shows: by id, else by ingredients, else at
//! random; every recipe served goes through the id path and becomes the
//! current recipe, which is shown when the store holds none.
use vstd::prelude::*;

use crate::matcher::{raw_query_terms, unique_match};
use crate::recipe::{Recipe, RecipeModel};
use crate::store::{has_id, ingredients_of, recipe_of, RecipeStore, StoreModel};

verus! {

pub open spec fn is_digit(c: char) -> bool {
    '0' <= c && c <= '9'
}

/// The value of a run of decimal digits.
pub open spec fn digits_value(s: Seq<char>) -> int
    decreases s.len(),
{
    if s.len() == 0 {
        0
    } else {
        digits_value(s.drop_last()) * 10 + ((s.last() as u32) as int - ('0' as u32) as int)
    }
}

/// An optional sign followed by one or more decimal digits, read as an integer.
pub open spec fn decimal_value(s: Seq<char>) -> Option<int> {
    let signed = s.len() > 0 && (s[0] == '-' || s[0] == '+');
    let digits = if signed {
        s.drop_first()
    } else {
        s
    };
    if digits.len() > 0 && forall|i: int| 0 <= i < digits.len() ==> is_digit(#[trigger] digits[i]) {
        if signed && s[0] == '-' {
            Some(-digits_value(digits))
        } else {
            Some(digits_value(digits))
        }
    } else {
        None
    }
}

/// The `i64` that the text spells, if it spells one in range.
pub open spec fn parsed_i64(s: Seq<char>) -> Option<i64> {
    match decimal_value(s) {
        Some(v) => if i64::MIN <= v <= i64::MAX {
            Some(v as i64)
        } else {
            None
        },
        None => None,
    }
}

/// Relies on `<i64 as FromStr>::from_str`: an optional `+` or `-` and then
/// ASCII digits only, at least one, with the value in range; anything else
/// is an error.
#[verifier::external_body]
fn parse_i64(s: &str) -> (r: Option<i64>)
    ensures
        r == parsed_i64(s@),
{
    s.parse::<i64>().ok()
}

/// Reads a recipe id from its text form.
pub fn parse_id(text: &str) -> (r: Option<i64>)
    ensures
        r == parsed_i64(text@),
{
    parse_i64(text)
}

/// What a page request carries: a recipe id, or an ingredient query.
#[derive(Clone, Debug)]
pub struct GetRecipeParams {
    pub id: Option<String>,
    pub ingredients: Option<String>,
}

pub ghost struct ParamsModel {
    pub id: Option<Seq<char>>,
    pub ingredients: Option<Seq<char>>,
}

impl View for GetRecipeParams {
    type V = ParamsModel;

    open spec fn view(&self) -> ParamsModel {
        ParamsModel {
            id: match self.id {
                Some(s) => Some(s@),
                None => None,
            },
            ingredients: match self.ingredients {
                Some(s) => Some(s@),
                None => None,
            },
        }
    }
}

/// The outcome of a selection.
#[derive(Debug)]
pub enum Selection {
    /// A recipe fetched by id, with its ingredient strings.
    Found(Recipe, Vec<String>),
    /// The asked id names no recipe.
    NotFound,
    /// The store holds no recipe: the current recipe, shown instead.
    Fallback(Recipe),
}

/// Which way a selection goes.
pub ghost enum Plan {
    /// Fetch this id through the id path.
    Fetch(i64),
    /// An id was asked for that cannot name a recipe.
    Missing,
    /// Nothing to fetch: show the current recipe.
    Fallback,
}

/// The id param wins; then a unique ingredient match; then the recipe at
/// position `draw`; with an empty store, the fallback.
pub open spec fn plan(m: StoreModel, p: ParamsModel, draw: int) -> Plan {
    match p.id {
        Some(s) => match parsed_i64(s) {
            Some(id) => Plan::Fetch(id),
            None => Plan::Missing,
        },
        None => {
            let by_ingredients = match p.ingredients {
                Some(q) => unique_match(m, raw_query_terms(q)),
                None => None,
            };
            match by_ingredients {
                Some(id) => Plan::Fetch(id),
                None => if m.recipes.len() > 0 {
                    Plan::Fetch(m.recipes[draw].id)
                } else {
                    Plan::Fallback
                },
            }
        },
    }
}

/// The outcome of fetching `id` from `m`, and the current recipe after it.
pub open spec fn fetch_post(
    m: StoreModel,
    id: i64,
    cur_before: RecipeModel,
    cur_after: RecipeModel,
    r: Selection,
) -> bool {
    if has_id(m, id) {
        &&& r matches Selection::Found(rec, ings) && rec@ == recipe_of(m, id) && ings.deep_view()
            == ingredients_of(m.rows, id)
        &&& cur_after == recipe_of(m, id)
    } else {
        r is NotFound && cur_after == cur_before
    }
}

/// The outcome of a selection that follows `plan`.
pub open spec fn select_post(
    m: StoreModel,
    p: ParamsModel,
    draw: int,
    cur_before: RecipeModel,
    cur_after: RecipeModel,
    r: Selection,
) -> bool {
    match plan(m, p, draw) {
        Plan::Fetch(id) => fetch_post(m, id, cur_before, cur_after, r),
        Plan::Missing => r is NotFound && cur_after == cur_before,
        Plan::Fallback => r matches Selection::Fallback(c) && c@ == cur_before && cur_after
            == cur_before,
    }
}

/// The store and the current recipe, shared by the request handlers.
#[derive(Debug)]
pub struct AppState {
    pub store: RecipeStore,
    pub current_recipe: Recipe,
}

impl AppState {
    pub open spec fn wf(&self) -> bool {
        self.store.wf()
    }

    /// Wraps a store; the current recipe starts as a placeholder.
    pub fn new(store: RecipeStore) -> (r: Self)
        ensures
            r.store == store,
            r.current_recipe@ == (RecipeModel {
                id: 0,
                title: "thing"@,
                category: "thingies"@,
                preparation: "notreal"@,
            }),
    {
        let current_recipe = Recipe {
            id: 0,
            title: String::from_str("thing"),
            category: String::from_str("thingies"),
            preparation: String::from_str("notreal"),
        };
        AppState { store, current_recipe }
    }

    /// The id path: fetches the recipe and, when there is one, makes it the
    /// current recipe.
    pub fn fetch(&mut self, id: i64) -> (r: Selection)
        requires
            old(self).wf(),
        ensures
            final(self).store == old(self).store,
            fetch_post(
                old(self).store@,
                id,
                old(self).current_recipe@,
                final(self).current_recipe@,
                r,
            ),
    {
        match self.store.get(id) {
            Ok((recipe, ingredients)) => {
                self.current_recipe = recipe.duplicate();
                Selection::Found(recipe, ingredients)
            },
            Err(_) => Selection::NotFound,
        }
    }

    /// Selects with `draw` as the random position, used only when neither
    /// the id nor the ingredients decide.
    pub fn select(&mut self, params: &GetRecipeParams, draw: usize) -> (r: Selection)
        requires
            old(self).wf(),
            old(self).store@.recipes.len() == 0 || draw < old(self).store@.recipes.len(),
        ensures
            final(self).store == old(self).store,
            select_post(
                old(self).store@,
                params@,
                draw as int,
                old(self).current_recipe@,
                final(self).current_recipe@,
                r,
            ),
    {
        if let Some(id_text) = &params.id {
            return match parse_id(id_text.as_str()) {
                Some(id) => self.fetch(id),
                None => Selection::NotFound,
            };
        }
        if let Some(query) = &params.ingredients {
            if let Some(id) = self.store.resolve_query(query.as_str()) {
                return self.fetch(id);
            }
        }
        if self.store.len() > 0 {
            let id = self.store.id_at(draw);
            self.fetch(id)
        } else {
            Selection::Fallback(self.current_recipe.duplicate())
        }
    }

    /// Selects for a page request, drawing the random position itself.
    pub fn get_recipe(&mut self, params: &GetRecipeParams) -> (r: Selection)
        requires
            old(self).wf(),
        ensures
            final(self).store == old(self).store,
            exists|draw: int|
                (old(self).store@.recipes.len() == 0 || 0 <= draw < old(self).store@.recipes.len())
                    && select_post(
                    old(self).store@,
                    params@,
                    draw,
                    old(self).current_recipe@,
                    final(self).current_recipe@,
                    r,
                ),
    {
        let n = self.store.len();
        let draw = if n > 0 {
            crate::store::draw_below(n)
        } else {
            0
        };
        self.select(params, draw)
    }
}

} // verus!
