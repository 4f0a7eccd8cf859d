//! Recipe records and their import/export shape.
use vstd::prelude::*;

verus! {

/// A recipe as the store holds it: the ingredients live in their own rows.
#[derive(Clone, Debug)]
pub struct Recipe {
    pub id: i64,
    pub title: String,
    pub category: String,
    pub preparation: String,
}

pub ghost struct RecipeModel {
    pub id: i64,
    pub title: Seq<char>,
    pub category: Seq<char>,
    pub preparation: Seq<char>,
}

impl View for Recipe {
    type V = RecipeModel;

    open spec fn view(&self) -> RecipeModel {
        RecipeModel {
            id: self.id,
            title: self.title@,
            category: self.category@,
            preparation: self.preparation@,
        }
    }
}

impl Recipe {
    /// A field-by-field copy.
    pub fn duplicate(&self) -> (r: Recipe)
        ensures
            r@ == self@,
    {
        Recipe {
            id: self.id,
            title: self.title.clone(),
            category: self.category.clone(),
            preparation: self.preparation.clone(),
        }
    }
}

/// Copies a list of strings.
pub fn copy_strings(v: &Vec<String>) -> (r: Vec<String>)
    ensures
        r.deep_view() == v.deep_view(),
{
    let mut r: Vec<String> = Vec::new();
    let mut i: usize = 0;
    while i < v.len()
        invariant
            i <= v@.len(),
            r@ == v@.take(i as int),
        decreases v.len() - i,
    {
        r.push(v[i].clone());
        i = i + 1;
        assert(r@ =~= v@.take(i as int));
    }
    assert(v@.take(i as int) =~= v@);
    r
}

/// The sequence with later repetitions removed; first occurrences keep their order.
pub open spec fn distinct_items(s: Seq<Seq<char>>) -> Seq<Seq<char>>
    decreases s.len(),
{
    if s.len() == 0 {
        Seq::empty()
    } else {
        let d = distinct_items(s.drop_last());
        if d.contains(s.last()) {
            d
        } else {
            d.push(s.last())
        }
    }
}

pub open spec fn no_repeats(s: Seq<Seq<char>>) -> bool {
    forall|i: int, j: int| 0 <= i < j < s.len() ==> s[i] != s[j]
}

pub ghost struct JsonRecipeModel {
    pub recipe: RecipeModel,
    pub ingredients: Seq<Seq<char>>,
}

/// A recipe together with its set of ingredient strings: the shape of one
/// record of an import file and of one API answer.
#[derive(Debug)]
pub struct JsonRecipe {
    id: i64,
    title: String,
    category: String,
    ingredient_amount: Vec<String>,
    preparation: String,
}

impl View for JsonRecipe {
    type V = JsonRecipeModel;

    closed spec fn view(&self) -> JsonRecipeModel {
        JsonRecipeModel {
            recipe: RecipeModel {
                id: self.id,
                title: self.title@,
                category: self.category@,
                preparation: self.preparation@,
            },
            ingredients: self.ingredient_amount.deep_view(),
        }
    }
}

impl JsonRecipe {
    #[verifier::type_invariant]
    spec fn inv(self) -> bool {
        no_repeats(self.ingredient_amount.deep_view())
    }

    /// Builds the record from a recipe and its ingredient strings; a string
    /// given twice is kept once.
    pub fn new(recipe: Recipe, ingredients: Vec<String>) -> (r: Self)
        ensures
            r@.recipe == recipe@,
            r@.ingredients == distinct_items(ingredients.deep_view()),
    {
        let mut kept: Vec<String> = Vec::new();
        let ghost all = ingredients.deep_view();
        let mut i: usize = 0;
        while i < ingredients.len()
            invariant
                i <= ingredients@.len(),
                all == ingredients.deep_view(),
                kept.deep_view() == distinct_items(all.take(i as int)),
                no_repeats(kept.deep_view()),
            decreases ingredients.len() - i,
        {
            assert(all.take(i + 1).drop_last() =~= all.take(i as int));
            let mut seen = false;
            let mut j: usize = 0;
            while j < kept.len()
                invariant
                    j <= kept@.len(),
                    seen <==> exists|k: int| 0 <= k < j && kept.deep_view()[k] == all[i as int],
                    i < ingredients@.len(),
                    all == ingredients.deep_view(),
                decreases kept.len() - j,
            {
                assert(kept.deep_view()[j as int] == kept@[j as int]@);
                assert(all[i as int] == ingredients@[i as int]@);
                if kept[j] == ingredients[i] {
                    seen = true;
                }
                j = j + 1;
            }
            if !seen {
                let ghost before = kept.deep_view();
                kept.push(ingredients[i].clone());
                assert(kept.deep_view() =~= before.push(all[i as int]));
            }
            i = i + 1;
        }
        assert(all.take(i as int) =~= all);
        JsonRecipe {
            id: recipe.id,
            title: recipe.title,
            category: recipe.category,
            ingredient_amount: kept,
            preparation: recipe.preparation,
        }
    }

    /// The recipe row and the ingredient strings of this record.
    pub fn to_recipe(&self) -> (r: (Recipe, Vec<String>))
        ensures
            r.0@ == self@.recipe,
            r.1.deep_view() == self@.ingredients,
            no_repeats(r.1.deep_view()),
    {
        proof {
            use_type_invariant(self);
        }
        let recipe = Recipe {
            id: self.id,
            title: self.title.clone(),
            category: self.category.clone(),
            preparation: self.preparation.clone(),
        };
        (recipe, copy_strings(&self.ingredient_amount))
    }
}

} // verus!
