//! The recipe store: a relation of recipes and a relation of ingredient rows
//! that reference them.
use vstd::prelude::*;

use crate::recipe::{JsonRecipe, JsonRecipeModel, Recipe, RecipeModel};

verus! {

/// Why a store operation did not succeed.
#[derive(Clone, Copy, Debug, PartialEq, Eq, Structural)]
pub enum StoreError {
    /// No recipe has the asked id, or the store holds no recipe.
    NotFound,
    /// A recipe with that id exists already.
    Conflict,
    /// A record with an empty field.
    Validation,
    /// The persistent store could not be reached.
    Unavailable,
}

/// One ingredient association: a recipe id and a free-text amount.
#[derive(Clone, Debug)]
pub struct IngredientRow {
    pub recipe_id: i64,
    pub ingredient_amount: String,
}

pub ghost struct RowModel {
    pub recipe_id: i64,
    pub amount: Seq<char>,
}

impl View for IngredientRow {
    type V = RowModel;

    open spec fn view(&self) -> RowModel {
        RowModel { recipe_id: self.recipe_id, amount: self.ingredient_amount@ }
    }
}

pub ghost struct StoreModel {
    pub recipes: Seq<RecipeModel>,
    pub rows: Seq<RowModel>,
}

/// The recipe relation and the ingredient relation, kept together.
#[derive(Debug)]
pub struct RecipeStore {
    recipes: Vec<Recipe>,
    rows: Vec<IngredientRow>,
}

impl View for RecipeStore {
    type V = StoreModel;

    closed spec fn view(&self) -> StoreModel {
        StoreModel {
            recipes: self.recipes@.map_values(|r: Recipe| r@),
            rows: self.rows@.map_values(|r: IngredientRow| r@),
        }
    }
}

/// Some recipe of the store has this id.
pub open spec fn has_id(m: StoreModel, id: i64) -> bool {
    exists|i: int| 0 <= i < m.recipes.len() && #[trigger] m.recipes[i].id == id
}

/// The recipe with this id.
pub open spec fn recipe_of(m: StoreModel, id: i64) -> RecipeModel {
    m.recipes[choose|i: int| 0 <= i < m.recipes.len() && #[trigger] m.recipes[i].id == id]
}

/// The ingredient strings of the rows that belong to `id`, in row order.
pub open spec fn ingredients_of(rows: Seq<RowModel>, id: i64) -> Seq<Seq<char>>
    decreases rows.len(),
{
    if rows.len() == 0 {
        Seq::empty()
    } else {
        let before = ingredients_of(rows.drop_last(), id);
        if rows.last().recipe_id == id {
            before.push(rows.last().amount)
        } else {
            before
        }
    }
}

/// Ids are unique and every ingredient row references an existing recipe.
pub open spec fn store_wf(m: StoreModel) -> bool {
    &&& forall|i: int, j: int|
        0 <= i < m.recipes.len() && 0 <= j < m.recipes.len() && i != j ==> #[trigger] m.recipes[i].id
            != #[trigger] m.recipes[j].id
    &&& forall|k: int| 0 <= k < m.rows.len() ==> has_id(m, #[trigger] m.rows[k].recipe_id)
}

/// Every field of the record is filled in: title, category, preparation,
/// and at least one ingredient, none of them empty.
pub open spec fn valid_record(j: JsonRecipeModel) -> bool {
    &&& j.recipe.title.len() > 0
    &&& j.recipe.category.len() > 0
    &&& j.recipe.preparation.len() > 0
    &&& j.ingredients.len() > 0
    &&& forall|k: int| 0 <= k < j.ingredients.len() ==> #[trigger] j.ingredients[k].len() > 0
}

/// The ingredient rows of one recipe.
pub open spec fn rows_for(id: i64, ingredients: Seq<Seq<char>>) -> Seq<RowModel> {
    ingredients.map_values(|a: Seq<char>| RowModel { recipe_id: id, amount: a })
}

/// Adding a record: rejected when a field is empty, then when its id is
/// taken; otherwise the recipe row and all its ingredient rows are appended.
pub open spec fn add_result(m: StoreModel, j: JsonRecipeModel) -> Result<StoreModel, StoreError> {
    if !valid_record(j) {
        Err(StoreError::Validation)
    } else if has_id(m, j.recipe.id) {
        Err(StoreError::Conflict)
    } else {
        Ok(
            StoreModel {
                recipes: m.recipes.push(j.recipe),
                rows: m.rows + rows_for(j.recipe.id, j.ingredients),
            },
        )
    }
}

/// What an add reports.
pub open spec fn add_outcome(m: StoreModel, j: JsonRecipeModel) -> Result<(), StoreError> {
    match add_result(m, j) {
        Ok(_) => Ok(()),
        Err(e) => Err(e),
    }
}

/// The store after an add: unchanged when the add is rejected.
pub open spec fn after_add(m: StoreModel, j: JsonRecipeModel) -> StoreModel {
    match add_result(m, j) {
        Ok(n) => n,
        Err(_) => m,
    }
}

/// The store after adding each record of a batch in turn, skipping those
/// that are rejected.
pub open spec fn imported(m: StoreModel, batch: Seq<JsonRecipeModel>) -> StoreModel
    decreases batch.len(),
{
    if batch.len() == 0 {
        m
    } else {
        after_add(imported(m, batch.drop_last()), batch.last())
    }
}

pub open spec fn batch_view(batch: Seq<JsonRecipe>) -> Seq<JsonRecipeModel> {
    batch.map_values(|j: JsonRecipe| j@)
}

/// An add keeps the store well formed.
pub proof fn lemma_add_keeps_wf(m: StoreModel, j: JsonRecipeModel)
    requires
        store_wf(m),
    ensures
        store_wf(after_add(m, j)),
{
    if let Ok(n) = add_result(m, j) {
        assert forall|k: int| 0 <= k < n.rows.len() implies has_id(n, #[trigger] n.rows[k].recipe_id) by {
            if k < m.rows.len() {
                let i = choose|i: int| 0 <= i < m.recipes.len() && #[trigger] m.recipes[i].id == m.rows[k].recipe_id;
                assert(n.recipes[i] == m.recipes[i]);
            } else {
                assert(n.recipes[m.recipes.len() as int] == j.recipe);
            }
        }
    }
}

proof fn lemma_ingredients_concat(a: Seq<RowModel>, b: Seq<RowModel>, id: i64)
    ensures
        ingredients_of(a + b, id) == ingredients_of(a, id) + ingredients_of(b, id),
    decreases b.len(),
{
    if b.len() == 0 {
        assert(a + b =~= a);
        assert(ingredients_of(a, id) + ingredients_of(b, id) =~= ingredients_of(a, id));
    } else {
        assert((a + b).drop_last() =~= a + b.drop_last());
        lemma_ingredients_concat(a, b.drop_last(), id);
        if b.last().recipe_id == id {
            assert(ingredients_of(a, id) + ingredients_of(b, id) =~= (ingredients_of(a, id)
                + ingredients_of(b.drop_last(), id)).push(b.last().amount));
        }
    }
}

proof fn lemma_ingredients_rows_for(id: i64, ingredients: Seq<Seq<char>>, x: i64)
    ensures
        ingredients_of(rows_for(id, ingredients), x) == if x == id {
            ingredients
        } else {
            Seq::empty()
        },
    decreases ingredients.len(),
{
    if ingredients.len() > 0 {
        assert(rows_for(id, ingredients).drop_last() =~= rows_for(id, ingredients.drop_last()));
        lemma_ingredients_rows_for(id, ingredients.drop_last(), x);
        if x == id {
            assert(ingredients =~= ingredients.drop_last().push(ingredients.last()));
        }
    } else {
        assert(rows_for(id, ingredients) =~= Seq::empty());
    }
}

proof fn lemma_no_rows_for(rows: Seq<RowModel>, id: i64)
    requires
        forall|k: int| 0 <= k < rows.len() ==> #[trigger] rows[k].recipe_id != id,
    ensures
        ingredients_of(rows, id) == Seq::<Seq<char>>::empty(),
    decreases rows.len(),
{
    if rows.len() > 0 {
        lemma_no_rows_for(rows.drop_last(), id);
        assert(rows.last().recipe_id != id);
    }
}

/// A recipe that is not stored has no ingredient rows.
pub proof fn lemma_absent_has_no_rows(m: StoreModel, id: i64)
    requires
        store_wf(m),
        !has_id(m, id),
    ensures
        ingredients_of(m.rows, id) == Seq::<Seq<char>>::empty(),
{
    assert forall|k: int| 0 <= k < m.rows.len() implies #[trigger] m.rows[k].recipe_id != id by {
        assert(has_id(m, m.rows[k].recipe_id));
    }
    lemma_no_rows_for(m.rows, id);
}

/// In a well-formed store the recipe of an id is the one at its position.
proof fn lemma_recipe_of_at(m: StoreModel, i: int)
    requires
        store_wf(m),
        0 <= i < m.recipes.len(),
    ensures
        recipe_of(m, m.recipes[i].id) == m.recipes[i],
{
    let id = m.recipes[i].id;
    let c = choose|c: int| 0 <= c < m.recipes.len() && #[trigger] m.recipes[c].id == id;
    assert(c == i);
}

/// What a successful add does to each id: the added one now reads back as
/// the record; every other id reads as before.
pub proof fn lemma_add_effect(m: StoreModel, j: JsonRecipeModel, x: i64)
    requires
        store_wf(m),
        add_result(m, j) is Ok,
    ensures
        has_id(after_add(m, j), x) <==> (has_id(m, x) || x == j.recipe.id),
        x == j.recipe.id ==> recipe_of(after_add(m, j), x) == j.recipe && ingredients_of(
            after_add(m, j).rows,
            x,
        ) == j.ingredients,
        x != j.recipe.id ==> ingredients_of(after_add(m, j).rows, x) == ingredients_of(m.rows, x),
        x != j.recipe.id && has_id(m, x) ==> recipe_of(after_add(m, j), x) == recipe_of(m, x),
{
    let n = after_add(m, j);
    lemma_add_keeps_wf(m, j);
    let last = m.recipes.len() as int;
    assert(n.recipes[last] == j.recipe);
    if has_id(m, x) {
        let i = choose|i: int| 0 <= i < m.recipes.len() && #[trigger] m.recipes[i].id == x;
        assert(n.recipes[i] == m.recipes[i]);
        lemma_recipe_of_at(m, i);
        lemma_recipe_of_at(n, i);
    }
    if has_id(n, x) && x != j.recipe.id {
        let i = choose|i: int| 0 <= i < n.recipes.len() && #[trigger] n.recipes[i].id == x;
        assert(i != last);
        assert(m.recipes[i] == n.recipes[i]);
    }
    lemma_ingredients_concat(m.rows, rows_for(j.recipe.id, j.ingredients), x);
    lemma_ingredients_rows_for(j.recipe.id, j.ingredients, x);
    if x == j.recipe.id {
        lemma_recipe_of_at(n, last);
        lemma_absent_has_no_rows(m, x);
        assert(Seq::<Seq<char>>::empty() + j.ingredients =~= j.ingredients);
    } else {
        assert(ingredients_of(m.rows, x) + Seq::<Seq<char>>::empty() =~= ingredients_of(m.rows, x));
    }
}

/// Adding a valid record whose id is free and then fetching that id gives
/// back exactly the record's title, category, preparation and ingredient
/// strings.
pub proof fn lemma_add_then_get(m: StoreModel, j: JsonRecipeModel)
    requires
        store_wf(m),
        valid_record(j),
        !has_id(m, j.recipe.id),
    ensures
        add_outcome(m, j) == Ok::<(), StoreError>(()),
        has_id(after_add(m, j), j.recipe.id),
        recipe_of(after_add(m, j), j.recipe.id) == j.recipe,
        ingredients_of(after_add(m, j).rows, j.recipe.id) == j.ingredients,
{
    lemma_add_effect(m, j, j.recipe.id);
}

/// Adding a valid record under an id that is taken fails with `Conflict`
/// and leaves the store as it was.
pub proof fn lemma_add_duplicate(m: StoreModel, j: JsonRecipeModel)
    requires
        valid_record(j),
        has_id(m, j.recipe.id),
    ensures
        add_outcome(m, j) == Err::<(), StoreError>(StoreError::Conflict),
        after_add(m, j) == m,
{
}

/// Whether the record at position `k` of the batch is taken in when the
/// batch is imported into `m`.
pub open spec fn accepted(m: StoreModel, batch: Seq<JsonRecipeModel>, k: int) -> bool {
    add_outcome(imported(m, batch.take(k)), batch[k]) is Ok
}

/// How many records of the batch are taken in.
pub open spec fn count_accepted(m: StoreModel, batch: Seq<JsonRecipeModel>) -> nat
    decreases batch.len(),
{
    if batch.len() == 0 {
        0
    } else {
        count_accepted(m, batch.drop_last()) + if accepted(m, batch, batch.len() - 1) {
            1nat
        } else {
            0nat
        }
    }
}

/// How many records of the batch are valid.
pub open spec fn count_valid(batch: Seq<JsonRecipeModel>) -> nat
    decreases batch.len(),
{
    if batch.len() == 0 {
        0
    } else {
        count_valid(batch.drop_last()) + if valid_record(batch.last()) {
            1nat
        } else {
            0nat
        }
    }
}

proof fn lemma_accepted_prefix(m: StoreModel, batch: Seq<JsonRecipeModel>, k: int)
    requires
        0 <= k < batch.len() - 1,
    ensures
        accepted(m, batch.drop_last(), k) == accepted(m, batch, k),
{
    assert(batch.drop_last().take(k) =~= batch.take(k));
}

/// Importing a batch keeps the store well formed, adds one recipe per
/// accepted record, stores each accepted record in full, and leaves no
/// trace of an id that no accepted record carries.
pub proof fn lemma_import_persists_accepted(m: StoreModel, batch: Seq<JsonRecipeModel>)
    requires
        store_wf(m),
    ensures
        store_wf(imported(m, batch)),
        imported(m, batch).recipes.len() == m.recipes.len() + count_accepted(m, batch),
        forall|k: int|
            0 <= k < batch.len() && #[trigger] accepted(m, batch, k) ==> has_id(
                imported(m, batch),
                batch[k].recipe.id,
            ) && recipe_of(imported(m, batch), batch[k].recipe.id) == batch[k].recipe
                && ingredients_of(imported(m, batch).rows, batch[k].recipe.id)
                == batch[k].ingredients,
        forall|x: i64|
            !has_id(m, x) && (forall|k: int|
                0 <= k < batch.len() && #[trigger] accepted(m, batch, k) ==> batch[k].recipe.id
                    != x) ==> !has_id(imported(m, batch), x) && ingredients_of(
                imported(m, batch).rows,
                x,
            ) == Seq::<Seq<char>>::empty(),
    decreases batch.len(),
{
    if batch.len() == 0 {
        assert forall|x: i64| !has_id(m, x) implies ingredients_of(m.rows, x)
            == Seq::<Seq<char>>::empty() by {
            lemma_absent_has_no_rows(m, x);
        }
    } else {
        let p = batch.drop_last();
        let last = batch.len() - 1;
        let before = imported(m, p);
        let j = batch.last();
        assert(batch.take(last) =~= p);
        lemma_import_persists_accepted(m, p);
        lemma_add_keeps_wf(before, j);
        assert forall|k: int| 0 <= k < last implies accepted(m, p, k) == #[trigger] accepted(m, batch, k) by {
            lemma_accepted_prefix(m, batch, k);
        }
        if accepted(m, batch, last) {
            assert forall|k: int|
                0 <= k < batch.len() && #[trigger] accepted(m, batch, k) implies has_id(
                imported(m, batch),
                batch[k].recipe.id,
            ) && recipe_of(imported(m, batch), batch[k].recipe.id) == batch[k].recipe
                && ingredients_of(imported(m, batch).rows, batch[k].recipe.id)
                == batch[k].ingredients by {
                lemma_add_effect(before, j, batch[k].recipe.id);
                if k < last {
                    assert(accepted(m, p, k));
                    assert(p[k] == batch[k]);
                }
            }
            assert forall|x: i64|
                !has_id(m, x) && (forall|k: int|
                    0 <= k < batch.len() && #[trigger] accepted(m, batch, k) ==> batch[k].recipe.id
                        != x) implies !has_id(imported(m, batch), x) && ingredients_of(
                imported(m, batch).rows,
                x,
            ) == Seq::<Seq<char>>::empty() by {
                assert(batch[last].recipe.id != x);
                assert forall|k: int| 0 <= k < p.len() && #[trigger] accepted(m, p, k) implies p[k].recipe.id != x by {
                    assert(accepted(m, batch, k));
                    assert(p[k] == batch[k]);
                }
                lemma_add_effect(before, j, x);
            }
        } else {
            assert forall|x: i64|
                !has_id(m, x) && (forall|k: int|
                    0 <= k < batch.len() && #[trigger] accepted(m, batch, k) ==> batch[k].recipe.id
                        != x) implies !has_id(imported(m, batch), x) && ingredients_of(
                imported(m, batch).rows,
                x,
            ) == Seq::<Seq<char>>::empty() by {
                assert forall|k: int| 0 <= k < p.len() && #[trigger] accepted(m, p, k) implies p[k].recipe.id != x by {
                    assert(accepted(m, batch, k));
                    assert(p[k] == batch[k]);
                }
            }
            assert forall|k: int|
                0 <= k < batch.len() && #[trigger] accepted(m, batch, k) implies has_id(
                imported(m, batch),
                batch[k].recipe.id,
            ) && recipe_of(imported(m, batch), batch[k].recipe.id) == batch[k].recipe
                && ingredients_of(imported(m, batch).rows, batch[k].recipe.id)
                == batch[k].ingredients by {
                assert(k < last);
                assert(accepted(m, p, k));
                assert(p[k] == batch[k]);
            }
        }
    }
}

/// For a batch whose ids are distinct and not yet stored, a record is taken
/// in exactly when it is valid: an invalid record anywhere in the batch
/// costs that record alone, and the store grows by the number of valid
/// records.
pub proof fn lemma_import_fresh_batch(m: StoreModel, batch: Seq<JsonRecipeModel>)
    requires
        store_wf(m),
        forall|k: int| 0 <= k < batch.len() ==> !has_id(m, #[trigger] batch[k].recipe.id),
        forall|a: int, b: int|
            0 <= a < b < batch.len() ==> #[trigger] batch[a].recipe.id != #[trigger] batch[b].recipe.id,
    ensures
        forall|k: int| 0 <= k < batch.len() ==> (#[trigger] accepted(m, batch, k) <==> valid_record(batch[k])),
        imported(m, batch).recipes.len() == m.recipes.len() + count_valid(batch),
        forall|k: int|
            0 <= k < batch.len() && !valid_record(#[trigger] batch[k]) ==> !has_id(
                imported(m, batch),
                batch[k].recipe.id,
            ) && ingredients_of(imported(m, batch).rows, batch[k].recipe.id) == Seq::<
                Seq<char>,
            >::empty(),
    decreases batch.len(),
{
    assert forall|k: int| 0 <= k < batch.len() implies (#[trigger] accepted(m, batch, k) <==> valid_record(batch[k])) by {
        let pre = batch.take(k);
        lemma_import_persists_accepted(m, pre);
        let x = batch[k].recipe.id;
        assert forall|q: int| 0 <= q < pre.len() && #[trigger] accepted(m, pre, q) implies pre[q].recipe.id != x by {
            assert(pre[q] == batch[q]);
        }
        assert(!has_id(imported(m, pre), x));
    }
    lemma_import_persists_accepted(m, batch);
    if batch.len() > 0 {
        let p = batch.drop_last();
        lemma_import_fresh_batch(m, p);
        assert forall|k: int| 0 <= k < p.len() implies accepted(m, p, k) == #[trigger] accepted(m, batch, k) by {
            lemma_accepted_prefix(m, batch, k);
        }
        lemma_import_persists_accepted(m, p);
        assert(count_accepted(m, p) == count_valid(p));
        assert(batch.last() == batch[batch.len() - 1]);
    }
    assert forall|k: int|
        0 <= k < batch.len() && !valid_record(#[trigger] batch[k]) implies !has_id(
            imported(m, batch),
            batch[k].recipe.id,
        ) && ingredients_of(imported(m, batch).rows, batch[k].recipe.id) == Seq::<
            Seq<char>,
        >::empty() by {
        assert(!accepted(m, batch, k));
        assert forall|q: int| 0 <= q < batch.len() && #[trigger] accepted(m, batch, q) implies batch[q].recipe.id != batch[k].recipe.id by {
            assert(q != k);
        }
    }
}

/// Each stored id sits at exactly one position, so a position drawn
/// uniformly draws each id with the same chance, and every drawn position
/// names a stored id.
pub proof fn lemma_positions_name_each_id_once(m: StoreModel)
    requires
        store_wf(m),
    ensures
        forall|i: int| 0 <= i < m.recipes.len() ==> has_id(m, #[trigger] m.recipes[i].id),
        forall|id: i64|
            has_id(m, id) ==> exists|i: int|
                0 <= i < m.recipes.len() && #[trigger] m.recipes[i].id == id && forall|q: int|
                    0 <= q < m.recipes.len() && #[trigger] m.recipes[q].id == id ==> q == i,
{
}

/// Relies on `fastrand::usize` over `..n`: a number below `n`; it panics
/// only on an empty range.
#[verifier::external_body]
pub(crate) fn draw_below(n: usize) -> (r: usize)
    requires
        n > 0,
    ensures
        r < n,
{
    fastrand::usize(..n)
}

impl RecipeStore {
    pub open spec fn wf(&self) -> bool {
        store_wf(self@)
    }

    /// An empty store.
    pub fn new() -> (r: Self)
        ensures
            r.wf(),
            r@.recipes.len() == 0,
            r@.rows.len() == 0,
    {
        let r = RecipeStore { recipes: Vec::new(), rows: Vec::new() };
        assert(r@.recipes =~= Seq::empty());
        assert(r@.rows =~= Seq::empty());
        r
    }

    /// The number of recipes.
    pub fn len(&self) -> (r: usize)
        ensures
            r == self@.recipes.len(),
    {
        self.recipes.len()
    }

    /// The position of the recipe with this id.
    fn position(&self, id: i64) -> (r: Option<usize>)
        ensures
            match r {
                Some(i) => i < self@.recipes.len() && self@.recipes[i as int].id == id,
                None => !has_id(self@, id),
            },
    {
        let mut i: usize = 0;
        while i < self.recipes.len()
            invariant
                i <= self@.recipes.len(),
                self@.recipes.len() == self.recipes@.len(),
                forall|j: int| 0 <= j < i ==> #[trigger] self@.recipes[j].id != id,
            decreases self.recipes.len() - i,
        {
            assert(self@.recipes[i as int] == self.recipes@[i as int]@);
            if self.recipes[i].id == id {
                return Some(i);
            }
            i = i + 1;
        }
        None
    }

    /// Fetches the recipe with this id and its ingredient strings.
    pub fn get(&self, id: i64) -> (r: Result<(Recipe, Vec<String>), StoreError>)
        requires
            self.wf(),
        ensures
            has_id(self@, id) <==> r is Ok,
            r is Err ==> r == Err::<(Recipe, Vec<String>), StoreError>(StoreError::NotFound),
            r matches Ok((rec, ings)) ==> rec@ == recipe_of(self@, id) && ings.deep_view()
                == ingredients_of(self@.rows, id),
    {
        match self.position(id) {
            None => Err(StoreError::NotFound),
            Some(i) => {
                let ghost m = self@;
                assert(m.recipes[i as int] == self.recipes@[i as int]@);
                let rec = self.recipes[i].duplicate();
                let ghost c = choose|c: int| 0 <= c < m.recipes.len() && #[trigger] m.recipes[c].id == id;
                assert(c == i);
                let mut ings: Vec<String> = Vec::new();
                let mut k: usize = 0;
                while k < self.rows.len()
                    invariant
                        k <= self.rows@.len(),
                        m == self@,
                        m.rows.len() == self.rows@.len(),
                        ings.deep_view() == ingredients_of(m.rows.take(k as int), id),
                    decreases self.rows.len() - k,
                {
                    assert(m.rows.take(k + 1).drop_last() =~= m.rows.take(k as int));
                    assert(m.rows[k as int] == self.rows@[k as int]@);
                    if self.rows[k].recipe_id == id {
                        let ghost before = ings.deep_view();
                        ings.push(self.rows[k].ingredient_amount.clone());
                        assert(ings.deep_view() =~= before.push(m.rows[k as int].amount));
                    }
                    k = k + 1;
                }
                assert(m.rows.take(k as int) =~= m.rows);
                Ok((rec, ings))
            },
        }
    }

    /// What adding this record would report, without adding it.
    pub fn check_add(&self, record: &JsonRecipe) -> (r: Result<(), StoreError>)
        ensures
            r == add_outcome(self@, record@),
    {
        let (recipe, ingredients) = record.to_recipe();
        let ghost j = record@;
        let mut valid = !recipe.title.as_str().is_empty() && !recipe.category.as_str().is_empty()
            && !recipe.preparation.as_str().is_empty() && ingredients.len() > 0;
        let mut k: usize = 0;
        while k < ingredients.len()
            invariant
                k <= ingredients@.len(),
                ingredients.deep_view() == j.ingredients,
                valid <==> (j.recipe.title.len() > 0 && j.recipe.category.len() > 0
                    && j.recipe.preparation.len() > 0 && j.ingredients.len() > 0 && forall|q: int|
                    0 <= q < k ==> #[trigger] j.ingredients[q].len() > 0),
            decreases ingredients.len() - k,
        {
            assert(j.ingredients[k as int] == ingredients@[k as int]@);
            if ingredients[k].as_str().is_empty() {
                valid = false;
            }
            k = k + 1;
        }
        if !valid {
            Err(StoreError::Validation)
        } else if self.position(recipe.id).is_some() {
            Err(StoreError::Conflict)
        } else {
            Ok(())
        }
    }

    /// Adds a record: its recipe row and all its ingredient rows, or nothing.
    pub fn add(&mut self, record: &JsonRecipe) -> (r: Result<(), StoreError>)
        requires
            old(self).wf(),
        ensures
            final(self).wf(),
            final(self)@ == after_add(old(self)@, record@),
            r == add_outcome(old(self)@, record@),
    {
        let checked = self.check_add(record);
        if checked.is_err() {
            return checked;
        }
        let (recipe, ingredients) = record.to_recipe();
        let ghost j = record@;
        let id = recipe.id;
        proof {
            lemma_add_keeps_wf(self@, j);
        }
        let ghost m = self@;
        self.recipes.push(recipe);
        assert(self@.recipes =~= m.recipes.push(j.recipe));
        let mut k: usize = 0;
        while k < ingredients.len()
            invariant
                k <= ingredients@.len(),
                ingredients.deep_view() == j.ingredients,
                self@.recipes == m.recipes.push(j.recipe),
                self@.rows == m.rows + rows_for(id, j.ingredients.take(k as int)),
                id == j.recipe.id,
            decreases ingredients.len() - k,
        {
            let ghost before = self@.rows;
            self.rows.push(IngredientRow { recipe_id: id, ingredient_amount: ingredients[k].clone() });
            assert(j.ingredients[k as int] == ingredients@[k as int]@);
            assert(j.ingredients.take(k + 1) =~= j.ingredients.take(k as int).push(j.ingredients[k as int]));
            let ghost row = RowModel { recipe_id: id, amount: j.ingredients[k as int] };
            assert(self@.rows =~= before.push(row));
            assert(rows_for(id, j.ingredients.take(k + 1)) =~= rows_for(id, j.ingredients.take(k as int)).push(row));
            assert(self@.rows =~= m.rows + rows_for(id, j.ingredients.take(k + 1)));
            k = k + 1;
        }
        assert(j.ingredients.take(k as int) =~= j.ingredients);
        Ok(())
    }

    /// Adds each record of a batch in turn. A rejected record leaves nothing
    /// behind and does not stop the records after it; the answer holds each
    /// record's outcome.
    pub fn import(&mut self, batch: &Vec<JsonRecipe>) -> (r: Vec<Result<(), StoreError>>)
        requires
            old(self).wf(),
        ensures
            final(self).wf(),
            final(self)@ == imported(old(self)@, batch_view(batch@)),
            r@.len() == batch@.len(),
            forall|k: int|
                0 <= k < batch@.len() ==> #[trigger] r@[k] == add_outcome(
                    imported(old(self)@, batch_view(batch@).take(k)),
                    batch@[k]@,
                ),
    {
        let ghost start = self@;
        let ghost all = batch_view(batch@);
        let mut outcomes: Vec<Result<(), StoreError>> = Vec::new();
        let mut i: usize = 0;
        while i < batch.len()
            invariant
                i <= batch@.len(),
                all == batch_view(batch@),
                self.wf(),
                self@ == imported(start, all.take(i as int)),
                outcomes@.len() == i,
                forall|k: int|
                    0 <= k < i ==> #[trigger] outcomes@[k] == add_outcome(
                        imported(start, all.take(k)),
                        batch@[k]@,
                    ),
            decreases batch.len() - i,
        {
            assert(all.take(i + 1).drop_last() =~= all.take(i as int));
            assert(all.take(i + 1).last() == batch@[i as int]@);
            let outcome = self.add(&batch[i]);
            outcomes.push(outcome);
            i = i + 1;
        }
        assert(all.take(i as int) =~= all);
        outcomes
    }

    /// The id of the recipe at this position; every position names a stored
    /// recipe and every stored recipe has a position.
    pub fn id_at(&self, index: usize) -> (r: i64)
        requires
            index < self@.recipes.len(),
        ensures
            r == self@.recipes[index as int].id,
    {
        assert(self@.recipes[index as int] == self.recipes@[index as int]@);
        self.recipes[index].id
    }

    /// The number of ingredient rows.
    pub fn row_count(&self) -> (r: usize)
        ensures
            r == self@.rows.len(),
    {
        self.rows.len()
    }

    /// The ingredient row at this position.
    pub fn row_at(&self, k: usize) -> (r: &IngredientRow)
        requires
            k < self@.rows.len(),
        ensures
            r@ == self@.rows[k as int],
    {
        &self.rows[k]
    }

    /// The id of a recipe drawn at random, each with the same chance.
    pub fn get_random(&self) -> (r: Result<i64, StoreError>)
        ensures
            r is Ok <==> self@.recipes.len() > 0,
            r is Err ==> r == Err::<i64, StoreError>(StoreError::NotFound),
            r matches Ok(id) ==> has_id(self@, id),
    {
        let n = self.recipes.len();
        if n == 0 {
            return Err(StoreError::NotFound);
        }
        let index = draw_below(n);
        let id = self.id_at(index);
        assert(self@.recipes[index as int].id == id);
        Ok(id)
    }
}

} // verus!
