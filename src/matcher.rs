//! Resolving a recipe from ingredient terms.
//!
//! Policy: a recipe is a candidate when every term occurs, as a substring,
//! in the normalised form of at least one of its ingredient strings (the
//! same normalisation the query goes through, so quantities, units' marks,
//! spaces and case play no part on either side). The answer is the one
//! candidate, or none when there are zero or several: an arbitrary pick
//! among equally good recipes is never made.
use vstd::prelude::*;

use crate::store::{has_id, store_wf, RecipeStore, StoreModel};
use crate::text::{
    chars_of, contains, contains_seq, joined, normalize_ingredients, normalized, query_terms,
    split_terms,
};

verus! {

/// The normalised form of some ingredient row of recipe `id` contains `term`.
pub open spec fn has_term(m: StoreModel, id: i64, term: Seq<char>) -> bool {
    exists|k: int|
        0 <= k < m.rows.len() && m.rows[k].recipe_id == id && #[trigger] contains_seq(
            normalized(m.rows[k].amount),
            term,
        )
}

/// Every term occurs in some ingredient row of recipe `id`.
pub open spec fn matches_terms(m: StoreModel, id: i64, terms: Seq<Seq<char>>) -> bool {
    forall|t: int| 0 <= t < terms.len() ==> has_term(m, id, #[trigger] terms[t])
}

/// The ids of the stored recipes that match every term.
pub open spec fn candidates(m: StoreModel, terms: Seq<Seq<char>>) -> Set<i64> {
    Set::new(|id: i64| has_id(m, id) && matches_terms(m, id, terms))
}

/// The matching recipe when the terms are not empty and exactly one recipe
/// matches them; otherwise none.
pub open spec fn unique_match(m: StoreModel, terms: Seq<Seq<char>>) -> Option<i64> {
    if terms.len() > 0 && exists|id: i64| candidates(m, terms) == set![id] {
        Some(choose|id: i64| candidates(m, terms) == set![id])
    } else {
        None
    }
}

/// Disambiguation: with exactly one matching recipe the answer is that
/// recipe; with none, or with two or more, there is no answer, never an
/// arbitrary pick among them.
pub proof fn lemma_unique_or_nothing(m: StoreModel, terms: Seq<Seq<char>>)
    ensures
        forall|id: i64|
            terms.len() > 0 && candidates(m, terms) == set![id] ==> unique_match(m, terms) == Some(
                id,
            ),
        candidates(m, terms).is_empty() ==> unique_match(m, terms) is None,
        forall|a: i64, b: i64|
            a != b && candidates(m, terms).contains(a) && candidates(m, terms).contains(b)
                ==> unique_match(m, terms) is None,
        unique_match(m, terms) matches Some(id) ==> candidates(m, terms).contains(id),
{
    assert forall|id: i64|
        terms.len() > 0 && candidates(m, terms) == set![id] implies unique_match(m, terms) == Some(
        id,
    ) by {
        let x = choose|x: i64| candidates(m, terms) == set![x];
        assert(set![x].contains(x));
    }
    if candidates(m, terms).is_empty() {
        assert forall|x: i64| candidates(m, terms) != set![x] by {
            assert(set![x].contains(x));
        }
    }
    assert forall|a: i64, b: i64|
        a != b && candidates(m, terms).contains(a) && candidates(m, terms).contains(
            b,
        ) implies unique_match(m, terms) is None by {
        assert forall|x: i64| candidates(m, terms) != set![x] by {
            if candidates(m, terms) == set![x] {
                assert(set![x].contains(a) && set![x].contains(b));
            }
        }
    }
    if unique_match(m, terms) is Some {
        let x = choose|x: i64| candidates(m, terms) == set![x];
        assert(set![x].contains(x));
    }
}

pub open spec fn terms_view(terms: Seq<Vec<char>>) -> Seq<Seq<char>> {
    terms.map_values(|t: Vec<char>| t@)
}

/// The terms of a raw query: normalised, then split at commas.
pub open spec fn raw_query_terms(query: Seq<char>) -> Seq<Seq<char>> {
    query_terms(normalized(query))
}

/// The terms of a list of ingredients: the items read as one
/// comma-separated query.
pub open spec fn list_terms(items: Seq<Seq<char>>) -> Seq<Seq<char>> {
    raw_query_terms(joined(items, seq![',']))
}

/// The normalised characters of every ingredient row.
fn row_chars(store: &RecipeStore) -> (r: Vec<Vec<char>>)
    ensures
        r@.len() == store@.rows.len(),
        forall|k: int| 0 <= k < r@.len() ==> #[trigger] r@[k]@ == normalized(store@.rows[k].amount),
{
    let mut r: Vec<Vec<char>> = Vec::new();
    let mut k: usize = 0;
    while k < store.row_count()
        invariant
            k <= store@.rows.len(),
            r@.len() == k,
            forall|q: int| 0 <= q < k ==> #[trigger] r@[q]@ == normalized(store@.rows[q].amount),
        decreases store@.rows.len() - k,
    {
        let row = store.row_at(k);
        let normal = normalize_ingredients(row.ingredient_amount.as_str());
        r.push(chars_of(normal.as_str()));
        k = k + 1;
    }
    r
}

/// Whether recipe `id` matches every term.
fn recipe_matches(store: &RecipeStore, rows: &Vec<Vec<char>>, id: i64, terms: &Vec<Vec<char>>) -> (r: bool)
    requires
        rows@.len() == store@.rows.len(),
        forall|k: int| 0 <= k < rows@.len() ==> #[trigger] rows@[k]@ == normalized(store@.rows[k].amount),
    ensures
        r == matches_terms(store@, id, terms_view(terms@)),
{
    let ghost ts = terms_view(terms@);
    let mut t: usize = 0;
    while t < terms.len()
        invariant
            t <= terms@.len(),
            ts == terms_view(terms@),
            rows@.len() == store@.rows.len(),
            forall|k: int| 0 <= k < rows@.len() ==> #[trigger] rows@[k]@ == normalized(store@.rows[k].amount),
            forall|q: int| 0 <= q < t ==> has_term(store@, id, #[trigger] ts[q]),
        decreases terms.len() - t,
    {
        let mut found = false;
        let mut k: usize = 0;
        while k < rows.len()
            invariant
                k <= rows@.len(),
                t < terms@.len(),
                ts == terms_view(terms@),
                rows@.len() == store@.rows.len(),
                forall|q: int| 0 <= q < rows@.len() ==> #[trigger] rows@[q]@ == normalized(store@.rows[q].amount),
                found ==> has_term(store@, id, ts[t as int]),
                !found ==> forall|q: int|
                    0 <= q < k ==> !(store@.rows[q].recipe_id == id && #[trigger] contains_seq(
                        normalized(store@.rows[q].amount),
                        ts[t as int],
                    )),
            decreases rows.len() - k,
        {
            if !found && store.row_at(k).recipe_id == id && contains(&rows[k], &terms[t]) {
                found = true;
            }
            k = k + 1;
        }
        if !found {
            assert(!has_term(store@, id, ts[t as int]));
            return false;
        }
        t = t + 1;
    }
    true
}

impl RecipeStore {
    /// The one recipe that matches every term, or none when the terms are
    /// empty or zero or several recipes match.
    pub fn match_terms(&self, terms: &Vec<Vec<char>>) -> (r: Option<i64>)
        requires
            self.wf(),
        ensures
            r == unique_match(self@, terms_view(terms@)),
    {
        let ghost ts = terms_view(terms@);
        let ghost m = self@;
        if terms.len() == 0 {
            return None;
        }
        let rows = row_chars(self);
        let mut count: usize = 0;
        let mut first: usize = 0;
        let mut other: usize = 0;
        let mut i: usize = 0;
        while i < self.len()
            invariant
                i <= m.recipes.len(),
                m == self@,
                store_wf(m),
                ts == terms_view(terms@),
                rows@.len() == m.rows.len(),
                forall|k: int| 0 <= k < rows@.len() ==> #[trigger] rows@[k]@ == normalized(m.rows[k].amount),
                count <= 2,
                count == 0 ==> forall|j: int|
                    0 <= j < i ==> !matches_terms(m, #[trigger] m.recipes[j].id, ts),
                count >= 1 ==> first < i && matches_terms(m, m.recipes[first as int].id, ts),
                count == 1 ==> forall|j: int|
                    0 <= j < i && j != first ==> !matches_terms(m, #[trigger] m.recipes[j].id, ts),
                count == 2 ==> other < i && other != first && matches_terms(
                    m,
                    m.recipes[other as int].id,
                    ts,
                ),
            decreases m.recipes.len() - i,
        {
            let id = self.id_at(i);
            if recipe_matches(self, &rows, id, terms) {
                if count == 0 {
                    first = i;
                    count = 1;
                } else if count == 1 {
                    other = i;
                    count = 2;
                }
            }
            i = i + 1;
        }
        if count == 1 {
            let found = self.id_at(first);
            assert(candidates(m, ts) =~= set![found]) by {
                assert forall|id: i64| #[trigger] candidates(m, ts).contains(id) implies id == found by {
                    let j = choose|j: int| 0 <= j < m.recipes.len() && #[trigger] m.recipes[j].id == id;
                    if j != first {
                        assert(!matches_terms(m, m.recipes[j].id, ts));
                    }
                }
                assert(has_id(m, found)) by {
                    assert(m.recipes[first as int].id == found);
                }
            }
            proof {
                let x = choose|x: i64| candidates(m, ts) == set![x];
                assert(set![x].contains(x));
                assert(candidates(m, ts).contains(x));
            }
            Some(found)
        } else {
            assert forall|x: i64| candidates(m, ts) != set![x] by {
                if count == 0 {
                    if candidates(m, ts) == set![x] {
                        assert(set![x].contains(x));
                        let j = choose|j: int| 0 <= j < m.recipes.len() && #[trigger] m.recipes[j].id == x;
                        assert(!matches_terms(m, m.recipes[j].id, ts));
                    }
                } else {
                    let a = m.recipes[first as int].id;
                    let b = m.recipes[other as int].id;
                    assert(a != b);
                    assert(has_id(m, a) && has_id(m, b));
                    assert(candidates(m, ts).contains(a) && candidates(m, ts).contains(b));
                }
            }
            None
        }
    }

    /// Resolves a raw ingredient query: normalised, split at commas, then
    /// matched as by `match_terms`.
    pub fn resolve_query(&self, query: &str) -> (r: Option<i64>)
        requires
            self.wf(),
        ensures
            r == unique_match(self@, raw_query_terms(query@)),
    {
        let normal = normalize_ingredients(query);
        let cs = chars_of(normal.as_str());
        let terms = split_terms(&cs);
        assert(terms_view(terms@) =~= query_terms(normal@));
        self.match_terms(&terms)
    }

    /// Resolves a list of ingredients, read as one comma-separated query.
    pub fn get_by_ingredients(&self, ingredients: &Vec<String>) -> (r: Option<i64>)
        requires
            self.wf(),
        ensures
            r == unique_match(self@, list_terms(ingredients.deep_view())),
    {
        let query = crate::text::join(ingredients, ",");
        proof {
            reveal_strlit(",");
        }
        assert(","@ =~= seq![',']);
        self.resolve_query(query.as_str())
    }
}

} // verus!
