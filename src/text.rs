//! Character-level text handling: ingredient-query normalisation, splitting a
//! query into terms, substring search and joining.
use vstd::prelude::*;

verus! {

/// Whether `c` has the Unicode `Alphabetic` property.
pub uninterp spec fn alphabetic_of(c: char) -> bool;

/// The Unicode lowercase mapping of `c`.
pub uninterp spec fn lowercase_of(c: char) -> Seq<char>;

pub open spec fn is_ascii_upper(c: char) -> bool {
    'A' <= c && c <= 'Z'
}

pub open spec fn is_ascii_lower(c: char) -> bool {
    'a' <= c && c <= 'z'
}

/// Relies on `char::is_alphabetic`: the Unicode `Alphabetic` property, which
/// within ASCII holds exactly of the letters.
#[verifier::external_body]
fn is_alphabetic(c: char) -> (r: bool)
    ensures
        r == alphabetic_of(c),
        (c as u32) < 128 ==> (r <==> (is_ascii_upper(c) || is_ascii_lower(c))),
{
    c.is_alphabetic()
}

/// Relies on `char::to_lowercase`: one or more characters, and for an ASCII
/// letter its ASCII lowercase form.
#[verifier::external_body]
fn to_lowercase(c: char) -> (r: String)
    ensures
        r@ == lowercase_of(c),
        r@.len() >= 1,
        is_ascii_lower(c) ==> r@ == seq![c],
        is_ascii_upper(c) ==> r@.len() == 1 && r@[0] as u32 == c as u32 + 32,
{
    c.to_lowercase().collect()
}

/// What one input character contributes to a normalised query: a comma stays,
/// a letter is lowercased, everything else is dropped.
pub open spec fn normalized_char(c: char) -> Seq<char> {
    if c == ',' {
        seq![',']
    } else if alphabetic_of(c) {
        lowercase_of(c)
    } else {
        Seq::empty()
    }
}

/// The normalised form of an ingredient query.
pub open spec fn normalized(s: Seq<char>) -> Seq<char>
    decreases s.len(),
{
    if s.len() == 0 {
        Seq::empty()
    } else {
        normalized(s.drop_last()) + normalized_char(s.last())
    }
}

/// The characters of `s`, in order.
pub fn chars_of(s: &str) -> (r: Vec<char>)
    ensures
        r@ == s@,
{
    let mut r: Vec<char> = Vec::new();
    for c in it: s.chars()
        invariant
            r@ == it.seq().take(it.index() as int),
    {
        r.push(c);
    }
    r
}

/// Normalises an ingredient query: keeps commas, lowercases letters and
/// drops every other character (digits, spaces, punctuation, units' marks).
pub fn normalize_ingredients(s: &str) -> (r: String)
    ensures
        r@ == normalized(s@),
{
    let cs = chars_of(s);
    let mut r = String::new();
    let mut i: usize = 0;
    while i < cs.len()
        invariant
            i <= cs.len(),
            cs@ == s@,
            r@ == normalized(s@.take(i as int)),
        decreases cs.len() - i,
    {
        let c = cs[i];
        assert(s@.take(i + 1).drop_last() == s@.take(i as int));
        if c == ',' {
            proof {
                reveal_strlit(",");
            }
            r.append(",");
        } else if is_alphabetic(c) {
            let low = to_lowercase(c);
            r.append(low.as_str());
        }
        i = i + 1;
    }
    assert(s@.take(cs.len() as int) == s@);
    r
}

/// A character that normalisation maps to itself.
pub open spec fn settled(c: char) -> bool {
    c == ',' || (alphabetic_of(c) && lowercase_of(c) == seq![c])
}

/// A text whose characters are all settled is its own normal form.
pub proof fn lemma_normalized_settled(t: Seq<char>)
    requires
        forall|i: int| 0 <= i < t.len() ==> settled(#[trigger] t[i]),
    ensures
        normalized(t) == t,
    decreases t.len(),
{
    if t.len() > 0 {
        let p = t.drop_last();
        assert forall|i: int| 0 <= i < p.len() implies settled(#[trigger] p[i]) by {
            assert(p[i] == t[i]);
        }
        lemma_normalized_settled(p);
        assert(settled(t.last()));
        assert(t == p + seq![t.last()]);
    }
}

/// Normalising an already normalised query changes nothing, provided each
/// character of the normal form is settled (a lowercase letter whose lowercase
/// mapping is itself, or a comma). Characters such as 'İ', whose lowercase
/// form carries a combining mark, fall outside.
pub proof fn lemma_normalize_idempotent(s: Seq<char>)
    requires
        forall|i: int| 0 <= i < normalized(s).len() ==> settled(#[trigger] normalized(s)[i]),
    ensures
        normalized(normalized(s)) == normalized(s),
{
    lemma_normalized_settled(normalized(s));
}

/// Splitting by commas, as far as `s` goes: the finished non-empty terms and
/// the term still being read.
pub open spec fn split_state(s: Seq<char>) -> (Seq<Seq<char>>, Seq<char>)
    decreases s.len(),
{
    if s.len() == 0 {
        (Seq::empty(), Seq::empty())
    } else {
        let (done, cur) = split_state(s.drop_last());
        if s.last() == ',' {
            (if cur.len() > 0 { done.push(cur) } else { done }, Seq::empty())
        } else {
            (done, cur.push(s.last()))
        }
    }
}

/// The terms of a query: the non-empty comma-separated pieces, in order.
pub open spec fn query_terms(s: Seq<char>) -> Seq<Seq<char>> {
    let (done, cur) = split_state(s);
    if cur.len() > 0 {
        done.push(cur)
    } else {
        done
    }
}

/// Splits a query into its non-empty comma-separated terms.
pub fn split_terms(s: &Vec<char>) -> (r: Vec<Vec<char>>)
    ensures
        r@.len() == query_terms(s@).len(),
        forall|k: int| 0 <= k < r@.len() ==> #[trigger] r@[k]@ == query_terms(s@)[k],
{
    let mut done: Vec<Vec<char>> = Vec::new();
    let mut cur: Vec<char> = Vec::new();
    let mut i: usize = 0;
    while i < s.len()
        invariant
            i <= s.len(),
            done@.len() == split_state(s@.take(i as int)).0.len(),
            forall|k: int|
                0 <= k < done@.len() ==> #[trigger] done@[k]@ == split_state(
                    s@.take(i as int),
                ).0[k],
            cur@ == split_state(s@.take(i as int)).1,
        decreases s.len() - i,
    {
        let c = s[i];
        assert(s@.take(i + 1).drop_last() == s@.take(i as int));
        if c == ',' {
            if cur.len() > 0 {
                done.push(cur);
            }
            cur = Vec::new();
        } else {
            cur.push(c);
        }
        i = i + 1;
    }
    assert(s@.take(s.len() as int) == s@);
    if cur.len() > 0 {
        done.push(cur);
    }
    done
}

/// `needle` occurs in `hay` as a contiguous run.
pub open spec fn contains_seq(hay: Seq<char>, needle: Seq<char>) -> bool {
    exists|i: int|
        0 <= i && i + needle.len() <= hay.len() && #[trigger] hay.subrange(i, i + needle.len())
            == needle
}

/// Whether `needle` occurs in `hay` at position `at`.
pub fn occurs_at(hay: &Vec<char>, needle: &Vec<char>, at: usize) -> (r: bool)
    requires
        at + needle@.len() <= hay@.len(),
    ensures
        r == (hay@.subrange(at as int, at + needle@.len()) == needle@),
{
    let n = hay.len();
    let mut j: usize = 0;
    while j < needle.len()
        invariant
            n == hay@.len(),
            j <= needle@.len(),
            at + needle@.len() <= hay@.len(),
            forall|k: int| 0 <= k < j ==> hay@[at + k] == needle@[k],
        decreases needle.len() - j,
    {
        assert(at + j < hay@.len());
        if hay[at + j] != needle[j] {
            assert(hay@.subrange(at as int, at + needle@.len())[j as int] != needle@[j as int]);
            return false;
        }
        j = j + 1;
    }
    assert(hay@.subrange(at as int, at + needle@.len()) =~= needle@);
    true
}

/// Substring search.
pub fn contains(hay: &Vec<char>, needle: &Vec<char>) -> (r: bool)
    ensures
        r == contains_seq(hay@, needle@),
{
    if needle.len() == 0 {
        assert(hay@.subrange(0, 0 + needle@.len() as int) =~= needle@);
        return true;
    }
    if needle.len() > hay.len() {
        return false;
    }
    let last = hay.len() - needle.len();
    let mut at: usize = 0;
    while at <= last
        invariant
            last + needle@.len() == hay@.len(),
            needle@.len() > 0,
            hay@.len() == hay.len(),
            forall|i: int|
                0 <= i < at ==> #[trigger] hay@.subrange(i, i + needle@.len()) != needle@,
        decreases last + 1 - at,
    {
        if occurs_at(hay, needle, at) {
            return true;
        }
        at = at + 1;
    }
    false
}

/// The items written one after another with `sep` between neighbours.
pub open spec fn joined(items: Seq<Seq<char>>, sep: Seq<char>) -> Seq<char>
    decreases items.len(),
{
    if items.len() == 0 {
        Seq::empty()
    } else if items.len() == 1 {
        items[0]
    } else {
        joined(items.drop_last(), sep) + sep + items.last()
    }
}

/// Joins strings with a separator.
pub fn join(items: &Vec<String>, sep: &str) -> (r: String)
    ensures
        r@ == joined(items.deep_view(), sep@),
{
    let mut r = String::new();
    let mut i: usize = 0;
    while i < items.len()
        invariant
            i <= items@.len(),
            r@ == joined(items.deep_view().take(i as int), sep@),
        decreases items.len() - i,
    {
        assert(items.deep_view().take(i + 1).drop_last() =~= items.deep_view().take(i as int));
        if i > 0 {
            r.append(sep);
        }
        r.append(items[i].as_str());
        i = i + 1;
    }
    assert(items.deep_view().take(items@.len() as int) =~= items.deep_view());
    r
}

} // verus!
