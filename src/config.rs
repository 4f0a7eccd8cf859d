//! Where the database lives.
use vstd::prelude::*;

use crate::text::{chars_of, occurs_at};

verus! {

pub open spec fn starts_with(s: Seq<char>, p: Seq<char>) -> bool {
    p.len() <= s.len() && s.subrange(0, p.len() as int) == p
}

pub open spec fn ends_with(s: Seq<char>, p: Seq<char>) -> bool {
    p.len() <= s.len() && s.subrange(s.len() - p.len(), s.len() as int) == p
}

/// The position of the last `/` in `s`, if any.
pub open spec fn last_slash(s: Seq<char>) -> Option<int>
    decreases s.len(),
{
    if s.len() == 0 {
        None
    } else if s.last() == '/' {
        Some(s.len() - 1)
    } else {
        last_slash(s.drop_last())
    }
}

/// The directory of a `sqlite://<path>.db` URI: the path up to its last
/// `/`, or nothing when the path has none; no directory for another URI.
pub open spec fn db_dir(uri: Seq<char>) -> Option<Seq<char>> {
    let scheme = "sqlite://"@;
    if starts_with(uri, scheme) && ends_with(uri, ".db"@) {
        let path = uri.subrange(scheme.len() as int, uri.len() as int);
        match last_slash(path) {
            Some(end) => Some(path.subrange(0, end)),
            None => Some(Seq::empty()),
        }
    } else {
        None
    }
}

/// The database URI: the one given, else the one from the environment,
/// else `sqlite://db.db`.
pub fn get_db_uri(given: Option<String>, from_env: Option<String>) -> (r: String)
    ensures
        r@ == match given {
            Some(g) => g@,
            None => match from_env {
                Some(e) => e@,
                None => "sqlite://db.db"@,
            },
        },
{
    match given {
        Some(g) => g,
        None => match from_env {
            Some(e) => e,
            None => String::from_str("sqlite://db.db"),
        },
    }
}

/// The directory that must exist before the database file of `db_uri` can
/// be created; `None` when `db_uri` is not a `sqlite://...db` URI.
pub fn extract_db_dir(db_uri: &str) -> (r: Option<String>)
    ensures
        match db_dir(db_uri@) {
            Some(d) => r matches Some(s) && s@ == d,
            None => r is None,
        },
{
    let cs = chars_of(db_uri);
    let scheme = chars_of("sqlite://");
    let suffix = chars_of(".db");
    if scheme.len() > cs.len() || suffix.len() > cs.len() {
        return None;
    }
    let starts = occurs_at(&cs, &scheme, 0);
    let ends = occurs_at(&cs, &suffix, cs.len() - suffix.len());
    if !(starts && ends) {
        return None;
    }
    assert(starts_with(db_uri@, "sqlite://"@));
    assert(cs@.subrange(cs@.len() - suffix@.len(), cs@.len() as int) == suffix@);
    assert(ends_with(db_uri@, ".db"@));
    let ghost path = cs@.subrange(scheme@.len() as int, cs@.len() as int);
    let start = scheme.len();
    let mut end = cs.len();
    assert(path.subrange(0, end - start) =~= path);
    while end > start
        invariant
            cs@ == db_uri@,
            scheme@ == "sqlite://"@,
            starts_with(db_uri@, "sqlite://"@),
            ends_with(db_uri@, ".db"@),
            start <= end <= cs@.len(),
            start == scheme@.len(),
            path == cs@.subrange(start as int, cs@.len() as int),
            last_slash(path) == last_slash(path.subrange(0, end - start)),
        decreases end,
    {
        let ghost before = path.subrange(0, end - start);
        assert(before.drop_last() =~= path.subrange(0, end - 1 - start));
        if cs[end - 1] == '/' {
            assert(before.last() == '/');
            assert(last_slash(before) == Some(end - 1 - start));
            let dir = db_uri.substring_char(start, end - 1);
            assert(dir@ =~= path.subrange(0, end - 1 - start));
            return Some(String::from_str(dir));
        }
        end = end - 1;
    }
    assert(path.subrange(0, 0) =~= Seq::<char>::empty());
    Some(String::new())
}

} // verus!
