//! Cache keys: the database, the table and the row key in one string.

use crate::text::{chars_of, find_text, find_text_from, slice_of, starts_at};
use vstd::prelude::*;
use vstd::string::*;

verus! {

/// The text that separates the three parts of a cache key.
pub open spec fn separator() -> Seq<char> {
    "|rdb|"@
}

/// The cache key of a row.
pub open spec fn cache_key(db: Seq<char>, table: Seq<char>, key: Seq<char>) -> Seq<char> {
    db + separator() + table + separator() + key
}

/// The three parts of a cache key.
#[derive(Debug)]
pub struct CacheKey {
    /// Database name.
    pub db: String,
    /// Table name.
    pub table: String,
    /// Row key.
    pub key: String,
}

/// The three parts of a cache key, as plain text values.
pub struct CacheKeyView {
    pub db: Seq<char>,
    pub table: Seq<char>,
    pub key: Seq<char>,
}

impl View for CacheKey {
    type V = CacheKeyView;

    open spec fn view(&self) -> CacheKeyView {
        CacheKeyView { db: self.db@, table: self.table@, key: self.key@ }
    }
}

/// Whether a separator stands somewhere in `s`.
pub open spec fn has_separator(s: Seq<char>) -> bool {
    find_text(s, separator()) + separator().len() <= s.len()
}

/// The text before the first separator, or all of `s` if it has none.
pub open spec fn before_separator(s: Seq<char>) -> Seq<char> {
    s.take(find_text(s, separator()) as int)
}

/// The text after the first separator.
pub open spec fn after_separator(s: Seq<char>) -> Seq<char> {
    s.skip((find_text(s, separator()) + separator().len()) as int)
}

/// Whether `s` has the three parts of a cache key: two separators.
pub open spec fn is_cache_string(s: Seq<char>) -> bool {
    has_separator(s) && has_separator(after_separator(s))
}

/// The parts of a cache key: the text before the first separator, the text
/// between the first two, and the text after the second up to a third.
pub open spec fn decompose(s: Seq<char>) -> CacheKeyView {
    CacheKeyView {
        db: before_separator(s),
        table: before_separator(after_separator(s)),
        key: before_separator(after_separator(after_separator(s))),
    }
}

/// Whether a name is free of the bar that a separator begins with.
pub open spec fn plain(name: Seq<char>) -> bool {
    !name.contains('|')
}

/// In a plain name followed by a separator, the first separator is the one
/// that follows the name.
pub proof fn lemma_separator_after_plain(name: Seq<char>, rest: Seq<char>)
    requires
        plain(name),
    ensures
        find_text(name + separator() + rest, separator()) == name.len(),
        has_separator(name + separator() + rest),
        before_separator(name + separator() + rest) == name,
        after_separator(name + separator() + rest) == rest,
    decreases name.len(),
{
    reveal_strlit("|rdb|");
    let all = name + separator() + rest;
    if name.len() == 0 {
        assert(all.subrange(0, separator().len() as int) == separator());
    } else {
        assert(name.contains(name[0]));
        assert(all.subrange(0, separator().len() as int)[0] == name[0]);
        assert(!starts_at(all, separator(), 0));
        let tail = name.drop_first();
        assert forall|c: char| tail.contains(c) implies name.contains(c) by {
            let i = choose|i: int| 0 <= i < tail.len() && tail[i] == c;
            assert(name[i + 1] == c);
        }
        lemma_separator_after_plain(tail, rest);
        assert(all.drop_first() == tail + separator() + rest);
    }
    assert(all.take(name.len() as int) == name);
    assert(all.skip((name.len() + separator().len()) as int) == rest);
}

/// The cache key of a row in a plainly named table of a plainly named
/// database decomposes to that database and that table.
pub proof fn lemma_decompose_cache_key(db: Seq<char>, table: Seq<char>, key: Seq<char>)
    requires
        plain(db),
        plain(table),
    ensures
        is_cache_string(cache_key(db, table, key)),
        decompose(cache_key(db, table, key)).db == db,
        decompose(cache_key(db, table, key)).table == table,
        decompose(cache_key(db, table, key)).key == before_separator(key),
{
    let inner = table + separator() + key;
    assert(cache_key(db, table, key) == db + separator() + inner);
    lemma_separator_after_plain(db, inner);
    lemma_separator_after_plain(table, key);
}

/// The cache key of a row.
pub fn to_cache_string(db: &str, table: &str, key: &str) -> (composed: String)
    ensures
        composed@ == cache_key(db@, table@, key@),
{
    let mut composed = db.to_string();
    composed.append("|rdb|");
    composed.append(table);
    composed.append("|rdb|");
    composed.append(key);
    composed
}

/// The parts of `cache_string` if it has the three parts of a cache key.
pub fn split_cache_string(cache_string: &str) -> (parts: Option<CacheKey>)
    ensures
        match parts {
            Some(parts) => is_cache_string(cache_string@) && parts@ == decompose(cache_string@),
            None => !is_cache_string(cache_string@),
        },
{
    let chars = chars_of(cache_string);
    let sep = chars_of("|rdb|");
    let n = chars.len();
    let first = find_text_from(&chars, 0, &sep);
    proof {
        assert(chars@.skip(0) == chars@);
    }
    if sep.len() > n - first {
        return None;
    }
    let second_from = first + sep.len();
    let second = find_text_from(&chars, second_from, &sep);
    if sep.len() > n - second {
        return None;
    }
    let third_from = second + sep.len();
    let third = find_text_from(&chars, third_from, &sep);
    proof {
        let rest = chars@.skip(second_from as int);
        assert(rest.skip(second - second_from + sep.len()) == chars@.skip(third_from as int));
        assert(rest.take(second - second_from) == chars@.subrange(
            second_from as int,
            second as int,
        ));
        assert(chars@.skip(third_from as int).take(third - third_from) == chars@.subrange(
            third_from as int,
            third as int,
        ));
    }
    Some(
        CacheKey {
            db: slice_of(cache_string, 0, first),
            table: slice_of(cache_string, second_from, second),
            key: slice_of(cache_string, third_from, third),
        },
    )
}

/// The parts of a cache key. The string must hold two separators; use
/// [`split_cache_string`] for a string that may not.
pub fn from_cache_string(cache_string: String) -> (parts: CacheKey)
    requires
        is_cache_string(cache_string@),
    ensures
        parts@ == decompose(cache_string@),
{
    match split_cache_string(cache_string.as_str()) {
        Some(parts) => parts,
        None => CacheKey { db: String::new(), table: String::new(), key: String::new() },
    }
}

} // verus!
