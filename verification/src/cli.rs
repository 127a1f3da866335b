//! The rules of the command line tool.

use crate::util::text::{str_chars, str_eq};
use vstd::prelude::*;

verus! {

/// Files were restored from the first of the keys.
pub const EXIT_PRIMARY_HIT: u8 = 0;

/// Files were restored from a key that is not the first one.
pub const EXIT_FALLBACK_HIT: u8 = 3;

/// None of the keys was found in the cache.
pub const EXIT_MISS: u8 = 4;

/// The keys that are not empty, in their order.
pub open spec fn non_empty(keys: Seq<Seq<char>>) -> Seq<Seq<char>> {
    keys.filter(|key: Seq<char>| key.len() > 0)
}

/// The keys to operate on: the given keys without the empty ones.
pub fn keys(given: &Vec<String>) -> (kept: Vec<&str>)
    ensures
        crate::cache::local::key_texts(kept@) == non_empty(given.deep_view()),
{
    let ghost all = given.deep_view();
    let mut kept: Vec<&str> = Vec::new();
    let mut i: usize = 0;
    proof {
        assert(all.take(0) =~= Seq::<Seq<char>>::empty());
        assert(crate::cache::local::key_texts(kept@) =~= non_empty(all.take(0)));
    }
    while i < given.len()
        invariant
            i <= given.len(),
            all == given.deep_view(),
            crate::cache::local::key_texts(kept@) == non_empty(all.take(i as int)),
        decreases given.len() - i,
    {
        let key = given[i].as_str();
        let ghost before = crate::cache::local::key_texts(kept@);
        proof {
            assert(all.take(i + 1).drop_last() =~= all.take(i as int));
            assert(all.take(i + 1).last() == key@);
            reveal(Seq::filter);
        }
        if !key.is_empty() {
            kept.push(key);
            proof {
                assert(crate::cache::local::key_texts(kept@) =~= before.push(key@));
            }
        }
        i += 1;
    }
    assert(all.take(given.len() as int) =~= all);
    kept
}

/// The exit code of a restore: 0 if the first of the keys was restored, or
/// if any key was and that is asked to count as success; 3 if another key
/// was restored; 4 if none was.
pub fn restore_exit_code(
    restored_key: Option<&str>,
    primary_key: Option<&str>,
    success_rc_on_any_key: bool,
) -> (code: u8)
    ensures
        code == (match restored_key {
            None => EXIT_MISS,
            Some(restored) => if !success_rc_on_any_key && !(primary_key matches Some(primary)
                && primary@ == restored@) {
                EXIT_FALLBACK_HIT
            } else {
                EXIT_PRIMARY_HIT
            },
        }),
{
    match restored_key {
        None => EXIT_MISS,
        Some(restored) => {
            let is_primary = match primary_key {
                Some(primary) => str_eq(primary, restored),
                None => false,
            };
            if !success_rc_on_any_key && !is_primary {
                EXIT_FALLBACK_HIT
            } else {
                EXIT_PRIMARY_HIT
            }
        },
    }
}

/// Whether `text` starts with `prefix`.
pub open spec fn starts_with(text: Seq<char>, prefix: Seq<char>) -> bool {
    text.len() >= prefix.len() && text.take(prefix.len() as int) == prefix
}

/// Whether `text` starts with `prefix`.
fn has_prefix(text: &Vec<char>, prefix: &str) -> (r: bool)
    ensures
        r == starts_with(text@, prefix@),
{
    let start = str_chars(prefix);
    if text.len() < start.len() {
        return false;
    }
    let mut i: usize = 0;
    while i < start.len()
        invariant
            i <= start.len() <= text.len(),
            start@ == prefix@,
            forall|j: int| 0 <= j < i ==> text@[j] == start@[j],
        decreases start.len() - i,
    {
        if text[i] != start[i] {
            assert(text@.take(prefix@.len() as int)[i as int] != prefix@[i as int]);
            return false;
        }
        i += 1;
    }
    assert(text@.take(prefix@.len() as int) =~= prefix@);
    true
}

/// Whether the place of a cache is on a server: it starts with `http://`
/// or `https://`. Any other place is a directory.
pub fn is_remote(cache: &str) -> (r: bool)
    ensures
        r == (starts_with(cache@, "http://"@) || starts_with(cache@, "https://"@)),
{
    let chars = str_chars(cache);
    has_prefix(&chars, "http://") || has_prefix(&chars, "https://")
}

/// Whether a file with the given permission bits can be read or written by
/// its owner alone.
pub fn is_private(mode: u32) -> (r: bool)
    ensures
        r == (mode & 0o077 == 0),
{
    mode & 0o077 == 0
}

} // verus!
