//! The names of the temporary files that a file is staged in, and the rules
//! for finding those that were left behind.
//!
//! A temporary file is named after its target, with `.tmp.` and a random
//! suffix added. While it is written it is locked. A temporary file that was
//! left behind by a process that was killed is one that can be locked.

use crate::util::encoding::{encode, encoded};
use crate::util::text::{append_str, str_chars, string_from_chars};
use vstd::prelude::*;

verus! {

/// The number of random bytes that the suffix of a temporary file is made
/// of.
pub const TMP_FILE_SUFFIX_BYTES: usize = 4;

/// The length of the suffix of a temporary file.
pub const TMP_FILE_SUFFIX_ENCODED_LEN: usize = 7;

/// The number of times that the creation of a temporary file is tried. A
/// temporary file can vanish between its creation and its locking, when a
/// sweep takes it for one that was left behind.
pub const MAX_ATTEMPTS: usize = 5;

/// The suffix for the given random bytes: their text form.
pub fn tmp_file_suffix(bytes: &[u8; 4]) -> (suffix: String)
    ensures
        suffix@ == encoded(bytes@),
        suffix@.len() == TMP_FILE_SUFFIX_ENCODED_LEN,
{
    encode(vstd::array::array_as_slice(bytes))
}

/// The name of the temporary file for a target with the given file name.
pub open spec fn tmp_name(filename: Seq<char>, suffix: Seq<char>) -> Seq<char> {
    filename + ".tmp."@ + suffix
}

/// The name of the temporary file for a target with the given file name.
pub fn tmp_file_name(filename: &str, suffix: &str) -> (name: String)
    ensures
        name@ == tmp_name(filename@, suffix@),
{
    let mut chars = str_chars(filename);
    append_str(&mut chars, ".tmp.");
    append_str(&mut chars, suffix);
    string_from_chars(chars.as_slice())
}

/// The position after the last `.` of `name`; 0 if it has none.
pub open spec fn extension_start(name: Seq<char>) -> int
    decreases name.len(),
{
    if name.len() == 0 {
        0
    } else if name.last() == '.' {
        name.len() as int
    } else {
        extension_start(name.drop_last())
    }
}

/// Whether a file name is that of a temporary file: it ends with `.tmp.`
/// and a suffix, that is, what follows its last `.` has the length of a
/// suffix, and `tmp` stands between the last `.` and the `.` before it. What
/// stands before that `.` may be anything, or nothing.
pub open spec fn is_tmp_name(name: Seq<char>) -> bool {
    let suffix_start = extension_start(name);
    &&& suffix_start > 0
    &&& name.len() - suffix_start == TMP_FILE_SUFFIX_ENCODED_LEN
    &&& {
        let stem = name.take(suffix_start - 1);
        extension_start(stem) > 0 && stem.skip(extension_start(stem)) == "tmp"@
    }
}

/// The position after the last `.` of `chars[..end]`.
fn find_extension(chars: &Vec<char>, end: usize) -> (start: usize)
    requires
        end <= chars.len(),
    ensures
        start == extension_start(chars@.take(end as int)),
        start <= end,
        start > 0 ==> chars@[start - 1] == '.',
{
    let mut start: usize = end;
    assert(chars@.take(end as int).take(start as int) =~= chars@.take(end as int));
    while start > 0 && chars[start - 1] != '.'
        invariant
            start <= end <= chars.len(),
            extension_start(chars@.take(end as int)) == extension_start(
                chars@.take(start as int),
            ),
        decreases start,
    {
        assert(chars@.take(start as int).drop_last() =~= chars@.take(start - 1));
        start -= 1;
    }
    assert(extension_start(chars@.take(start as int)) == start) by {
        if start > 0 {
            assert(chars@.take(start as int).last() == '.');
        }
    }
    start
}

/// Whether a file name is that of a temporary file.
pub fn is_tmp_file_name(name: &str) -> (r: bool)
    ensures
        r == is_tmp_name(name@),
{
    let chars = str_chars(name);
    assert(chars@.take(chars.len() as int) =~= chars@);
    let suffix_start = find_extension(&chars, chars.len());
    if suffix_start == 0 || chars.len() - suffix_start != TMP_FILE_SUFFIX_ENCODED_LEN {
        return false;
    }
    let stem_end = suffix_start - 1;
    let ext_start = find_extension(&chars, stem_end);
    proof {
        reveal_strlit("tmp");
        let stem = chars@.take(stem_end as int);
        assert(stem.skip(ext_start as int) =~= chars@.subrange(ext_start as int, stem_end as int));
    }
    if ext_start == 0 || stem_end - ext_start != 3 {
        return false;
    }
    let matches = chars[ext_start] == 't' && chars[ext_start + 1] == 'm' && chars[ext_start + 2]
        == 'p';
    proof {
        let part = chars@.subrange(ext_start as int, stem_end as int);
        if matches {
            assert(part =~= "tmp"@);
        } else {
            assert(part[0] == chars@[ext_start as int]);
            assert(part[1] == chars@[ext_start + 1]);
            assert(part[2] == chars@[ext_start + 2]);
        }
    }
    matches
}

/// What a sweep does with an entry of a directory.
#[derive(Debug, Clone, Copy, PartialEq, Eq, Structural)]
pub enum SweepAction {
    /// The entry is a directory, which is swept in turn.
    Descend,
    /// The entry is a temporary file, which is deleted if it can be locked.
    DeleteIfUnlocked,
    /// The entry is left alone.
    Skip,
}

/// Tells what a sweep does with an entry: it goes down into directories,
/// tries the files that are named like temporary files, and leaves all else
/// alone. A file whose name is no text is left alone.
pub fn sweep_action(is_file: bool, is_dir: bool, name: Option<&str>) -> (action: SweepAction)
    ensures
        action == (if is_file {
            if name matches Some(n) && is_tmp_name(n@) {
                SweepAction::DeleteIfUnlocked
            } else {
                SweepAction::Skip
            }
        } else if is_dir {
            SweepAction::Descend
        } else {
            SweepAction::Skip
        }),
{
    if is_file {
        match name {
            Some(n) => if is_tmp_file_name(n) {
                SweepAction::DeleteIfUnlocked
            } else {
                SweepAction::Skip
            },
            None => SweepAction::Skip,
        }
    } else if is_dir {
        SweepAction::Descend
    } else {
        SweepAction::Skip
    }
}

/// What follows an attempt to create and lock a temporary file.
#[derive(Debug, Clone, Copy, PartialEq, Eq, Structural)]
pub enum StagingStep {
    /// The file is there and locked; it can be written.
    Ready,
    /// The file vanished before it was locked; it is created once more.
    Retry,
    /// The file vanished too often; the staging is given up.
    GiveUp,
}

/// Tells what follows the attempt with the given number, counted from
/// zero, after which the temporary file is or is not in its place.
pub fn staging_step(attempt: usize, still_exists: bool) -> (step: StagingStep)
    ensures
        step == (if still_exists {
            StagingStep::Ready
        } else if attempt + 1 < MAX_ATTEMPTS {
            StagingStep::Retry
        } else {
            StagingStep::GiveUp
        }),
{
    if still_exists {
        StagingStep::Ready
    } else if attempt < MAX_ATTEMPTS - 1 {
        StagingStep::Retry
    } else {
        StagingStep::GiveUp
    }
}

} // verus!
