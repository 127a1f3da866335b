//! The rules of the storage in the local filesystem.
//!
//! The filesystem storage keeps a file at the path that its storage path
//! names below a root directory. A file is written to a temporary file
//! beside it, which is moved into its place when the writer is closed.

pub mod staged_file;

use crate::error::{ErrorKind, IoError};
use crate::storage::in_memory::path_iter::{is_absolute, split_components};
use crate::util::text::{chars_eq, str_chars, substring};
use vstd::prelude::*;

verus! {

/// Whether one of the components of a path is `..`.
pub open spec fn has_parent_component(path: Seq<char>) -> bool {
    exists|i: int|
        0 <= i < split_components(path).len() && #[trigger] split_components(path)[i] == ".."@
}

/// The path below the root directory that a storage path names: the
/// storage path without the `/` at its start. A path that does not start
/// with `/`, or that has `..` among its components, is refused as invalid
/// input.
pub fn canonical_path(path: &str) -> (r: Result<String, IoError>)
    ensures
        is_absolute(path@) && !has_parent_component(path@) ==> (r matches Ok(relative)
            && relative@ == path@.skip(1)),
        !is_absolute(path@) || has_parent_component(path@) ==> (r matches Err(e) && e.kind
            == ErrorKind::InvalidInput),
{
    let names = match crate::storage::in_memory::path_iter::component_names(path) {
        Ok(names) => names,
        Err(e) => {
            return Err(e);
        },
    };
    let parent = str_chars("..");
    let mut i: usize = 0;
    while i < names.len()
        invariant
            i <= names.len(),
            parent@ == ".."@,
            names.deep_view() == split_components(path@),
            forall|j: int| 0 <= j < i ==> #[trigger] split_components(path@)[j] != ".."@,
        decreases names.len() - i,
    {
        let name = str_chars(names[i].as_str());
        proof {
            assert(names[i as int]@ == names.deep_view()[i as int]);
        }
        if chars_eq(name.as_slice(), parent.as_slice()) {
            return Err(
                IoError::new(
                    ErrorKind::InvalidInput,
                    "Path must not contain parent directory components",
                ),
            );
        }
        i += 1;
    }
    let chars = str_chars(path);
    Ok(substring(&chars, 1, chars.len()))
}

} // verus!
