//! What holds of every reliable storage when two writers are open for one
//! path.

use crate::storage::{
    consistent, lemma_store_after_put, store_error, with_file, with_parents, Components, Entries,
    EntryView,
};
use vstd::prelude::*;

verus! {

/// A file is published whole. While two writers are open for one path, the
/// path holds what it held before. Once the first of them is closed it holds
/// all of what that writer wrote, and nothing stands in the way of the
/// other. Once the other is closed too, the path holds all of what the other
/// wrote, and the storage looks as if the other alone had written. At no
/// time does the path hold a part of what was written to either, or a mix of
/// both.
pub proof fn law_publish_is_whole(
    entries: Entries,
    path: Components,
    first: Seq<u8>,
    second: Seq<u8>,
)
    requires
        consistent(entries),
        store_error(entries, path) is None,
    ensures
        with_parents(entries, path)(path) == entries(path),
        store_error(with_parents(entries, path), path) is None,
        with_file(with_parents(entries, path), path, first)(path) == Some(EntryView::File(first)),
        store_error(with_file(with_parents(entries, path), path, first), path) is None,
        with_file(with_file(with_parents(entries, path), path, first), path, second) == with_file(
            entries,
            path,
            second,
        ),
        with_file(entries, path, second)(path) == Some(EntryView::File(second)),
{
    let opened = with_parents(entries, path);
    let once = with_file(opened, path, first);
    lemma_store_after_put(entries, path, first);
    assert(once == with_file(entries, path, first));
    assert forall|k: int| 0 < k < path.len() implies !(#[trigger] once(path.take(k))
        matches Some(EntryView::File(_))) by {
        assert(path.take(k).len() == k);
        assert(path.take(path.take(k).len() as int) =~= path.take(k));
    }
    assert(with_file(once, path, second) =~= with_file(entries, path, second));
}

} // verus!
