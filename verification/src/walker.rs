//! The walk: from what was read of a tree to the snapshot of its root.

use vstd::prelude::*;
use crate::listing::{lemma_views_of, ordinals_in, ordinals_of, TreeNode, TreeNodeView};
use crate::record::{discovery_row, summary_row, DirectoryInfo, DirectoryInfoView, FileInfo, FileInfoView};

verus! {

/// The rows that one entry adds to the snapshot of its directory when the
/// counter stands at `at`: none where its metadata cannot be read; else its
/// discovery row, numbered `at`; and for a directory a summary row behind
/// it, numbered with the value of the counter after the walk below it.
pub open spec fn entry_rows(entry: TreeNodeView, at: nat) -> Seq<FileInfoView> {
    match entry.metadata {
        None => Seq::empty(),
        Some(metadata) => {
            let discovery = seq![discovery_row(entry.name, metadata, at)];
            if metadata.file_type is Directory {
                discovery.push(summary_row(entry.name, at + ordinals_of(entry)))
            } else {
                discovery
            }
        },
    }
}

/// The rows of a directory with the given entries, walked with the counter
/// at `at`: the rows of each entry in the order of the listing, where each
/// entry meets the counter as the entries before it left it.
pub open spec fn rows(entries: Seq<TreeNodeView>, at: nat) -> Seq<FileInfoView>
    decreases entries.len(),
{
    if entries.len() == 0 {
        Seq::empty()
    } else {
        let before = entries.drop_last();
        rows(before, at) + entry_rows(entries.last(), at + ordinals_in(before))
    }
}

/// The ordinal of the first entry that a walk finds when it starts afresh.
pub const FIRST_ORDINAL: u64 = 1;

/// The snapshot of `dir`, walked with the counter at `at`.
pub open spec fn snapshot(dir: TreeNodeView, at: nat) -> DirectoryInfoView {
    DirectoryInfoView { identifier: dir.name, tuples: rows(dir.entries(), at), inode: 0 }
}

/// A walk over the first `i` entries draws what the walk over the first
/// `i - 1` draws and what entry `i - 1` draws, and writes the rows of both.
pub proof fn lemma_step(entries: Seq<TreeNodeView>, i: int, at: nat)
    requires
        0 <= i < entries.len(),
    ensures
        ordinals_in(entries.take(i + 1)) == ordinals_in(entries.take(i)) + ordinals_of(entries[i]),
        rows(entries.take(i + 1), at) == rows(entries.take(i), at) + entry_rows(
            entries[i],
            at + ordinals_in(entries.take(i)),
        ),
{
    assert(entries.take(i + 1).drop_last() == entries.take(i));
}

/// A walk over the first entries of a listing draws no more ordinals than
/// the walk over all of them.
pub proof fn lemma_ordinals_of_prefix(entries: Seq<TreeNodeView>, i: int)
    requires
        0 <= i <= entries.len(),
    ensures
        ordinals_in(entries.take(i)) <= ordinals_in(entries),
    decreases entries.len() - i,
{
    if i == entries.len() {
        assert(entries.take(i) == entries);
    } else {
        lemma_step(entries, i, 0);
        lemma_ordinals_of_prefix(entries, i + 1);
    }
}

/// Walks the directory `dir` depth first and returns its snapshot.
///
/// Every entry of `dir` whose metadata could be read takes the value of
/// `inode_counter` as its ordinal and moves the counter on by one. A
/// directory among them is then walked with the same counter, and a summary
/// row that holds the counter's value after that walk follows its own row.
/// The rows of the entries below a subdirectory are not part of the
/// snapshot of `dir`; only the counter shows them. An entry whose metadata
/// could not be read leaves no row and does not touch the counter, and a
/// directory that could not be listed is walked as an empty one. The
/// metadata of `dir` itself is not looked at.
///
/// The counter must have room for the ordinals of the walk;
/// [`count_ordinals`] tells how many there are.
pub fn generate_tree_info(dir: &TreeNode, inode_counter: &mut u64) -> (info: DirectoryInfo)
    requires
        *old(inode_counter) + ordinals_in(dir@.entries()) <= u64::MAX,
    ensures
        info@ == snapshot(dir@, *old(inode_counter) as nat),
        *final(inode_counter) == *old(inode_counter) + ordinals_in(dir@.entries()),
    decreases dir,
{
    let mut tuples: Vec<FileInfo> = Vec::new();
    let ghost start = *inode_counter as nat;
    let ghost listed = dir@.entries();
    if let Some(entries) = &dir.listing {
        proof {
            lemma_views_of(entries@);
        }
        let mut i: usize = 0;
        while i < entries.len()
            invariant
                i <= entries.len(),
                dir.listing == Some(*entries),
                listed == dir@.entries(),
                listed.len() == entries.len(),
                forall|k: int| 0 <= k < entries.len() ==> (#[trigger] listed[k]) == entries@[k]@,
                start + ordinals_in(listed) <= u64::MAX,
                *inode_counter == start + ordinals_in(listed.take(i as int)),
                tuples@.map_values(|row: FileInfo| row@) == rows(listed.take(i as int), start),
            decreases entries.len() - i,
        {
            let entry = &entries[i];
            let ghost before = tuples@.map_values(|row: FileInfo| row@);
            let ghost at = *inode_counter as nat;
            proof {
                assert(listed[i as int] == entry@);
                lemma_step(listed, i as int, start);
                lemma_ordinals_of_prefix(listed, i + 1);
            }
            if let Some(metadata) = &entry.metadata {
                let ordinal = *inode_counter;
                *inode_counter = ordinal + 1;
                tuples.push(FileInfo::discovered(&entry.name, metadata, ordinal));
                if metadata.is_dir() {
                    let below = generate_tree_info(entry, inode_counter);
                    tuples.push(FileInfo::summary(below.identifier, *inode_counter));
                }
            }
            assert(tuples@.map_values(|row: FileInfo| row@) == before + entry_rows(entry@, at));
            i += 1;
        }
        assert(listed.take(i as int) == listed);
    }
    assert(tuples@.map_values(|row: FileInfo| row@) == rows(listed, start));
    DirectoryInfo { identifier: dir.name.clone(), tuples, inode: 0 }
}

/// Counts the ordinals that a walk of `dir` draws, so that a caller can
/// tell whether its counter has room for them: `None` where even the count
/// is beyond `u64`.
pub fn count_ordinals(dir: &TreeNode) -> (count: Option<u64>)
    ensures
        match count {
            Some(n) => n == ordinals_in(dir@.entries()),
            None => ordinals_in(dir@.entries()) > u64::MAX,
        },
    decreases dir,
{
    let mut total: u64 = 0;
    let ghost listed = dir@.entries();
    if let Some(entries) = &dir.listing {
        proof {
            lemma_views_of(entries@);
        }
        let mut i: usize = 0;
        while i < entries.len()
            invariant
                i <= entries.len(),
                dir.listing == Some(*entries),
                listed == dir@.entries(),
                listed.len() == entries.len(),
                forall|k: int| 0 <= k < entries.len() ==> (#[trigger] listed[k]) == entries@[k]@,
                total == ordinals_in(listed.take(i as int)),
            decreases entries.len() - i,
        {
            let entry = &entries[i];
            proof {
                assert(listed[i as int] == entry@);
                lemma_step(listed, i as int, 0);
                lemma_ordinals_of_prefix(listed, i + 1);
            }
            if let Some(metadata) = &entry.metadata {
                let below: Option<u64> = if metadata.is_dir() {
                    count_ordinals(entry)
                } else {
                    Some(0)
                };
                let drawn: Option<u64> = match below {
                    Some(n) => n.checked_add(1),
                    None => None,
                };
                let sum: Option<u64> = match drawn {
                    Some(n) => total.checked_add(n),
                    None => None,
                };
                match sum {
                    Some(n) => {
                        total = n;
                    },
                    None => {
                        return None;
                    },
                }
            }
            i += 1;
        }
        assert(listed.take(i as int) == listed);
    }
    Some(total)
}

/// Walks the tree below `root` with a counter of its own that starts at
/// [`FIRST_ORDINAL`], and returns the snapshot of `root`: `None` where the
/// tree has more entries than the counter can number.
pub fn inventory(root: &TreeNode) -> (result: Option<DirectoryInfo>)
    ensures
        match result {
            Some(info) => FIRST_ORDINAL + ordinals_in(root@.entries()) <= u64::MAX && info@ == snapshot(
                root@,
                FIRST_ORDINAL as nat,
            ),
            None => FIRST_ORDINAL + ordinals_in(root@.entries()) > u64::MAX,
        },
{
    let mut inode_counter: u64 = FIRST_ORDINAL;
    match count_ordinals(root) {
        Some(count) => if count <= u64::MAX - FIRST_ORDINAL {
            Some(generate_tree_info(root, &mut inode_counter))
        } else {
            None
        },
        None => None,
    }
}

} // verus!
