//! What holds of every walk, proved from the definition of its rows.

use vstd::prelude::*;
use crate::listing::{ordinals_in, ordinals_of, EntryMetadata, TreeNodeView};
use crate::record::{discovery_row, summary_row, FileInfoView};
use crate::walker::{entry_rows, lemma_ordinals_of_prefix, lemma_step, rows};

verus! {

/// The entries of a listing whose metadata could be read.
pub open spec fn readable_entries(entries: Seq<TreeNodeView>) -> Seq<TreeNodeView> {
    entries.filter(|entry: TreeNodeView| entry.readable())
}

/// The entries of a listing that are known to be directories.
pub open spec fn directories(entries: Seq<TreeNodeView>) -> Seq<TreeNodeView> {
    entries.filter(|entry: TreeNodeView| entry.is_directory())
}

/// One row for every readable entry and one more for every directory.
pub open spec fn row_count(entries: Seq<TreeNodeView>) -> nat {
    readable_entries(entries).len() + directories(entries).len()
}

/// The index, among the rows of a listing, of the first row of entry `k`.
pub open spec fn row_index(entries: Seq<TreeNodeView>, k: int) -> int {
    row_count(entries.take(k)) as int
}

/// The number of rows of a snapshot: every entry with readable metadata
/// gives one row, every directory among them a second one, and an entry
/// whose metadata cannot be read gives none. The entries below a
/// subdirectory add nothing to it.
pub proof fn lemma_row_count(entries: Seq<TreeNodeView>, at: nat)
    ensures
        rows(entries, at).len() == row_count(entries),
    decreases entries.len(),
{
    reveal(Seq::filter);
    if entries.len() > 0 {
        lemma_row_count(entries.drop_last(), at);
    }
}

/// In a listing whose readable entries are all directories, the snapshot
/// has exactly two rows for each of them.
pub proof fn lemma_two_rows_per_directory(entries: Seq<TreeNodeView>, at: nat)
    requires
        forall|k: int| 0 <= k < entries.len() && entries[k].readable() ==> entries[k].is_directory(),
    ensures
        rows(entries, at).len() == 2 * readable_entries(entries).len(),
    decreases entries.len(),
{
    reveal(Seq::filter);
    lemma_row_count(entries, at);
    if entries.len() > 0 {
        let before = entries.drop_last();
        assert forall|k: int| 0 <= k < before.len() && before[k].readable() implies before[k].is_directory() by {
            assert(before[k] == entries[k]);
        }
        lemma_two_rows_per_directory(before, at);
        lemma_row_count(before, at);
    }
}

/// The rows of the first `m` entries are the first rows of the listing.
pub proof fn lemma_rows_of_prefix(entries: Seq<TreeNodeView>, at: nat, m: int)
    requires
        0 <= m <= entries.len(),
    ensures
        rows(entries.take(m), at).is_prefix_of(rows(entries, at)),
    decreases entries.len() - m,
{
    if m == entries.len() {
        assert(entries.take(m) == entries);
    } else {
        lemma_step(entries, m, at);
        lemma_rows_of_prefix(entries, at, m + 1);
    }
}

/// Where the rows of each entry stand: those of entry `k` follow the rows
/// of the entries before it, and are what [`entry_rows`] gives for the
/// counter as those entries left it.
pub proof fn lemma_rows_of_entry(entries: Seq<TreeNodeView>, at: nat, k: int)
    requires
        0 <= k < entries.len(),
    ensures
        0 <= row_index(entries, k) <= row_index(entries, k + 1) <= rows(entries, at).len(),
        rows(entries, at).subrange(row_index(entries, k), row_index(entries, k + 1)) == entry_rows(
            entries[k],
            at + ordinals_in(entries.take(k)),
        ),
{
    lemma_step(entries, k, at);
    lemma_row_count(entries.take(k), at);
    lemma_row_count(entries.take(k + 1), at);
    lemma_rows_of_prefix(entries, at, k + 1);
    let all = rows(entries, at);
    let upto = rows(entries.take(k + 1), at);
    let before = rows(entries.take(k), at);
    let own = entry_rows(entries[k], at + ordinals_in(entries.take(k)));
    assert(upto == all.subrange(0, upto.len() as int));
    assert forall|j: int| 0 <= j < own.len() implies all[before.len() + j] == own[j] by {
        assert(upto[before.len() + j] == own[j]);
        assert(all.subrange(0, upto.len() as int)[before.len() + j] == all[before.len() + j]);
    }
    assert(all.subrange(before.len() as int, upto.len() as int) =~= own);
}

/// The first row of a readable entry is its discovery row, numbered with
/// the counter as the entries before it left it.
pub proof fn lemma_discovery_row(entries: Seq<TreeNodeView>, at: nat, k: int)
    requires
        0 <= k < entries.len(),
        entries[k].readable(),
    ensures
        0 <= row_index(entries, k) < rows(entries, at).len(),
        rows(entries, at)[row_index(entries, k)] == discovery_row(
            entries[k].name,
            entries[k].metadata->0,
            at + ordinals_in(entries.take(k)),
        ),
{
    lemma_rows_of_entry(entries, at, k);
    let own = entry_rows(entries[k], at + ordinals_in(entries.take(k)));
    let found = rows(entries, at).subrange(row_index(entries, k), row_index(entries, k + 1));
    assert(own.len() >= 1);
    assert(found.len() == own.len());
    assert(found[0] == own[0]);
}

/// The row behind the discovery row of a directory is its summary row. Its
/// times and its size are 0 whatever the metadata of the directory holds,
/// and its ordinal is the value of the counter after the walk below the
/// directory.
pub proof fn lemma_summary_row(entries: Seq<TreeNodeView>, at: nat, k: int)
    requires
        0 <= k < entries.len(),
        entries[k].is_directory(),
    ensures
        0 <= row_index(entries, k) + 1 < rows(entries, at).len(),
        rows(entries, at)[row_index(entries, k) + 1] == summary_row(
            entries[k].name,
            at + ordinals_in(entries.take(k + 1)),
        ),
        rows(entries, at)[row_index(entries, k) + 1].ctime == 0,
        rows(entries, at)[row_index(entries, k) + 1].mtime == 0,
        rows(entries, at)[row_index(entries, k) + 1].size == 0,
{
    lemma_rows_of_entry(entries, at, k);
    lemma_step(entries, k, at);
    let own = entry_rows(entries[k], at + ordinals_in(entries.take(k)));
    let found = rows(entries, at).subrange(row_index(entries, k), row_index(entries, k + 1));
    assert(own.len() == 2);
    assert(found.len() == own.len());
    assert(found[1] == own[1]);
}

/// The kind of every row that an entry gives: the discovery row of a
/// regular file says `file`, that of anything else says `directory`, and
/// so does the summary row of a directory.
pub proof fn lemma_row_kinds(entries: Seq<TreeNodeView>, at: nat, k: int)
    requires
        0 <= k < entries.len(),
        entries[k].readable(),
    ensures
        0 <= row_index(entries, k) < rows(entries, at).len(),
        entries[k].metadata->0.file_type is File ==> rows(entries, at)[row_index(entries, k)].kind.label()
            == "file"@,
        !(entries[k].metadata->0.file_type is File) ==> rows(entries, at)[row_index(
            entries,
            k,
        )].kind.label() == "directory"@,
        entries[k].is_directory() ==> row_index(entries, k) + 1 < rows(entries, at).len() && rows(
            entries,
            at,
        )[row_index(entries, k) + 1].kind.label() == "directory"@,
{
    lemma_discovery_row(entries, at, k);
    if entries[k].is_directory() {
        lemma_summary_row(entries, at, k);
    }
}

/// Every row of a snapshot has its key as its name, and size 0 where its
/// kind is directory.
pub proof fn lemma_rows_well_formed(entries: Seq<TreeNodeView>, at: nat, i: int)
    requires
        0 <= i < rows(entries, at).len(),
    ensures
        rows(entries, at)[i].well_formed(),
    decreases entries.len(),
{
    let before = entries.drop_last();
    if i < rows(before, at).len() {
        lemma_rows_well_formed(before, at, i);
    }
}

/// Every ordinal of a snapshot lies between the value of the counter
/// before the walk and its value after it.
pub proof fn lemma_ordinal_bounds(entries: Seq<TreeNodeView>, at: nat, i: int)
    requires
        0 <= i < rows(entries, at).len(),
    ensures
        at <= rows(entries, at)[i].inode <= at + ordinals_in(entries),
    decreases entries.len(),
{
    let before = entries.drop_last();
    if i < rows(before, at).len() {
        lemma_ordinal_bounds(before, at, i);
    }
}

/// Down the rows of a snapshot the ordinals never decrease.
pub proof fn lemma_ordinals_never_decrease(entries: Seq<TreeNodeView>, at: nat, i: int, j: int)
    requires
        0 <= i < j < rows(entries, at).len(),
    ensures
        rows(entries, at)[i].inode <= rows(entries, at)[j].inode,
    decreases entries.len(),
{
    let before = entries.drop_last();
    if j < rows(before, at).len() {
        lemma_ordinals_never_decrease(before, at, i, j);
    } else if i < rows(before, at).len() {
        lemma_ordinal_bounds(before, at, i);
    }
}

/// The ordinals of the discovery rows are those of a counter that moves
/// with every entry found: of two readable entries of a listing, the later
/// one has the greater ordinal, so no two of them share one.
pub proof fn lemma_discovery_ordinals_increase(entries: Seq<TreeNodeView>, at: nat, k: int, l: int)
    requires
        0 <= k < l < entries.len(),
        entries[k].readable(),
        entries[l].readable(),
    ensures
        0 <= row_index(entries, k) < row_index(entries, l) < rows(entries, at).len(),
        rows(entries, at)[row_index(entries, k)].inode < rows(entries, at)[row_index(entries, l)].inode,
{
    lemma_discovery_row(entries, at, k);
    lemma_discovery_row(entries, at, l);
    lemma_step(entries, k, at);
    let upto = entries.take(l);
    assert(upto.take(k + 1) == entries.take(k + 1));
    lemma_ordinals_of_prefix(upto, k + 1);
    lemma_row_count(entries.take(k), at);
    lemma_row_count(entries.take(k + 1), at);
    lemma_row_count(upto, at);
    lemma_rows_of_prefix(upto, at, k + 1);
}

/// Where no directory of a listing has a readable entry behind it, the
/// ordinals of the snapshot strictly increase down its rows, so each occurs
/// once. (Behind a directory the next entry takes the ordinal that the
/// summary row of the directory shows.)
pub proof fn lemma_ordinals_unique(entries: Seq<TreeNodeView>, at: nat, i: int, j: int)
    requires
        forall|k: int, l: int|
            0 <= k < l < entries.len() ==> !(#[trigger] entries[k].is_directory() && #[trigger] entries[l].readable()),
        0 <= i < j < rows(entries, at).len(),
    ensures
        rows(entries, at)[i].inode < rows(entries, at)[j].inode,
    decreases entries.len(),
{
    let before = entries.drop_last();
    let last = entries.last();
    assert forall|k: int, l: int| 0 <= k < l < before.len() implies !(#[trigger] before[k].is_directory()
        && #[trigger] before[l].readable()) by {
        assert(before[k] == entries[k] && before[l] == entries[l]);
    }
    if j < rows(before, at).len() {
        lemma_ordinals_unique(before, at, i, j);
    } else if i < rows(before, at).len() {
        assert(last.readable());
        assert forall|k: int| 0 <= k < before.len() implies !(#[trigger] before[k]).is_directory() by {
            assert(before[k] == entries[k]);
            assert(entries[entries.len() - 1].readable());
        }
        lemma_ordinals_below_end(before, at, i);
    }
}

/// In a listing without directories every ordinal of the snapshot is below
/// the value of the counter after the walk.
proof fn lemma_ordinals_below_end(entries: Seq<TreeNodeView>, at: nat, i: int)
    requires
        forall|k: int| 0 <= k < entries.len() ==> !(#[trigger] entries[k]).is_directory(),
        0 <= i < rows(entries, at).len(),
    ensures
        rows(entries, at)[i].inode < at + ordinals_in(entries),
    decreases entries.len(),
{
    let before = entries.drop_last();
    assert(!entries[entries.len() - 1].is_directory());
    if i < rows(before, at).len() {
        assert forall|k: int| 0 <= k < before.len() implies !(#[trigger] before[k]).is_directory() by {
            assert(before[k] == entries[k]);
        }
        lemma_ordinals_below_end(before, at, i);
    }
}

/// Metadata with its two times taken away.
pub open spec fn without_times(metadata: Option<EntryMetadata>) -> Option<EntryMetadata> {
    match metadata {
        Some(m) => Some(EntryMetadata { file_type: m.file_type, created: None, modified: None, len: m.len }),
        None => None,
    }
}

/// A row with its two times taken away.
pub open spec fn row_without_times(row: FileInfoView) -> FileInfoView {
    FileInfoView { ctime: 0, mtime: 0, ..row }
}

/// Whether two listings show the same tree in the same order and differ,
/// if at all, in the times that the metadata of their entries gives.
pub open spec fn same_apart_from_times(a: Seq<TreeNodeView>, b: Seq<TreeNodeView>) -> bool
    decreases a,
{
    &&& a.len() == b.len()
    &&& forall|k: int|
        0 <= k < a.len() ==> {
            &&& (#[trigger] a[k]).name == b[k].name
            &&& without_times(a[k].metadata) == without_times(b[k].metadata)
            &&& a[k].listing is Some <==> b[k].listing is Some
            &&& a[k].listing is Some ==> same_apart_from_times(a[k].listing->0, b[k].listing->0)
        }
}

/// Two listings that differ in times alone still do so without their last
/// entries.
proof fn lemma_same_without_last(a: Seq<TreeNodeView>, b: Seq<TreeNodeView>)
    requires
        same_apart_from_times(a, b),
        a.len() > 0,
    ensures
        same_apart_from_times(a.drop_last(), b.drop_last()),
{
    assert forall|i: int| 0 <= i < a.drop_last().len() implies {
        &&& (#[trigger] a.drop_last()[i]).name == b.drop_last()[i].name
        &&& without_times(a.drop_last()[i].metadata) == without_times(b.drop_last()[i].metadata)
        &&& a.drop_last()[i].listing is Some <==> b.drop_last()[i].listing is Some
        &&& a.drop_last()[i].listing is Some ==> same_apart_from_times(
            a.drop_last()[i].listing->0,
            b.drop_last()[i].listing->0,
        )
    } by {
        assert(a[i].name == b[i].name);
    }
}

/// Two walks of one tree draw the same number of ordinals, whatever the
/// times of its entries were when each was read.
pub proof fn lemma_ordinals_apart_from_times(a: Seq<TreeNodeView>, b: Seq<TreeNodeView>)
    requires
        same_apart_from_times(a, b),
    ensures
        ordinals_in(a) == ordinals_in(b),
    decreases a,
{
    if a.len() > 0 {
        let k = a.len() - 1;
        assert(a[k].name == b[k].name);
        lemma_same_without_last(a, b);
        lemma_ordinals_apart_from_times(a.drop_last(), b.drop_last());
        if a[k].listing is Some {
            lemma_ordinals_apart_from_times(a[k].listing->0, b[k].listing->0);
        }
        assert(without_times(a[k].metadata) == without_times(b[k].metadata));
        assert(ordinals_of(a.last()) == ordinals_of(b.last()));
    }
}

/// Two walks of one tree from the same value of the counter give the same
/// rows in the same order, with the same ordinals; only the times of a row
/// may differ, where the times of its entry did.
pub proof fn lemma_rows_apart_from_times(a: Seq<TreeNodeView>, b: Seq<TreeNodeView>, at: nat)
    requires
        same_apart_from_times(a, b),
    ensures
        rows(a, at).map_values(|row: FileInfoView| row_without_times(row)) == rows(b, at).map_values(
            |row: FileInfoView| row_without_times(row),
        ),
    decreases a.len(),
{
    if a.len() > 0 {
        let k = a.len() - 1;
        assert(a[k].name == b[k].name);
        lemma_same_without_last(a, b);
        lemma_rows_apart_from_times(a.drop_last(), b.drop_last(), at);
        lemma_ordinals_apart_from_times(a.drop_last(), b.drop_last());
        lemma_ordinals_apart_from_times(a, b);
        let strip = |row: FileInfoView| row_without_times(row);
        let from = at + ordinals_in(a.drop_last());
        assert(without_times(a[k].metadata) == without_times(b[k].metadata));
        assert(ordinals_of(a.last()) == ordinals_of(b.last()));
        assert(entry_rows(a.last(), from).map_values(strip) == entry_rows(b.last(), from).map_values(strip));
        assert(rows(a, at).map_values(strip) == rows(a.drop_last(), at).map_values(strip) + entry_rows(
            a.last(),
            from,
        ).map_values(strip));
        assert(rows(b, at).map_values(strip) == rows(b.drop_last(), at).map_values(strip) + entry_rows(
            b.last(),
            from,
        ).map_values(strip));
    } else {
        assert(rows(a, at).map_values(|row: FileInfoView| row_without_times(row)) == rows(b, at).map_values(
            |row: FileInfoView| row_without_times(row),
        ));
    }
}

} // verus!
