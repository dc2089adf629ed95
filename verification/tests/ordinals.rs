use tree_info::{count_ordinals, generate_tree_info, EntryMetadata, FileType, TreeNode};

fn file(name: &str) -> TreeNode {
    TreeNode {
        name: name.to_string(),
        metadata: Some(EntryMetadata { file_type: FileType::File, created: None, modified: None, len: 1 }),
        listing: None,
    }
}

fn directory(name: &str, entries: Vec<TreeNode>) -> TreeNode {
    TreeNode {
        name: name.to_string(),
        metadata: Some(EntryMetadata {
            file_type: FileType::Directory,
            created: None,
            modified: None,
            len: 0,
        }),
        listing: Some(entries),
    }
}

fn unreadable(name: &str) -> TreeNode {
    TreeNode { name: name.to_string(), metadata: None, listing: None }
}

fn ordinals(tree: &TreeNode, start: u64) -> (Vec<(String, u64)>, u64) {
    let mut counter = start;
    let info = generate_tree_info(tree, &mut counter);
    (info.tuples.into_iter().map(|row| (row.key, row.inode)).collect(), counter)
}

fn row(name: &str, inode: u64) -> (String, u64) {
    (name.to_string(), inode)
}

#[test]
fn files_are_numbered_from_the_counter() {
    let tree = directory("top", vec![file("a"), file("b"), file("c")]);
    assert_eq!(ordinals(&tree, 1), (vec![row("a", 1), row("b", 2), row("c", 3)], 4));
}

#[test]
fn counter_need_not_start_at_one() {
    let tree = directory("top", vec![file("a"), directory("d", vec![file("x")]), file("b")]);
    assert_eq!(
        ordinals(&tree, 100),
        (vec![row("a", 100), row("d", 101), row("d", 103), row("b", 103)], 104)
    );
}

#[test]
fn nested_directories_share_the_counter() {
    let tree = directory(
        "top",
        vec![
            directory("d1", vec![directory("d2", vec![file("f"), file("g")]), file("h")]),
            file("i"),
            directory("d3", vec![]),
        ],
    );
    // d1 = 1, d2 = 2, f = 3, g = 4, h = 5, i = 6, d3 = 7
    assert_eq!(
        ordinals(&tree, 1),
        (vec![row("d1", 1), row("d1", 6), row("i", 6), row("d3", 7), row("d3", 8)], 8)
    );
    let d1 = directory("d1", vec![directory("d2", vec![file("f"), file("g")]), file("h")]);
    assert_eq!(ordinals(&d1, 2), (vec![row("d2", 2), row("d2", 5), row("h", 5)], 6));
}

#[test]
fn unreadable_entries_draw_no_ordinal() {
    let tree = directory(
        "top",
        vec![unreadable("u1"), file("a"), unreadable("u2"), directory("d", vec![unreadable("u3")])],
    );
    assert_eq!(ordinals(&tree, 1), (vec![row("a", 1), row("d", 2), row("d", 3)], 3));
}

#[test]
fn summary_ordinal_is_the_counter_after_the_subdirectory() {
    let tree = directory("top", vec![directory("d", vec![file("x"), file("y"), file("z")])]);
    let (rows, counter) = ordinals(&tree, 10);
    assert_eq!(rows, vec![row("d", 10), row("d", 14)]);
    assert_eq!(counter, 14);
}

#[test]
fn count_matches_the_move_of_the_counter() {
    let trees = vec![
        directory("t", vec![]),
        directory("t", vec![file("a")]),
        directory("t", vec![unreadable("u")]),
        directory("t", vec![directory("d", vec![file("a"), directory("e", vec![file("b")])]), file("c")]),
    ];
    let expected: Vec<u64> = vec![0, 1, 0, 5];
    for (tree, want) in trees.iter().zip(expected) {
        assert_eq!(count_ordinals(tree), Some(want));
        let (_, counter) = ordinals(tree, 1);
        assert_eq!(counter, 1 + want);
    }
}

#[test]
fn count_ignores_what_lies_below_files_and_unreadable_entries() {
    let mut odd = file("odd");
    odd.listing = Some(vec![file("x"), file("y")]);
    let mut lost = unreadable("lost");
    lost.listing = Some(vec![file("x")]);
    assert_eq!(count_ordinals(&directory("t", vec![odd, lost])), Some(1));
}

#[test]
fn count_does_not_look_at_the_metadata_of_the_root() {
    let mut tree = unreadable("t");
    tree.listing = Some(vec![file("a"), file("b")]);
    assert_eq!(count_ordinals(&tree), Some(2));
    assert_eq!(ordinals(&tree, 1), (vec![row("a", 1), row("b", 2)], 3));
}

#[test]
fn counter_may_end_at_the_largest_value() {
    let tree = directory("t", vec![file("a"), file("b")]);
    assert_eq!(
        ordinals(&tree, u64::MAX - 2),
        (vec![row("a", u64::MAX - 2), row("b", u64::MAX - 1)], u64::MAX)
    );
}

#[test]
fn discovery_ordinals_strictly_increase() {
    let tree = directory(
        "top",
        vec![file("a"), directory("d", vec![file("x")]), unreadable("u"), file("b"), directory("e", vec![])],
    );
    let mut counter: u64 = 1;
    let info = generate_tree_info(&tree, &mut counter);
    // discovery rows stand at 0, 1, 3, 4; summary rows at 2 and 5
    let discovery: Vec<u64> = [0usize, 1, 3, 4].iter().map(|&i| info.tuples[i].inode).collect();
    assert_eq!(discovery, vec![1, 2, 4, 5]);
    for pair in discovery.windows(2) {
        assert!(pair[0] < pair[1]);
    }
}

#[test]
fn ordinals_never_decrease_down_the_rows() {
    let tree = directory(
        "top",
        vec![directory("d", vec![]), file("a"), directory("e", vec![file("x"), file("y")]), file("b")],
    );
    let (rows, counter) = ordinals(&tree, 1);
    let numbers: Vec<u64> = rows.iter().map(|row| row.1).collect();
    assert_eq!(numbers, vec![1, 2, 2, 3, 6, 6]);
    for pair in numbers.windows(2) {
        assert!(pair[0] <= pair[1]);
    }
    assert!(numbers.iter().all(|&n| 1 <= n && n <= counter));
}

#[test]
fn ordinals_are_unique_where_no_entry_follows_a_directory() {
    let tree = directory("top", vec![file("a"), unreadable("u"), file("b"), directory("d", vec![file("x")])]);
    let (rows, _) = ordinals(&tree, 1);
    let numbers: Vec<u64> = rows.iter().map(|row| row.1).collect();
    assert_eq!(numbers, vec![1, 2, 3, 5]);
}

#[test]
fn entry_behind_a_directory_shares_the_ordinal_of_its_summary_row() {
    let tree = directory("top", vec![directory("d", vec![]), file("a")]);
    assert_eq!(ordinals(&tree, 1), (vec![row("d", 1), row("d", 2), row("a", 2)], 3));
}
