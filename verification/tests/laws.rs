use tree_info::{generate_tree_info, DirectoryInfo, EntryKind, EntryMetadata, FileType, TreeNode};

fn node(name: &str, file_type: FileType, times: Option<u64>, len: u64, listing: Option<Vec<TreeNode>>) -> TreeNode {
    TreeNode {
        name: name.to_string(),
        metadata: Some(EntryMetadata { file_type, created: times, modified: times.map(|t| t + 1), len }),
        listing,
    }
}

fn sample(times: Option<u64>) -> TreeNode {
    TreeNode {
        name: "sample".to_string(),
        metadata: None,
        listing: Some(vec![
            node("a.txt", FileType::File, times, 10, None),
            node(
                "b",
                FileType::Directory,
                times,
                4096,
                Some(vec![
                    node("c.txt", FileType::File, times, 5, None),
                    node("deep", FileType::Directory, times, 4096, Some(vec![])),
                ]),
            ),
            TreeNode { name: "unreadable".to_string(), metadata: None, listing: None },
            node("link", FileType::Other, times, 12, None),
            node("e", FileType::Directory, times, 4096, None),
        ]),
    }
}

fn walk(tree: &TreeNode) -> DirectoryInfo {
    let mut counter: u64 = 1;
    generate_tree_info(tree, &mut counter)
}

#[test]
fn one_row_per_readable_entry_and_one_more_per_directory() {
    let info = walk(&sample(Some(50)));
    // readable: a.txt, b, link, e; directories: b, e
    assert_eq!(info.tuples.len(), 4 + 2);
    let names: Vec<&str> = info.tuples.iter().map(|row| row.key.as_str()).collect();
    assert_eq!(names, vec!["a.txt", "b", "b", "link", "e", "e"]);
}

#[test]
fn listing_of_directories_alone_has_two_rows_each() {
    let tree = TreeNode {
        name: "top".to_string(),
        metadata: None,
        listing: Some(vec![
            node("x", FileType::Directory, None, 0, Some(vec![node("f", FileType::File, None, 1, None)])),
            TreeNode { name: "skipped".to_string(), metadata: None, listing: None },
            node("y", FileType::Directory, None, 0, None),
            node("z", FileType::Directory, None, 0, Some(vec![])),
        ]),
    };
    assert_eq!(walk(&tree).tuples.len(), 2 * 3);
}

#[test]
fn entries_below_a_subdirectory_add_no_rows() {
    let shallow = TreeNode {
        name: "top".to_string(),
        metadata: None,
        listing: Some(vec![node("d", FileType::Directory, None, 0, Some(vec![]))]),
    };
    let deep = TreeNode {
        name: "top".to_string(),
        metadata: None,
        listing: Some(vec![node(
            "d",
            FileType::Directory,
            None,
            0,
            Some(vec![
                node("f", FileType::File, None, 1, None),
                node("g", FileType::Directory, None, 0, Some(vec![node("h", FileType::File, None, 1, None)])),
            ]),
        )]),
    };
    assert_eq!(walk(&shallow).tuples.len(), 2);
    assert_eq!(walk(&deep).tuples.len(), 2);
}

#[test]
fn summary_rows_carry_no_metadata() {
    let info = walk(&sample(Some(50)));
    for index in [2usize, 5] {
        let row = &info.tuples[index];
        assert_eq!((row.ctime, row.mtime, row.size), (0, 0, 0));
        assert_eq!(row.kind, EntryKind::Directory);
    }
    // the discovery rows of the same directories keep their times
    assert_eq!((info.tuples[1].ctime, info.tuples[1].mtime, info.tuples[1].size), (50, 51, 0));
    assert_eq!((info.tuples[4].ctime, info.tuples[4].mtime, info.tuples[4].size), (50, 51, 0));
}

#[test]
fn kinds_follow_the_type_of_the_entry() {
    let info = walk(&sample(Some(50)));
    let kinds: Vec<&str> = info.tuples.iter().map(|row| row.kind.as_str()).collect();
    assert_eq!(kinds, vec!["file", "directory", "directory", "directory", "directory", "directory"]);
}

#[test]
fn rows_of_kind_directory_have_size_zero() {
    let info = walk(&sample(Some(50)));
    for row in &info.tuples {
        assert_eq!(row.key, row.name);
        match row.kind {
            EntryKind::Directory => assert_eq!(row.size, 0),
            EntryKind::File => assert_eq!(row.size, 10),
        }
    }
}

#[test]
fn walking_twice_gives_the_same_snapshot() {
    let tree = sample(Some(50));
    assert_eq!(walk(&tree), walk(&tree));
}

#[test]
fn times_change_nothing_but_times() {
    let one = walk(&sample(Some(50)));
    let other = walk(&sample(Some(9_000)));
    let third = walk(&sample(None));
    assert_ne!(one, other);
    for info in [&other, &third] {
        assert_eq!(info.identifier, one.identifier);
        assert_eq!(info.tuples.len(), one.tuples.len());
        for (a, b) in one.tuples.iter().zip(info.tuples.iter()) {
            assert_eq!((&a.key, a.kind, &a.name, a.size, a.inode), (&b.key, b.kind, &b.name, b.size, b.inode));
        }
    }
    let ordinals: Vec<u64> = one.tuples.iter().map(|row| row.inode).collect();
    // a.txt = 1, b = 2, c.txt = 3, deep = 4, link = 5, e = 6
    assert_eq!(ordinals, vec![1, 2, 5, 5, 6, 7]);
}
