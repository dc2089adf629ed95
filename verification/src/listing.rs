//! What was read of a directory tree: the input of the walk.

use vstd::prelude::*;

verus! {

/// The type of a directory entry, as its metadata gives it.
#[derive(Clone, Copy, Debug, PartialEq, Eq)]
pub enum FileType {
    /// A regular file.
    File,
    /// A directory.
    Directory,
    /// Anything else: a symbolic link, a socket, a device.
    Other,
}

/// The metadata of one directory entry.
#[derive(Clone, Copy, Debug, PartialEq, Eq)]
pub struct EntryMetadata {
    /// The type of the entry.
    pub file_type: FileType,
    /// Creation time in whole seconds since the epoch, where it is available.
    pub created: Option<u64>,
    /// Modification time in whole seconds since the epoch, where it is available.
    pub modified: Option<u64>,
    /// Length in bytes.
    pub len: u64,
}

impl EntryMetadata {
    /// Whether the entry is a directory: the walk goes below such an entry
    /// and below no other.
    pub fn is_dir(&self) -> (answer: bool)
        ensures
            answer == (self.file_type is Directory),
    {
        match self.file_type {
            FileType::Directory => true,
            _ => false,
        }
    }
}

/// One path of the tree with what was read of it.
#[derive(Debug, PartialEq, Eq)]
pub struct TreeNode {
    /// Base name of the path.
    pub name: String,
    /// Metadata of the path, `None` where it could not be read.
    pub metadata: Option<EntryMetadata>,
    /// The entries that listing the path gave, in the order in which they
    /// came; `None` where the path could not be listed.
    pub listing: Option<Vec<TreeNode>>,
}

/// The mathematical value of a [`TreeNode`].
pub struct TreeNodeView {
    pub name: Seq<char>,
    pub metadata: Option<EntryMetadata>,
    pub listing: Option<Seq<TreeNodeView>>,
}

impl View for TreeNode {
    type V = TreeNodeView;

    open spec fn view(&self) -> TreeNodeView {
        view_of(*self)
    }
}

/// The value of a node: its name as characters, its metadata as it is, and
/// the values of the nodes of its listing.
pub open spec fn view_of(node: TreeNode) -> TreeNodeView
    decreases node,
{
    TreeNodeView {
        name: node.name@,
        metadata: node.metadata,
        listing: match node.listing {
            Some(nodes) => Some(views_of(nodes@)),
            None => None,
        },
    }
}

/// The values of the nodes of a listing, in its order.
pub open spec fn views_of(nodes: Seq<TreeNode>) -> Seq<TreeNodeView>
    decreases nodes,
{
    if nodes.len() == 0 {
        Seq::empty()
    } else {
        views_of(nodes.drop_last()).push(view_of(nodes.last()))
    }
}

/// [`views_of`] keeps the length and takes the value of each node in place.
pub proof fn lemma_views_of(nodes: Seq<TreeNode>)
    ensures
        views_of(nodes).len() == nodes.len(),
        forall|i: int| 0 <= i < nodes.len() ==> (#[trigger] views_of(nodes)[i]) == nodes[i]@,
    decreases nodes.len(),
{
    if nodes.len() > 0 {
        lemma_views_of(nodes.drop_last());
    }
}

impl Clone for TreeNode {
    /// A copy of the node and of everything below it.
    fn clone(&self) -> (copy: TreeNode)
        ensures
            copy@ == self@,
        decreases self,
    {
        let listing: Option<Vec<TreeNode>> = match &self.listing {
            Some(nodes) => {
                let mut copies: Vec<TreeNode> = Vec::new();
                let mut i: usize = 0;
                while i < nodes.len()
                    invariant
                        i <= nodes.len(),
                        self.listing == Some(*nodes),
                        views_of(copies@) == views_of(nodes@.take(i as int)),
                        copies.len() == i,
                    decreases nodes.len() - i,
                {
                    let node = &nodes[i];
                    assert(decreases_to!(self.listing => self.listing->0));
                    let copy = node.clone();
                    proof {
                        assert(nodes@.take(i + 1).drop_last() == nodes@.take(i as int));
                        assert(copies@.push(copy).drop_last() == copies@);
                    }
                    copies.push(copy);
                    i += 1;
                }
                assert(nodes@.take(i as int) == nodes@);
                Some(copies)
            },
            None => None,
        };
        TreeNode { name: self.name.clone(), metadata: self.metadata, listing }
    }
}

impl TreeNodeView {
    /// The entries of the node: those that listing it gave, none where it
    /// could not be listed.
    pub open spec fn entries(self) -> Seq<TreeNodeView> {
        match self.listing {
            Some(nodes) => nodes,
            None => Seq::empty(),
        }
    }

    /// Whether the metadata of the node could be read.
    pub open spec fn readable(self) -> bool {
        self.metadata is Some
    }

    /// Whether the node is known to be a directory.
    pub open spec fn is_directory(self) -> bool {
        self.metadata matches Some(m) && m.file_type is Directory
    }
}

/// The number of ordinals that visiting one entry draws: none where its
/// metadata cannot be read, else one for the entry itself and, where it is a
/// directory, those of the walk over its own entries.
pub open spec fn ordinals_of(entry: TreeNodeView) -> nat
    decreases entry,
{
    match entry.metadata {
        None => 0,
        Some(metadata) => 1 + if metadata.file_type is Directory {
            match entry.listing {
                Some(nodes) => ordinals_in(nodes),
                None => 0,
            }
        } else {
            0
        },
    }
}

/// The number of ordinals that a walk over `entries` draws: the sum of
/// [`ordinals_of`] over them.
pub open spec fn ordinals_in(entries: Seq<TreeNodeView>) -> nat
    decreases entries,
{
    if entries.len() == 0 {
        0
    } else {
        ordinals_in(entries.drop_last()) + ordinals_of(entries.last())
    }
}

} // verus!
