//! A directory tree as a scan sees it: what was listed, entry by entry,
//! held as plain values.

use vstd::prelude::*;

verus! {

/// What the lookup of an entry's metadata returned.
#[derive(Debug, Clone, Copy, PartialEq, Eq)]
pub struct FileMeta {
    /// The entry is a regular file.
    pub is_file: bool,
    /// Its length in bytes.
    pub len: u64,
}

/// An entry of a directory that is no directory itself.
#[derive(Debug, Clone, PartialEq, Eq)]
pub struct FileEntry {
    /// The bare file name.
    pub name: String,
    /// The path under which the entry was found.
    pub path: String,
    /// Its metadata, or `None` where the lookup failed.
    pub meta: Option<FileMeta>,
}

/// One node of a listed tree.
#[derive(Debug)]
pub enum FsNode {
    /// An entry that is not a directory.
    File(FileEntry),
    /// A directory with the entries that its listing gave, in that order.
    Dir { path: String, children: Vec<FsNode> },
    /// A directory that could not be listed.
    Unreadable { path: String },
    /// An entry that the listing of the directory `path` failed to give.
    Failed { path: String },
}

/// What the item of a listing is, before anything is done with it.
#[derive(Debug, Clone, Copy, PartialEq, Eq, Structural)]
pub enum Listed {
    /// An entry that is not a directory.
    File,
    /// A subdirectory, whether or not it can be listed in its turn.
    Directory,
    /// An error in place of an entry.
    Failed,
}

/// What `node` was in the listing that held it.
pub open spec fn kind_of(node: FsNode) -> Listed {
    match node {
        FsNode::File(entry) => Listed::File,
        FsNode::Dir { path, children } => Listed::Directory,
        FsNode::Unreadable { path } => Listed::Directory,
        FsNode::Failed { path } => Listed::Failed,
    }
}

/// What `node` was in the listing that held it.
pub fn node_kind(node: &FsNode) -> (kind: Listed)
    ensures
        kind == kind_of(*node),
{
    match node {
        FsNode::File(entry) => Listed::File,
        FsNode::Dir { path, children } => Listed::Directory,
        FsNode::Unreadable { path } => Listed::Directory,
        FsNode::Failed { path } => Listed::Failed,
    }
}

/// The files below `node` in the order of a depth-first walk. What lies
/// in a directory that could not be listed is not among them, nor is an
/// entry that its listing failed to give: a failure costs what lies below
/// it and nothing else.
pub open spec fn leaves(node: FsNode) -> Seq<FileEntry>
    decreases node, 0nat,
{
    match node {
        FsNode::File(entry) => seq![entry],
        FsNode::Dir { path, children } => leaves_of_all(children@),
        FsNode::Unreadable { path } => Seq::empty(),
        FsNode::Failed { path } => Seq::empty(),
    }
}

/// The files below the nodes of `nodes`, node after node.
pub open spec fn leaves_of_all(nodes: Seq<FsNode>) -> Seq<FileEntry>
    decreases nodes, 1nat,
{
    if nodes.len() == 0 {
        Seq::empty()
    } else {
        leaves_of_all(nodes.drop_last()) + leaves(nodes.last())
    }
}

/// The path under which `node` was found; for an entry that a listing
/// failed to give, the path of the directory that was listed.
pub open spec fn path_of(node: FsNode) -> Seq<char> {
    match node {
        FsNode::File(entry) => entry.path@,
        FsNode::Dir { path, children } => path@,
        FsNode::Unreadable { path } => path@,
        FsNode::Failed { path } => path@,
    }
}

/// The path under which `node` was found.
pub fn node_path(node: &FsNode) -> (path: &str)
    ensures
        path@ == path_of(*node),
{
    match node {
        FsNode::File(entry) => entry.path.as_str(),
        FsNode::Dir { path, children } => path.as_str(),
        FsNode::Unreadable { path } => path.as_str(),
        FsNode::Failed { path } => path.as_str(),
    }
}

/// The start of a walk could not be listed.
#[derive(Debug, Clone, PartialEq, Eq)]
pub struct EnumerationError {
    /// The path at which the walk was to start.
    pub path: String,
}

} // verus!
