//! The file index: a directory tree and the flat list of its files.

use vstd::prelude::*;

verus! {

use vstd::string::{StringExecFns, StrSliceExecFns};
use crate::text::{path_file_name, path_file_name_str, lower_of, to_lowercase};

/// One indexed file: its path and name, and the name folded to lower case
/// for matching.
pub struct FileIndexEntry {
    pub path: String,
    pub file_name: String,
    pub normalized_filename: String,
}

impl FileIndexEntry {
    /// An entry for the file at `path`: its name is what follows the last
    /// `/`, folded to lower case for matching. A path whose file name is
    /// empty gives nothing.
    pub fn new(path: &str) -> (r: Option<FileIndexEntry>)
        ensures
            path_file_name(path@).len() == 0 ==> r is None,
            path_file_name(path@).len() > 0 ==> (r matches Some(e) && e.path@ == path@
                && e.file_name@ == path_file_name(path@) && e.normalized_filename@ == lower_of(
                path_file_name(path@),
            )),
    {
        let file_name = path_file_name_str(path);
        if file_name.as_str().is_empty() {
            return None;
        }
        let normalized_filename = to_lowercase(file_name.as_str());
        Some(
            FileIndexEntry {
                path: String::from_str(path),
                file_name,
                normalized_filename,
            },
        )
    }
}

impl Clone for FileIndexEntry {
    fn clone(&self) -> (r: Self)
        ensures
            r == *self,
    {
        FileIndexEntry {
            path: self.path.clone(),
            file_name: self.file_name.clone(),
            normalized_filename: self.normalized_filename.clone(),
        }
    }
}

/// A folder with its children, in the order the index found them.
pub struct FileTreeFolder {
    pub children: Vec<FileTreeNode>,
    pub folder_name: String,
}

/// A node of the directory tree: a file or a folder.
pub enum FileTreeNode {
    File(FileIndexEntry),
    Folder(FileTreeFolder),
}

impl Clone for FileTreeNode {
    /// A deep copy of the tree.
    #[verifier::loop_isolation(false)]
    fn clone(&self) -> (r: Self)
        decreases *self,
    {
        match self {
            FileTreeNode::File(entry) => FileTreeNode::File(entry.clone()),
            FileTreeNode::Folder(folder) => {
                let mut children: Vec<FileTreeNode> = Vec::new();
                let mut i: usize = 0;
                while i < folder.children.len()
                    invariant
                        0 <= i <= folder.children@.len(),
                    decreases folder.children@.len() - i,
                {
                    proof {
                        assert(decreases_to!(*self => folder.children@[i as int]));
                    }
                    let child = folder.children[i].clone();
                    children.push(child);
                    i = i + 1;
                }
                FileTreeNode::Folder(
                    FileTreeFolder { children, folder_name: folder.folder_name.clone() },
                )
            },
        }
    }
}

/// Every file in the tree rooted at `node`, in depth-first order.
pub open spec fn all_files_of_node(node: FileTreeNode) -> Seq<FileIndexEntry>
    decreases node,
{
    match node {
        FileTreeNode::File(entry) => seq![entry],
        FileTreeNode::Folder(folder) => all_files_of_nodes(folder.children@),
    }
}

/// Every file in the trees of `nodes`, in order.
pub open spec fn all_files_of_nodes(nodes: Seq<FileTreeNode>) -> Seq<FileIndexEntry>
    decreases nodes,
{
    if nodes.len() == 0 {
        Seq::empty()
    } else {
        all_files_of_node(nodes[0]) + all_files_of_nodes(nodes.drop_first())
    }
}

/// Collecting one more child tree appends exactly that tree's files.
proof fn lemma_all_files_take_one_more(nodes: Seq<FileTreeNode>, i: int)
    requires
        0 <= i < nodes.len(),
    ensures
        all_files_of_nodes(nodes.subrange(0, i + 1)) == all_files_of_nodes(nodes.subrange(0, i))
            + all_files_of_node(nodes[i]),
    decreases i,
{
    if i == 0 {
        let one = nodes.subrange(0, 1);
        assert(one[0] == nodes[0]);
        assert(one.drop_first() =~= Seq::<FileTreeNode>::empty());
        assert(nodes.subrange(0, 0) =~= Seq::<FileTreeNode>::empty());
        assert(all_files_of_nodes(one) =~= all_files_of_nodes(nodes.subrange(0, 0))
            + all_files_of_node(nodes[0]));
    } else {
        let rest = nodes.drop_first();
        lemma_all_files_take_one_more(rest, i - 1);
        assert(nodes.subrange(0, i + 1).drop_first() =~= rest.subrange(0, i));
        assert(nodes.subrange(0, i).drop_first() =~= rest.subrange(0, i - 1));
        assert(nodes.subrange(0, i + 1)[0] == nodes[0]);
        assert(nodes.subrange(0, i)[0] == nodes[0]);
        assert(rest[i - 1] == nodes[i]);
        assert(all_files_of_node(nodes[0]) + (all_files_of_nodes(rest.subrange(0, i - 1))
            + all_files_of_node(nodes[i])) =~= (all_files_of_node(nodes[0])
            + all_files_of_nodes(rest.subrange(0, i - 1))) + all_files_of_node(nodes[i]));
    }
}

impl FileTreeNode {
    /// Collects every file in the tree, in depth-first order.
    #[verifier::loop_isolation(false)]
    pub fn all_files(&self) -> (r: Vec<FileIndexEntry>)
        ensures
            r@ == all_files_of_node(*self),
        decreases *self,
    {
        match self {
            FileTreeNode::File(entry) => {
                let mut result: Vec<FileIndexEntry> = Vec::new();
                result.push(entry.clone());
                proof {
                    assert(result@ =~= seq![*entry]);
                }
                result
            },
            FileTreeNode::Folder(folder) => {
                let mut result: Vec<FileIndexEntry> = Vec::new();
                let n = folder.children.len();
                let mut i: usize = 0;
                proof {
                    assert(folder.children@.subrange(0, 0) =~= Seq::<FileTreeNode>::empty());
                }
                while i < n
                    invariant
                        0 <= i <= n,
                        result@ == all_files_of_nodes(folder.children@.subrange(0, i as int)),
                    decreases n - i,
                {
                    proof {
                        assert(decreases_to!(*self => folder.children@[i as int]));
                    }
                    let mut child_files = folder.children[i].all_files();
                    result.append(&mut child_files);
                    proof {
                        lemma_all_files_take_one_more(folder.children@, i as int);
                    }
                    i = i + 1;
                }
                proof {
                    assert(folder.children@.subrange(0, n as int) =~= folder.children@);
                }
                result
            },
        }
    }
}

/// The index over a tree: the tree itself and the flat file list.
pub struct Index {
    pub tree: FileTreeNode,
    pub files: Vec<FileIndexEntry>,
}

impl Index {
    /// An index over `root_node`, with its files cached in depth-first
    /// order.
    pub fn new(root_node: FileTreeNode) -> (r: Index)
        ensures
            r.tree == root_node,
            r.files@ == all_files_of_node(root_node),
    {
        let files = root_node.all_files();
        Index { tree: root_node, files }
    }
}

/// An error from building or reading the index.
#[derive(Debug)]
pub struct IndexError {
    pub message: String,
}

impl IndexError {
    /// An error with the given message.
    pub fn new(message: &str) -> (r: IndexError)
        ensures
            r.message@ == message@,
    {
        IndexError { message: String::from_str(message) }
    }
}

/// A source of indexes: the caller implements it over a local directory, a
/// remote connection, or anything else, and hands back the index when one is
/// ready.
pub trait Indexer {
    fn get_index(&self) -> Option<Index>;
}

} // verus!
