//! The file pane's two faces: the directory tree, and the quick-open pane
//! with a typed query over the index. Both are driven one key stroke at a
//! time; painting stays with the caller.

use vstd::prelude::*;

verus! {

use crate::event::{Event, KeyInput};
use crate::file_pane::{next_selection, previous_selection};
use crate::indexer::index::{FileIndexEntry, FileTreeNode, Index};
use crate::quick_open::{get_quick_open_results, quick_open_matches, QuickOpenResult};

/// How many items one level of the tree shows: a file stands alone, a
/// folder shows its children.
pub open spec fn child_count(node: FileTreeNode) -> int {
    match node {
        FileTreeNode::File(entry) => 1,
        FileTreeNode::Folder(folder) => folder.children@.len() as int,
    }
}

/// The child of `node` at `i`: only a folder has children.
pub open spec fn child_at(node: FileTreeNode, i: int) -> Option<FileTreeNode> {
    match node {
        FileTreeNode::File(entry) => None,
        FileTreeNode::Folder(folder) => if 0 <= i < folder.children@.len() {
            Some(folder.children@[i])
        } else {
            None
        },
    }
}

/// `path` descends from `root` through folder children, index by index.
pub open spec fn path_valid(root: FileTreeNode, path: Seq<int>) -> bool
    decreases path.len(),
{
    path.len() == 0 || (match root {
        FileTreeNode::File(entry) => false,
        FileTreeNode::Folder(folder) => 0 <= path[0] < folder.children@.len() && path_valid(
            folder.children@[path[0]],
            path.drop_first(),
        ),
    })
}

/// The node that `path` leads to from `root`.
pub open spec fn node_at(root: FileTreeNode, path: Seq<int>) -> FileTreeNode
    recommends
        path_valid(root, path),
    decreases path.len(),
{
    if path.len() == 0 {
        root
    } else {
        match root {
            FileTreeNode::File(entry) => root,
            FileTreeNode::Folder(folder) => if 0 <= path[0] < folder.children@.len() {
                node_at(folder.children@[path[0]], path.drop_first())
            } else {
                root
            },
        }
    }
}

/// Descending into child `i` of the folder that `path` leads to keeps the
/// path valid and leads to that child.
proof fn lemma_path_push(root: FileTreeNode, path: Seq<int>, i: int)
    requires
        path_valid(root, path),
        child_at(node_at(root, path), i) is Some,
    ensures
        path_valid(root, path.push(i)),
        node_at(root, path.push(i)) == child_at(node_at(root, path), i)->0,
    decreases path.len(),
{
    if path.len() == 0 {
        match root {
            FileTreeNode::File(entry) => {
                assert(false);
            },
            FileTreeNode::Folder(folder) => {
                assert(0 <= i < folder.children@.len());
                assert(path.push(i)[0] == i);
                assert(path.push(i).drop_first() =~= Seq::<int>::empty());
                assert(path_valid(folder.children@[i], Seq::<int>::empty()));
                assert(path_valid(root, path.push(i)));
                assert(node_at(folder.children@[i], Seq::<int>::empty()) == folder.children@[i]);
                assert(node_at(root, path.push(i)) == folder.children@[i]);
            },
        }
    } else {
        match root {
            FileTreeNode::File(entry) => {},
            FileTreeNode::Folder(folder) => {
                lemma_path_push(folder.children@[path[0]], path.drop_first(), i);
                assert(path.push(i)[0] == path[0]);
                assert(path.push(i).drop_first() =~= path.drop_first().push(i));
            },
        }
    }
}

/// Backing out of the last descent keeps the path valid.
proof fn lemma_path_pop(root: FileTreeNode, path: Seq<int>)
    requires
        path_valid(root, path),
        path.len() >= 1,
    ensures
        path_valid(root, path.drop_last()),
    decreases path.len(),
{
    if path.len() == 1 {
        assert(path.drop_last() =~= Seq::<int>::empty());
    } else {
        match root {
            FileTreeNode::File(entry) => {},
            FileTreeNode::Folder(folder) => {
                lemma_path_pop(folder.children@[path[0]], path.drop_first());
                assert(path.drop_last()[0] == path[0]);
                assert(path.drop_last().drop_first() =~= path.drop_first().drop_last());
            },
        }
    }
}

/// The node that the index path of `path` (from position `k` on) leads to.
#[verifier::loop_isolation(false)]
fn node_at_path<'a>(node: &'a FileTreeNode, path: &Vec<usize>, k: usize) -> (r:
    &'a FileTreeNode)
    requires
        k <= path@.len(),
        path_valid(*node, path@.map_values(|u: usize| u as int).skip(k as int)),
    ensures
        *r == node_at(*node, path@.map_values(|u: usize| u as int).skip(k as int)),
    decreases path@.len() - k,
{
    let ghost suffix = path@.map_values(|u: usize| u as int).skip(k as int);
    if k == path.len() {
        proof {
            assert(suffix.len() == 0);
        }
        node
    } else {
        match node {
            FileTreeNode::File(entry) => {
                proof {
                    assert(suffix.len() > 0);
                    assert(false);
                }
                node
            },
            FileTreeNode::Folder(folder) => {
                let i = path[k];
                proof {
                    assert(suffix[0] == i as int);
                    assert(suffix.drop_first() =~= path@.map_values(|u: usize| u as int).skip(
                        k as int + 1,
                    ));
                }
                node_at_path(&folder.children[i], path, k + 1)
            },
        }
    }
}

/// The opened levels of the tree: the root, and the run of child indices
/// taken to reach the level currently shown.
pub struct FileTreeCache {
    root_node: FileTreeNode,
    node_stack: Vec<usize>,
}

impl FileTreeCache {
    /// The whole tree.
    pub closed spec fn spec_root(self) -> FileTreeNode {
        self.root_node
    }

    /// The child indices taken from the root to the shown level.
    pub closed spec fn spec_path(self) -> Seq<int> {
        self.node_stack@.map_values(|u: usize| u as int)
    }

    /// The path leads through folder children.
    pub open spec fn well_formed(self) -> bool {
        path_valid(self.spec_root(), self.spec_path())
    }

    /// The node of the shown level.
    pub open spec fn current(self) -> FileTreeNode {
        node_at(self.spec_root(), self.spec_path())
    }

    /// A cache showing the root of `file_tree`.
    pub fn new(file_tree: FileTreeNode) -> (r: FileTreeCache)
        ensures
            r.well_formed(),
            r.spec_root() == file_tree,
            r.spec_path() == Seq::<int>::empty(),
    {
        let r = FileTreeCache { root_node: file_tree, node_stack: Vec::new() };
        proof {
            assert(r.spec_path() =~= Seq::<int>::empty());
        }
        r
    }

    /// The node of the shown level.
    fn current_node(&self) -> (r: &FileTreeNode)
        requires
            self.well_formed(),
        ensures
            *r == self.current(),
    {
        proof {
            assert(self.node_stack@.map_values(|u: usize| u as int).skip(0)
                =~= self.spec_path());
        }
        node_at_path(&self.root_node, &self.node_stack, 0)
    }
}

/// How one key stroke changes the directory tree pane: the arrow keys move
/// the selection, enter opens the selected item, backspace backs out one
/// level; whenever a handled key leaves a file selected, that file is
/// reported as selected.
pub open spec fn directory_tree_key_spec(
    pre: DirectoryTreeComponent,
    post: DirectoryTreeComponent,
    key: KeyInput,
    handled: bool,
) -> bool {
    &&& handled == (match key {
        KeyInput::Down => true,
        KeyInput::Up => true,
        KeyInput::Backspace => pre.spec_cache() is Some,
        KeyInput::Char(c) => c == '\n',
        _ => false,
    })
    &&& handled ==> post.spec_needs_paint()
    &&& !handled ==> post.spec_needs_paint() == pre.spec_needs_paint()
    &&& post.spec_events() == (match post.spec_selected() {
        Some(i) => if handled && post.spec_entry_at(i as int) is Some {
            (match key {
                KeyInput::Char(c) => Seq::<Event>::empty().push(
                    Event::FileItemOpened(post.spec_entry_at(i as int)->0),
                ),
                _ => Seq::<Event>::empty(),
            }).push(
                Event::FileItemSelected(FileTreeNode::File(post.spec_entry_at(i as int)->0)),
            )
        } else {
            Seq::<Event>::empty()
        },
        None => Seq::<Event>::empty(),
    })
    &&& (match key {
        KeyInput::Down => post.spec_cache() == pre.spec_cache() && post.spec_selected()
            == next_selection(pre.spec_selected(), pre.spec_num_items()),
        KeyInput::Up => post.spec_cache() == pre.spec_cache() && post.spec_selected()
            == previous_selection(pre.spec_selected()),
        _ => true,
    })
}

/// The directory tree pane: the opened levels of the index's tree, with a
/// selection moved one item at a time, opened with enter and backed out of
/// with backspace.
pub struct DirectoryTreeComponent {
    selected_item_index: Option<usize>,
    needs_paint: bool,
    file_tree_cache: Option<FileTreeCache>,
    events: Vec<Event>,
}

impl DirectoryTreeComponent {
    /// The selected item's position in the shown level.
    pub closed spec fn spec_selected(self) -> Option<usize> {
        self.selected_item_index
    }

    /// Whether the next paint pass must repaint the pane.
    pub closed spec fn spec_needs_paint(self) -> bool {
        self.needs_paint
    }

    /// The opened levels, once an index arrived.
    pub closed spec fn spec_cache(self) -> Option<FileTreeCache> {
        self.file_tree_cache
    }

    /// The events of the last handled key.
    pub closed spec fn spec_events(self) -> Seq<Event> {
        self.events@
    }

    /// How many items the shown level holds.
    pub open spec fn spec_num_items(self) -> int {
        match self.spec_cache() {
            Some(cache) => child_count(cache.current()),
            None => 0,
        }
    }

    /// The item of the shown level at `i`.
    pub open spec fn spec_child_at(self, i: int) -> Option<FileTreeNode> {
        match self.spec_cache() {
            Some(cache) => child_at(cache.current(), i),
            None => None,
        }
    }

    /// The file at `i` of the shown level, when the item there is a file.
    pub open spec fn spec_entry_at(self, i: int) -> Option<FileIndexEntry> {
        match self.spec_child_at(i) {
            Some(FileTreeNode::File(entry)) => Some(entry),
            _ => None,
        }
    }

    /// The path descends through folders and the selection points at an
    /// item of the shown level.
    pub open spec fn well_formed(self) -> bool {
        &&& (match self.spec_cache() {
            Some(cache) => cache.well_formed(),
            None => true,
        })
        &&& (match self.spec_selected() {
            Some(i) => i < self.spec_num_items(),
            None => true,
        })
    }

    /// An empty pane: no index yet, nothing selected, a first paint due.
    pub fn new() -> (r: DirectoryTreeComponent)
        ensures
            r.well_formed(),
            r.spec_selected() is None,
            r.spec_needs_paint(),
            r.spec_cache() is None,
            r.spec_events() == Seq::<Event>::empty(),
    {
        DirectoryTreeComponent {
            selected_item_index: None,
            needs_paint: true,
            file_tree_cache: None,
            events: Vec::new(),
        }
    }

    /// Hands the pane the index: the first one is kept and shown from its
    /// root; later ones only ask for a repaint.
    pub fn update_index(&mut self, index: Index)
        requires
            old(self).well_formed(),
        ensures
            final(self).well_formed(),
            final(self).spec_needs_paint(),
            final(self).spec_selected() == old(self).spec_selected(),
            final(self).spec_events() == old(self).spec_events(),
            old(self).spec_cache() is Some ==> final(self).spec_cache() == old(self).spec_cache(),
            old(self).spec_cache() is None ==> (final(self).spec_cache() matches Some(cache)
                && cache.spec_root() == index.tree && cache.spec_path().len() == 0),
    {
        self.needs_paint = true;
        if self.file_tree_cache.is_none() {
            self.file_tree_cache = Some(FileTreeCache::new(index.tree));
        }
    }

    /// How many items the shown level holds.
    pub fn num_current_items(&self) -> (r: usize)
        requires
            self.well_formed(),
        ensures
            r == self.spec_num_items(),
    {
        match &self.file_tree_cache {
            None => 0,
            Some(cache) => match cache.current_node() {
                FileTreeNode::File(entry) => 1,
                FileTreeNode::Folder(folder) => folder.children.len(),
            },
        }
    }

    /// The item of the shown level at `index`.
    pub fn file_tree_node_at_index(&self, index: usize) -> (r: Option<&FileTreeNode>)
        requires
            self.well_formed(),
        ensures
            match r {
                Some(node) => self.spec_child_at(index as int) == Some(*node),
                None => self.spec_child_at(index as int) is None,
            },
    {
        match &self.file_tree_cache {
            None => None,
            Some(cache) => match cache.current_node() {
                FileTreeNode::File(entry) => None,
                FileTreeNode::Folder(folder) => {
                    if index < folder.children.len() {
                        Some(&folder.children[index])
                    } else {
                        None
                    }
                },
            },
        }
    }

    /// The file at `index` of the shown level, when the item there is a
    /// file.
    pub fn file_index_entry_at_index(&self, index: usize) -> (r: Option<&FileIndexEntry>)
        requires
            self.well_formed(),
        ensures
            match r {
                Some(entry) => self.spec_entry_at(index as int) == Some(*entry),
                None => self.spec_entry_at(index as int) is None,
            },
    {
        match self.file_tree_node_at_index(index) {
            None => None,
            Some(node) => match node {
                FileTreeNode::Folder(folder) => None,
                FileTreeNode::File(entry) => Some(entry),
            },
        }
    }

    /// Descends into child `child_index` of the shown folder and clears the
    /// selection.
    fn push_node_stack(&mut self, child_index: usize)
        requires
            old(self).well_formed(),
            old(self).spec_cache() is Some,
            old(self).spec_child_at(child_index as int) is Some,
        ensures
            final(self).well_formed(),
            final(self).spec_cache() matches Some(cache) && old(self).spec_cache() matches Some(
                old_cache,
            ) && cache.spec_root() == old_cache.spec_root() && cache.spec_path()
                == old_cache.spec_path().push(child_index as int),
            final(self).spec_selected() is None,
            final(self).spec_needs_paint() == old(self).spec_needs_paint(),
            final(self).spec_events() == old(self).spec_events(),
    {
        proof {
            let cache = old(self).spec_cache()->0;
            lemma_path_push(cache.spec_root(), cache.spec_path(), child_index as int);
        }
        match &mut self.file_tree_cache {
            Some(cache) => {
                cache.node_stack.push(child_index);
                proof {
                    assert(self.spec_cache()->0.spec_path() =~= old(self).spec_cache()->0.spec_path().push(child_index as int));
                }
                self.selected_item_index = None;
            },
            None => {},
        }
    }

    /// Backs out one level, when an index arrived and a level was opened,
    /// and clears the selection; reports whether an index has arrived.
    pub fn pop_node_stack(&mut self) -> (r: bool)
        requires
            old(self).well_formed(),
        ensures
            final(self).well_formed(),
            r == (old(self).spec_cache() is Some),
            final(self).spec_needs_paint() == old(self).spec_needs_paint(),
            final(self).spec_events() == old(self).spec_events(),
            old(self).spec_cache() is None ==> *final(self) == *old(self),
            (old(self).spec_cache() matches Some(cache) && cache.spec_path().len() == 0) ==> *final(self) == *old(self),
            old(self).spec_cache() matches Some(cache) ==> (cache.spec_path().len() >= 1 ==> (
            final(self).spec_cache() matches Some(new_cache) && new_cache.spec_root()
                == cache.spec_root() && new_cache.spec_path() == cache.spec_path().drop_last()
                && final(self).spec_selected() is None)),
    {
        proof {
            if old(self).spec_cache() is Some {
                let cache = old(self).spec_cache()->0;
                if cache.spec_path().len() >= 1 {
                    lemma_path_pop(cache.spec_root(), cache.spec_path());
                }
            }
        }
        match &mut self.file_tree_cache {
            Some(cache) => {
                if cache.node_stack.len() > 0 {
                    let _last = cache.node_stack.pop();
                    proof {
                        assert(self.spec_cache()->0.spec_path() =~= old(self).spec_cache()->0.spec_path().drop_last());
                    }
                    self.selected_item_index = None;
                }
                true
            },
            None => false,
        }
    }

    /// Opens the selected item: a file is reported as opened, a folder
    /// becomes the shown level.
    pub fn open_selected_item(&mut self)
        requires
            old(self).well_formed(),
        ensures
            final(self).well_formed(),
            final(self).spec_needs_paint() == old(self).spec_needs_paint(),
            ({
                let chosen = match old(self).spec_selected() {
                    Some(i) => old(self).spec_child_at(i as int),
                    None => None,
                };
                match chosen {
                    None => *final(self) == *old(self),
                    Some(FileTreeNode::File(entry)) => final(self).spec_events() == old(self).spec_events().push(Event::FileItemOpened(entry)) && final(self).spec_cache()
                        == old(self).spec_cache() && final(self).spec_selected() == old(self).spec_selected(),
                    Some(FileTreeNode::Folder(folder)) => final(self).spec_events() == old(self).spec_events() && final(self).spec_selected() is None && (final(self).spec_cache() matches Some(cache) && old(self).spec_cache() matches Some(
                        old_cache,
                    ) && cache.spec_root() == old_cache.spec_root() && cache.spec_path()
                        == old_cache.spec_path().push(old(self).spec_selected()->0 as int)),
                }
            }),
    {
        let selected = self.selected_item_index;
        match selected {
            None => {},
            Some(selected_index) => {
                let mut open_folder = false;
                let mut opened_entry: Option<FileIndexEntry> = None;
                match self.file_tree_node_at_index(selected_index) {
                    None => {},
                    Some(node) => match node {
                        FileTreeNode::File(entry) => {
                            opened_entry = Some(entry.clone());
                        },
                        FileTreeNode::Folder(folder) => {
                            open_folder = true;
                        },
                    },
                }
                if open_folder {
                    self.push_node_stack(selected_index);
                } else {
                    match opened_entry {
                        Some(entry) => {
                            self.events.push(Event::FileItemOpened(entry));
                        },
                        None => {},
                    }
                }
            },
        }
    }

    /// The events of the last handled key.
    pub fn events(&self) -> (r: &Vec<Event>)
        ensures
            r@ == self.spec_events(),
    {
        &self.events
    }

    /// The selected item's position.
    pub fn selected(&self) -> (r: Option<usize>)
        ensures
            r == self.spec_selected(),
    {
        self.selected_item_index
    }

    /// Applies one key stroke: the arrow keys move the selection, enter
    /// opens the selected item, backspace backs out one level. Whenever a
    /// handled key leaves a file selected, that file is reported as
    /// selected.
    pub fn dispatch_key(&mut self, key: KeyInput) -> (handled: bool)
        requires
            old(self).well_formed(),
        ensures
            final(self).well_formed(),
            directory_tree_key_spec(*old(self), *final(self), key, handled),
    {
        self.events.clear();
        let handled: bool;
        match key {
            KeyInput::Down => {
                let count = self.num_current_items();
                match self.selected_item_index {
                    None => {
                        if count > 0 {
                            self.selected_item_index = Some(0);
                        }
                    },
                    Some(i) => {
                        if count > 0 && i < count - 1 {
                            self.selected_item_index = Some(i + 1);
                        }
                    },
                }
                handled = true;
            },
            KeyInput::Up => {
                match self.selected_item_index {
                    None => {},
                    Some(i) => {
                        if i > 0 {
                            self.selected_item_index = Some(i - 1);
                        }
                    },
                }
                handled = true;
            },
            KeyInput::Backspace => {
                handled = self.pop_node_stack();
            },
            KeyInput::Char(c) => {
                if c == '\n' {
                    self.open_selected_item();
                    handled = true;
                } else {
                    handled = false;
                }
            },
            _ => {
                handled = false;
            },
        }
        if handled {
            self.needs_paint = true;
            let mut selected_entry: Option<FileIndexEntry> = None;
            match self.selected_item_index {
                Some(selected_index) => {
                    match self.file_index_entry_at_index(selected_index) {
                        Some(entry) => {
                            selected_entry = Some(entry.clone());
                        },
                        None => {},
                    }
                },
                None => {},
            }
            match selected_entry {
                Some(entry) => {
                    self.events.push(Event::FileItemSelected(FileTreeNode::File(entry)));
                },
                None => {},
            }
        }
        handled
    }
}

/// The query with its last character removed; an empty query stays empty.
pub open spec fn popped(query: Seq<char>) -> Seq<char> {
    if query.len() == 0 {
        query
    } else {
        query.drop_last()
    }
}

/// The results after a query change: recomputed over the index when there is
/// one, untouched otherwise.
pub open spec fn updated_results(
    index: Option<Index>,
    results: Seq<FileIndexEntry>,
    query: Seq<char>,
) -> Seq<FileIndexEntry> {
    match index {
        Some(ix) => quick_open_matches(ix.files@, query),
        None => results,
    }
}

/// The selection after a query change: the first result when any came back,
/// nothing when none did, untouched without an index.
pub open spec fn updated_selection(
    index: Option<Index>,
    selected: Option<usize>,
    new_results: Seq<FileIndexEntry>,
) -> Option<usize> {
    match index {
        Some(ix) => if new_results.len() > 0 {
            Some(0usize)
        } else {
            None
        },
        None => selected,
    }
}

/// How one key stroke changes the quick-open pane: characters extend the
/// query and backspace shortens it, both refreshing the results; the arrow
/// keys move the selection; whenever a handled key leaves a result
/// selected, that file is reported as selected.
pub open spec fn quick_open_key_spec(
    pre: QuickOpenComponent,
    post: QuickOpenComponent,
    key: KeyInput,
    handled: bool,
) -> bool {
    &&& post.spec_index() == pre.spec_index()
    &&& handled == (match key {
        KeyInput::Char(c) => true,
        KeyInput::Backspace => true,
        KeyInput::Down => true,
        KeyInput::Up => true,
        _ => false,
    })
    &&& post.spec_query() == (match key {
        KeyInput::Char(c) => pre.spec_query().push(c),
        KeyInput::Backspace => popped(pre.spec_query()),
        _ => pre.spec_query(),
    })
    &&& post.spec_results() == (match key {
        KeyInput::Char(c) => updated_results(
            pre.spec_index(),
            pre.spec_results(),
            post.spec_query(),
        ),
        KeyInput::Backspace => updated_results(
            pre.spec_index(),
            pre.spec_results(),
            post.spec_query(),
        ),
        _ => pre.spec_results(),
    })
    &&& post.spec_selected() == (match key {
        KeyInput::Char(c) => updated_selection(
            pre.spec_index(),
            pre.spec_selected(),
            post.spec_results(),
        ),
        KeyInput::Backspace => updated_selection(
            pre.spec_index(),
            pre.spec_selected(),
            post.spec_results(),
        ),
        KeyInput::Down => next_selection(pre.spec_selected(), pre.spec_results().len() as int),
        KeyInput::Up => previous_selection(pre.spec_selected()),
        _ => pre.spec_selected(),
    })
    &&& post.spec_events() == (match post.spec_selected() {
        Some(i) => if handled {
            seq![Event::FileItemSelected(FileTreeNode::File(post.spec_results()[i as int]))]
        } else {
            Seq::<Event>::empty()
        },
        None => Seq::<Event>::empty(),
    })
}

/// The quick-open pane's state: the typed query, the index it searches, the
/// current results with the selected one, and the events of the last key.
pub struct QuickOpenComponent {
    search_query: String,
    index: Option<Index>,
    results: Vec<QuickOpenResult>,
    selected_item_index: Option<usize>,
    events: Vec<Event>,
}

impl QuickOpenComponent {
    /// The typed query.
    pub closed spec fn spec_query(self) -> Seq<char> {
        self.search_query@
    }

    /// The index being searched, if one arrived.
    pub closed spec fn spec_index(self) -> Option<Index> {
        self.index
    }

    /// The current results.
    pub closed spec fn spec_results(self) -> Seq<FileIndexEntry> {
        self.results@
    }

    /// The selected result's position.
    pub closed spec fn spec_selected(self) -> Option<usize> {
        self.selected_item_index
    }

    /// The events of the last handled key.
    pub closed spec fn spec_events(self) -> Seq<Event> {
        self.events@
    }

    /// The selection always points into the results.
    pub open spec fn well_formed(self) -> bool {
        match self.spec_selected() {
            Some(i) => i < self.spec_results().len(),
            None => true,
        }
    }

    /// An empty pane: no query, no index, no results, no selection.
    pub fn new() -> (r: QuickOpenComponent)
        ensures
            r.well_formed(),
            r.spec_query() == Seq::<char>::empty(),
            r.spec_index() is None,
            r.spec_results() == Seq::<FileIndexEntry>::empty(),
            r.spec_selected() is None,
            r.spec_events() == Seq::<Event>::empty(),
    {
        QuickOpenComponent {
            search_query: String::new(),
            index: None,
            results: Vec::new(),
            selected_item_index: None,
            events: Vec::new(),
        }
    }

    /// Hands the pane the index to search and refreshes the results.
    pub fn set_index(&mut self, index: Index)
        requires
            old(self).well_formed(),
        ensures
            final(self).well_formed(),
            final(self).spec_query() == old(self).spec_query(),
            final(self).spec_index() == Some(index),
            final(self).spec_results() == quick_open_matches(
                index.files@,
                old(self).spec_query(),
            ),
            final(self).spec_selected() == (if final(self).spec_results().len() > 0 {
                Some(0usize)
            } else {
                None::<usize>
            }),
            final(self).spec_events() == old(self).spec_events(),
    {
        self.index = Some(index);
        self.update_quick_open_results();
    }

    /// Recomputes the results for the current query and selects the first
    /// one, when an index is there to search.
    pub fn update_quick_open_results(&mut self)
        requires
            old(self).well_formed(),
        ensures
            final(self).well_formed(),
            final(self).spec_query() == old(self).spec_query(),
            final(self).spec_index() == old(self).spec_index(),
            final(self).spec_events() == old(self).spec_events(),
            final(self).spec_results() == updated_results(
                old(self).spec_index(),
                old(self).spec_results(),
                old(self).spec_query(),
            ),
            final(self).spec_selected() == updated_selection(
                old(self).spec_index(),
                old(self).spec_selected(),
                final(self).spec_results(),
            ),
    {
        let new_results = match &self.index {
            Some(index) => Some(get_quick_open_results(index, self.search_query.as_str())),
            None => None,
        };
        match new_results {
            Some(results) => {
                let any = results.len() > 0;
                self.results = results;
                self.selected_item_index = if any {
                    Some(0)
                } else {
                    None
                };
            },
            None => {},
        }
    }

    /// The events of the last handled key: the selected file, when the key
    /// left one selected.
    pub fn events(&self) -> (r: &Vec<Event>)
        ensures
            r@ == self.spec_events(),
    {
        &self.events
    }

    /// The selected result's position.
    pub fn selected(&self) -> (r: Option<usize>)
        ensures
            r == self.spec_selected(),
    {
        self.selected_item_index
    }

    /// The typed query.
    pub fn query(&self) -> (r: &String)
        ensures
            r@ == self.spec_query(),
    {
        &self.search_query
    }

    /// The current results, in index order.
    pub fn results(&self) -> (r: &Vec<QuickOpenResult>)
        ensures
            r@ == self.spec_results(),
    {
        &self.results
    }

    /// Applies one key stroke: characters extend the query and backspace
    /// shortens it, both refreshing the results; the arrow keys move the
    /// selection. Whenever a handled key leaves a result selected, that file
    /// is reported as selected.
    pub fn dispatch_key(&mut self, key: KeyInput) -> (handled: bool)
        requires
            old(self).well_formed(),
        ensures
            final(self).well_formed(),
            quick_open_key_spec(*old(self), *final(self), key, handled),
    {
        self.events.clear();
        let handled: bool;
        match key {
            KeyInput::Char(c) => {
                self.search_query.push(c);
                self.update_quick_open_results();
                handled = true;
            },
            KeyInput::Backspace => {
                self.search_query.pop();
                self.update_quick_open_results();
                handled = true;
            },
            KeyInput::Down => {
                match self.selected_item_index {
                    None => {
                        if self.results.len() > 0 {
                            self.selected_item_index = Some(0);
                        }
                    },
                    Some(i) => {
                        if self.results.len() > 0 && i < self.results.len() - 1 {
                            self.selected_item_index = Some(i + 1);
                        }
                    },
                }
                handled = true;
            },
            KeyInput::Up => {
                match self.selected_item_index {
                    None => {},
                    Some(i) => {
                        if i > 0 {
                            self.selected_item_index = Some(i - 1);
                        }
                    },
                }
                handled = true;
            },
            _ => {
                handled = false;
            },
        }
        if handled {
            match self.selected_item_index {
                Some(selected_index) => {
                    let entry = self.results[selected_index].clone();
                    self.events.push(Event::FileItemSelected(FileTreeNode::File(entry)));
                    proof {
                        assert(self.events@ =~= seq![
                            Event::FileItemSelected(
                                FileTreeNode::File(self.results@[selected_index as int]),
                            ),
                        ]);
                    }
                },
                None => {},
            }
        }
        handled
    }
}


/// Which face the file pane shows.
pub enum FilePaneMode {
    DirectoryTree,
    QuickOpen,
}

/// The file pane: the directory tree and the quick-open pane, one of them
/// shown and receiving the keys.
pub struct FilePaneComponent {
    directory_tree: DirectoryTreeComponent,
    quick_open: QuickOpenComponent,
    mode: FilePaneMode,
}

impl FilePaneComponent {
    /// The directory tree face.
    pub closed spec fn spec_directory_tree(self) -> DirectoryTreeComponent {
        self.directory_tree
    }

    /// The quick-open face.
    pub closed spec fn spec_quick_open(self) -> QuickOpenComponent {
        self.quick_open
    }

    /// Which face is shown.
    pub closed spec fn spec_mode(self) -> FilePaneMode {
        self.mode
    }

    /// Both faces are well formed.
    pub open spec fn well_formed(self) -> bool {
        &&& self.spec_directory_tree().well_formed()
        &&& self.spec_quick_open().well_formed()
    }

    /// A pane showing an empty directory tree.
    pub fn new() -> (r: FilePaneComponent)
        ensures
            r.well_formed(),
            r.spec_mode() is DirectoryTree,
            r.spec_directory_tree().spec_cache() is None,
            r.spec_quick_open().spec_index() is None,
    {
        FilePaneComponent {
            directory_tree: DirectoryTreeComponent::new(),
            quick_open: QuickOpenComponent::new(),
            mode: FilePaneMode::DirectoryTree,
        }
    }

    /// Switches to the quick-open face, searching `index`.
    pub fn start_quick_open(&mut self, index: Index)
        requires
            old(self).well_formed(),
        ensures
            final(self).well_formed(),
            final(self).spec_mode() is QuickOpen,
            final(self).spec_directory_tree() == old(self).spec_directory_tree(),
            final(self).spec_quick_open().spec_index() == Some(index),
            final(self).spec_quick_open().spec_query() == old(self).spec_quick_open().spec_query(),
            final(self).spec_quick_open().spec_results() == quick_open_matches(
                index.files@,
                old(self).spec_quick_open().spec_query(),
            ),
    {
        self.quick_open.set_index(index);
        self.mode = FilePaneMode::QuickOpen;
    }

    /// Hands the directory tree the index.
    pub fn update_index(&mut self, index: Index)
        requires
            old(self).well_formed(),
        ensures
            final(self).well_formed(),
            final(self).spec_mode() == old(self).spec_mode(),
            final(self).spec_quick_open() == old(self).spec_quick_open(),
            final(self).spec_directory_tree().spec_needs_paint(),
            old(self).spec_directory_tree().spec_cache() is Some ==> final(self).spec_directory_tree().spec_cache() == old(self).spec_directory_tree().spec_cache(),
            old(self).spec_directory_tree().spec_cache() is None ==> (final(self).spec_directory_tree().spec_cache() matches Some(cache) && cache.spec_root()
                == index.tree && cache.spec_path().len() == 0),
    {
        self.directory_tree.update_index(index);
    }

    /// The directory tree face, for painting.
    pub fn directory_tree(&self) -> (r: &DirectoryTreeComponent)
        ensures
            *r == self.spec_directory_tree(),
    {
        &self.directory_tree
    }

    /// The quick-open face, for painting.
    pub fn quick_open(&self) -> (r: &QuickOpenComponent)
        ensures
            *r == self.spec_quick_open(),
    {
        &self.quick_open
    }

    /// Whether the quick-open face is shown.
    pub fn in_quick_open(&self) -> (r: bool)
        ensures
            r == (self.spec_mode() is QuickOpen),
    {
        match self.mode {
            FilePaneMode::QuickOpen => true,
            FilePaneMode::DirectoryTree => false,
        }
    }

    /// The events of the last handled key, from the shown face.
    pub fn events(&self) -> (r: &Vec<Event>)
        ensures
            r@ == (match self.spec_mode() {
                FilePaneMode::DirectoryTree => self.spec_directory_tree().spec_events(),
                FilePaneMode::QuickOpen => self.spec_quick_open().spec_events(),
            }),
    {
        match self.mode {
            FilePaneMode::DirectoryTree => self.directory_tree.events(),
            FilePaneMode::QuickOpen => self.quick_open.events(),
        }
    }

    /// Applies one key stroke: escape leaves the quick-open face; any other
    /// key goes to the shown face.
    pub fn dispatch_key(&mut self, key: KeyInput) -> (handled: bool)
        requires
            old(self).well_formed(),
        ensures
            final(self).well_formed(),
            (old(self).spec_mode() is QuickOpen && key is Esc) ==> (handled && final(self).spec_mode() is DirectoryTree && final(self).spec_directory_tree() == old(self).spec_directory_tree() && final(self).spec_quick_open() == old(self).spec_quick_open()),
            (old(self).spec_mode() is QuickOpen && !(key is Esc)) ==> (final(self).spec_mode() is QuickOpen && final(self).spec_directory_tree() == old(self).spec_directory_tree() && quick_open_key_spec(
                old(self).spec_quick_open(),
                final(self).spec_quick_open(),
                key,
                handled,
            )),
            old(self).spec_mode() is DirectoryTree ==> (final(self).spec_mode() is DirectoryTree && final(self).spec_quick_open() == old(self).spec_quick_open() && directory_tree_key_spec(
                old(self).spec_directory_tree(),
                final(self).spec_directory_tree(),
                key,
                handled,
            )),
    {
        match self.mode {
            FilePaneMode::QuickOpen => {
                match key {
                    KeyInput::Esc => {
                        self.mode = FilePaneMode::DirectoryTree;
                        true
                    },
                    _ => self.quick_open.dispatch_key(key),
                }
            },
            FilePaneMode::DirectoryTree => self.directory_tree.dispatch_key(key),
        }
    }
}

} // verus!
