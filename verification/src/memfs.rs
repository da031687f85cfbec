//! A store of files and directories held in memory, and the filesystem that
//! serves it to any number of readers.

use crate::filesystem::{DirectoryEntry, FileAttr, FsRead};
use core::ops::Range;
use std::collections::HashMap;
use std::sync::Arc;
use vstd::prelude::*;
use vstd::rwlock::{RwLock, RwLockPredicate};

verus! {

broadcast use vstd::std_specs::hash::group_hash_axioms;

pub type NodeHandle = usize;

pub type FileCtx = ();

#[derive(Debug, Clone, Copy, PartialEq, Eq, Structural)]
pub enum Error {
    /// The handle refers to a file where a directory is needed.
    NotDirectory,
    /// The handle refers to a directory where a file is needed.
    NotFile,
    /// The store holds no node under the handle.
    InvalidHandle,
    /// The destination is too short for the bytes asked for.
    OutBufferError,
    /// The byte range is reversed or ends past the end of the file.
    InvalidRange,
}

/// A file: its content.
pub struct File(pub Vec<u8>);

/// A directory: its children in the order in which they were added, each
/// with its name, and the directory that holds it.
pub struct Directory {
    pub entries: Vec<(NodeHandle, String)>,
    pub parent: NodeHandle,
}

pub enum Node {
    File(File),
    Directory(Directory),
}

/// A node as plain values.
pub enum NodeView {
    File(Seq<u8>),
    Directory { entries: Seq<(NodeHandle, Seq<char>)>, parent: NodeHandle },
}

/// The store as plain values: the node under each handle.
pub type Tree = Map<NodeHandle, NodeView>;

impl View for Directory {
    type V = NodeView;

    open spec fn view(&self) -> NodeView {
        NodeView::Directory {
            entries: Seq::new(self.entries@.len(), |i: int| (self.entries@[i].0, self.entries@[i].1@)),
            parent: self.parent,
        }
    }
}

impl View for Node {
    type V = NodeView;

    open spec fn view(&self) -> NodeView {
        match self {
            Node::File(file) => NodeView::File(file.0@),
            Node::Directory(dir) => dir@,
        }
    }
}

impl Directory {
    /// An empty directory under `parent`.
    pub fn new(parent: NodeHandle) -> (dir: Self)
        ensures
            dir@ == (NodeView::Directory { entries: Seq::empty(), parent }),
            dir.entries@.len() == 0,
            dir.parent == parent,
    {
        let dir = Directory { entries: Vec::new(), parent };
        assert(dir@->entries =~= Seq::empty());
        dir
    }
}

impl Node {
    /// The directory that this node is, or `NotDirectory` for a file.
    pub fn as_directory(&self) -> (r: Result<&Directory, Error>)
        ensures
            match *self {
                Node::File(_) => r == Err::<&Directory, Error>(Error::NotDirectory),
                Node::Directory(dir) => r == Ok::<&Directory, Error>(&dir),
            },
    {
        match self {
            Self::File(_) => Err(Error::NotDirectory),
            Self::Directory(dir) => Ok(dir),
        }
    }

    /// The file that this node is, or `NotFile` for a directory.
    pub fn as_file(&self) -> (r: Result<&File, Error>)
        ensures
            match *self {
                Node::File(file) => r == Ok::<&File, Error>(&file),
                Node::Directory(_) => r == Err::<&File, Error>(Error::NotFile),
            },
    {
        match self {
            Self::File(file) => Ok(file),
            Self::Directory(_) => Err(Error::NotFile),
        }
    }
}

/// `parent` is a directory of `tree` with a child at position `i`.
pub open spec fn has_child(tree: Tree, parent: NodeHandle, i: int) -> bool {
    &&& tree.contains_key(parent)
    &&& tree[parent] is Directory
    &&& 0 <= i < tree[parent]->entries.len()
}

/// The handle of the child at position `i` of the directory `parent`.
pub open spec fn child_at(tree: Tree, parent: NodeHandle, i: int) -> NodeHandle {
    tree[parent]->entries[i].0
}

/// The nodes form a tree under the root directory, handle 0.
///
/// The root is its own parent. Every handle that a directory names, as its
/// parent or as a child, is in the store. A child was allocated after the
/// directory that holds it, so no chain of children comes back to where it
/// began; a child that is a directory names that directory as its parent; no
/// node is the child of two directories, or twice of one; and every node but
/// the root is some directory's child.
pub open spec fn tree_wf(tree: Tree) -> bool {
    &&& tree.contains_key(0)
    &&& tree[0] is Directory
    &&& tree[0]->parent == 0
    &&& forall|h: NodeHandle| #[trigger]
        tree.contains_key(h) && tree[h] is Directory ==> {
            &&& tree.contains_key(tree[h]->parent)
            &&& tree[tree[h]->parent] is Directory
        }
    &&& forall|h: NodeHandle, i: int| #[trigger]
        has_child(tree, h, i) ==> {
            let c = child_at(tree, h, i);
            &&& tree.contains_key(c)
            &&& h < c
            &&& tree[c] is Directory ==> tree[c]->parent == h
        }
    &&& forall|h1: NodeHandle, i1: int, h2: NodeHandle, i2: int|
        #![trigger has_child(tree, h1, i1), has_child(tree, h2, i2)]
        has_child(tree, h1, i1) && has_child(tree, h2, i2) && child_at(tree, h1, i1) == child_at(
            tree,
            h2,
            i2,
        ) ==> h1 == h2 && i1 == i2
    &&& forall|c: NodeHandle| #[trigger]
        tree.contains_key(c) && c != 0 ==> exists|h: NodeHandle, i: int| #[trigger]
            has_child(tree, h, i) && child_at(tree, h, i) == c
}

/// The node table and the counter that hands out handles.
pub struct State {
    pub nodes: HashMap<NodeHandle, Node>,
    pub node_cnt: NodeHandle,
}

impl View for State {
    type V = Tree;

    open spec fn view(&self) -> Tree {
        Map::new(|h: NodeHandle| self.nodes@.contains_key(h), |h: NodeHandle| self.nodes@[h]@)
    }
}

impl State {
    /// The nodes form a tree, and every handle in use was handed out by the
    /// counter, so that the next one is new.
    pub open spec fn wf(&self) -> bool {
        &&& tree_wf(self@)
        &&& forall|h: NodeHandle| #[trigger] self.nodes@.contains_key(h) ==> h < self.node_cnt
    }
}

/// The error with which a store refuses to add a child to `parent`, if it
/// does.
pub open spec fn attach_error(tree: Tree, parent: NodeHandle) -> Option<Error> {
    if !tree.contains_key(parent) {
        Some(Error::InvalidHandle)
    } else if tree[parent] is File {
        Some(Error::NotDirectory)
    } else {
        None
    }
}

/// The tree that holds the root directory and nothing else.
pub open spec fn root_only() -> Tree {
    Map::<NodeHandle, NodeView>::empty().insert(
        0,
        NodeView::Directory { entries: Seq::empty(), parent: 0 },
    )
}

/// The tree after `node` was put under `handle` and made the last child,
/// called `name`, of the directory `parent`.
pub open spec fn grown(
    tree: Tree,
    parent: NodeHandle,
    handle: NodeHandle,
    name: Seq<char>,
    node: NodeView,
) -> Tree {
    tree.insert(
        parent,
        NodeView::Directory {
            entries: tree[parent]->entries.push((handle, name)),
            parent: tree[parent]->parent,
        },
    ).insert(handle, node)
}

/// The root alone is a tree.
pub proof fn lemma_root_only_is_tree()
    ensures
        tree_wf(root_only()),
{
}

/// A tree stays a tree when a file, or an empty directory that names its
/// parent, is added to one of its directories under a handle greater than
/// all that are in use.
pub proof fn lemma_grown_is_tree(
    tree: Tree,
    parent: NodeHandle,
    handle: NodeHandle,
    name: Seq<char>,
    node: NodeView,
)
    requires
        tree_wf(tree),
        tree.contains_key(parent),
        tree[parent] is Directory,
        forall|h: NodeHandle| #[trigger] tree.contains_key(h) ==> h < handle,
        node is File || node == (NodeView::Directory { entries: Seq::empty(), parent }),
    ensures
        tree_wf(grown(tree, parent, handle, name, node)),
{
    let after = grown(tree, parent, handle, name, node);
    let last = tree[parent]->entries.len() as int;
    assert(has_child(after, parent, last) && child_at(after, parent, last) == handle);
    assert forall|d: NodeHandle, i: int| #[trigger] has_child(tree, d, i) implies has_child(after, d, i)
        && child_at(after, d, i) == child_at(tree, d, i) by {}
    assert forall|d: NodeHandle, i: int| #[trigger] has_child(after, d, i) implies (d == parent && i
        == last) || has_child(tree, d, i) by {}
    assert forall|c: NodeHandle| #[trigger] after.contains_key(c) && c != 0 implies exists|
        h: NodeHandle,
        i: int,
    | #[trigger] has_child(after, h, i) && child_at(after, h, i) == c by {
        if c != handle {
            let (h, i) = choose|h: NodeHandle, i: int| #[trigger]
                has_child(tree, h, i) && child_at(tree, h, i) == c;
            assert(has_child(after, h, i) && child_at(after, h, i) == c);
        }
    }
    assert forall|h: NodeHandle, i: int| #[trigger] has_child(after, h, i) implies {
        let c = child_at(after, h, i);
        &&& after.contains_key(c)
        &&& h < c
        &&& after[c] is Directory ==> after[c]->parent == h
    } by {
        if !(h == parent && i == last) {
            assert(has_child(tree, h, i));
        }
    }
    assert forall|h1: NodeHandle, i1: int, h2: NodeHandle, i2: int|
        #![trigger has_child(after, h1, i1), has_child(after, h2, i2)]
        has_child(after, h1, i1) && has_child(after, h2, i2) && child_at(after, h1, i1) == child_at(
            after,
            h2,
            i2,
        ) implies h1 == h2 && i1 == i2 by {
        if !(h1 == parent && i1 == last) {
            assert(has_child(tree, h1, i1));
        }
        if !(h2 == parent && i2 == last) {
            assert(has_child(tree, h2, i2));
        }
    }
}

/// Adding a node changes none that was there: every handle stays in use, a
/// file keeps its content, a directory keeps its parent and its children in
/// their order, and only `parent` gains one child, at the end.
pub proof fn lemma_grown_keeps_nodes(
    tree: Tree,
    parent: NodeHandle,
    handle: NodeHandle,
    name: Seq<char>,
    node: NodeView,
    h: NodeHandle,
)
    requires
        tree.contains_key(parent),
        tree[parent] is Directory,
        !tree.contains_key(handle),
        tree.contains_key(h),
    ensures
        grown(tree, parent, handle, name, node).contains_key(h),
        h != parent ==> grown(tree, parent, handle, name, node)[h] == tree[h],
        h == parent ==> grown(tree, parent, handle, name, node)[h] == (NodeView::Directory {
            entries: tree[h]->entries.push((handle, name)),
            parent: tree[h]->parent,
        }),
        grown(tree, parent, handle, name, node)[handle] == node,
{
}

/// What listing `directory` gives: `..` with the parent, `.` with the
/// directory itself, then the children in the order in which they are stored.
pub open spec fn listing_of(tree: Tree, directory: NodeHandle) -> Result<
    Seq<(Seq<char>, NodeHandle)>,
    Error,
> {
    if !tree.contains_key(directory) {
        Err(Error::InvalidHandle)
    } else {
        match tree[directory] {
            NodeView::File(_) => Err(Error::NotDirectory),
            NodeView::Directory { entries, parent } => Ok(
                seq![(seq!['.', '.'], parent), (seq!['.'], directory)] + Seq::new(
                    entries.len(),
                    |i: int| (entries[i].1, entries[i].0),
                ),
            ),
        }
    }
}

/// Whether `handle` is a file of the tree, or the error.
pub open spec fn file_check_of(tree: Tree, handle: NodeHandle) -> Result<(), Error> {
    if !tree.contains_key(handle) {
        Err(Error::InvalidHandle)
    } else if tree[handle] is Directory {
        Err(Error::NotFile)
    } else {
        Ok(())
    }
}

/// The bytes `[from, to)` of the file `handle`, for a destination of `room`
/// bytes. The handle is checked first, then the kind of the node, then the
/// range against the file's length, then the room.
pub open spec fn range_bytes_of(tree: Tree, handle: NodeHandle, from: usize, to: usize, room: nat) -> Result<
    Seq<u8>,
    Error,
> {
    if !tree.contains_key(handle) {
        Err(Error::InvalidHandle)
    } else {
        match tree[handle] {
            NodeView::Directory { .. } => Err(Error::NotFile),
            NodeView::File(content) => if from > to || to > content.len() {
                Err(Error::InvalidRange)
            } else if room < to - from {
                Err(Error::OutBufferError)
            } else {
                Ok(content.subrange(from as int, to as int))
            },
        }
    }
}

/// The tree that a new filesystem holds: the root with `file1` (the bytes 0
/// to 9) and the directory `inner`, which holds `file2` (a mebibyte of 2s).
pub open spec fn seed_tree() -> Tree {
    Map::<NodeHandle, NodeView>::empty().insert(
        0,
        NodeView::Directory { entries: seq![(1usize, "file1"@), (2usize, "inner"@)], parent: 0 },
    ).insert(1, NodeView::File(seq![0u8, 1u8, 2u8, 3u8, 4u8, 5u8, 6u8, 7u8, 8u8, 9u8])).insert(
        2,
        NodeView::Directory { entries: seq![(3usize, "file2"@)], parent: 0 },
    ).insert(3, NodeView::File(Seq::new(1048576, |i: int| 2u8)))
}

impl State {
    /// A store that holds the root directory and nothing else.
    pub fn new() -> (state: Self)
        ensures
            state.wf(),
            state@ == root_only(),
            state.node_cnt == 1,
    {
        let mut state = State { nodes: HashMap::new(), node_cnt: 0 };
        let root = MemFs::next_handle(&mut state);
        state.nodes.insert(root, Node::Directory(Directory::new(root)));
        proof {
            assert(state@ =~= root_only());
            lemma_root_only_is_tree();
        }
        state
    }

    /// Puts `node` into the store as the last child, called `name`, of the
    /// directory `parent`, under the next handle.
    fn attach(&mut self, parent: NodeHandle, name: String, node: Node) -> (r: Result<NodeHandle, Error>)
        requires
            old(self).wf(),
            old(self).node_cnt < usize::MAX,
            node@ is File || node@ == (NodeView::Directory { entries: Seq::empty(), parent }),
        ensures
            match attach_error(old(self)@, parent) {
                Some(e) => r == Err::<NodeHandle, Error>(e) && *final(self) == *old(self),
                None => {
                    &&& r == Ok::<NodeHandle, Error>(old(self).node_cnt)
                    &&& final(self).node_cnt == old(self).node_cnt + 1
                    &&& final(self)@ == grown(old(self)@, parent, old(self).node_cnt, name@, node@)
                    &&& final(self).wf()
                },
            },
    {
        match self.nodes.get(&parent) {
            None => {
                return Err(Error::InvalidHandle);
            },
            Some(found) => match found.as_directory() {
                Err(e) => {
                    return Err(e);
                },
                Ok(_) => {},
            },
        }
        let ghost before = self@;
        let ghost name_view = name@;
        let ghost node_view = node@;
        let handle = MemFs::next_handle(self);
        match self.nodes.remove(&parent) {
            Some(Node::Directory(dir)) => {
                let mut dir = dir;
                let ghost listed = dir@->entries;
                dir.entries.push((handle, name));
                assert(dir@->entries =~= listed.push((handle, name_view)));
                self.nodes.insert(parent, Node::Directory(dir));
                self.nodes.insert(handle, node);
                proof {
                    assert(self@ =~= grown(before, parent, handle, name_view, node_view));
                    lemma_grown_is_tree(before, parent, handle, name_view, node_view);
                }
                Ok(handle)
            },
            _ => {
                proof {
                    assert(false);
                }
                Err(Error::InvalidHandle)
            },
        }
    }

    /// Adds a file with the given content to the directory `parent`, as its
    /// last child, and returns the file's handle.
    pub fn add_file(&mut self, parent: NodeHandle, name: String, content: Vec<u8>) -> (r: Result<
        NodeHandle,
        Error,
    >)
        requires
            old(self).wf(),
            old(self).node_cnt < usize::MAX,
        ensures
            match attach_error(old(self)@, parent) {
                Some(e) => r == Err::<NodeHandle, Error>(e) && *final(self) == *old(self),
                None => {
                    &&& r == Ok::<NodeHandle, Error>(old(self).node_cnt)
                    &&& final(self).node_cnt == old(self).node_cnt + 1
                    &&& final(self)@ == grown(
                        old(self)@,
                        parent,
                        old(self).node_cnt,
                        name@,
                        NodeView::File(content@),
                    )
                    &&& final(self).wf()
                },
            },
    {
        self.attach(parent, name, Node::File(File(content)))
    }

    /// Adds an empty directory to the directory `parent`, as its last child,
    /// and returns the new directory's handle.
    pub fn add_directory(&mut self, parent: NodeHandle, name: String) -> (r: Result<NodeHandle, Error>)
        requires
            old(self).wf(),
            old(self).node_cnt < usize::MAX,
        ensures
            match attach_error(old(self)@, parent) {
                Some(e) => r == Err::<NodeHandle, Error>(e) && *final(self) == *old(self),
                None => {
                    &&& r == Ok::<NodeHandle, Error>(old(self).node_cnt)
                    &&& final(self).node_cnt == old(self).node_cnt + 1
                    &&& final(self)@ == grown(
                        old(self)@,
                        parent,
                        old(self).node_cnt,
                        name@,
                        NodeView::Directory { entries: Seq::empty(), parent },
                    )
                    &&& final(self).wf()
                },
            },
    {
        self.attach(parent, name, Node::Directory(Directory::new(parent)))
    }
}

/// What the lock admits: the one tree that the store was built with.
pub struct Frozen {
    pub tree: Ghost<Tree>,
}

impl RwLockPredicate<State> for Frozen {
    open spec fn inv(self, v: State) -> bool {
        v.wf() && v@ == self.tree@
    }
}

/// A filesystem over a store in memory. The store sits behind a
/// reader-writer lock, and every operation holds the lock shared while it
/// runs; the lock admits only the tree that the store was built with.
pub struct MemFs {
    state: Arc<RwLock<State, Frozen>>,
}

impl View for MemFs {
    type V = Tree;

    closed spec fn view(&self) -> Tree {
        self.state.pred().tree@
    }
}

/// `Arc::clone` of std: one more owner of the same allocation. The contract
/// says that the new pointer holds the very lock that the given one holds;
/// nothing is copied. Verus takes this on trust.
#[verifier::external_body]
fn share(state: &Arc<RwLock<State, Frozen>>) -> (other: Arc<RwLock<State, Frozen>>)
    ensures
        other == *state,
{
    Arc::clone(state)
}

impl Clone for MemFs {
    /// Another owner of the same store: both see the one tree.
    fn clone(&self) -> (other: Self)
        ensures
            other == *self,
            other@ == self@,
    {
        MemFs { state: share(&self.state) }
    }
}

impl MemFs {
    /// Hands out the next handle. No handle is handed out twice.
    pub fn next_handle(state: &mut State) -> (handle: NodeHandle)
        requires
            old(state).node_cnt < usize::MAX,
        ensures
            handle == old(state).node_cnt,
            final(state).node_cnt == old(state).node_cnt + 1,
            final(state).nodes == old(state).nodes,
    {
        let handle = state.node_cnt;
        state.node_cnt += 1;

        handle
    }

    /// A filesystem that serves the given store, which is never changed
    /// again.
    pub fn with_state(state: State) -> (fs: Self)
        requires
            state.wf(),
        ensures
            fs@ == state@,
            fs.wf(),
    {
        let ghost tree = state@;
        MemFs { state: Arc::new(RwLock::new(state, Ghost(Frozen { tree: Ghost(tree) }))) }
    }

    /// A filesystem that holds the seed tree.
    pub fn new() -> (fs: Self)
        ensures
            fs@ == seed_tree(),
            fs.wf(),
    {
        let digits: Vec<u8> = vec![0u8, 1u8, 2u8, 3u8, 4u8, 5u8, 6u8, 7u8, 8u8, 9u8];
        assert(digits@ =~= seq![0u8, 1u8, 2u8, 3u8, 4u8, 5u8, 6u8, 7u8, 8u8, 9u8]);

        let mut state = State::new();
        let root_handle: NodeHandle = 0;
        let _file1_handle = state.add_file(root_handle, "file1".to_owned(), digits);
        let inner_handle = state.add_directory(root_handle, "inner".to_owned()).unwrap();
        let twos: Vec<u8> = vec![2u8; 1024 * 1024];
        assert(twos@ =~= Seq::new(1048576, |i: int| 2u8)) by {
            assert forall|i: int| 0 <= i < twos@.len() implies twos@[i] == 2u8 by {
                assert(cloned(2u8, twos@[i]));
            }
        }
        let _file2_handle = state.add_file(inner_handle, "file2".to_owned(), twos);

        proof {
            let root_entries = seq![(1usize, "file1"@), (2usize, "inner"@)];
            let inner_entries = seq![(3usize, "file2"@)];
            assert(state@[0]->entries =~= root_entries);
            assert(state@[2]->entries =~= inner_entries);
            assert(state@ =~= seed_tree());
        }

        Self::with_state(state)
    }
}

impl FsRead for MemFs {
    type NodeHandle = NodeHandle;

    type FileCtx = FileCtx;

    type Error = Error;

    open spec fn wf(&self) -> bool {
        tree_wf(self@)
    }

    open spec fn root(&self) -> NodeHandle {
        0
    }

    open spec fn listing(&self, directory: NodeHandle) -> Result<Seq<(Seq<char>, NodeHandle)>, Error> {
        listing_of(self@, directory)
    }

    open spec fn file_check(&self, handle: NodeHandle) -> Result<(), Error> {
        file_check_of(self@, handle)
    }

    open spec fn range_bytes(&self, handle: NodeHandle, from: usize, to: usize, room: nat) -> Result<
        Seq<u8>,
        Error,
    > {
        range_bytes_of(self@, handle, from, to, room)
    }

    proof fn lemma_no_dangling_handle(&self, directory: NodeHandle, i: int) {
        lemma_listed_handles_resolve(self, directory, i);
    }

    proof fn lemma_read_checks_handle_first(&self, handle: NodeHandle, from: usize, to: usize, room: nat) {
    }

    fn init(&mut self)
        ensures
            *final(self) == *old(self),
    {
    }

    fn destroy(&mut self)
        ensures
            *final(self) == *old(self),
    {
    }

    fn dir_root(&self) -> (handle: NodeHandle) {
        0
    }

    fn dir_read(&self, directory: &NodeHandle, dir_data: &mut Vec<DirectoryEntry<Self>>) -> (r:
        Result<(), Error>) {
        let guard = self.state.acquire_read();
        let state = guard.borrow();
        let r = match state.nodes.get(directory) {
            None => Err(Error::InvalidHandle),
            Some(node) => match node.as_directory() {
                Err(e) => Err(e),
                Ok(dir) => {
                    proof {
                        reveal_strlit("..");
                        reveal_strlit(".");
                    }
                    let ghost want = listing_of(self@, *directory)->Ok_0;
                    dir_data.clear();
                    dir_data.push(DirectoryEntry { name: "..".to_owned(), handle: dir.parent });
                    dir_data.push(DirectoryEntry { name: ".".to_owned(), handle: *directory });
                    assert(".."@ =~= seq!['.', '.']);
                    assert("."@ =~= seq!['.']);
                    let mut i: usize = 0;
                    while i < dir.entries.len()
                        invariant
                            i <= dir.entries@.len(),
                            want.len() == dir.entries@.len() + 2,
                            forall|j: int|
                                0 <= j < dir.entries@.len() ==> #[trigger] want[j + 2] == (
                                    dir.entries@[j].1@,
                                    dir.entries@[j].0,
                                ),
                            dir_data@.len() == i + 2,
                            forall|j: int|
                                0 <= j < i + 2 ==> (#[trigger] dir_data@[j]).name@ == want[j].0
                                    && dir_data@[j].handle == want[j].1,
                        decreases dir.entries@.len() - i,
                    {
                        let entry = &dir.entries[i];
                        dir_data.push(DirectoryEntry { name: entry.1.clone(), handle: entry.0 });
                        i += 1;
                    }
                    Ok(())
                },
            },
        };
        guard.release_read();
        r
    }

    fn file_open(&self, handle: &NodeHandle) -> (r: Result<FileCtx, Error>) {
        let guard = self.state.acquire_read();
        let state = guard.borrow();
        let r = match state.nodes.get(handle) {
            None => Err(Error::InvalidHandle),
            Some(node) => match node.as_file() {
                Err(_) => Err(Error::NotFile),
                Ok(_file) => Ok(()),
            },
        };
        guard.release_read();
        r
    }

    fn file_read(&self, handle: &NodeHandle, _ctx: &FileCtx, range: Range<usize>, buf: &mut [u8]) -> (r:
        Result<usize, Error>) {
        let guard = self.state.acquire_read();
        let state = guard.borrow();
        let r = match state.nodes.get(handle) {
            None => Err(Error::InvalidHandle),
            Some(node) => match node.as_file() {
                Err(e) => Err(e),
                Ok(file) => {
                    if range.start > range.end || range.end > file.0.len() {
                        Err(Error::InvalidRange)
                    } else if buf.len() < range.end - range.start {
                        Err(Error::OutBufferError)
                    } else {
                        let count: usize = range.end - range.start;
                        let ghost before = buf@;
                        let mut i: usize = 0;
                        while i < count
                            invariant
                                i <= count,
                                count == range.end - range.start,
                                range.end <= file.0@.len(),
                                buf@.len() == before.len(),
                                count <= before.len(),
                                forall|j: int| 0 <= j < i ==> buf@[j] == file.0@[range.start + j],
                                forall|j: int| i <= j < before.len() ==> buf@[j] == before[j],
                            decreases count - i,
                        {
                            buf[i] = file.0[range.start + i];
                            i += 1;
                        }
                        assert(buf@ =~= file.0@.subrange(range.start as int, range.end as int)
                            + before.skip(count as int));
                        Ok(count)
                    }
                },
            },
        };
        guard.release_read();
        r
    }

    fn file_get_attr(&self, _file: &NodeHandle) -> (r: Result<FileAttr, Error>)
        ensures
            r is Ok,
    {
        Ok(FileAttr)
    }

    fn file_close(&self, file: &NodeHandle, _ctx: FileCtx) -> (r: Result<(), Error>) {
        let guard = self.state.acquire_read();
        let state = guard.borrow();
        let r = match state.nodes.get(file) {
            None => Err(Error::InvalidHandle),
            Some(node) => match node.as_file() {
                Err(e) => Err(e),
                Ok(_file) => Ok(()),
            },
        };
        guard.release_read();
        r
    }
}

/// No handle dangles: whatever a listing shows is in the store. If it is a
/// directory it can be listed in turn; if it is a file it can be opened, and
/// every range within its length can be read into a destination with room
/// for it.
pub proof fn lemma_listed_handles_resolve(fs: &MemFs, directory: NodeHandle, i: int)
    requires
        fs.wf(),
        fs.listing(directory) is Ok,
        0 <= i < fs.listing(directory)->Ok_0.len(),
    ensures
        ({
            let handle = fs.listing(directory)->Ok_0[i].1;
            &&& fs@.contains_key(handle)
            &&& fs@[handle] is Directory ==> fs.listing(handle) is Ok
            &&& fs@[handle] is File ==> fs.file_check(handle) is Ok
            &&& fs@[handle] is File ==> forall|from: usize, to: usize, room: nat|
                from <= to <= fs@[handle]->File_0.len() && to - from <= room ==> #[trigger] fs.range_bytes(
                    handle,
                    from,
                    to,
                    room,
                ) == Ok::<Seq<u8>, Error>(fs@[handle]->File_0.subrange(from as int, to as int))
        }),
{
    let tree = fs@;
    if i >= 2 {
        assert(has_child(tree, directory, i - 2));
        assert(child_at(tree, directory, i - 2) == fs.listing(directory)->Ok_0[i].1);
    }
}

/// The root lists itself twice, as `..` and as `.`, since it is its own
/// parent, and then its children in the order in which they are stored.
pub proof fn lemma_root_listing(fs: &MemFs)
    requires
        fs.wf(),
    ensures
        fs@.contains_key(fs.root()),
        fs@[fs.root()] is Directory,
        fs.listing(fs.root()) is Ok,
        ({
            let shown = fs.listing(fs.root())->Ok_0;
            let children = fs@[fs.root()]->entries;
            &&& shown.len() == children.len() + 2
            &&& shown[0] == (seq!['.', '.'], fs.root())
            &&& shown[1] == (seq!['.'], fs.root())
            &&& forall|i: int|
                0 <= i < children.len() ==> #[trigger] shown[i + 2] == (children[i].1, children[i].0)
        }),
{
}

} // verus!
