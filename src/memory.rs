//! The in-memory backend.
//!
//! The filesystem is modelled as a map from paths (their bytes) to nodes. A
//! well-formed tree holds the root as a directory, only valid paths, and for
//! every other path its parent, as a directory. Files are therefore leaves.
//!
//! Nodes are stored in an arena: a vector of entries, one per path, that owns
//! each file's bytes. Handles name a file by its path and are checked against
//! the tree whenever they are used.

use vstd::prelude::*;
use vstd::slice::slice_to_vec;
use vstd::string::StringSliceAdditionalSpecFns;
use crate::path::{valid_path, parent_of, is_valid_bytes, parent_bytes};

verus! {

/// The failures of filesystem operations.
#[derive(Debug, Clone, Copy, PartialEq, Eq, Structural)]
pub enum FsError {
    /// The target is absent.
    NotFound,
    /// The target is present where its absence was required.
    AlreadyExists,
    /// A file was required where a directory stands.
    IsADirectory,
    /// A directory was required where a file stands.
    NotADirectory,
    /// The path is malformed.
    InvalidPath,
}

/// What a path denotes in the model.
pub enum NodeView {
    File(Seq<u8>),
    Dir,
}

/// The model of a filesystem: each present path and its node.
pub type Tree = Map<Seq<u8>, NodeView>;

/// The tree of a fresh filesystem: the root directory alone.
pub open spec fn root_tree() -> Tree {
    map![Seq::empty() => NodeView::Dir]
}

pub open spec fn is_file(m: Tree, p: Seq<u8>) -> bool {
    m.contains_key(p) && m[p] is File
}

pub open spec fn is_dir(m: Tree, p: Seq<u8>) -> bool {
    m.contains_key(p) && m[p] is Dir
}

/// The bytes of the file at `p`.
pub open spec fn content_of(m: Tree, p: Seq<u8>) -> Seq<u8> {
    m[p]->File_0
}

pub open spec fn tree_wf(m: Tree) -> bool {
    &&& is_dir(m, Seq::empty())
    &&& forall|k: Seq<u8>| #[trigger] m.contains_key(k) ==> valid_path(k)
    &&& forall|k: Seq<u8>| #[trigger] m.contains_key(k) && k.len() > 0 ==> is_dir(m, parent_of(k))
}

/// Why a node cannot be created at `p`, if it can't.
pub open spec fn create_error(m: Tree, p: Seq<u8>) -> Option<FsError> {
    if !valid_path(p) {
        Some(FsError::InvalidPath)
    } else if m.contains_key(p) {
        Some(FsError::AlreadyExists)
    } else if !m.contains_key(parent_of(p)) {
        Some(FsError::NotFound)
    } else if !is_dir(m, parent_of(p)) {
        Some(FsError::NotADirectory)
    } else {
        None
    }
}

/// Why the file at `p` cannot be opened or removed, if it can't. A
/// malformed path denotes no node, so it is not found.
pub open spec fn file_error(m: Tree, p: Seq<u8>) -> Option<FsError> {
    if !m.contains_key(p) {
        Some(FsError::NotFound)
    } else if is_dir(m, p) {
        Some(FsError::IsADirectory)
    } else {
        None
    }
}

/// Why the file at `src` cannot be copied to `dst`, if it can't.
pub open spec fn copy_error(m: Tree, src: Seq<u8>, dst: Seq<u8>) -> Option<FsError> {
    if !is_file(m, src) {
        Some(FsError::NotFound)
    } else {
        create_error(m, dst)
    }
}

/// The tree after a copy of `src` to `dst`.
pub open spec fn copied(m: Tree, src: Seq<u8>, dst: Seq<u8>) -> Tree {
    m.insert(dst, m[src])
}

/// The tree after a move of `src` to `dst`.
pub open spec fn moved(m: Tree, src: Seq<u8>, dst: Seq<u8>) -> Tree {
    copied(m, src, dst).remove(src)
}

enum Node {
    File(Vec<u8>),
    Dir,
}

spec fn node_view(n: Node) -> NodeView {
    match n {
        Node::File(c) => NodeView::File(c@),
        Node::Dir => NodeView::Dir,
    }
}

struct Entry {
    path: Vec<u8>,
    node: Node,
}

/// A handle on a file: the file's path, checked against the tree on each use.
pub struct FileHandle {
    path: Vec<u8>,
}

impl View for FileHandle {
    type V = Seq<u8>;

    closed spec fn view(&self) -> Seq<u8> {
        self.path@
    }
}

impl FileHandle {
    /// The bytes of the path that the handle names.
    pub fn path(&self) -> (r: &[u8])
        ensures
            r@ == self@,
    {
        self.path.as_slice()
    }
}

/// A filesystem held in memory.
pub struct MemoryFs {
    entries: Vec<Entry>,
    tree: Ghost<Tree>,
}

impl View for MemoryFs {
    type V = Tree;

    closed spec fn view(&self) -> Tree {
        self.tree@
    }
}

pub(crate) fn same_bytes(a: &[u8], b: &[u8]) -> (r: bool)
    ensures
        r == (a@ == b@),
{
    if a.len() != b.len() {
        return false;
    }
    let mut i: usize = 0;
    while i < a.len()
        invariant
            i <= a@.len() == b@.len(),
            forall|j: int| 0 <= j < i ==> a@[j] == b@[j],
        decreases a@.len() - i,
    {
        if a[i] != b[i] {
            return false;
        }
        i = i + 1;
    }
    assert(a@ =~= b@);
    true
}

impl MemoryFs {
    /// The arena and the tree agree, and the tree is well formed.
    pub closed spec fn wf(&self) -> bool {
        &&& tree_wf(self.tree@)
        &&& forall|i: int, j: int|
            0 <= i < j < self.entries@.len() ==> self.entries@[i].path@
                != self.entries@[j].path@
        &&& forall|i: int|
            0 <= i < self.entries@.len() ==> #[trigger] self.tree@.contains_key(
                self.entries@[i].path@,
            ) && self.tree@[self.entries@[i].path@] == node_view(self.entries@[i].node)
        &&& forall|k: Seq<u8>|
            #[trigger] self.tree@.contains_key(k) ==> exists|i: int|
                0 <= i < self.entries@.len() && #[trigger] self.entries@[i].path@ == k
    }

    /// A well-formed filesystem has a well-formed tree.
    pub proof fn lemma_tree_wf(&self)
        requires
            self.wf(),
        ensures
            tree_wf(self@),
    {
    }

    /// An empty filesystem: the root directory alone.
    pub fn new() -> (r: MemoryFs)
        ensures
            r.wf(),
            r@ == root_tree(),
    {
        let mut entries: Vec<Entry> = Vec::new();
        entries.push(Entry { path: Vec::new(), node: Node::Dir });
        let r = MemoryFs { entries, tree: Ghost(root_tree()) };
        proof {
            assert(r.entries@[0].path@ =~= Seq::<u8>::empty());
            assert(valid_path(Seq::<u8>::empty()));
        }
        r
    }

    /// The index of the entry at `p`.
    fn find(&self, p: &[u8]) -> (r: Option<usize>)
        requires
            self.wf(),
        ensures
            match r {
                Some(i) => i < self.entries@.len() && self.entries@[i as int].path@ == p@
                    && self@.contains_key(p@),
                None => !self@.contains_key(p@),
            },
    {
        let mut i: usize = 0;
        while i < self.entries.len()
            invariant
                self.wf(),
                i <= self.entries@.len(),
                forall|j: int| 0 <= j < i ==> self.entries@[j].path@ != p@,
            decreases self.entries@.len() - i,
        {
            if same_bytes(self.entries[i].path.as_slice(), p) {
                return Some(i);
            }
            i = i + 1;
        }
        None
    }
    /// Attaches a new node at `p`, under an existing directory.
    fn insert_new(&mut self, p: &[u8], node: Node)
        requires
            old(self).wf(),
            valid_path(p@),
            p@.len() > 0,
            !old(self)@.contains_key(p@),
            is_dir(old(self)@, parent_of(p@)),
        ensures
            final(self).wf(),
            final(self)@ == old(self)@.insert(p@, node_view(node)),
    {
        let ghost old_tree = self.tree@;
        let ghost nv = node_view(node);
        let ghost old_entries = self.entries@;
        self.entries.push(Entry { path: slice_to_vec(p), node });
        self.tree = Ghost(old_tree.insert(p@, nv));
        proof {
            let n = old_entries.len() as int;
            assert(self.entries@[n].path@ == p@);
            assert forall|i: int, j: int|
                0 <= i < j < self.entries@.len() implies self.entries@[i].path@
                != self.entries@[j].path@ by {
                if j == n {
                    assert(old_tree.contains_key(old_entries[i].path@));
                }
            }
            assert forall|i: int| 0 <= i < self.entries@.len() implies #[trigger] self.tree@.contains_key(
                self.entries@[i].path@,
            ) && self.tree@[self.entries@[i].path@] == node_view(self.entries@[i].node) by {
                if i < n {
                    assert(old_tree.contains_key(old_entries[i].path@));
                    assert(self.entries@[i] == old_entries[i]);
                }
            }
            assert forall|k: Seq<u8>| #[trigger] self.tree@.contains_key(k) implies exists|i: int|
                0 <= i < self.entries@.len() && #[trigger] self.entries@[i].path@ == k by {
                if k != p@ {
                    assert(old_tree.contains_key(k));
                    let i = choose|i: int| 0 <= i < old_entries.len() && #[trigger] old_entries[i].path@ == k;
                    assert(self.entries@[i] == old_entries[i]);
                }
            }
            assert forall|k: Seq<u8>| #[trigger] self.tree@.contains_key(k) && k.len() > 0
                implies is_dir(self.tree@, parent_of(k)) by {
                if k != p@ {
                    assert(old_tree.contains_key(k));
                }
            }
        }
    }

    /// Detaches the file of entry `i`.
    fn remove_file_at(&mut self, i: usize)
        requires
            old(self).wf(),
            i < old(self).entries@.len(),
            old(self).entries@[i as int].node is File,
        ensures
            final(self).wf(),
            final(self)@ == old(self)@.remove(old(self).entries@[i as int].path@),
    {
        let ghost old_tree = self.tree@;
        let ghost old_entries = self.entries@;
        let ghost key = old_entries[i as int].path@;
        let _ = self.entries.remove(i);
        self.tree = Ghost(old_tree.remove(key));
        proof {
            assert(old_tree.contains_key(key));
            assert forall|a: int| 0 <= a < self.entries@.len() implies #[trigger] self.tree@.contains_key(
                self.entries@[a].path@,
            ) && self.tree@[self.entries@[a].path@] == node_view(self.entries@[a].node) by {
                let b = if a < i { a } else { a + 1 };
                assert(self.entries@[a] == old_entries[b]);
                assert(old_tree.contains_key(old_entries[b].path@));
            }
            assert forall|a: int, b: int|
                0 <= a < b < self.entries@.len() implies self.entries@[a].path@
                != self.entries@[b].path@ by {
                let a2 = if a < i { a } else { a + 1 };
                let b2 = if b < i { b } else { b + 1 };
                assert(self.entries@[a] == old_entries[a2]);
                assert(self.entries@[b] == old_entries[b2]);
            }
            assert forall|k: Seq<u8>| #[trigger] self.tree@.contains_key(k) implies exists|a: int|
                0 <= a < self.entries@.len() && #[trigger] self.entries@[a].path@ == k by {
                assert(old_tree.contains_key(k));
                let b = choose|b: int| 0 <= b < old_entries.len() && #[trigger] old_entries[b].path@ == k;
                assert(b != i);
                let a = if b < i { b } else { b - 1 };
                assert(self.entries@[a] == old_entries[b]);
            }
            assert forall|k: Seq<u8>| #[trigger] self.tree@.contains_key(k) && k.len() > 0
                implies is_dir(self.tree@, parent_of(k)) by {
                assert(old_tree.contains_key(k));
                assert(is_dir(old_tree, parent_of(k)));
            }
            assert(is_dir(old_tree, Seq::empty()));
        }
    }

    /// Replaces the bytes of the file of entry `i`.
    fn set_content_at(&mut self, i: usize, data: Vec<u8>)
        requires
            old(self).wf(),
            i < old(self).entries@.len(),
            old(self).entries@[i as int].node is File,
        ensures
            final(self).wf(),
            final(self)@ == old(self)@.insert(
                old(self).entries@[i as int].path@,
                NodeView::File(data@),
            ),
    {
        let ghost old_tree = self.tree@;
        let ghost old_entries = self.entries@;
        let ghost key = old_entries[i as int].path@;
        let path = slice_to_vec(self.entries[i].path.as_slice());
        let ghost nv = NodeView::File(data@);
        self.entries.set(i, Entry { path, node: Node::File(data) });
        self.tree = Ghost(old_tree.insert(key, nv));
        proof {
            assert(old_tree.contains_key(key));
            assert forall|a: int| 0 <= a < self.entries@.len() implies #[trigger] self.tree@.contains_key(
                self.entries@[a].path@,
            ) && self.tree@[self.entries@[a].path@] == node_view(self.entries@[a].node) by {
                if a != i {
                    assert(self.entries@[a] == old_entries[a]);
                    assert(old_tree.contains_key(old_entries[a].path@));
                }
            }
            assert forall|a: int, b: int|
                0 <= a < b < self.entries@.len() implies self.entries@[a].path@
                != self.entries@[b].path@ by {
                assert(self.entries@[a].path@ == old_entries[a].path@);
                assert(self.entries@[b].path@ == old_entries[b].path@);
            }
            assert forall|k: Seq<u8>| #[trigger] self.tree@.contains_key(k) implies exists|a: int|
                0 <= a < self.entries@.len() && #[trigger] self.entries@[a].path@ == k by {
                assert(old_tree.contains_key(k));
                let b = choose|b: int| 0 <= b < old_entries.len() && #[trigger] old_entries[b].path@ == k;
                assert(self.entries@[b].path@ == old_entries[b].path@);
            }
            assert forall|k: Seq<u8>| #[trigger] self.tree@.contains_key(k) && k.len() > 0
                implies is_dir(self.tree@, parent_of(k)) by {
                assert(old_tree.contains_key(k));
                assert(is_dir(old_tree, parent_of(k)));
            }
            assert(is_dir(old_tree, Seq::empty()));
        }
    }
    /// Attaches `node` at `p` if a node may be created there.
    fn create_node(&mut self, p: &[u8], node: Node) -> (r: Result<(), FsError>)
        requires
            old(self).wf(),
        ensures
            final(self).wf(),
            match create_error(old(self)@, p@) {
                Some(e) => r == Err::<(), FsError>(e) && final(self)@ == old(self)@,
                None => r is Ok && final(self)@ == old(self)@.insert(p@, node_view(node)),
            },
    {
        if !is_valid_bytes(p) {
            return Err(FsError::InvalidPath);
        }
        if self.find(p).is_some() {
            return Err(FsError::AlreadyExists);
        }
        proof {
            if p@.len() == 0 {
                assert(p@ =~= Seq::<u8>::empty());
            }
        }
        let parent = parent_bytes(p);
        match self.find(parent) {
            None => Err(FsError::NotFound),
            Some(j) => match &self.entries[j].node {
                Node::Dir => {
                    self.insert_new(p, node);
                    Ok(())
                },
                Node::File(_) => Err(FsError::NotADirectory),
            },
        }
    }

    /// The index of the entry of the file at `p`.
    fn locate_file(&self, p: &[u8]) -> (r: Result<usize, FsError>)
        requires
            self.wf(),
        ensures
            match file_error(self@, p@) {
                Some(e) => r == Err::<usize, FsError>(e),
                None => r is Ok && r->Ok_0 < self.entries@.len() && self.entries@[r->Ok_0 as int].path@
                    == p@ && self.entries@[r->Ok_0 as int].node is File,
            },
    {
        match self.find(p) {
            None => Err(FsError::NotFound),
            Some(i) => match &self.entries[i].node {
                Node::Dir => Err(FsError::IsADirectory),
                Node::File(_) => Ok(i),
            },
        }
    }





    /// Copies the bytes of the file at `src` into a new file at `dst`.
    fn copy_bytes(&mut self, src: &[u8], dst: &[u8]) -> (r: Result<(), FsError>)
        requires
            old(self).wf(),
        ensures
            final(self).wf(),
            match copy_error(old(self)@, src@, dst@) {
                Some(e) => r == Err::<(), FsError>(e) && final(self)@ == old(self)@,
                None => r is Ok && final(self)@ == copied(old(self)@, src@, dst@),
            },
    {
        let i = match self.locate_file(src) {
            Ok(i) => i,
            Err(_) => return Err(FsError::NotFound),
        };
        let content = match &self.entries[i].node {
            Node::File(c) => slice_to_vec(c.as_slice()),
            Node::Dir => return Err(FsError::NotFound),
        };
        proof {
            assert(self@.contains_key(self.entries@[i as int].path@));
        }
        self.create_node(dst, Node::File(content))
    }

}

/// The operations that every backend offers, with the behaviour that each
/// must have, stated over the backend's tree.
pub trait FileSystem: Sized {
    /// The tree that the backend holds.
    spec fn tree(&self) -> Tree;

    /// The backend's own well-formedness.
    spec fn inv(&self) -> bool;

    /// Whether a file or a directory stands at `p`. Never fails; a malformed
    /// path denotes nothing, and the empty path denotes the root.
    fn path_exists(&self, p: &str) -> (r: Result<bool, FsError>)
        requires
            self.inv(),
        ensures
            r == Ok::<bool, FsError>(self.tree().contains_key(p.spec_bytes())),
    ;

    /// Creates an empty file at `p` and returns a handle on it.
    fn create_file(&mut self, p: &str) -> (r: Result<FileHandle, FsError>)
        requires
            old(self).inv(),
        ensures
            final(self).inv(),
            match create_error(old(self).tree(), p.spec_bytes()) {
                Some(e) => r is Err && r->Err_0 == e && final(self).tree() == old(self).tree(),
                None => r is Ok && r->Ok_0@ == p.spec_bytes() && final(self).tree() == old(self).tree().insert(
                    p.spec_bytes(),
                    NodeView::File(Seq::empty()),
                ),
            },
    ;

    /// Creates an empty directory at `p`.
    fn create_dir(&mut self, p: &str) -> (r: Result<(), FsError>)
        requires
            old(self).inv(),
        ensures
            final(self).inv(),
            match create_error(old(self).tree(), p.spec_bytes()) {
                Some(e) => r == Err::<(), FsError>(e) && final(self).tree() == old(self).tree(),
                None => r is Ok && final(self).tree() == old(self).tree().insert(p.spec_bytes(), NodeView::Dir),
            },
    ;

    /// Opens the file at `p`.
    fn open_file(&self, p: &str) -> (r: Result<FileHandle, FsError>)
        requires
            self.inv(),
        ensures
            match file_error(self.tree(), p.spec_bytes()) {
                Some(e) => r is Err && r->Err_0 == e,
                None => r is Ok && r->Ok_0@ == p.spec_bytes(),
            },
    ;

    /// The bytes of the file that `h` names.
    fn read(&self, h: &FileHandle) -> (r: Result<Vec<u8>, FsError>)
        requires
            self.inv(),
        ensures
            match file_error(self.tree(), h@) {
                Some(e) => r is Err && r->Err_0 == e,
                None => r is Ok && r->Ok_0@ == content_of(self.tree(), h@),
            },
    ;

    /// Replaces the bytes of the file that `h` names with `data`.
    fn write(&mut self, h: &FileHandle, data: &[u8]) -> (r: Result<(), FsError>)
        requires
            old(self).inv(),
        ensures
            final(self).inv(),
            match file_error(old(self).tree(), h@) {
                Some(e) => r == Err::<(), FsError>(e) && final(self).tree() == old(self).tree(),
                None => r is Ok && final(self).tree() == old(self).tree().insert(h@, NodeView::File(data@)),
            },
    ;

    /// Removes the file at `p`.
    fn remove_file(&mut self, p: &str) -> (r: Result<(), FsError>)
        requires
            old(self).inv(),
        ensures
            final(self).inv(),
            match file_error(old(self).tree(), p.spec_bytes()) {
                Some(e) => r == Err::<(), FsError>(e) && final(self).tree() == old(self).tree(),
                None => r is Ok && final(self).tree() == old(self).tree().remove(p.spec_bytes()),
            },
    ;

    /// Copies the file at `src` to a new file at `dst`. The copy owns its
    /// own bytes: later writes to either file leave the other unchanged.
    fn copy_file(&mut self, src: &str, dst: &str) -> (r: Result<(), FsError>)
        requires
            old(self).inv(),
        ensures
            final(self).inv(),
            match copy_error(old(self).tree(), src.spec_bytes(), dst.spec_bytes()) {
                Some(e) => r == Err::<(), FsError>(e) && final(self).tree() == old(self).tree(),
                None => r is Ok && final(self).tree() == copied(
                    old(self).tree(),
                    src.spec_bytes(),
                    dst.spec_bytes(),
                ),
            },
    ;

    /// Moves the file at `src` to `dst`: a copy, then the removal of `src`.
    /// Once the copy has succeeded the removal cannot fail, so a move either
    /// happens whole or leaves the tree unchanged.
    fn move_file(&mut self, src: &str, dst: &str) -> (r: Result<(), FsError>)
        requires
            old(self).inv(),
        ensures
            final(self).inv(),
            match copy_error(old(self).tree(), src.spec_bytes(), dst.spec_bytes()) {
                Some(e) => r == Err::<(), FsError>(e) && final(self).tree() == old(self).tree(),
                None => r is Ok && final(self).tree() == moved(
                    old(self).tree(),
                    src.spec_bytes(),
                    dst.spec_bytes(),
                ),
            },
    ;
}

impl FileSystem for MemoryFs {
    open spec fn tree(&self) -> Tree {
        self@
    }

    open spec fn inv(&self) -> bool {
        self.wf()
    }

    fn path_exists(&self, p: &str) -> (r: Result<bool, FsError>) {
        Ok(self.find(p.as_bytes()).is_some())
    }

    fn create_file(&mut self, p: &str) -> (r: Result<FileHandle, FsError>) {
        let b = p.as_bytes();
        let content: Vec<u8> = Vec::new();
        assert(content@ =~= Seq::<u8>::empty());
        match self.create_node(b, Node::File(content)) {
            Ok(()) => Ok(FileHandle { path: slice_to_vec(b) }),
            Err(e) => Err(e),
        }
    }

    fn create_dir(&mut self, p: &str) -> (r: Result<(), FsError>) {
        self.create_node(p.as_bytes(), Node::Dir)
    }

    fn open_file(&self, p: &str) -> (r: Result<FileHandle, FsError>) {
        let b = p.as_bytes();
        match self.locate_file(b) {
            Ok(_) => Ok(FileHandle { path: slice_to_vec(b) }),
            Err(e) => Err(e),
        }
    }

    fn read(&self, h: &FileHandle) -> (r: Result<Vec<u8>, FsError>) {
        match self.locate_file(h.path.as_slice()) {
            Ok(i) => match &self.entries[i].node {
                Node::File(c) => Ok(slice_to_vec(c.as_slice())),
                Node::Dir => Err(FsError::IsADirectory),
            },
            Err(e) => Err(e),
        }
    }

    fn write(&mut self, h: &FileHandle, data: &[u8]) -> (r: Result<(), FsError>) {
        match self.locate_file(h.path.as_slice()) {
            Ok(i) => {
                self.set_content_at(i, slice_to_vec(data));
                Ok(())
            },
            Err(e) => Err(e),
        }
    }

    fn remove_file(&mut self, p: &str) -> (r: Result<(), FsError>) {
        match self.locate_file(p.as_bytes()) {
            Ok(i) => {
                self.remove_file_at(i);
                Ok(())
            },
            Err(e) => Err(e),
        }
    }

    fn copy_file(&mut self, src: &str, dst: &str) -> (r: Result<(), FsError>) {
        self.copy_bytes(src.as_bytes(), dst.as_bytes())
    }

    fn move_file(&mut self, src: &str, dst: &str) -> (r: Result<(), FsError>) {
        let s = src.as_bytes();
        match self.copy_bytes(s, dst.as_bytes()) {
            Err(e) => Err(e),
            Ok(()) => match self.locate_file(s) {
                Ok(i) => {
                    self.remove_file_at(i);
                    Ok(())
                },
                Err(e) => Err(e),
            },
        }
    }
}

} // verus!
