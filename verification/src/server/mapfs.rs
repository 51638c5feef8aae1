//! The inode engine: an in-memory tree of directories and files, addressed by
//! inode numbers.
//!
//! Colliding names: a name is bound at most once in a directory. Binding a
//! name that the directory already holds replaces the earlier binding; the node
//! that was bound before keeps its inode number but can no longer be reached by
//! name.

use std::collections::BTreeMap;
use std::time::SystemTime;
use vstd::prelude::*;
use crate::clock::now;
use crate::name_table::NameTable;
use crate::names::{is_sanitized, sanitize_name, sanitized, texts};
use crate::server::entry::{FSEntry, Kind, Node};

verus! {

/// The inode number of the root directory.
pub const ROOT: u64 = 1;

/// The tree as the contracts see it.
pub struct Tree {
    /// The inode table: each node under its inode number.
    pub nodes: Map<u64, Node>,
    /// The name index: the inode number bound to each pair of a parent
    /// directory and a child's name.
    pub names: Map<(u64, Seq<char>), u64>,
    /// The handle table: the handle given to each opened inode.
    pub handles: Map<u64, u64>,
    /// The number of this generation of the tree.
    pub generation: u64,
    /// The permission bits of every node.
    pub permissions: u16,
    /// The user that owns every node.
    pub uid: u32,
    /// The group that owns every node.
    pub gid: u32,
    /// The allow-list: the prefixes of the names of the folders to show.
    pub folders: Seq<Seq<char>>,
}

/// The name index that a table of nodes calls for: one binding for each child
/// of each directory.
pub open spec fn index_of(nodes: Map<u64, Node>) -> Map<(u64, Seq<char>), u64> {
    Map::new(
        |k: (u64, Seq<char>)|
            nodes.contains_key(k.0) && nodes[k.0] is Dir && nodes[k.0]->children.contains_key(k.1),
        |k: (u64, Seq<char>)| nodes[k.0]->children[k.1],
    )
}

impl Tree {
    /// Whether `ino` is the inode number of a directory.
    #[verifier::inline]
    pub open spec fn is_dir(self, ino: u64) -> bool {
        self.nodes.contains_key(ino) && self.nodes[ino] is Dir
    }

    /// The children of the directory `ino`, by name.
    #[verifier::inline]
    pub open spec fn children(self, ino: u64) -> Map<Seq<char>, u64> {
        self.nodes[ino]->children
    }

    /// The inode number that the next node gets: one more than the greatest in
    /// use.
    pub open spec fn next_inode(self) -> nat {
        self.nodes.len() + 1
    }

    /// The handle that the next inode to be opened gets: one more than the
    /// greatest in use.
    pub open spec fn next_handle(self) -> nat {
        self.handles.len() + 1
    }

    /// The inode numbers in use are those from 1 to their count, without a gap.
    pub open spec fn numbered(self) -> bool {
        &&& self.nodes.dom().finite()
        &&& forall|i: u64| #[trigger] self.nodes.contains_key(i) <==> 1 <= i <= self.nodes.len()
    }

    /// Every child of a directory is a node of the tree that was made after
    /// the directory, under a name without prohibited characters.
    pub open spec fn children_resolve(self) -> bool {
        forall|p: u64, n: Seq<char>|
            self.is_dir(p) && #[trigger] self.children(p).contains_key(n) ==> {
                &&& self.nodes.contains_key(self.children(p)[n])
                &&& p < self.children(p)[n]
                &&& is_sanitized(n)
            }
    }

    /// The handles in use lie between 1 and their count, and no two inodes
    /// share one.
    pub open spec fn handles_numbered(self) -> bool {
        &&& self.handles.dom().finite()
        &&& forall|i: u64| #[trigger]
            self.handles.contains_key(i) ==> 1 <= self.handles[i] <= self.handles.len()
        &&& forall|i: u64, j: u64|
            self.handles.contains_key(i) && self.handles.contains_key(j) && #[trigger] self.handles[i]
                == #[trigger] self.handles[j] ==> i == j
    }

    /// The invariant of the tree.
    pub open spec fn wf(self) -> bool {
        &&& self.numbered()
        &&& self.is_dir(ROOT)
        &&& self.children_resolve()
        &&& self.names == index_of(self.nodes)
        &&& self.handles_numbered()
    }

    /// The first generation of a tree: the root directory alone.
    pub open spec fn fresh(
        uid: u32,
        gid: u32,
        permissions: u16,
        folders: Seq<Seq<char>>,
        ctime: SystemTime,
        mtime: SystemTime,
    ) -> Tree {
        Tree {
            nodes: Map::empty().insert(ROOT, Node::empty_dir(ctime, mtime)),
            names: Map::empty(),
            handles: Map::empty(),
            generation: 1,
            permissions,
            uid,
            gid,
            folders,
        }
    }

    /// The tree with one more node, under the next inode number. Where
    /// `parent` is a directory, the node becomes its child under `name`, in
    /// the directory and in the name index alike; where it is not, the node
    /// is in the inode table only.
    pub open spec fn add(self, parent: u64, name: Seq<char>, node: Node) -> Tree {
        let ino = self.next_inode() as u64;
        if self.is_dir(parent) {
            let dir = Node::Dir {
                children: self.children(parent).insert(name, ino),
                ctime: self.nodes[parent].ctime(),
                mtime: self.nodes[parent].mtime(),
            };
            Tree {
                nodes: self.nodes.insert(parent, dir).insert(ino, node),
                names: self.names.insert((parent, name), ino),
                ..self
            }
        } else {
            Tree { nodes: self.nodes.insert(ino, node), ..self }
        }
    }

    /// The tree after a directory was added under the sanitized `name`.
    pub open spec fn add_dir(
        self,
        parent: u64,
        name: Seq<char>,
        ctime: SystemTime,
        mtime: SystemTime,
    ) -> Tree {
        self.add(parent, sanitized(name), Node::empty_dir(ctime, mtime))
    }

    /// The tree after a file was added under the sanitized `name`.
    pub open spec fn add_file(
        self,
        parent: u64,
        name: Seq<char>,
        content: Seq<char>,
        ctime: SystemTime,
        mtime: SystemTime,
    ) -> Tree {
        self.add(parent, sanitized(name), Node::File { content, ctime, mtime })
    }

    /// The next generation of the tree, before anything is put into it: the
    /// root directory alone, without children but with its time stamps, and
    /// neither names nor handles.
    pub open spec fn clear(self) -> Tree {
        Tree {
            nodes: Map::empty().insert(
                ROOT,
                Node::empty_dir(self.nodes[ROOT].ctime(), self.nodes[ROOT].mtime()),
            ),
            names: Map::empty(),
            handles: Map::empty(),
            generation: (self.generation + 1) as u64,
            ..self
        }
    }

    /// The tree after `ino` was opened: it keeps the handle it has, or gets
    /// the next one.
    pub open spec fn register_fh(self, ino: u64) -> Tree {
        if self.handles.contains_key(ino) {
            self
        } else {
            Tree { handles: self.handles.insert(ino, self.next_handle() as u64), ..self }
        }
    }
}

/// Adding a node keeps the invariant of the tree.
pub proof fn lemma_add_wf(tree: Tree, parent: u64, name: Seq<char>, node: Node)
    requires
        tree.wf(),
        tree.next_inode() <= u64::MAX,
        is_sanitized(name),
        node is Dir ==> node->children == Map::<Seq<char>, u64>::empty(),
    ensures
        tree.add(parent, name, node).wf(),
        tree.add(parent, name, node).nodes.len() == tree.nodes.len() + 1,
{
    let ino = tree.next_inode() as u64;
    let out = tree.add(parent, name, node);
    assert(!tree.nodes.contains_key(ino));
    if tree.is_dir(parent) {
        assert(out.nodes.dom() =~= tree.nodes.dom().insert(ino));
        assert forall|p: u64, n: Seq<char>|
            out.is_dir(p) && #[trigger] out.children(p).contains_key(n) implies {
            &&& out.nodes.contains_key(out.children(p)[n])
            &&& p < out.children(p)[n]
            &&& is_sanitized(n)
        } by {
            if p == parent && n == name {
            } else if p == parent {
                assert(tree.children(p).contains_key(n));
            } else if p != ino {
                assert(tree.children(p).contains_key(n));
            }
        }
        assert(out.names =~= index_of(out.nodes)) by {
            assert forall|k: (u64, Seq<char>)| #[trigger]
                out.names.contains_key(k) == index_of(out.nodes).contains_key(k) by {
                if k != (parent, name) {
                    assert(tree.names.contains_key(k) == index_of(tree.nodes).contains_key(k));
                }
            }
            assert forall|k: (u64, Seq<char>)| #[trigger] out.names.contains_key(k) implies out.names[k]
                == index_of(out.nodes)[k] by {
                if k != (parent, name) {
                    assert(tree.names.contains_key(k));
                    assert(tree.names[k] == index_of(tree.nodes)[k]);
                }
            }
        }
    } else {
        assert(out.nodes.dom() =~= tree.nodes.dom().insert(ino));
        assert forall|p: u64, n: Seq<char>|
            out.is_dir(p) && #[trigger] out.children(p).contains_key(n) implies {
            &&& out.nodes.contains_key(out.children(p)[n])
            &&& p < out.children(p)[n]
            &&& is_sanitized(n)
        } by {
            if p != ino {
                assert(tree.children(p).contains_key(n));
            }
        }
        assert(out.names =~= index_of(out.nodes)) by {
            assert forall|k: (u64, Seq<char>)| #[trigger]
                out.names.contains_key(k) == index_of(out.nodes).contains_key(k) by {
                assert(tree.names.contains_key(k) == index_of(tree.nodes).contains_key(k));
            }
            assert forall|k: (u64, Seq<char>)| #[trigger] out.names.contains_key(k) implies out.names[k]
                == index_of(out.nodes)[k] by {
                assert(tree.names[k] == index_of(tree.nodes)[k]);
            }
        }
    }
}

/// The first generation of a tree keeps the invariant.
pub proof fn lemma_fresh_wf(
    uid: u32,
    gid: u32,
    permissions: u16,
    folders: Seq<Seq<char>>,
    ctime: SystemTime,
    mtime: SystemTime,
)
    ensures
        Tree::fresh(uid, gid, permissions, folders, ctime, mtime).wf(),
        Tree::fresh(uid, gid, permissions, folders, ctime, mtime).nodes.len() == 1,
{
    let out = Tree::fresh(uid, gid, permissions, folders, ctime, mtime);
    assert(out.nodes.dom() =~= Set::<u64>::empty().insert(ROOT));
    assert(out.names =~= index_of(out.nodes));
}

/// Clearing gives a tree that keeps the invariant and holds the root alone.
pub proof fn lemma_clear_wf(tree: Tree)
    requires
        tree.wf(),
    ensures
        tree.clear().wf(),
        tree.clear().nodes.len() == 1,
{
    let out = tree.clear();
    assert(out.nodes.dom() =~= Set::<u64>::empty().insert(ROOT));
    assert(out.names =~= index_of(out.nodes));
}

/// Opening an inode keeps the invariant of the tree.
pub proof fn lemma_register_fh_wf(tree: Tree, ino: u64)
    requires
        tree.wf(),
        tree.next_handle() <= u64::MAX,
    ensures
        tree.register_fh(ino).wf(),
{
    let out = tree.register_fh(ino);
    if !tree.handles.contains_key(ino) {
        assert(out.handles.dom() =~= tree.handles.dom().insert(ino));
        assert forall|i: u64| #[trigger] out.handles.contains_key(i) implies 1 <= out.handles[i]
            <= out.handles.len() by {
            if i != ino {
                assert(tree.handles.contains_key(i));
            }
        }
        assert forall|i: u64, j: u64|
            out.handles.contains_key(i) && out.handles.contains_key(j) && #[trigger] out.handles[i]
                == #[trigger] out.handles[j] implies i == j by {
            if i != ino {
                assert(tree.handles.contains_key(i));
            }
            if j != ino {
                assert(tree.handles.contains_key(j));
            }
        }
    }
}

/// The inode engine: the tree of directories and files that the filesystem
/// shows, with its name index, its handle table and its generation counter.
#[derive(Debug)]
pub struct MapFS {
    name_map: BTreeMap<u64, NameTable>,
    inode_map: BTreeMap<u64, FSEntry>,
    handles: BTreeMap<u64, u64>,
    generation: u64,
    permissions: u16,
    uid: u32,
    gid: u32,
    folders: Vec<String>,
}

impl View for MapFS {
    type V = Tree;

    closed spec fn view(&self) -> Tree {
        Tree {
            nodes: Map::new(
                |i: u64| self.inode_map@.contains_key(i),
                |i: u64| self.inode_map@[i]@,
            ),
            names: Map::new(
                |k: (u64, Seq<char>)|
                    self.name_map@.contains_key(k.0) && self.name_map@[k.0]@.contains_key(k.1),
                |k: (u64, Seq<char>)| self.name_map@[k.0]@[k.1],
            ),
            handles: self.handles@,
            generation: self.generation,
            permissions: self.permissions,
            uid: self.uid,
            gid: self.gid,
            folders: texts(self.folders@),
        }
    }
}

impl MapFS {
    /// The tables are in order.
    spec fn tables_wf(&self) -> bool {
        &&& forall|i: u64| #[trigger]
            self.inode_map@.contains_key(i) ==> self.inode_map@[i].wf()
        &&& forall|p: u64| #[trigger] self.name_map@.contains_key(p) ==> self.name_map@[p].wf()
    }

    /// The invariant of the engine: that of the tree it stands for, and the
    /// order of its tables.
    pub closed spec fn wf(&self) -> bool {
        &&& self.tables_wf()
        &&& self@.wf()
    }

    /// The invariant of the engine holds that of the tree.
    pub proof fn lemma_wf(&self)
        requires
            self.wf(),
        ensures
            self@.wf(),
    {
    }

    /// The tree has as many nodes as the inode table has entries.
    proof fn lemma_count(&self)
        ensures
            self@.nodes.len() == self.inode_map@.len(),
            self@.nodes.dom() == self.inode_map@.dom(),
    {
        assert(self@.nodes.dom() =~= self.inode_map@.dom());
    }

    /// A tree in its first generation: the root directory alone, stamped with
    /// the time of the call. `folders` is the allow-list for later
    /// synchronizations.
    pub fn new(uid: u32, gid: u32, permissions: u16, folders: Vec<String>) -> (fs: MapFS)
        ensures
            fs.wf(),
            fs@ == Tree::fresh(
                uid,
                gid,
                permissions,
                texts(folders@),
                fs@.nodes[ROOT].ctime(),
                fs@.nodes[ROOT].mtime(),
            ),
    {
        let ctime = now();
        let mtime = now();
        let mut fs = MapFS {
            name_map: BTreeMap::new(),
            inode_map: BTreeMap::new(),
            handles: BTreeMap::new(),
            generation: 1,
            permissions,
            uid,
            gid,
            folders,
        };
        fs.inode_map.insert(ROOT, FSEntry::Dir { children: NameTable::new(), ctime, mtime });
        proof {
            let want = Tree::fresh(uid, gid, permissions, texts(folders@), ctime, mtime);
            assert(fs@.nodes =~= want.nodes);
            assert(fs@.names =~= want.names);
            assert(fs@.handles =~= want.handles);
            lemma_fresh_wf(uid, gid, permissions, texts(folders@), ctime, mtime);
        }
        fs
    }

    /// The inode number that the next node gets.
    pub fn next_id(&self) -> (ino: u64)
        requires
            self.wf(),
            self@.next_inode() <= u64::MAX,
        ensures
            ino == self@.next_inode(),
            !self@.nodes.contains_key(ino),
    {
        proof {
            self.lemma_count();
        }
        self.inode_map.len() as u64 + 1
    }

    /// Puts `entry` into the tree under the next inode number, as the child
    /// `name` of `parent` where that is a directory.
    fn add(&mut self, parent: u64, name: String, entry: FSEntry) -> (ino: u64)
        requires
            old(self).wf(),
            old(self)@.next_inode() <= u64::MAX,
            is_sanitized(name@),
            entry.wf(),
            entry@ is Dir ==> entry@->children == Map::<Seq<char>, u64>::empty(),
        ensures
            final(self).wf(),
            final(self)@ == old(self)@.add(parent, name@, entry@),
            final(self)@.nodes.len() == old(self)@.nodes.len() + 1,
            ino == old(self)@.next_inode(),
    {
        let ino = self.next_id();
        let ghost before = self@;
        let ghost old_names = self.name_map@;
        let ghost old_nodes = self.inode_map@;
        let parent_is_dir = match self.inode_map.get(&parent) {
            Some(e) => e.kind() == Kind::Directory,
            None => false,
        };
        if parent_is_dir {
            match self.inode_map.remove(&parent) {
                Some(FSEntry::Dir { mut children, ctime, mtime }) => {
                    children.insert(name.clone(), ino);
                    self.inode_map.insert(parent, FSEntry::Dir { children, ctime, mtime });
                },
                _ => {
                    assert(false);
                },
            }
            let mut table = match self.name_map.remove(&parent) {
                Some(t) => t,
                None => NameTable::new(),
            };
            proof {
                assert(table@ =~= before.children(parent)) by {
                    assert forall|n: Seq<char>| #[trigger]
                        table@.contains_key(n) == before.children(parent).contains_key(n) by {
                        assert(before.names.contains_key((parent, n)) == index_of(
                            before.nodes,
                        ).contains_key((parent, n)));
                    }
                    assert forall|n: Seq<char>| #[trigger] table@.contains_key(n) implies table@[n]
                        == before.children(parent)[n] by {
                        assert(before.names.contains_key((parent, n)));
                        assert(before.names[(parent, n)] == index_of(before.nodes)[(parent, n)]);
                    }
                }
            }
            table.insert(name, ino);
            self.name_map.insert(parent, table);
        }
        self.inode_map.insert(ino, entry);
        proof {
            let want = before.add(parent, name@, entry@);
            assert(self@.nodes =~= want.nodes);
            assert(self@.names =~= want.names);
            lemma_add_wf(before, parent, name@, entry@);
        }
        ino
    }

    /// Adds an empty directory as the child `name` of `parent`, the name
    /// sanitized first, and returns its inode number. With a `parent` that
    /// is no directory of the tree the new directory is in the inode table
    /// only, and no name leads to it.
    pub fn add_dir(&mut self, parent: u64, name: String, ctime: SystemTime, mtime: SystemTime) -> (ino:
        u64)
        requires
            old(self).wf(),
            old(self)@.next_inode() <= u64::MAX,
        ensures
            final(self).wf(),
            final(self)@ == old(self)@.add_dir(parent, name@, ctime, mtime),
            final(self)@.nodes.len() == old(self)@.nodes.len() + 1,
            ino == old(self)@.next_inode(),
    {
        let name = sanitize_name(name.as_str());
        self.add(parent, name, FSEntry::Dir { children: NameTable::new(), ctime, mtime })
    }

    /// Adds a file with the payload `value` as the child `name` of `parent`,
    /// the name sanitized first, and returns its inode number. With a
    /// `parent` that is no directory of the tree the new file is in the inode
    /// table only, and no name leads to it.
    pub fn add_file(
        &mut self,
        parent: u64,
        name: String,
        value: String,
        ctime: SystemTime,
        mtime: SystemTime,
    ) -> (ino: u64)
        requires
            old(self).wf(),
            old(self)@.next_inode() <= u64::MAX,
        ensures
            final(self).wf(),
            final(self)@ == old(self)@.add_file(parent, name@, value@, ctime, mtime),
            final(self)@.nodes.len() == old(self)@.nodes.len() + 1,
            ino == old(self)@.next_inode(),
    {
        let name = sanitize_name(name.as_str());
        self.add(parent, name, FSEntry::File { content: value, ctime, mtime })
    }

    /// Gives `ino` a handle: the one it has, or the next one. Whether the
    /// inode exists is for the caller to test.
    pub fn register_fh(&mut self, ino: u64) -> (fh: u64)
        requires
            old(self).wf(),
            old(self)@.next_handle() <= u64::MAX,
        ensures
            final(self).wf(),
            final(self)@ == old(self)@.register_fh(ino),
            final(self)@.handles.contains_key(ino),
            fh == final(self)@.handles[ino],
    {
        let ghost before = self@;
        let known = match self.handles.get(&ino) {
            Some(h) => Some(*h),
            None => None,
        };
        let fh = match known {
            Some(h) => h,
            None => {
                let h = self.handles.len() as u64 + 1;
                self.handles.insert(ino, h);
                h
            },
        };
        proof {
            lemma_register_fh_wf(before, ino);
        }
        fh
    }

    /// Starts the next generation of the tree: every node but the root is
    /// dropped, the root loses its children and keeps its time stamps, the
    /// name index and the handle table are emptied, and the generation
    /// counter goes up by one.
    pub fn clear(&mut self)
        requires
            old(self).wf(),
            old(self)@.generation < u64::MAX,
        ensures
            final(self).wf(),
            final(self)@ == old(self)@.clear(),
            final(self)@.nodes.len() == 1,
    {
        let ghost before = self@;
        let (ctime, mtime) = match self.inode_map.get(&ROOT) {
            Some(root) => (root.ctime(), root.mtime()),
            None => {
                assert(false);
                (now(), now())
            },
        };
        self.name_map.clear();
        self.inode_map.clear();
        self.handles.clear();
        self.generation = self.generation + 1;
        self.inode_map.insert(ROOT, FSEntry::Dir { children: NameTable::new(), ctime, mtime });
        proof {
            let want = before.clear();
            assert(self@.nodes =~= want.nodes);
            assert(self@.names =~= want.names);
            assert(self@.handles =~= want.handles);
            lemma_clear_wf(before);
        }
    }

    /// The node under `ino`, if the tree holds one.
    pub fn entry(&self, ino: u64) -> (r: Option<&FSEntry>)
        requires
            self.wf(),
        ensures
            r is Some == self@.nodes.contains_key(ino),
            r matches Some(e) ==> e@ == self@.nodes[ino] && e.wf(),
    {
        self.inode_map.get(&ino)
    }

    /// Whether `ino` has a handle.
    pub fn has_handle(&self, ino: u64) -> (r: bool)
        ensures
            r == self@.handles.contains_key(ino),
    {
        self.handles.contains_key(&ino)
    }

    /// The permission bits of every node.
    pub fn permissions(&self) -> (p: u16)
        ensures
            p == self@.permissions,
    {
        self.permissions
    }

    /// The user that owns every node.
    pub fn uid(&self) -> (u: u32)
        ensures
            u == self@.uid,
    {
        self.uid
    }

    /// The group that owns every node.
    pub fn gid(&self) -> (g: u32)
        ensures
            g == self@.gid,
    {
        self.gid
    }

    /// The allow-list: the prefixes of the names of the folders to show.
    pub fn folders(&self) -> (f: &Vec<String>)
        ensures
            texts(f@) == self@.folders,
    {
        &self.folders
    }

    /// The number of nodes, which is also the greatest inode number in use.
    pub fn inode_count(&self) -> (n: usize)
        ensures
            n == self@.nodes.len(),
    {
        proof {
            self.lemma_count();
        }
        self.inode_map.len()
    }

    /// The number of inodes that have a handle, which is also the greatest
    /// handle in use.
    pub fn handle_count(&self) -> (n: usize)
        ensures
            n == self@.handles.len(),
    {
        self.handles.len()
    }

    /// The number of this generation of the tree.
    pub fn generation(&self) -> (g: u64)
        ensures
            g == self@.generation,
    {
        self.generation
    }

    /// The inode number bound to `name` in the directory `parent`, if the name
    /// index holds one. The name is taken as it is given, not sanitized.
    pub fn find(&self, parent: u64, name: String) -> (r: Option<u64>)
        requires
            self.wf(),
        ensures
            r == self@.names.get((parent, name@)),
            r matches Some(ino) ==> self@.nodes.contains_key(ino),
    {
        match self.name_map.get(&parent) {
            Some(table) => table.get(name.as_str()),
            None => None,
        }
    }
}

} // verus!
