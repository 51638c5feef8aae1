//! The kernel's side of the tree: what each filesystem operation answers.
//!
//! The mount is read-only. Looking up names, reading attributes, opening,
//! listing directories and reading files are answered from the tree; every
//! other operation is answered as not supported.

use vstd::prelude::*;
use vstd::utf8::encode_utf8;
use crate::name_table::{is_listing_of, lemma_bindings_at, lemma_listing_unique, Bound};
use crate::server::entry::{describes, Attr, FSEntry, Kind};
use crate::server::mapfs::{MapFS, Tree};

verus! {

/// Why an operation was not carried out.
#[derive(Clone, Copy, PartialEq, Eq, Debug, Structural)]
pub enum FsError {
    /// No such entry: the inode or the handle does not exist, or is not of the
    /// kind that the operation is for.
    NotFound,
    /// The filesystem does not offer the operation.
    NotSupported,
}

/// The operations that the kernel may ask for.
#[derive(Clone, Copy, PartialEq, Eq, Debug, Structural)]
pub enum Operation {
    Lookup,
    Getattr,
    Open,
    Opendir,
    Readdir,
    Read,
    Setattr,
    Readlink,
    Mknod,
    Mkdir,
    Unlink,
    Rmdir,
    Symlink,
    Rename,
    Link,
    Write,
    Flush,
    Fsync,
    Fsyncdir,
    Statfs,
    Setxattr,
    Getxattr,
    Listxattr,
    Removexattr,
    Access,
    Create,
    Getlk,
    Setlk,
    Bmap,
    Ioctl,
    Fallocate,
    Lseek,
    CopyFileRange,
}

impl Operation {
    /// Whether the filesystem answers the operation from the tree.
    pub open spec fn supported(self) -> bool {
        self == Operation::Lookup || self == Operation::Getattr || self == Operation::Open || self
            == Operation::Opendir || self == Operation::Readdir || self == Operation::Read
    }

    /// Decides whether the filesystem answers the operation from the tree.
    pub fn is_supported(&self) -> (r: bool)
        ensures
            r == self.supported(),
    {
        match self {
            Operation::Lookup => true,
            Operation::Getattr => true,
            Operation::Open => true,
            Operation::Opendir => true,
            Operation::Readdir => true,
            Operation::Read => true,
            _ => false,
        }
    }

    /// What an operation that the filesystem does not offer is answered
    /// with.
    pub fn refuse(&self) -> (r: Result<(), FsError>)
        ensures
            r == if self.supported() {
                Ok::<(), FsError>(())
            } else {
                Err::<(), FsError>(FsError::NotSupported)
            },
    {
        if self.is_supported() {
            Ok(())
        } else {
            Err(FsError::NotSupported)
        }
    }
}

/// The answer to a lookup by name.
#[derive(Clone, Copy, Debug)]
pub struct EntryReply {
    /// For how many seconds the kernel may keep the answer: none, since the
    /// tree can change with every synchronization.
    pub ttl_secs: u64,
    /// The attributes of the node.
    pub attr: Attr,
    /// The generation of the tree that the inode number belongs to.
    pub generation: u64,
}

/// One entry of a directory listing.
#[derive(Debug)]
pub struct DirItem {
    /// The inode number of the child.
    pub ino: u64,
    /// The offset at which the listing goes on after this entry.
    pub offset: u64,
    /// The kind of the child.
    pub kind: Kind,
    /// The name of the child.
    pub name: String,
}

/// One entry of a directory listing as the contracts see it.
pub struct Listed {
    pub ino: u64,
    pub offset: int,
    pub kind: Kind,
    pub name: Seq<char>,
}

impl View for DirItem {
    type V = Listed;

    open spec fn view(&self) -> Listed {
        Listed { ino: self.ino, offset: self.offset as int, kind: self.kind, name: self.name@ }
    }
}

/// The entries of a sequence of items.
pub open spec fn listed(items: Seq<DirItem>) -> Seq<Listed> {
    items.map_values(|d: DirItem| d@)
}

/// The listing of the children `m`: its bindings in the order of their names.
pub open spec fn listing_of(m: Map<Seq<char>, u64>) -> Seq<Bound> {
    choose|l: Seq<Bound>| is_listing_of(l, m)
}

/// The bindings that a sequence of names with their inode numbers holds.
pub open spec fn pairs(items: Seq<(String, u64)>) -> Seq<Bound> {
    items.map_values(|p: (String, u64)| (p.0@, p.1))
}

/// Where a listing starts that is asked for from `offset` on: at the offset,
/// or behind the last entry where the offset is negative or too large.
pub open spec fn listing_start(len: int, offset: i64) -> int {
    if 0 <= offset <= len {
        offset as int
    } else {
        len
    }
}

/// What listing the directory `ino` from `offset` on gives: the children in
/// the order of their names, leaving out the first `offset`, each with its
/// kind and with the offset of the entry that follows it.
pub open spec fn dir_items(tree: Tree, ino: u64, offset: i64) -> Seq<Listed> {
    let l = listing_of(tree.children(ino));
    let start = listing_start(l.len() as int, offset);
    Seq::new(
        (l.len() - start) as nat,
        |k: int|
            Listed {
                ino: l[start + k].1,
                offset: start + k + 1,
                kind: tree.nodes[l[start + k].1].kind(),
                name: l[start + k].0,
            },
    )
}

impl MapFS {
    /// The children of the directory `ino`, each name with its inode number,
    /// in the order of the names; nothing where `ino` is no directory of the
    /// tree.
    pub fn list_children(&self, ino: u64) -> (r: Option<Vec<(String, u64)>>)
        requires
            self.wf(),
        ensures
            r is Some == self@.is_dir(ino),
            r matches Some(items) ==> pairs(items@) == listing_of(self@.children(ino)),
    {
        let children = match self.entry(ino) {
            Some(FSEntry::Dir { children, .. }) => children,
            _ => {
                return None;
            },
        };
        let ghost l = children.listing();
        proof {
            self.lemma_wf();
            lemma_listing_unique(l, listing_of(self@.children(ino)), self@.children(ino));
        }
        let len = children.len();
        let mut items: Vec<(String, u64)> = Vec::new();
        let mut i: usize = 0;
        while i < len
            invariant
                children.wf(),
                l == children.listing(),
                len == l.len(),
                i <= len,
                items.len() == i,
                forall|k: int| 0 <= k < i ==> (#[trigger] items[k]).0@ == l[k].0 && items[k].1 == l[k].1,
            decreases len - i,
        {
            let (name, child) = children.entry(i);
            items.push((name.clone(), child));
            i += 1;
        }
        proof {
            assert(pairs(items@) =~= l);
        }
        Some(items)
    }

    /// Looks up the child `name` of the directory `parent`: its attributes
    /// and the generation of the tree, or `NotFound` where the name index
    /// holds no such binding.
    pub fn lookup(&self, parent: u64, name: &str) -> (r: Result<EntryReply, FsError>)
        requires
            self.wf(),
        ensures
            r is Ok == self@.names.contains_key((parent, name@)),
            r is Err ==> r == Err::<EntryReply, FsError>(FsError::NotFound),
            r matches Ok(e) ==> {
                let ino = self@.names[(parent, name@)];
                &&& e.ttl_secs == 0
                &&& e.generation == self@.generation
                &&& self@.nodes.contains_key(ino)
                &&& describes(
                    e.attr,
                    self@.nodes[ino],
                    ino,
                    self@.permissions,
                    self@.uid,
                    self@.gid,
                )
            },
    {
        match self.find(parent, name.to_owned()) {
            Some(ino) => match self.entry(ino) {
                Some(entry) => Ok(
                    EntryReply {
                        ttl_secs: 0,
                        attr: entry.attrs(ino, self.permissions(), self.uid(), self.gid()),
                        generation: self.generation(),
                    },
                ),
                None => Err(FsError::NotFound),
            },
            None => Err(FsError::NotFound),
        }
    }

    /// The attributes of the node `ino`, or `NotFound` where the tree holds
    /// no such node.
    pub fn getattr(&self, ino: u64) -> (r: Result<Attr, FsError>)
        requires
            self.wf(),
        ensures
            r is Ok == self@.nodes.contains_key(ino),
            r is Err ==> r == Err::<Attr, FsError>(FsError::NotFound),
            r matches Ok(attr) ==> describes(
                attr,
                self@.nodes[ino],
                ino,
                self@.permissions,
                self@.uid,
                self@.gid,
            ),
    {
        match self.entry(ino) {
            Some(entry) => Ok(entry.attrs(ino, self.permissions(), self.uid(), self.gid())),
            None => Err(FsError::NotFound),
        }
    }

    /// Opens the node `ino` and returns its handle, or `NotFound` where the
    /// tree holds no such node. Nothing but the existence of the node is
    /// tested.
    pub fn open(&mut self, ino: u64) -> (r: Result<u64, FsError>)
        requires
            old(self).wf(),
            old(self)@.next_handle() <= u64::MAX,
        ensures
            final(self).wf(),
            r is Ok == old(self)@.nodes.contains_key(ino),
            r is Err ==> r == Err::<u64, FsError>(FsError::NotFound) && final(self)@ == old(self)@,
            r matches Ok(fh) ==> final(self)@ == old(self)@.register_fh(ino) && final(self)@.handles.contains_key(ino) && fh == final(self)@.handles[ino],
    {
        if self.entry(ino).is_some() {
            Ok(self.register_fh(ino))
        } else {
            Err(FsError::NotFound)
        }
    }

    /// Opens the directory `ino` and returns its handle, or `NotFound` where
    /// the tree holds no such node. Nothing but the existence of the node is
    /// tested.
    pub fn opendir(&mut self, ino: u64) -> (r: Result<u64, FsError>)
        requires
            old(self).wf(),
            old(self)@.next_handle() <= u64::MAX,
        ensures
            final(self).wf(),
            r is Ok == old(self)@.nodes.contains_key(ino),
            r is Err ==> r == Err::<u64, FsError>(FsError::NotFound) && final(self)@ == old(self)@,
            r matches Ok(fh) ==> final(self)@ == old(self)@.register_fh(ino) && final(self)@.handles.contains_key(ino) && fh == final(self)@.handles[ino],
    {
        self.open(ino)
    }

    /// Lists the directory `ino` from `offset` on, in the order of the names.
    /// The inode must have been opened and must be a directory; else the
    /// answer is `NotFound`. Every child that is listed is a node of the
    /// tree as it stands at the call.
    pub fn readdir(&self, ino: u64, offset: i64) -> (r: Result<Vec<DirItem>, FsError>)
        requires
            self.wf(),
        ensures
            r is Ok == (self@.handles.contains_key(ino) && self@.is_dir(ino)),
            r is Err ==> r == Err::<Vec<DirItem>, FsError>(FsError::NotFound),
            r matches Ok(items) ==> listed(items@) == dir_items(self@, ino, offset),
            r matches Ok(items) ==> forall|k: int|
                0 <= k < items.len() ==> self@.nodes.contains_key((#[trigger] items[k]).ino),
    {
        if !self.has_handle(ino) {
            return Err(FsError::NotFound);
        }
        let children = match self.entry(ino) {
            Some(FSEntry::Dir { children, .. }) => children,
            _ => {
                return Err(FsError::NotFound);
            },
        };
        let ghost l = children.listing();
        proof {
            self.lemma_wf();
            assert(is_listing_of(l, self@.children(ino)));
            lemma_listing_unique(l, listing_of(self@.children(ino)), self@.children(ino));
        }
        let len = children.len();
        let start: usize = if offset >= 0 && (offset as u64) <= (len as u64) {
            offset as usize
        } else {
            len
        };
        let ghost want = dir_items(self@, ino, offset);
        let mut items: Vec<DirItem> = Vec::new();
        let mut i: usize = start;
        while i < len
            invariant
                self.wf(),
                self@.wf(),
                self@.is_dir(ino),
                children.wf(),
                children@ == self@.children(ino),
                l == children.listing(),
                l == listing_of(self@.children(ino)),
                len == l.len(),
                start == listing_start(len as int, offset),
                start <= i <= len,
                want == dir_items(self@, ino, offset),
                items.len() == i - start,
                forall|k: int| 0 <= k < items.len() ==> (#[trigger] items[k])@ == want[k],
                forall|k: int|
                    0 <= k < items.len() ==> self@.nodes.contains_key((#[trigger] items[k]).ino),
            decreases len - i,
        {
            let (name, child) = children.entry(i);
            proof {
                lemma_bindings_at(l, i as int);
            }
            let kind = match self.entry(child) {
                Some(e) => e.kind(),
                None => {
                    assert(false);
                    Kind::RegularFile
                },
            };
            items.push(DirItem { ino: child, offset: i as u64 + 1, kind, name: name.clone() });
            i += 1;
        }
        proof {
            assert(listed(items@) =~= want);
        }
        Ok(items)
    }

    /// Reads the file `ino`: its whole payload, byte for byte, whatever
    /// `offset` and `size` ask for. A directory or a missing inode is
    /// answered with `NotFound`.
    pub fn read(&self, ino: u64, offset: i64, size: u32) -> (r: Result<&[u8], FsError>)
        requires
            self.wf(),
        ensures
            r is Ok == (self@.nodes.contains_key(ino) && self@.nodes[ino] is File),
            r is Err ==> r == Err::<&[u8], FsError>(FsError::NotFound),
            r matches Ok(bytes) ==> bytes@ == encode_utf8(self@.nodes[ino]->content),
    {
        match self.entry(ino) {
            Some(FSEntry::File { content, .. }) => Ok(content.as_str().as_bytes()),
            _ => Err(FsError::NotFound),
        }
    }
}

} // verus!
