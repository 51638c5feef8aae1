//! The nodes of the tree: directories and files, and what the kernel is told
//! of them.

use std::time::SystemTime;
use vstd::prelude::*;
use vstd::utf8::encode_utf8;
use crate::clock::now;
use crate::name_table::NameTable;

verus! {

/// A node as the contracts see it.
pub enum Node {
    /// A directory: its children by name, and its time stamps.
    Dir { children: Map<Seq<char>, u64>, ctime: SystemTime, mtime: SystemTime },
    /// A file: its payload, and its time stamps.
    File { content: Seq<char>, ctime: SystemTime, mtime: SystemTime },
}

impl Node {
    /// A directory without children.
    pub open spec fn empty_dir(ctime: SystemTime, mtime: SystemTime) -> Node {
        Node::Dir { children: Map::empty(), ctime, mtime }
    }

    /// The time of creation.
    pub open spec fn ctime(self) -> SystemTime {
        match self {
            Node::Dir { ctime, .. } => ctime,
            Node::File { ctime, .. } => ctime,
        }
    }

    /// The time of the last modification.
    pub open spec fn mtime(self) -> SystemTime {
        match self {
            Node::Dir { mtime, .. } => mtime,
            Node::File { mtime, .. } => mtime,
        }
    }

    /// The size in bytes: that of the payload's UTF-8 encoding for a file, zero
    /// for a directory.
    pub open spec fn size(self) -> nat {
        match self {
            Node::Dir { .. } => 0,
            Node::File { content, .. } => encode_utf8(content).len(),
        }
    }

    /// Directory or regular file.
    pub open spec fn kind(self) -> Kind {
        match self {
            Node::Dir { .. } => Kind::Directory,
            Node::File { .. } => Kind::RegularFile,
        }
    }
}

/// What kind of node an inode number stands for.
#[derive(Clone, Copy, PartialEq, Eq, Debug, Structural)]
pub enum Kind {
    Directory,
    RegularFile,
}

/// The attributes of a node, as the kernel asks for them.
#[derive(Clone, Copy, Debug)]
pub struct Attr {
    /// Inode number.
    pub ino: u64,
    /// Size in bytes.
    pub size: u64,
    /// Size in blocks.
    pub blocks: u64,
    /// Time of the last access.
    pub atime: SystemTime,
    /// Time of the last modification.
    pub mtime: SystemTime,
    /// Time of the last change.
    pub ctime: SystemTime,
    /// Time of creation.
    pub crtime: SystemTime,
    /// Kind of node.
    pub kind: Kind,
    /// Permission bits.
    pub perm: u16,
    /// Number of hard links.
    pub nlink: u32,
    /// Owning user.
    pub uid: u32,
    /// Owning group.
    pub gid: u32,
    /// Device number.
    pub rdev: u32,
    /// Block size.
    pub blksize: u32,
    /// Flags.
    pub flags: u32,
}

/// Whether `attr` describes `node` under inode number `ino`, with the given
/// permission bits and owner. The times of access and of creation are those
/// of the moment at which the attributes were asked for, and are left open.
pub open spec fn describes(attr: Attr, node: Node, ino: u64, perm: u16, uid: u32, gid: u32) -> bool {
    &&& attr.ino == ino
    &&& attr.size == node.size()
    &&& attr.blocks == 1
    &&& attr.mtime == node.mtime()
    &&& attr.ctime == node.ctime()
    &&& attr.kind == node.kind()
    &&& attr.perm == perm
    &&& attr.nlink == 1
    &&& attr.uid == uid
    &&& attr.gid == gid
    &&& attr.rdev == 1
    &&& attr.blksize == 1024
    &&& attr.flags == 0
}

/// A node of the tree.
#[derive(Debug)]
pub enum FSEntry {
    /// A directory: its children by name, and its time stamps.
    Dir { children: NameTable, ctime: SystemTime, mtime: SystemTime },
    /// A file: its payload, and its time stamps.
    File { content: String, ctime: SystemTime, mtime: SystemTime },
}

impl View for FSEntry {
    type V = Node;

    open spec fn view(&self) -> Node {
        match self {
            FSEntry::Dir { children, ctime, mtime } => Node::Dir {
                children: children@,
                ctime: *ctime,
                mtime: *mtime,
            },
            FSEntry::File { content, ctime, mtime } => Node::File {
                content: content@,
                ctime: *ctime,
                mtime: *mtime,
            },
        }
    }
}

impl FSEntry {
    /// The invariant of a node: a directory's table of children is in order.
    pub open spec fn wf(&self) -> bool {
        match self {
            FSEntry::Dir { children, .. } => children.wf(),
            FSEntry::File { .. } => true,
        }
    }

    /// The attributes of this node under inode number `ino`.
    pub fn attrs(&self, ino: u64, perm: u16, uid: u32, gid: u32) -> (attr: Attr)
        ensures
            describes(attr, self@, ino, perm, uid, gid),
    {
        Attr {
            ino,
            size: self.size(),
            blocks: 1,
            atime: now(),
            mtime: self.mtime(),
            ctime: self.ctime(),
            crtime: now(),
            kind: self.kind(),
            perm,
            nlink: 1,
            uid,
            gid,
            rdev: 1,
            blksize: 1024,
            flags: 0,
        }
    }

    /// Directory or regular file.
    pub fn kind(&self) -> (k: Kind)
        ensures
            k == self@.kind(),
    {
        match self {
            FSEntry::Dir { .. } => Kind::Directory,
            FSEntry::File { .. } => Kind::RegularFile,
        }
    }

    /// The size in bytes: that of the payload for a file, zero for a
    /// directory.
    pub fn size(&self) -> (n: u64)
        ensures
            n == self@.size(),
    {
        match self {
            FSEntry::Dir { .. } => 0,
            FSEntry::File { content, .. } => content.as_str().as_bytes().len() as u64,
        }
    }

    /// The time of creation.
    pub fn ctime(&self) -> (t: SystemTime)
        ensures
            t == self@.ctime(),
    {
        match self {
            FSEntry::Dir { ctime, .. } => *ctime,
            FSEntry::File { ctime, .. } => *ctime,
        }
    }

    /// The time of the last modification.
    pub fn mtime(&self) -> (t: SystemTime)
        ensures
            t == self@.mtime(),
    {
        match self {
            FSEntry::Dir { mtime, .. } => *mtime,
            FSEntry::File { mtime, .. } => *mtime,
        }
    }
}

} // verus!
