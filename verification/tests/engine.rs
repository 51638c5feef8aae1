use bwfs::server::entry::{FSEntry, Kind};
use bwfs::server::kernel::{FsError, Operation};
use bwfs::server::mapfs::MapFS;
use std::time::{Duration, SystemTime};

fn stamp(secs: u64) -> SystemTime {
    SystemTime::UNIX_EPOCH + Duration::from_secs(secs)
}

fn fresh() -> MapFS {
    MapFS::new(1000, 100, 0o440, vec!["Work".to_owned()])
}

#[test]
fn add_dir_allocates_increasing_inodes() {
    let mut fs = fresh();
    let a = fs.add_dir(1, "a".to_owned(), stamp(1), stamp(2));
    let b = fs.add_dir(1, "b".to_owned(), stamp(1), stamp(2));
    let c = fs.add_file(a, "c".to_owned(), "x".to_owned(), stamp(1), stamp(2));
    assert_eq!((a, b, c), (2, 3, 4));
    assert_eq!(fs.next_id(), 5);
    assert_eq!(fs.inode_count(), 4);
    assert_eq!(fs.find(1, "a".to_owned()), Some(2));
    assert_eq!(fs.find(1, "b".to_owned()), Some(3));
    assert_eq!(fs.find(2, "c".to_owned()), Some(4));
    assert_eq!(fs.find(1, "c".to_owned()), None);
}

#[test]
fn new_tree_holds_root_alone() {
    let fs = fresh();
    assert_eq!(fs.generation(), 1);
    assert_eq!(fs.inode_count(), 1);
    assert_eq!(fs.handle_count(), 0);
    assert_eq!((fs.uid(), fs.gid(), fs.permissions()), (1000, 100, 0o440));
    assert_eq!(fs.folders(), &vec!["Work".to_owned()]);
    assert!(matches!(fs.entry(1), Some(FSEntry::Dir { .. })));
    assert!(fs.entry(2).is_none());
    assert!(fs.entry(0).is_none());
}

#[test]
fn later_binding_of_a_name_wins() {
    let mut fs = fresh();
    let first = fs.add_file(1, "n".to_owned(), "old".to_owned(), stamp(1), stamp(1));
    let second = fs.add_file(1, "n".to_owned(), "new".to_owned(), stamp(1), stamp(1));
    assert_ne!(first, second);
    assert_eq!(fs.find(1, "n".to_owned()), Some(second));
    assert_eq!(fs.read(second, 0, 10).unwrap(), b"new");
    // the earlier node keeps its inode number
    assert_eq!(fs.read(first, 0, 10).unwrap(), b"old");
    assert_eq!(fs.opendir(1), Ok(1));
    assert_eq!(fs.readdir(1, 0).unwrap().len(), 1);
}

#[test]
fn names_are_sanitized_before_they_are_bound() {
    let mut fs = fresh();
    let ino = fs.add_dir(1, "../a/b?.txt".to_owned(), stamp(1), stamp(1));
    assert_eq!(fs.find(1, "abtxt".to_owned()), Some(ino));
    assert_eq!(fs.find(1, "../a/b?.txt".to_owned()), None);
}

#[test]
fn node_under_a_parent_that_is_no_directory_is_not_bound() {
    let mut fs = fresh();
    let file = fs.add_file(1, "f".to_owned(), "x".to_owned(), stamp(1), stamp(1));
    let under_file = fs.add_dir(file, "d".to_owned(), stamp(1), stamp(1));
    let under_nothing = fs.add_file(999, "g".to_owned(), "y".to_owned(), stamp(1), stamp(1));
    assert_eq!((under_file, under_nothing), (3, 4));
    assert_eq!(fs.find(file, "d".to_owned()), None);
    assert_eq!(fs.find(999, "g".to_owned()), None);
    assert_eq!(fs.read(under_nothing, 0, 1).unwrap(), b"y");
}

#[test]
fn clear_leaves_root_and_raises_generation() {
    let mut fs = fresh();
    let root_times = (fs.entry(1).unwrap().ctime(), fs.entry(1).unwrap().mtime());
    let a = fs.add_dir(1, "a".to_owned(), stamp(1), stamp(2));
    fs.add_file(a, "f".to_owned(), "x".to_owned(), stamp(1), stamp(2));
    assert_eq!(fs.open(a), Ok(1));
    let before = fs.generation();
    fs.clear();
    assert!(fs.generation() > before);
    assert_eq!(fs.generation(), before + 1);
    assert_eq!(fs.inode_count(), 1);
    assert_eq!(fs.handle_count(), 0);
    assert!(fs.entry(2).is_none());
    assert!(fs.entry(3).is_none());
    assert_eq!(fs.find(1, "a".to_owned()), None);
    assert_eq!(fs.getattr(2).err(), Some(FsError::NotFound));
    assert!(fs.getattr(1).is_ok());
    assert_eq!(fs.opendir(1), Ok(1));
    assert_eq!(fs.readdir(1, 0).unwrap().len(), 0);
    let root = fs.entry(1).unwrap();
    assert_eq!((root.ctime(), root.mtime()), root_times);
    // numbers are given out anew
    assert_eq!(fs.add_dir(1, "b".to_owned(), stamp(1), stamp(2)), 2);
}

#[test]
fn handles_are_kept_per_inode() {
    let mut fs = fresh();
    let a = fs.add_dir(1, "a".to_owned(), stamp(1), stamp(1));
    assert!(!fs.has_handle(a));
    assert_eq!(fs.register_fh(a), 1);
    assert_eq!(fs.register_fh(1), 2);
    assert_eq!(fs.register_fh(a), 1);
    assert_eq!(fs.register_fh(77), 3);
    assert!(fs.has_handle(a));
    assert_eq!(fs.handle_count(), 3);
}

#[test]
fn entry_reports_size_kind_and_times() {
    let mut fs = fresh();
    let f = fs.add_file(1, "f".to_owned(), "h\u{e9}llo".to_owned(), stamp(5), stamp(6));
    let e = fs.entry(f).unwrap();
    assert_eq!(e.size(), 6);
    assert_eq!(e.kind(), Kind::RegularFile);
    assert_eq!(e.ctime(), stamp(5));
    assert_eq!(e.mtime(), stamp(6));
    let root = fs.entry(1).unwrap();
    assert_eq!(root.size(), 0);
    assert_eq!(root.kind(), Kind::Directory);
    let attr = e.attrs(f, 0o400, 3, 4);
    assert_eq!((attr.ino, attr.size, attr.blocks, attr.perm, attr.nlink), (f, 6, 1, 0o400, 1));
    assert_eq!((attr.uid, attr.gid, attr.rdev, attr.blksize, attr.flags), (3, 4, 1, 1024, 0));
    assert_eq!((attr.kind, attr.ctime, attr.mtime), (Kind::RegularFile, stamp(5), stamp(6)));
}

#[test]
fn kernel_lookup_getattr_and_read() {
    let mut fs = fresh();
    let d = fs.add_dir(1, "d".to_owned(), stamp(1), stamp(2));
    let f = fs.add_file(d, "f".to_owned(), "secret".to_owned(), stamp(3), stamp(4));
    let hit = fs.lookup(d, "f").unwrap();
    assert_eq!(hit.ttl_secs, 0);
    assert_eq!(hit.generation, 1);
    assert_eq!((hit.attr.ino, hit.attr.size, hit.attr.kind), (f, 6, Kind::RegularFile));
    assert_eq!((hit.attr.perm, hit.attr.uid, hit.attr.gid), (0o440, 1000, 100));
    assert_eq!(fs.lookup(d, "g").err(), Some(FsError::NotFound));
    assert_eq!(fs.lookup(1, "f").err(), Some(FsError::NotFound));
    let attr = fs.getattr(d).unwrap();
    assert_eq!((attr.ino, attr.size, attr.kind), (d, 0, Kind::Directory));
    assert_eq!(fs.getattr(99).err(), Some(FsError::NotFound));
    assert_eq!(fs.read(f, 0, 100).unwrap(), b"secret");
    assert_eq!(fs.read(f, 3, 1).unwrap(), b"secret");
    assert_eq!(fs.read(d, 0, 100), Err(FsError::NotFound));
    assert_eq!(fs.read(99, 0, 100), Err(FsError::NotFound));
}

#[test]
fn kernel_open_and_readdir() {
    let mut fs = fresh();
    let d = fs.add_dir(1, "d".to_owned(), stamp(1), stamp(2));
    let b = fs.add_file(d, "b".to_owned(), "2".to_owned(), stamp(1), stamp(2));
    let a = fs.add_dir(d, "a".to_owned(), stamp(1), stamp(2));
    let c = fs.add_file(d, "Z".to_owned(), "3".to_owned(), stamp(1), stamp(2));
    // no handle yet
    assert_eq!(fs.readdir(d, 0).err(), Some(FsError::NotFound));
    assert_eq!(fs.opendir(99), Err(FsError::NotFound));
    assert_eq!(fs.open(99), Err(FsError::NotFound));
    assert_eq!(fs.opendir(d), Ok(1));
    assert_eq!(fs.open(b), Ok(2));
    assert_eq!(fs.opendir(d), Ok(1));
    let all = fs.readdir(d, 0).unwrap();
    let seen: Vec<(u64, u64, Kind, &str)> =
        all.iter().map(|i| (i.ino, i.offset, i.kind, i.name.as_str())).collect();
    assert_eq!(
        seen,
        vec![
            (c, 1, Kind::RegularFile, "Z"),
            (a, 2, Kind::Directory, "a"),
            (b, 3, Kind::RegularFile, "b"),
        ]
    );
    let rest = fs.readdir(d, 2).unwrap();
    assert_eq!(rest.len(), 1);
    assert_eq!((rest[0].ino, rest[0].offset), (b, 3));
    assert_eq!(fs.readdir(d, 3).unwrap().len(), 0);
    assert_eq!(fs.readdir(d, 4).unwrap().len(), 0);
    assert_eq!(fs.readdir(d, -1).unwrap().len(), 0);
    // a file that was opened is still no directory
    assert_eq!(fs.readdir(b, 0).err(), Some(FsError::NotFound));
}

#[test]
fn operations_other_than_reading_are_refused() {
    for op in [Operation::Lookup, Operation::Getattr, Operation::Open, Operation::Opendir,
        Operation::Readdir, Operation::Read]
    {
        assert!(op.is_supported());
        assert_eq!(op.refuse(), Ok(()));
    }
    for op in [Operation::Write, Operation::Create, Operation::Mkdir, Operation::Unlink,
        Operation::Rmdir, Operation::Rename, Operation::Symlink, Operation::Link,
        Operation::Setattr, Operation::Setxattr, Operation::Removexattr, Operation::Getlk,
        Operation::Setlk, Operation::Mknod, Operation::Fallocate, Operation::CopyFileRange,
        Operation::Readlink, Operation::Flush, Operation::Fsync, Operation::Fsyncdir,
        Operation::Statfs, Operation::Getxattr, Operation::Listxattr, Operation::Access,
        Operation::Bmap, Operation::Ioctl, Operation::Lseek]
    {
        assert!(!op.is_supported());
        assert_eq!(op.refuse(), Err(FsError::NotSupported));
    }
}

#[test]
fn children_are_listed_in_the_order_of_their_names() {
    let mut fs = fresh();
    let b = fs.add_dir(1, "b".to_owned(), stamp(1), stamp(1));
    let a = fs.add_file(1, "a".to_owned(), "x".to_owned(), stamp(1), stamp(1));
    let c = fs.add_file(b, "c".to_owned(), "y".to_owned(), stamp(1), stamp(1));
    assert_eq!(
        fs.list_children(1),
        Some(vec![("a".to_owned(), a), ("b".to_owned(), b)])
    );
    assert_eq!(fs.list_children(b), Some(vec![("c".to_owned(), c)]));
    // a file has no children, nor has a number that the tree does not hold
    assert_eq!(fs.list_children(a), None);
    assert_eq!(fs.list_children(99), None);
    fs.clear();
    assert_eq!(fs.list_children(1), Some(vec![]));
}
