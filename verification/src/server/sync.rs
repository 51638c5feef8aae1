//! The synchronizer: rebuilds the tree from the folders and entries of the
//! vault.
//!
//! An entry is shown only where its folder is shown: entries whose folder is
//! not among the folders that the allow-list lets through are skipped.
//!
//! A folder's hierarchical name gives one directory for each of its levels.
//! The levels above the last are shared: a level is looked up under its
//! sanitized name, the name it is bound by, and made only where the directory
//! above does not hold it yet. The last level is the folder's own directory
//! and is always made; where its name is bound already, the folder takes the
//! name over, as every later binding of a name does.

use std::collections::BTreeMap;
use std::time::SystemTime;
use vstd::prelude::*;
use crate::names::{
    decimal,
    decimal_text,
    digits,
    path_segments,
    sanitize_name,
    sanitized,
    split_path,
    starts_with,
    texts,
};
use crate::server::bwclient::{
    hyphenated,
    id_text,
    system_time,
    system_time_of,
    Folder,
    Secret,
    SecretField,
    SecretLogin,
    SecretLoginUri,
    Status,
};
use crate::server::mapfs::{MapFS, Tree, ROOT};

verus! {

/// The decimal numeral of `n`, with a leading zero where it has one digit.
pub open spec fn padded(n: nat) -> Seq<char> {
    if n < 10 {
        "0"@ + decimal(n)
    } else {
        decimal(n)
    }
}

/// The name of the file that shows the `n`-th address of a login: `n` in
/// decimal, with at least two digits.
pub fn uri_file_name(n: usize) -> (s: String)
    ensures
        s@ == padded(n as nat),
{
    if n < 10 {
        "0".to_owned().concat(decimal_text(n as u64).as_str())
    } else {
        decimal_text(n as u64)
    }
}

/// Whether the allow-list lets a folder of this name through: some entry of
/// the list is a prefix of the name.
pub open spec fn folder_allowed(allow: Seq<Seq<char>>, name: Seq<char>) -> bool {
    exists|i: int| 0 <= i < allow.len() && (#[trigger] allow[i]).is_prefix_of(name)
}

/// The key under which a folder is found: its identifier, or zero for the
/// folder of the entries that are in no folder.
pub open spec fn folder_key(id: Option<u128>) -> u128 {
    match id {
        Some(k) => k,
        None => 0,
    }
}

/// The folders that the allow-list lets through, in their order.
pub open spec fn kept_folders(allow: Seq<Seq<char>>, folders: Seq<Folder>) -> Seq<Folder> {
    folders.filter(|f: Folder| folder_allowed(allow, f.name@))
}

/// The keys of the folders, in their order.
pub open spec fn folder_keys(folders: Seq<Folder>) -> Seq<u128> {
    folders.map_values(|f: Folder| folder_key(f.id))
}

/// The entries whose folder is among `keys`, in their order.
pub open spec fn kept_secrets(keys: Seq<u128>, secrets: Seq<Secret>) -> Seq<Secret> {
    secrets.filter(|s: Secret| keys.contains(folder_key(s.folder_id)))
}

/// Decides whether the allow-list lets a folder of this name through.
pub fn allowed(allow: &Vec<String>, name: &str) -> (r: bool)
    ensures
        r == folder_allowed(texts(allow@), name@),
{
    let mut i: usize = 0;
    while i < allow.len()
        invariant
            i <= allow.len(),
            forall|k: int| 0 <= k < i ==> !(#[trigger] texts(allow@)[k]).is_prefix_of(name@),
        decreases allow.len() - i,
    {
        if starts_with(name, allow[i].as_str()) {
            assert(texts(allow@)[i as int].is_prefix_of(name@));
            return true;
        }
        i += 1;
    }
    false
}

/// The key of a folder or of an entry's folder.
pub fn key_of(id: &Option<u128>) -> (k: u128)
    ensures
        k == folder_key(*id),
{
    match id {
        Some(k) => *k,
        None => 0,
    }
}

/// Whether `key` is among `keys`.
fn has_key(keys: &Vec<u128>, key: u128) -> (r: bool)
    ensures
        r == keys@.contains(key),
{
    let mut i: usize = 0;
    while i < keys.len()
        invariant
            i <= keys.len(),
            forall|k: int| 0 <= k < i ==> keys@[k] != key,
        decreases keys.len() - i,
    {
        if keys[i] == key {
            return true;
        }
        i += 1;
    }
    false
}

/// Keeps the folders that the allow-list lets through, in their order.
pub fn filter_names(allow: &Vec<String>, folders: &mut Vec<Folder>)
    ensures
        final(folders)@ == kept_folders(texts(allow@), old(folders)@),
{
    let ghost all = folders@;
    let ghost keep = |f: Folder| folder_allowed(texts(allow@), f.name@);
    let ghost done: int = 0;
    let mut i: usize = 0;
    proof {
        reveal_with_fuel(Seq::filter, 2);
        assert(all.take(0).filter(keep) == Seq::<Folder>::empty());
        assert(folders@ == all.take(0).filter(keep) + all.skip(0));
    }
    while i < folders.len()
        invariant
            keep == |f: Folder| folder_allowed(texts(allow@), f.name@),
            0 <= done <= all.len(),
            i == all.take(done).filter(keep).len(),
            folders@ == all.take(done).filter(keep) + all.skip(done),
        decreases all.len() - done,
    {
        proof {
            reveal_with_fuel(Seq::filter, 2);
            assert(folders@[i as int] == all[done]);
            assert(all.take(done + 1).drop_last() == all.take(done));
            assert(all.take(done + 1).last() == all[done]);
        }
        if allowed(allow, folders[i].name.as_str()) {
            proof {
                assert(folders@ == all.take(done + 1).filter(keep) + all.skip(done + 1));
            }
            i += 1;
        } else {
            folders.remove(i);
            proof {
                assert(folders@ == all.take(done + 1).filter(keep) + all.skip(done + 1));
            }
        }
        proof {
            done = done + 1;
        }
    }
    proof {
        assert(done == all.len());
        assert(all.take(done) == all);
        assert(all.skip(done) == Seq::<Folder>::empty());
    }
}

/// Keeps the entries whose folder is among `folder_ids`, in their order.
pub fn filter_folders(folder_ids: &Vec<u128>, secrets: &mut Vec<Secret>)
    ensures
        final(secrets)@ == kept_secrets(folder_ids@, old(secrets)@),
{
    let ghost all = secrets@;
    let ghost keep = |s: Secret| folder_ids@.contains(folder_key(s.folder_id));
    let ghost done: int = 0;
    let mut i: usize = 0;
    proof {
        reveal_with_fuel(Seq::filter, 2);
        assert(all.take(0).filter(keep) == Seq::<Secret>::empty());
        assert(secrets@ == all.take(0).filter(keep) + all.skip(0));
    }
    while i < secrets.len()
        invariant
            keep == |s: Secret| folder_ids@.contains(folder_key(s.folder_id)),
            0 <= done <= all.len(),
            i == all.take(done).filter(keep).len(),
            secrets@ == all.take(done).filter(keep) + all.skip(done),
        decreases all.len() - done,
    {
        proof {
            reveal_with_fuel(Seq::filter, 2);
            assert(secrets@[i as int] == all[done]);
            assert(all.take(done + 1).drop_last() == all.take(done));
            assert(all.take(done + 1).last() == all[done]);
        }
        if has_key(folder_ids, key_of(&secrets[i].folder_id)) {
            proof {
                assert(secrets@ == all.take(done + 1).filter(keep) + all.skip(done + 1));
            }
            i += 1;
        } else {
            secrets.remove(i);
            proof {
                assert(secrets@ == all.take(done + 1).filter(keep) + all.skip(done + 1));
            }
        }
        proof {
            done = done + 1;
        }
    }
    proof {
        assert(done == all.len());
        assert(all.take(done) == all);
        assert(all.skip(done) == Seq::<Secret>::empty());
    }
}

/// The tree after the directories `parts` were walked down from the root, and
/// the inode number of the last one. Each level is looked up under the name
/// that it is bound by, its sanitized name: it is taken where the name index
/// holds it and made where it does not.
pub open spec fn descend(tree: Tree, parts: Seq<Seq<char>>, stamp: SystemTime) -> (Tree, u64)
    decreases parts.len(),
{
    if parts.len() == 0 {
        (tree, ROOT)
    } else {
        let (t, parent) = descend(tree, parts.drop_last(), stamp);
        match t.names.get((parent, sanitized(parts.last()))) {
            Some(p) => (t, p),
            None => (t.add_dir(parent, parts.last(), stamp, stamp), t.next_inode() as u64),
        }
    }
}

/// The tree after a folder of this hierarchical name was added, and the inode
/// number of the folder's directory: the levels above the last are walked
/// down, the last is always made anew.
pub open spec fn add_folder(tree: Tree, name: Seq<char>, stamp: SystemTime) -> (Tree, u64) {
    let parts = path_segments(name);
    let (t, parent) = descend(tree, parts.drop_last(), stamp);
    (t.add_dir(parent, parts.last(), stamp, stamp), t.next_inode() as u64)
}

/// The tree after the folders were added in their order, and the inode number
/// of each folder's directory under the folder's key.
pub open spec fn add_folders(tree: Tree, folders: Seq<Folder>, stamp: SystemTime) -> (
    Tree,
    Map<u128, u64>,
)
    decreases folders.len(),
{
    if folders.len() == 0 {
        (tree, Map::empty())
    } else {
        let (t, m) = add_folders(tree, folders.drop_last(), stamp);
        let (t2, ino) = add_folder(t, folders.last().name@, stamp);
        (t2, m.insert(folder_key(folders.last().id), ino))
    }
}

/// An upper bound on the nodes that adding the folders makes: one for each
/// level of each name.
pub open spec fn folders_need(folders: Seq<Folder>) -> nat
    decreases folders.len(),
{
    if folders.len() == 0 {
        0
    } else {
        folders_need(folders.drop_last()) + path_segments(folders.last().name@).len()
    }
}

impl MapFS {
    /// Walks the first `count` of `parts` down from the root, making the
    /// directories that the name index does not hold.
    fn descend(&mut self, parts: &Vec<String>, count: usize, stamp: SystemTime) -> (r: u64)
        requires
            old(self).wf(),
            count <= parts.len(),
            old(self)@.nodes.len() + count <= u64::MAX,
        ensures
            final(self).wf(),
            (final(self)@, r) == descend(old(self)@, texts(parts@).take(count as int), stamp),
            old(self)@.nodes.len() <= final(self)@.nodes.len() <= old(self)@.nodes.len() + count,
    {
        let ghost start = self@;
        let mut parent: u64 = ROOT;
        let mut i: usize = 0;
        while i < count
            invariant
                self.wf(),
                i <= count <= parts.len(),
                start.nodes.len() + count <= u64::MAX,
                (self@, parent) == descend(start, texts(parts@).take(i as int), stamp),
                start.nodes.len() <= self@.nodes.len() <= start.nodes.len() + i,
            decreases count - i,
        {
            proof {
                let next = texts(parts@).take(i as int + 1);
                assert(next.drop_last() == texts(parts@).take(i as int));
                assert(next.last() == parts@[i as int]@);
            }
            match self.find(parent, sanitize_name(parts[i].as_str())) {
                Some(p) => {
                    parent = p;
                },
                None => {
                    parent = self.add_dir(parent, parts[i].clone(), stamp, stamp);
                },
            }
            i += 1;
        }
        parent
    }

    /// Adds a folder of this hierarchical name and returns the inode number
    /// of its directory.
    fn add_folder(&mut self, name: &str, stamp: SystemTime) -> (r: u64)
        requires
            old(self).wf(),
            old(self)@.nodes.len() + path_segments(name@).len() <= u64::MAX,
        ensures
            final(self).wf(),
            (final(self)@, r) == add_folder(old(self)@, name@, stamp),
            old(self)@.nodes.len() <= final(self)@.nodes.len() <= old(self)@.nodes.len()
                + path_segments(name@).len(),
    {
        let parts = split_path(name);
        let keep = parts.len() - 1;
        proof {
            assert(texts(parts@).take(keep as int) == path_segments(name@).drop_last());
            assert(texts(parts@)[keep as int] == parts@[keep as int]@);
        }
        let parent = self.descend(&parts, keep, stamp);
        self.add_dir(parent, parts[keep].clone(), stamp, stamp)
    }

    /// Adds the folders in their order and returns the inode number of each
    /// folder's directory under the folder's key.
    fn add_folders(&mut self, folders: &Vec<Folder>, stamp: SystemTime) -> (r: BTreeMap<u128, u64>)
        requires
            old(self).wf(),
            old(self)@.nodes.len() + folders_need(folders@) <= u64::MAX,
        ensures
            final(self).wf(),
            (final(self)@, r@) == add_folders(old(self)@, folders@, stamp),
            old(self)@.nodes.len() <= final(self)@.nodes.len() <= old(self)@.nodes.len()
                + folders_need(folders@),
    {
        let ghost start = self@;
        let mut map: BTreeMap<u128, u64> = BTreeMap::new();
        let mut i: usize = 0;
        while i < folders.len()
            invariant
                self.wf(),
                i <= folders.len(),
                start.nodes.len() + folders_need(folders@) <= u64::MAX,
                (self@, map@) == add_folders(start, folders@.take(i as int), stamp),
                start.nodes.len() <= self@.nodes.len() <= start.nodes.len() + folders_need(
                    folders@.take(i as int),
                ),
            decreases folders.len() - i,
        {
            proof {
                let next = folders@.take(i as int + 1);
                assert(next.drop_last() == folders@.take(i as int));
                assert(next.last() == folders@[i as int]);
                lemma_folders_need_take(folders@, i as int + 1);
            }
            let ino = self.add_folder(folders[i].name.as_str(), stamp);
            map.insert(key_of(&folders[i].id), ino);
            i += 1;
        }
        proof {
            assert(folders@.take(i as int) == folders@);
        }
        map
    }
}

/// The first folders need no more nodes than all of them.
pub proof fn lemma_folders_need_take(folders: Seq<Folder>, i: int)
    requires
        0 <= i <= folders.len(),
    ensures
        folders_need(folders.take(i)) <= folders_need(folders),
    decreases folders.len() - i,
{
    if i < folders.len() {
        lemma_folders_need_take(folders, i + 1);
        assert(folders.take(i + 1).drop_last() == folders.take(i));
    } else {
        assert(folders.take(i) == folders);
    }
}

/// The addresses of a login, or none.
pub open spec fn uris_of(login: Option<SecretLogin>) -> Seq<SecretLoginUri> {
    match login {
        Some(l) => match l.uris {
            Some(us) => us@,
            None => Seq::empty(),
        },
        None => Seq::empty(),
    }
}

/// The custom fields of an entry, or none.
pub open spec fn fields_of(fields: Option<Vec<SecretField>>) -> Seq<SecretField> {
    match fields {
        Some(fs) => fs@,
        None => Seq::empty(),
    }
}

/// The tree after one file for each address was added to the directory `dir`,
/// the files named by the positions of the addresses, counted from one.
pub open spec fn add_uris(
    tree: Tree,
    dir: u64,
    uris: Seq<SecretLoginUri>,
    ctime: SystemTime,
    mtime: SystemTime,
) -> Tree
    decreases uris.len(),
{
    if uris.len() == 0 {
        tree
    } else {
        add_uris(tree, dir, uris.drop_last(), ctime, mtime).add_file(
            dir,
            padded(uris.len()),
            uris.last().uri@,
            ctime,
            mtime,
        )
    }
}

/// The tree after one file for each custom field was added to the directory
/// `dir`, the files named by the fields.
pub open spec fn add_fields(
    tree: Tree,
    dir: u64,
    fields: Seq<SecretField>,
    ctime: SystemTime,
    mtime: SystemTime,
) -> Tree
    decreases fields.len(),
{
    if fields.len() == 0 {
        tree
    } else {
        add_fields(tree, dir, fields.drop_last(), ctime, mtime).add_file(
            dir,
            fields.last().name@,
            fields.last().value@,
            ctime,
            mtime,
        )
    }
}

/// The tree after the files of a login were added to the directory `dir`:
/// `username` and `password` where the login has them, and a directory `uris`
/// where it has addresses.
pub open spec fn add_login(
    tree: Tree,
    dir: u64,
    login: Option<SecretLogin>,
    ctime: SystemTime,
    mtime: SystemTime,
) -> Tree {
    match login {
        None => tree,
        Some(l) => {
            let t1 = match l.username {
                Some(u) => tree.add_file(dir, "username"@, u@, ctime, mtime),
                None => tree,
            };
            let t2 = match l.password {
                Some(p) => t1.add_file(dir, "password"@, p@, ctime, mtime),
                None => t1,
            };
            if uris_of(login).len() > 0 {
                add_uris(
                    t2.add_dir(dir, "uris"@, ctime, mtime),
                    t2.next_inode() as u64,
                    uris_of(login),
                    ctime,
                    mtime,
                )
            } else {
                t2
            }
        },
    }
}

/// The tree after an entry was added under the directory `folder`: a
/// directory named after the entry and stamped with its dates, which holds
/// the files `type` and `id`, the files of the login, `notes` where the entry
/// has notes, and a directory `fields` where it has custom fields.
pub open spec fn add_secret(tree: Tree, folder: u64, s: Secret) -> Tree {
    let ctime = system_time_of(s.creation_date);
    let mtime = system_time_of(s.revision_date);
    let dir = tree.next_inode() as u64;
    let t1 = tree.add_dir(folder, s.name@, ctime, mtime).add_file(
        dir,
        "type"@,
        s.kind.text(),
        ctime,
        mtime,
    );
    let t2 = add_login(t1, dir, s.login, ctime, mtime);
    let t3 = match s.notes {
        Some(n) => t2.add_file(dir, "notes"@, n@, ctime, mtime),
        None => t2,
    };
    let t4 = if fields_of(s.fields).len() > 0 {
        add_fields(
            t3.add_dir(dir, "fields"@, ctime, mtime),
            t3.next_inode() as u64,
            fields_of(s.fields),
            ctime,
            mtime,
        )
    } else {
        t3
    };
    t4.add_file(dir, "id"@, hyphenated(s.id), ctime, mtime)
}

/// The tree after the entries were added in their order, each under the
/// directory that `map` holds for the key of its folder.
pub open spec fn add_secrets(tree: Tree, map: Map<u128, u64>, secrets: Seq<Secret>) -> Tree
    decreases secrets.len(),
{
    if secrets.len() == 0 {
        tree
    } else {
        add_secret(
            add_secrets(tree, map, secrets.drop_last()),
            map[folder_key(secrets.last().folder_id)],
            secrets.last(),
        )
    }
}

/// An upper bound on the nodes that adding an entry makes.
pub open spec fn secret_need(s: Secret) -> nat {
    8 + uris_of(s.login).len() + fields_of(s.fields).len()
}

/// An upper bound on the nodes that adding the entries makes.
pub open spec fn secrets_need(secrets: Seq<Secret>) -> nat
    decreases secrets.len(),
{
    if secrets.len() == 0 {
        0
    } else {
        secrets_need(secrets.drop_last()) + secret_need(secrets.last())
    }
}

/// The first entries need no more nodes than all of them.
pub proof fn lemma_secrets_need_take(secrets: Seq<Secret>, i: int)
    requires
        0 <= i <= secrets.len(),
    ensures
        secrets_need(secrets.take(i)) <= secrets_need(secrets),
    decreases secrets.len() - i,
{
    if i < secrets.len() {
        lemma_secrets_need_take(secrets, i + 1);
        assert(secrets.take(i + 1).drop_last() == secrets.take(i));
    } else {
        assert(secrets.take(i) == secrets);
    }
}

impl MapFS {
    /// Adds one file for each address to the directory `dir`.
    fn add_uris(&mut self, dir: u64, uris: &Vec<SecretLoginUri>, ctime: SystemTime, mtime: SystemTime)
        requires
            old(self).wf(),
            old(self)@.nodes.len() + uris.len() <= u64::MAX,
        ensures
            final(self).wf(),
            final(self)@ == add_uris(old(self)@, dir, uris@, ctime, mtime),
            final(self)@.nodes.len() == old(self)@.nodes.len() + uris.len(),
    {
        let ghost start = self@;
        let mut i: usize = 0;
        while i < uris.len()
            invariant
                self.wf(),
                i <= uris.len(),
                start.nodes.len() + uris.len() <= u64::MAX,
                self@ == add_uris(start, dir, uris@.take(i as int), ctime, mtime),
                self@.nodes.len() == start.nodes.len() + i,
            decreases uris.len() - i,
        {
            proof {
                let next = uris@.take(i as int + 1);
                assert(next.drop_last() == uris@.take(i as int));
                assert(next.last() == uris@[i as int]);
            }
            self.add_file(dir, uri_file_name(i + 1), uris[i].uri.clone(), ctime, mtime);
            i += 1;
        }
        proof {
            assert(uris@.take(i as int) == uris@);
        }
    }

    /// Adds one file for each custom field to the directory `dir`.
    fn add_fields(&mut self, dir: u64, fields: &Vec<SecretField>, ctime: SystemTime, mtime: SystemTime)
        requires
            old(self).wf(),
            old(self)@.nodes.len() + fields.len() <= u64::MAX,
        ensures
            final(self).wf(),
            final(self)@ == add_fields(old(self)@, dir, fields@, ctime, mtime),
            final(self)@.nodes.len() == old(self)@.nodes.len() + fields.len(),
    {
        let ghost start = self@;
        let mut i: usize = 0;
        while i < fields.len()
            invariant
                self.wf(),
                i <= fields.len(),
                start.nodes.len() + fields.len() <= u64::MAX,
                self@ == add_fields(start, dir, fields@.take(i as int), ctime, mtime),
                self@.nodes.len() == start.nodes.len() + i,
            decreases fields.len() - i,
        {
            proof {
                let next = fields@.take(i as int + 1);
                assert(next.drop_last() == fields@.take(i as int));
                assert(next.last() == fields@[i as int]);
            }
            self.add_file(dir, fields[i].name.clone(), fields[i].value.clone(), ctime, mtime);
            i += 1;
        }
        proof {
            assert(fields@.take(i as int) == fields@);
        }
    }

    /// Adds the files of a login to the directory `dir`.
    fn add_login(&mut self, dir: u64, login: &Option<SecretLogin>, ctime: SystemTime, mtime: SystemTime)
        requires
            old(self).wf(),
            old(self)@.nodes.len() + 3 + uris_of(*login).len() <= u64::MAX,
        ensures
            final(self).wf(),
            final(self)@ == add_login(old(self)@, dir, *login, ctime, mtime),
            old(self)@.nodes.len() <= final(self)@.nodes.len() <= old(self)@.nodes.len() + 3
                + uris_of(*login).len(),
    {
        if let Some(l) = login {
            if let Some(username) = &l.username {
                self.add_file(dir, "username".to_owned(), username.clone(), ctime, mtime);
            }
            if let Some(password) = &l.password {
                self.add_file(dir, "password".to_owned(), password.clone(), ctime, mtime);
            }
            if let Some(uris) = &l.uris {
                if uris.len() > 0 {
                    let uris_dir = self.add_dir(dir, "uris".to_owned(), ctime, mtime);
                    self.add_uris(uris_dir, uris, ctime, mtime);
                }
            }
        }
    }

    /// Adds an entry under the directory `folder`.
    fn add_secret(&mut self, folder: u64, secret: &Secret)
        requires
            old(self).wf(),
            old(self)@.nodes.len() + secret_need(*secret) <= u64::MAX,
        ensures
            final(self).wf(),
            final(self)@ == add_secret(old(self)@, folder, *secret),
            old(self)@.nodes.len() <= final(self)@.nodes.len() <= old(self)@.nodes.len()
                + secret_need(*secret),
    {
        let ctime = system_time(secret.creation_date);
        let mtime = system_time(secret.revision_date);
        let dir = self.add_dir(folder, secret.name.clone(), ctime, mtime);
        self.add_file(dir, "type".to_owned(), secret.kind.to_string(), ctime, mtime);
        self.add_login(dir, &secret.login, ctime, mtime);
        if let Some(notes) = &secret.notes {
            self.add_file(dir, "notes".to_owned(), notes.clone(), ctime, mtime);
        }
        if let Some(fields) = &secret.fields {
            if fields.len() > 0 {
                let fields_dir = self.add_dir(dir, "fields".to_owned(), ctime, mtime);
                self.add_fields(fields_dir, fields, ctime, mtime);
            }
        }
        self.add_file(dir, "id".to_owned(), id_text(secret.id), ctime, mtime);
    }
}

/// The tree that is built from folders and entries which the filters have let
/// through: the next generation of `tree`, with the folders and then the
/// entries added.
pub open spec fn built(tree: Tree, folders: Seq<Folder>, secrets: Seq<Secret>, stamp: SystemTime) -> Tree {
    let (t, map) = add_folders(tree.clear(), folders, stamp);
    add_secrets(t, map, secrets)
}

/// The tree after a synchronization with what the vault holds: built from the
/// folders that the allow-list of `tree` lets through and from the entries of
/// those folders. The directories of the folders are stamped with `stamp`.
pub open spec fn synced(tree: Tree, folders: Seq<Folder>, secrets: Seq<Secret>, stamp: SystemTime) -> Tree {
    let kept = kept_folders(tree.folders, folders);
    built(tree, kept, kept_secrets(folder_keys(kept), secrets), stamp)
}

/// An upper bound on the nodes of the tree after a synchronization.
pub open spec fn sync_need(allow: Seq<Seq<char>>, folders: Seq<Folder>, secrets: Seq<Secret>) -> nat {
    let kept = kept_folders(allow, folders);
    1 + folders_need(kept) + secrets_need(kept_secrets(folder_keys(kept), secrets))
}

/// Whether a synchronization has the numbers it needs: a next generation
/// number, and an inode number for every node.
pub open spec fn sync_fits(tree: Tree, folders: Seq<Folder>, secrets: Seq<Secret>) -> bool {
    tree.generation < u64::MAX && sync_need(tree.folders, folders, secrets) <= u64::MAX
}

/// Whether the vault is known to be unlocked.
pub open spec fn vault_unlocked(status: Option<Status>) -> bool {
    status matches Some(s) && s.status@ == "unlocked"@
}

/// Decides whether the folders and entries of the vault are to be listed for
/// a synchronization: only where the vault is known to be unlocked. A status
/// that could not be read counts as locked.
pub fn wants_listing(status: &Option<Status>) -> (r: bool)
    ensures
        r == vault_unlocked(*status),
{
    match status {
        Some(s) => s.is_unlocked(),
        None => false,
    }
}

/// Adding folders binds exactly the keys of the folders.
pub proof fn lemma_folder_map(tree: Tree, folders: Seq<Folder>, stamp: SystemTime)
    ensures
        forall|k: u128| #[trigger]
            add_folders(tree, folders, stamp).1.contains_key(k) <==> folder_keys(folders).contains(k),
    decreases folders.len(),
{
    if folders.len() > 0 {
        let front = folders.drop_last();
        lemma_folder_map(tree, front, stamp);
        let last_key = folder_key(folders.last().id);
        assert forall|k: u128| #[trigger]
            add_folders(tree, folders, stamp).1.contains_key(k) <==> folder_keys(folders).contains(
                k,
            ) by {
            if folder_keys(folders).contains(k) {
                let i = choose|i: int| 0 <= i < folders.len() && folder_keys(folders)[i] == k;
                if i < front.len() {
                    assert(folder_keys(front)[i] == k);
                }
            }
            if add_folders(tree, front, stamp).1.contains_key(k) {
                let i = choose|i: int| 0 <= i < front.len() && folder_keys(front)[i] == k;
                assert(folder_keys(folders)[i] == k);
            }
            if k == last_key {
                assert(folder_keys(folders)[folders.len() - 1] == k);
            }
        }
    }
}

/// Why a synchronization did not take place.
#[derive(Clone, Copy, PartialEq, Eq, Debug, Structural)]
pub enum SyncError {
    /// The vault is locked, or its status could not be read.
    Locked,
    /// The tree has run out of generation numbers or of inode numbers.
    OutOfNumbers,
}

impl SyncError {
    /// The reason in words.
    pub open spec fn text(self) -> Seq<char> {
        match self {
            SyncError::Locked => "BWCLI is locked"@,
            SyncError::OutOfNumbers => "the tree has run out of numbers"@,
        }
    }

    /// The reason in words.
    pub fn to_string(&self) -> (s: String)
        ensures
            s@ == self.text(),
    {
        match self {
            SyncError::Locked => "BWCLI is locked".to_owned(),
            SyncError::OutOfNumbers => "the tree has run out of numbers".to_owned(),
        }
    }
}

/// The keys of the folders, in their order.
fn keys_of(folders: &Vec<Folder>) -> (keys: Vec<u128>)
    ensures
        keys@ == folder_keys(folders@),
{
    let mut keys: Vec<u128> = Vec::new();
    let mut i: usize = 0;
    while i < folders.len()
        invariant
            i <= folders.len(),
            keys@ == folder_keys(folders@.take(i as int)),
        decreases folders.len() - i,
    {
        keys.push(key_of(&folders[i].id));
        proof {
            assert(keys@ == folder_keys(folders@.take(i as int + 1)));
        }
        i += 1;
    }
    proof {
        assert(folders@.take(i as int) == folders@);
    }
    keys
}

/// Counts the nodes that the folders and the entries need, as far as the
/// count can be held.
fn count_need(folders: &Vec<Folder>, secrets: &Vec<Secret>) -> (r: Option<u64>)
    ensures
        r matches Some(n) ==> n == folders_need(folders@) + secrets_need(secrets@),
        r is None ==> folders_need(folders@) + secrets_need(secrets@) > u64::MAX,
{
    let mut total: u64 = 0;
    let mut i: usize = 0;
    while i < folders.len()
        invariant
            i <= folders.len(),
            total == folders_need(folders@.take(i as int)),
        decreases folders.len() - i,
    {
        proof {
            assert(folders@.take(i as int + 1).drop_last() == folders@.take(i as int));
            lemma_folders_need_take(folders@, i as int + 1);
        }
        let levels = split_path(folders[i].name.as_str()).len() as u64;
        match total.checked_add(levels) {
            Some(t) => {
                total = t;
            },
            None => {
                return None;
            },
        }
        i += 1;
    }
    proof {
        assert(folders@.take(i as int) == folders@);
    }
    let ghost base = total;
    let mut j: usize = 0;
    while j < secrets.len()
        invariant
            j <= secrets.len(),
            base == folders_need(folders@),
            total == base + secrets_need(secrets@.take(j as int)),
        decreases secrets.len() - j,
    {
        proof {
            assert(secrets@.take(j as int + 1).drop_last() == secrets@.take(j as int));
            lemma_secrets_need_take(secrets@, j as int + 1);
        }
        let uris: u64 = match &secrets[j].login {
            Some(l) => match &l.uris {
                Some(us) => us.len() as u64,
                None => 0,
            },
            None => 0,
        };
        let fields: u64 = match &secrets[j].fields {
            Some(fs) => fs.len() as u64,
            None => 0,
        };
        let own = match uris.checked_add(fields) {
            Some(n) => n.checked_add(8),
            None => None,
        };
        let next = match own {
            Some(n) => total.checked_add(n),
            None => None,
        };
        match next {
            Some(t) => {
                total = t;
            },
            None => {
                return None;
            },
        }
        j += 1;
    }
    proof {
        assert(secrets@.take(j as int) == secrets@);
    }
    Some(total)
}

impl MapFS {
    /// Adds the entries in their order, each under the directory that `map`
    /// holds for the key of its folder.
    fn add_secrets(&mut self, map: &BTreeMap<u128, u64>, secrets: &Vec<Secret>)
        requires
            old(self).wf(),
            forall|i: int|
                0 <= i < secrets.len() ==> map@.contains_key(
                    folder_key((#[trigger] secrets@[i]).folder_id),
                ),
            old(self)@.nodes.len() + secrets_need(secrets@) <= u64::MAX,
        ensures
            final(self).wf(),
            final(self)@ == add_secrets(old(self)@, map@, secrets@),
    {
        let ghost start = self@;
        let mut i: usize = 0;
        while i < secrets.len()
            invariant
                self.wf(),
                i <= secrets.len(),
                forall|k: int|
                    0 <= k < secrets.len() ==> map@.contains_key(
                        folder_key((#[trigger] secrets@[k]).folder_id),
                    ),
                start.nodes.len() + secrets_need(secrets@) <= u64::MAX,
                self@ == add_secrets(start, map@, secrets@.take(i as int)),
                self@.nodes.len() <= start.nodes.len() + secrets_need(secrets@.take(i as int)),
            decreases secrets.len() - i,
        {
            proof {
                let next = secrets@.take(i as int + 1);
                assert(next.drop_last() == secrets@.take(i as int));
                assert(next.last() == secrets@[i as int]);
                lemma_secrets_need_take(secrets@, i as int + 1);
            }
            let key = key_of(&secrets[i].folder_id);
            match map.get(&key) {
                Some(folder) => {
                    let folder = *folder;
                    self.add_secret(folder, &secrets[i]);
                },
                None => {
                    assert(false);
                },
            }
            i += 1;
        }
        proof {
            assert(secrets@.take(i as int) == secrets@);
        }
    }

    /// Builds the next generation of the tree from folders and entries that
    /// the filters have let through.
    fn build(&mut self, folders: &Vec<Folder>, secrets: &Vec<Secret>, stamp: SystemTime)
        requires
            old(self).wf(),
            old(self)@.generation < u64::MAX,
            1 + folders_need(folders@) + secrets_need(secrets@) <= u64::MAX,
            forall|i: int|
                0 <= i < secrets.len() ==> folder_keys(folders@).contains(
                    folder_key((#[trigger] secrets@[i]).folder_id),
                ),
        ensures
            final(self).wf(),
            final(self)@ == built(old(self)@, folders@, secrets@, stamp),
    {
        self.clear();
        let ghost cleared = self@;
        let map = self.add_folders(folders, stamp);
        proof {
            lemma_folder_map(cleared, folders@, stamp);
            assert forall|i: int| 0 <= i < secrets.len() implies map@.contains_key(
                folder_key((#[trigger] secrets@[i]).folder_id),
            ) by {
                let k = folder_key(secrets@[i].folder_id);
                assert(add_folders(cleared, folders@, stamp).1.contains_key(k));
            }
        }
        self.add_secrets(&map, secrets);
    }

    /// Rebuilds the tree from what the vault holds: starts the next
    /// generation, adds the folders that the allow-list lets through, one
    /// directory for each level of a folder's name, and adds the entries of
    /// those folders. The directories of the folders are stamped with
    /// `stamp`.
    pub fn rebuild(&mut self, folders: Vec<Folder>, secrets: Vec<Secret>, stamp: SystemTime)
        requires
            old(self).wf(),
            sync_fits(old(self)@, folders@, secrets@),
        ensures
            final(self).wf(),
            final(self)@ == synced(old(self)@, folders@, secrets@, stamp),
    {
        let ghost all = secrets@;
        let mut kept = folders;
        let mut held = secrets;
        filter_names(self.folders(), &mut kept);
        let keys = keys_of(&kept);
        filter_folders(&keys, &mut held);
        proof {
            lemma_kept_keys(keys@, all);
        }
        self.build(&kept, &held, stamp);
    }

    /// Synchronizes the tree with the vault. Where the vault is not known to
    /// be unlocked, or the tree has not the numbers that the rebuilding
    /// needs, the tree stays as it is and the reason is returned; else the
    /// tree is rebuilt, the directories of the folders stamped with the time
    /// of the call.
    pub fn refresh(&mut self, status: Option<Status>, folders: Vec<Folder>, secrets: Vec<Secret>) -> (r:
        Result<(), SyncError>)
        requires
            old(self).wf(),
        ensures
            final(self).wf(),
            r is Ok <==> vault_unlocked(status) && sync_fits(old(self)@, folders@, secrets@),
            r == Err::<(), SyncError>(SyncError::Locked) <==> !vault_unlocked(status),
            r is Err ==> final(self)@ == old(self)@,
            r is Ok ==> exists|stamp: SystemTime|
                final(self)@ == #[trigger] synced(old(self)@, folders@, secrets@, stamp),
    {
        let ghost before = self@;
        let ghost all_folders = folders@;
        let ghost all = secrets@;
        if !wants_listing(&status) {
            return Err(SyncError::Locked);
        }
        let mut kept = folders;
        let mut held = secrets;
        filter_names(self.folders(), &mut kept);
        let keys = keys_of(&kept);
        filter_folders(&keys, &mut held);
        proof {
            lemma_kept_keys(keys@, all);
        }
        if self.generation() == u64::MAX {
            return Err(SyncError::OutOfNumbers);
        }
        match count_need(&kept, &held) {
            Some(n) => {
                if n == u64::MAX {
                    return Err(SyncError::OutOfNumbers);
                }
            },
            None => {
                return Err(SyncError::OutOfNumbers);
            },
        }
        let stamp = crate::clock::now();
        self.build(&kept, &held, stamp);
        proof {
            assert(self@ == synced(before, all_folders, all, stamp));
        }
        Ok(())
    }
}

/// The folder of every entry that the filter lets through is among the keys.
pub proof fn lemma_kept_keys(keys: Seq<u128>, secrets: Seq<Secret>)
    ensures
        forall|i: int|
            0 <= i < kept_secrets(keys, secrets).len() ==> keys.contains(
                folder_key((#[trigger] kept_secrets(keys, secrets)[i]).folder_id),
            ),
{
    let keep = |s: Secret| keys.contains(folder_key(s.folder_id));
    assert forall|i: int| 0 <= i < kept_secrets(keys, secrets).len() implies keys.contains(
        folder_key((#[trigger] kept_secrets(keys, secrets)[i]).folder_id),
    ) by {
        secrets.lemma_filter_pred(keep, i);
    }
}

} // verus!
