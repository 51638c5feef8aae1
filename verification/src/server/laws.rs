//! What holds of the tree whatever is done with it.

use std::time::SystemTime;
use vstd::prelude::*;
use crate::names::{lemma_path_segments, lemma_sanitized_is_sanitized, path_segments, sanitized};
use crate::server::entry::Node;
use crate::server::bwclient::{Folder, Secret, SecretField, SecretLogin, SecretLoginUri};
use crate::server::lifecycle::{supervisor_next, LockEvent, Supervisor};
use crate::server::mapfs::{lemma_add_wf, lemma_clear_wf, Tree, ROOT};
use crate::server::{token_after, tree_after};
use crate::server::sync::{
    add_fields,
    add_folder,
    add_folders,
    add_login,
    add_secret,
    add_secrets,
    add_uris,
    descend,
    fields_of,
    folder_allowed,
    folders_need,
    folder_key,
    folder_keys,
    kept_folders,
    kept_secrets,
    lemma_kept_keys,
    padded,
    synced,
    uris_of,
};

verus! {

/// One addition to the tree.
pub enum Op {
    /// A directory is added.
    Dir { parent: u64, name: Seq<char>, ctime: SystemTime, mtime: SystemTime },
    /// A file is added.
    File { parent: u64, name: Seq<char>, content: Seq<char>, ctime: SystemTime, mtime: SystemTime },
}

impl Op {
    /// The directory that the node is added to.
    pub open spec fn parent(self) -> u64 {
        match self {
            Op::Dir { parent, .. } => parent,
            Op::File { parent, .. } => parent,
        }
    }

    /// The name that the node is added under, as it was given.
    pub open spec fn name(self) -> Seq<char> {
        match self {
            Op::Dir { name, .. } => name,
            Op::File { name, .. } => name,
        }
    }

    /// The tree after the addition.
    pub open spec fn apply(self, tree: Tree) -> Tree {
        match self {
            Op::Dir { parent, name, ctime, mtime } => tree.add_dir(parent, name, ctime, mtime),
            Op::File { parent, name, content, ctime, mtime } => tree.add_file(
                parent,
                name,
                content,
                ctime,
                mtime,
            ),
        }
    }

    /// Whether the addition binds the pair `key` of a parent and a name in
    /// `tree`: the parent is a directory of the tree, and the name is the
    /// sanitized name of the addition.
    pub open spec fn binds(self, tree: Tree, key: (u64, Seq<char>)) -> bool {
        tree.is_dir(self.parent()) && key == (self.parent(), sanitized(self.name()))
    }
}

/// The tree after the additions, in their order.
pub open spec fn run(tree: Tree, ops: Seq<Op>) -> Tree
    decreases ops.len(),
{
    if ops.len() == 0 {
        tree
    } else {
        ops.last().apply(run(tree, ops.drop_last()))
    }
}

/// The inode number that the addition at position `i` returns.
pub open spec fn inode_of(tree: Tree, ops: Seq<Op>, i: int) -> nat {
    run(tree, ops.take(i)).next_inode()
}

/// The inode number that was bound to `key` last: by the last addition that
/// binds it, or by the tree as it was where none does.
pub open spec fn last_bound(tree: Tree, ops: Seq<Op>, key: (u64, Seq<char>)) -> Option<u64>
    decreases ops.len(),
{
    if ops.len() == 0 {
        tree.names.get(key)
    } else {
        let before = run(tree, ops.drop_last());
        if ops.last().binds(before, key) {
            Some(before.next_inode() as u64)
        } else {
            last_bound(tree, ops.drop_last(), key)
        }
    }
}

/// Additions keep the invariant of the tree, and each makes one node.
pub proof fn lemma_run_wf(tree: Tree, ops: Seq<Op>)
    requires
        tree.wf(),
        tree.nodes.len() + ops.len() <= u64::MAX,
    ensures
        run(tree, ops).wf(),
        run(tree, ops).nodes.len() == tree.nodes.len() + ops.len(),
    decreases ops.len(),
{
    if ops.len() > 0 {
        let before = run(tree, ops.drop_last());
        lemma_run_wf(tree, ops.drop_last());
        let op = ops.last();
        lemma_sanitized_is_sanitized(op.name());
        match op {
            Op::Dir { parent, name, ctime, mtime } => {
                lemma_add_wf(before, parent, sanitized(name), Node::empty_dir(ctime, mtime));
            },
            Op::File { parent, name, content, ctime, mtime } => {
                lemma_add_wf(before, parent, sanitized(name), Node::File { content, ctime, mtime });
            },
        }
    }
}

/// Every addition returns an inode number of its own: one that the tree did
/// not hold before, greater than all that were returned before it.
pub proof fn lemma_inodes_unique(tree: Tree, ops: Seq<Op>, i: int, j: int)
    requires
        tree.wf(),
        tree.nodes.len() + ops.len() <= u64::MAX,
        0 <= i < j < ops.len(),
    ensures
        inode_of(tree, ops, i) == tree.nodes.len() + i + 1,
        inode_of(tree, ops, i) < inode_of(tree, ops, j),
        !tree.nodes.contains_key(inode_of(tree, ops, i) as u64),
        run(tree, ops).nodes.contains_key(inode_of(tree, ops, i) as u64),
{
    lemma_run_wf(tree, ops.take(i));
    lemma_run_wf(tree, ops.take(j));
    lemma_run_wf(tree, ops);
}

/// After any additions, the name index holds for each pair of a parent and a
/// name the inode number that was bound to the pair last.
pub proof fn lemma_find_last_bound(tree: Tree, ops: Seq<Op>, key: (u64, Seq<char>))
    ensures
        run(tree, ops).names.get(key) == last_bound(tree, ops, key),
    decreases ops.len(),
{
    if ops.len() > 0 {
        lemma_find_last_bound(tree, ops.drop_last(), key);
    }
}

/// Clearing leaves the root alone in the tree: no other inode number leads to
/// a node, no name is bound, no handle is left, and the generation has gone
/// up.
pub proof fn lemma_clear_leaves_root(tree: Tree)
    requires
        tree.wf(),
        tree.generation < u64::MAX,
    ensures
        tree.clear().wf(),
        forall|ino: u64| #[trigger] tree.clear().nodes.contains_key(ino) <==> ino == ROOT,
        tree.clear().is_dir(ROOT),
        tree.clear().children(ROOT) == Map::<Seq<char>, u64>::empty(),
        forall|key: (u64, Seq<char>)| !(#[trigger] tree.clear().names.contains_key(key)),
        forall|ino: u64| !(#[trigger] tree.clear().handles.contains_key(ino)),
        tree.clear().generation > tree.generation,
{
    lemma_clear_wf(tree);
}

/// Auto-lock: after an unlock that no further notice follows, once the idle
/// period is over and the vault still unlocked, the supervisor's action
/// leaves the tree with the root alone, a directory without children: no
/// other inode number leads to a node, no name is bound and no handle is
/// left. The session has forgotten its token.
pub proof fn lemma_auto_lock_leaves_root(tree: Tree, token: Option<Seq<char>>, lock_after_s: u64)
    requires
        tree.wf(),
        tree.generation < u64::MAX,
    ensures
        ({
            let s1 = supervisor_next(Supervisor::Idle, LockEvent::Notified, lock_after_s);
            let s2 = supervisor_next(s1.0, LockEvent::Status { unlocked: true }, lock_after_s);
            let s3 = supervisor_next(s2.0, LockEvent::Elapsed, lock_after_s);
            let s4 = supervisor_next(s3.0, LockEvent::Status { unlocked: true }, lock_after_s);
            let after = tree_after(tree_after(tree_after(tree_after(tree, s1.1), s2.1), s3.1), s4.1);
            &&& after.wf()
            &&& forall|ino: u64| #[trigger] after.nodes.contains_key(ino) <==> ino == ROOT
            &&& after.is_dir(ROOT)
            &&& after.children(ROOT) == Map::<Seq<char>, u64>::empty()
            &&& forall|key: (u64, Seq<char>)| !(#[trigger] after.names.contains_key(key))
            &&& forall|ino: u64| !(#[trigger] after.handles.contains_key(ino))
            &&& after.generation > tree.generation
            &&& token_after(
                token_after(token_after(token_after(token, s1.1), s2.1), s3.1),
                s4.1,
            ) is None
        }),
{
    lemma_clear_leaves_root(tree);
}

/// Whether two nodes are of one kind and hold the same: the same children, or
/// the same payload. Their time stamps may differ.
pub open spec fn same_node(x: Node, y: Node) -> bool {
    match (x, y) {
        (Node::Dir { children: c1, .. }, Node::Dir { children: c2, .. }) => c1 == c2,
        (Node::File { content: a, .. }, Node::File { content: b, .. }) => a == b,
        _ => false,
    }
}

/// Whether two trees show the same: the same inode numbers lead to nodes that
/// hold the same, and the same names are bound to the same inode numbers. So
/// the same paths lead to the same contents. Time stamps, generations and
/// handles may differ.
pub open spec fn same_shape(a: Tree, b: Tree) -> bool {
    &&& a.nodes.dom() == b.nodes.dom()
    &&& forall|i: u64| #[trigger] a.nodes.contains_key(i) ==> same_node(a.nodes[i], b.nodes[i])
    &&& a.names == b.names
}

/// The same addition to trees that show the same gives trees that show the
/// same.
pub proof fn lemma_add_shape(a: Tree, b: Tree, parent: u64, name: Seq<char>, x: Node, y: Node)
    requires
        same_shape(a, b),
        same_node(x, y),
    ensures
        same_shape(a.add(parent, name, x), b.add(parent, name, y)),
        a.next_inode() == b.next_inode(),
        a.add(parent, name, x).generation == a.generation,
        a.add(parent, name, x).folders == a.folders,
{
    let a2 = a.add(parent, name, x);
    let b2 = b.add(parent, name, y);
    if a.nodes.contains_key(parent) {
        assert(same_node(a.nodes[parent], b.nodes[parent]));
    }
    assert(a2.nodes.dom() =~= b2.nodes.dom());
    assert forall|i: u64| #[trigger] a2.nodes.contains_key(i) implies same_node(
        a2.nodes[i],
        b2.nodes[i],
    ) by {
        if i != a.next_inode() as u64 && i != parent {
            assert(a.nodes.contains_key(i));
        }
    }
}

/// Walking the same directories down in trees that show the same ends at the
/// same directory, in trees that show the same.
pub proof fn lemma_descend_shape(a: Tree, b: Tree, parts: Seq<Seq<char>>, s1: SystemTime, s2: SystemTime)
    requires
        same_shape(a, b),
    ensures
        same_shape(descend(a, parts, s1).0, descend(b, parts, s2).0),
        descend(a, parts, s1).1 == descend(b, parts, s2).1,
        descend(a, parts, s1).0.generation == a.generation,
        descend(a, parts, s1).0.folders == a.folders,
    decreases parts.len(),
{
    if parts.len() > 0 {
        lemma_descend_shape(a, b, parts.drop_last(), s1, s2);
        let (ta, pa) = descend(a, parts.drop_last(), s1);
        let (tb, pb) = descend(b, parts.drop_last(), s2);
        lemma_add_shape(
            ta,
            tb,
            pa,
            sanitized(parts.last()),
            Node::empty_dir(s1, s1),
            Node::empty_dir(s2, s2),
        );
    }
}

/// Adding the same folder to trees that show the same gives trees that show
/// the same, and the same inode number for the folder.
pub proof fn lemma_add_folder_shape(a: Tree, b: Tree, name: Seq<char>, s1: SystemTime, s2: SystemTime)
    requires
        same_shape(a, b),
    ensures
        same_shape(add_folder(a, name, s1).0, add_folder(b, name, s2).0),
        add_folder(a, name, s1).1 == add_folder(b, name, s2).1,
        add_folder(a, name, s1).0.generation == a.generation,
        add_folder(a, name, s1).0.folders == a.folders,
{
    let parts = path_segments(name);
    lemma_descend_shape(a, b, parts.drop_last(), s1, s2);
    let (ta, pa) = descend(a, parts.drop_last(), s1);
    let (tb, pb) = descend(b, parts.drop_last(), s2);
    lemma_add_shape(
        ta,
        tb,
        pa,
        sanitized(parts.last()),
        Node::empty_dir(s1, s1),
        Node::empty_dir(s2, s2),
    );
}

/// Adding the same folders to trees that show the same gives trees that show
/// the same, and the same directory for each folder.
pub proof fn lemma_add_folders_shape(a: Tree, b: Tree, folders: Seq<Folder>, s1: SystemTime, s2: SystemTime)
    requires
        same_shape(a, b),
    ensures
        same_shape(add_folders(a, folders, s1).0, add_folders(b, folders, s2).0),
        add_folders(a, folders, s1).1 == add_folders(b, folders, s2).1,
        add_folders(a, folders, s1).0.generation == a.generation,
        add_folders(a, folders, s1).0.folders == a.folders,
    decreases folders.len(),
{
    if folders.len() > 0 {
        lemma_add_folders_shape(a, b, folders.drop_last(), s1, s2);
        lemma_add_folder_shape(
            add_folders(a, folders.drop_last(), s1).0,
            add_folders(b, folders.drop_last(), s2).0,
            folders.last().name@,
            s1,
            s2,
        );
    }
}

/// Adding a file to trees that show the same gives trees that show the same.
pub proof fn lemma_add_file_shape(
    a: Tree,
    b: Tree,
    dir: u64,
    name: Seq<char>,
    content: Seq<char>,
    c: SystemTime,
    m: SystemTime,
)
    requires
        same_shape(a, b),
    ensures
        same_shape(a.add_file(dir, name, content, c, m), b.add_file(dir, name, content, c, m)),
        a.add_file(dir, name, content, c, m).generation == a.generation,
        a.add_file(dir, name, content, c, m).folders == a.folders,
{
    lemma_add_shape(
        a,
        b,
        dir,
        sanitized(name),
        Node::File { content, ctime: c, mtime: m },
        Node::File { content, ctime: c, mtime: m },
    );
}

/// Adding a directory to trees that show the same gives trees that show the
/// same.
pub proof fn lemma_add_dir_shape(a: Tree, b: Tree, dir: u64, name: Seq<char>, c: SystemTime, m: SystemTime)
    requires
        same_shape(a, b),
    ensures
        same_shape(a.add_dir(dir, name, c, m), b.add_dir(dir, name, c, m)),
        a.next_inode() == b.next_inode(),
        a.add_dir(dir, name, c, m).generation == a.generation,
        a.add_dir(dir, name, c, m).folders == a.folders,
{
    lemma_add_shape(a, b, dir, sanitized(name), Node::empty_dir(c, m), Node::empty_dir(c, m));
}

/// Adding the same addresses to trees that show the same gives trees that
/// show the same.
pub proof fn lemma_add_uris_shape(
    a: Tree,
    b: Tree,
    dir: u64,
    uris: Seq<SecretLoginUri>,
    c: SystemTime,
    m: SystemTime,
)
    requires
        same_shape(a, b),
    ensures
        same_shape(add_uris(a, dir, uris, c, m), add_uris(b, dir, uris, c, m)),
        add_uris(a, dir, uris, c, m).generation == a.generation,
        add_uris(a, dir, uris, c, m).folders == a.folders,
    decreases uris.len(),
{
    if uris.len() > 0 {
        lemma_add_uris_shape(a, b, dir, uris.drop_last(), c, m);
        lemma_add_file_shape(
            add_uris(a, dir, uris.drop_last(), c, m),
            add_uris(b, dir, uris.drop_last(), c, m),
            dir,
            padded(uris.len()),
            uris.last().uri@,
            c,
            m,
        );
    }
}

/// Adding the same custom fields to trees that show the same gives trees that
/// show the same.
pub proof fn lemma_add_fields_shape(
    a: Tree,
    b: Tree,
    dir: u64,
    fields: Seq<SecretField>,
    c: SystemTime,
    m: SystemTime,
)
    requires
        same_shape(a, b),
    ensures
        same_shape(add_fields(a, dir, fields, c, m), add_fields(b, dir, fields, c, m)),
        add_fields(a, dir, fields, c, m).generation == a.generation,
        add_fields(a, dir, fields, c, m).folders == a.folders,
    decreases fields.len(),
{
    if fields.len() > 0 {
        lemma_add_fields_shape(a, b, dir, fields.drop_last(), c, m);
        lemma_add_file_shape(
            add_fields(a, dir, fields.drop_last(), c, m),
            add_fields(b, dir, fields.drop_last(), c, m),
            dir,
            fields.last().name@,
            fields.last().value@,
            c,
            m,
        );
    }
}

/// Adding the same login to trees that show the same gives trees that show
/// the same.
pub proof fn lemma_add_login_shape(
    a: Tree,
    b: Tree,
    dir: u64,
    login: Option<SecretLogin>,
    c: SystemTime,
    m: SystemTime,
)
    requires
        same_shape(a, b),
    ensures
        same_shape(add_login(a, dir, login, c, m), add_login(b, dir, login, c, m)),
        add_login(a, dir, login, c, m).generation == a.generation,
        add_login(a, dir, login, c, m).folders == a.folders,
{
    if let Some(l) = login {
        let a1 = match l.username {
            Some(u) => a.add_file(dir, "username"@, u@, c, m),
            None => a,
        };
        let b1 = match l.username {
            Some(u) => b.add_file(dir, "username"@, u@, c, m),
            None => b,
        };
        if let Some(u) = l.username {
            lemma_add_file_shape(a, b, dir, "username"@, u@, c, m);
        }
        let a2 = match l.password {
            Some(p) => a1.add_file(dir, "password"@, p@, c, m),
            None => a1,
        };
        let b2 = match l.password {
            Some(p) => b1.add_file(dir, "password"@, p@, c, m),
            None => b1,
        };
        if let Some(p) = l.password {
            lemma_add_file_shape(a1, b1, dir, "password"@, p@, c, m);
        }
        let uris = uris_of(login);
        if uris.len() > 0 {
            lemma_add_dir_shape(a2, b2, dir, "uris"@, c, m);
            lemma_add_uris_shape(
                a2.add_dir(dir, "uris"@, c, m),
                b2.add_dir(dir, "uris"@, c, m),
                a2.next_inode() as u64,
                uris,
                c,
                m,
            );
        }
    }
}

/// Adding the same entry to trees that show the same gives trees that show
/// the same.
pub proof fn lemma_add_secret_shape(a: Tree, b: Tree, folder: u64, s: Secret)
    requires
        same_shape(a, b),
    ensures
        same_shape(add_secret(a, folder, s), add_secret(b, folder, s)),
        add_secret(a, folder, s).generation == a.generation,
        add_secret(a, folder, s).folders == a.folders,
{
    let c = crate::server::bwclient::system_time_of(s.creation_date);
    let m = crate::server::bwclient::system_time_of(s.revision_date);
    let dir = a.next_inode() as u64;
    lemma_add_dir_shape(a, b, folder, s.name@, c, m);
    let a0 = a.add_dir(folder, s.name@, c, m);
    let b0 = b.add_dir(folder, s.name@, c, m);
    lemma_add_file_shape(a0, b0, dir, "type"@, s.kind.text(), c, m);
    let a1 = a0.add_file(dir, "type"@, s.kind.text(), c, m);
    let b1 = b0.add_file(dir, "type"@, s.kind.text(), c, m);
    lemma_add_login_shape(a1, b1, dir, s.login, c, m);
    let a2 = add_login(a1, dir, s.login, c, m);
    let b2 = add_login(b1, dir, s.login, c, m);
    let a3 = match s.notes {
        Some(n) => a2.add_file(dir, "notes"@, n@, c, m),
        None => a2,
    };
    let b3 = match s.notes {
        Some(n) => b2.add_file(dir, "notes"@, n@, c, m),
        None => b2,
    };
    if let Some(n) = s.notes {
        lemma_add_file_shape(a2, b2, dir, "notes"@, n@, c, m);
    }
    let fields = fields_of(s.fields);
    let a4 = if fields.len() > 0 {
        add_fields(a3.add_dir(dir, "fields"@, c, m), a3.next_inode() as u64, fields, c, m)
    } else {
        a3
    };
    let b4 = if fields.len() > 0 {
        add_fields(b3.add_dir(dir, "fields"@, c, m), b3.next_inode() as u64, fields, c, m)
    } else {
        b3
    };
    if fields.len() > 0 {
        lemma_add_dir_shape(a3, b3, dir, "fields"@, c, m);
        lemma_add_fields_shape(
            a3.add_dir(dir, "fields"@, c, m),
            b3.add_dir(dir, "fields"@, c, m),
            a3.next_inode() as u64,
            fields,
            c,
            m,
        );
    }
    lemma_add_file_shape(a4, b4, dir, "id"@, crate::server::bwclient::hyphenated(s.id), c, m);
}

/// Adding the same entries to trees that show the same gives trees that show
/// the same.
pub proof fn lemma_add_secrets_shape(a: Tree, b: Tree, map: Map<u128, u64>, secrets: Seq<Secret>)
    requires
        same_shape(a, b),
    ensures
        same_shape(add_secrets(a, map, secrets), add_secrets(b, map, secrets)),
        add_secrets(a, map, secrets).generation == a.generation,
        add_secrets(a, map, secrets).folders == a.folders,
    decreases secrets.len(),
{
    if secrets.len() > 0 {
        lemma_add_secrets_shape(a, b, map, secrets.drop_last());
        lemma_add_secret_shape(
            add_secrets(a, map, secrets.drop_last()),
            add_secrets(b, map, secrets.drop_last()),
            map[folder_key(secrets.last().folder_id)],
            secrets.last(),
        );
    }
}

/// What a synchronization shows depends on the allow-list and on what the
/// vault holds alone, not on the tree as it was nor on the time: two trees
/// with the same allow-list, synchronized with the same folders and entries,
/// show the same afterwards. The generation of each has gone up by one, and
/// the allow-list has stayed.
pub proof fn lemma_sync_shape(
    a: Tree,
    b: Tree,
    folders: Seq<Folder>,
    secrets: Seq<Secret>,
    s1: SystemTime,
    s2: SystemTime,
)
    requires
        a.folders == b.folders,
        a.generation < u64::MAX,
    ensures
        same_shape(synced(a, folders, secrets, s1), synced(b, folders, secrets, s2)),
        synced(a, folders, secrets, s1).generation == a.generation + 1,
        synced(a, folders, secrets, s1).folders == a.folders,
{
    let kept = kept_folders(a.folders, folders);
    let held = kept_secrets(folder_keys(kept), secrets);
    let a0 = a.clear();
    let b0 = b.clear();
    assert(same_shape(a0, b0)) by {
        assert(a0.nodes.dom() =~= b0.nodes.dom());
        assert(a0.names =~= b0.names);
    }
    lemma_add_folders_shape(a0, b0, kept, s1, s2);
    lemma_add_secrets_shape(
        add_folders(a0, kept, s1).0,
        add_folders(b0, kept, s2).0,
        add_folders(a0, kept, s1).1,
        held,
    );
}

/// Synchronizing twice in a row with the same folders and entries gives a
/// tree that shows the same as after the first time: the same paths lead to
/// the same contents. The generation has gone up once more.
pub proof fn lemma_sync_idempotent(
    tree: Tree,
    folders: Seq<Folder>,
    secrets: Seq<Secret>,
    s1: SystemTime,
    s2: SystemTime,
)
    requires
        tree.generation + 2 <= u64::MAX,
    ensures
        same_shape(
            synced(tree, folders, secrets, s1),
            synced(synced(tree, folders, secrets, s1), folders, secrets, s2),
        ),
        synced(synced(tree, folders, secrets, s1), folders, secrets, s2).generation
            == tree.generation + 2,
{
    let first = synced(tree, folders, secrets, s1);
    lemma_sync_shape(tree, tree, folders, secrets, s1, s1);
    lemma_sync_shape(tree, first, folders, secrets, s1, s2);
    lemma_sync_shape(first, first, folders, secrets, s2, s2);
}

/// A synchronization shows an entry only where the allow-list lets its
/// folder through: every entry that is added belongs to a folder of the vault
/// whose name begins with an entry of the allow-list.
pub proof fn lemma_only_allowed_entries(
    allow: Seq<Seq<char>>,
    folders: Seq<Folder>,
    secrets: Seq<Secret>,
    i: int,
)
    requires
        0 <= i < kept_secrets(
            folder_keys(kept_folders(allow, folders)),
            secrets,
        ).len(),
    ensures
        ({
            let kept = kept_folders(allow, folders);
            let held = kept_secrets(
                folder_keys(kept),
                secrets,
            );
            exists|k: int|
                0 <= k < folders.len() && folder_allowed(
                    allow,
                    (#[trigger] folders[k]).name@,
                ) && folder_key(folders[k].id)
                    == folder_key(held[i].folder_id)
        }),
{
    let keep = |f: Folder| folder_allowed(allow, f.name@);
    let kept = kept_folders(allow, folders);
    let keys = folder_keys(kept);
    let held = kept_secrets(keys, secrets);
    lemma_kept_keys(keys, secrets);
    let key = folder_key(held[i].folder_id);
    assert(keys.contains(key));
    let j = choose|j: int| 0 <= j < keys.len() && keys[j] == key;
    folders.lemma_filter_pred(keep, j);
    assert(kept.contains(kept[j]));
    folders.lemma_filter_contains_rev(keep, kept[j]);
    assert(folders.contains(kept[j]));
    let k = choose|k: int| 0 <= k < folders.len() && folders[k] == kept[j];
    assert(folder_allowed(allow, folders[k].name@));
}

/// Where the levels `parts` lead from the root, each looked up under its
/// sanitized name; nothing where the name index does not hold one of them.
pub open spec fn resolve(tree: Tree, parts: Seq<Seq<char>>) -> Option<u64>
    decreases parts.len(),
{
    if parts.len() == 0 {
        Some(ROOT)
    } else {
        match resolve(tree, parts.drop_last()) {
            Some(p) => tree.names.get((p, sanitized(parts.last()))),
            None => None,
        }
    }
}

/// Whether the tree holds directories only, as it does while the folders of
/// a synchronization are added.
pub open spec fn only_dirs(tree: Tree) -> bool {
    forall|i: u64| #[trigger] tree.nodes.contains_key(i) ==> tree.nodes[i] is Dir
}

/// Whether the two trees bind the same names in every directory that was made
/// before the node `x`.
pub open spec fn agree_before(a: Tree, b: Tree, x: u64) -> bool {
    forall|k: (u64, Seq<char>)| k.0 < x ==> #[trigger] a.names.get(k) == b.names.get(k)
}

/// A path leads to the same node in every tree that binds the same names in
/// the directories made before that node: the path goes through such
/// directories only, since a child is made after its parent.
pub proof fn lemma_resolve_kept(a: Tree, b: Tree, parts: Seq<Seq<char>>, x: u64)
    requires
        a.wf(),
        resolve(a, parts) == Some(x),
        agree_before(a, b, x),
    ensures
        resolve(b, parts) == Some(x),
    decreases parts.len(),
{
    if parts.len() > 0 {
        let q = resolve(a, parts.drop_last())->Some_0;
        let name = sanitized(parts.last());
        assert(a.names.contains_key((q, name)));
        assert(a.children(q).contains_key(name));
        assert(q < x);
        lemma_resolve_kept(a, b, parts.drop_last(), q);
        assert(a.names.get((q, name)) == b.names.get((q, name)));
    }
}

/// Walking down levels that the tree holds makes nothing, and ends where the
/// levels lead.
pub proof fn lemma_resolved_walk(tree: Tree, parts: Seq<Seq<char>>, x: u64, stamp: SystemTime)
    requires
        resolve(tree, parts) == Some(x),
    ensures
        descend(tree, parts, stamp) == (tree, x),
    decreases parts.len(),
{
    if parts.len() > 0 {
        let q = resolve(tree, parts.drop_last())->Some_0;
        lemma_resolved_walk(tree, parts.drop_last(), q, stamp);
    }
}

/// After levels were walked down in a tree of directories, the levels lead to
/// the directory that the walk ended in.
pub proof fn lemma_descend_reaches(tree: Tree, parts: Seq<Seq<char>>, stamp: SystemTime)
    requires
        tree.wf(),
        only_dirs(tree),
        tree.nodes.len() + parts.len() <= u64::MAX,
    ensures
        descend(tree, parts, stamp).0.wf(),
        only_dirs(descend(tree, parts, stamp).0),
        resolve(descend(tree, parts, stamp).0, parts) == Some(descend(tree, parts, stamp).1),
        descend(tree, parts, stamp).0.is_dir(descend(tree, parts, stamp).1),
        tree.nodes.len() <= descend(tree, parts, stamp).0.nodes.len() <= tree.nodes.len()
            + parts.len(),
    decreases parts.len(),
{
    if parts.len() > 0 {
        let front = parts.drop_last();
        lemma_descend_reaches(tree, front, stamp);
        let (t, q) = descend(tree, front, stamp);
        let name = sanitized(parts.last());
        match t.names.get((q, name)) {
            Some(p) => {
                assert(t.children(q).contains_key(name));
                assert(t.nodes.contains_key(p));
            },
            None => {
                let node = Node::empty_dir(stamp, stamp);
                let out = t.add(q, name, node);
                lemma_sanitized_is_sanitized(parts.last());
                lemma_add_wf(t, q, name, node);
                assert(agree_before(t, out, q));
                lemma_resolve_kept(t, out, front, q);
            },
        }
    }
}

/// A folder that was added to a tree of directories is reached by its path.
pub proof fn lemma_add_folder_reaches(tree: Tree, name: Seq<char>, stamp: SystemTime)
    requires
        tree.wf(),
        only_dirs(tree),
        tree.nodes.len() + path_segments(name).len() <= u64::MAX,
    ensures
        add_folder(tree, name, stamp).0.wf(),
        only_dirs(add_folder(tree, name, stamp).0),
        resolve(add_folder(tree, name, stamp).0, path_segments(name)) == Some(
            add_folder(tree, name, stamp).1,
        ),
        add_folder(tree, name, stamp).0.is_dir(add_folder(tree, name, stamp).1),
        tree.nodes.len() <= add_folder(tree, name, stamp).0.nodes.len() <= tree.nodes.len()
            + path_segments(name).len(),
{
    let parts = path_segments(name);
    lemma_path_segments(name);
    let upper = parts.drop_last();
    lemma_descend_reaches(tree, upper, stamp);
    let (t, p) = descend(tree, upper, stamp);
    let last = sanitized(parts.last());
    let node = Node::empty_dir(stamp, stamp);
    let out = t.add(p, last, node);
    lemma_sanitized_is_sanitized(parts.last());
    lemma_add_wf(t, p, last, node);
    assert(agree_before(t, out, p));
    lemma_resolve_kept(t, out, upper, p);
}

/// While folders are added to a tree of directories, it stays one: the
/// folders make directories only.
pub proof fn lemma_add_folders_dirs(tree: Tree, folders: Seq<Folder>, stamp: SystemTime)
    requires
        tree.wf(),
        only_dirs(tree),
        tree.nodes.len() + folders_need(folders) <= u64::MAX,
    ensures
        add_folders(tree, folders, stamp).0.wf(),
        only_dirs(add_folders(tree, folders, stamp).0),
        tree.nodes.len() <= add_folders(tree, folders, stamp).0.nodes.len() <= tree.nodes.len()
            + folders_need(folders),
    decreases folders.len(),
{
    if folders.len() > 0 {
        lemma_add_folders_dirs(tree, folders.drop_last(), stamp);
        lemma_add_folder_reaches(
            add_folders(tree, folders.drop_last(), stamp).0,
            folders.last().name@,
            stamp,
        );
    }
}

/// A folder whose upper levels the tree holds is added to the directory that
/// they lead to, and nothing but the folder's own directory is made.
pub proof fn lemma_add_folder_reuses(tree: Tree, name: Seq<char>, stamp: SystemTime, p: u64)
    requires
        resolve(tree, path_segments(name).drop_last()) == Some(p),
    ensures
        add_folder(tree, name, stamp) == (
            tree.add_dir(p, path_segments(name).last(), stamp, stamp),
            tree.next_inode() as u64,
        ),
{
    lemma_resolved_walk(tree, path_segments(name).drop_last(), p, stamp);
}

/// Two folders with the same upper levels share the directories of those
/// levels. When the second is added after the first, its own directory is all
/// that is made; it stands beside that of the first in the one directory that
/// the upper levels lead to, and both folders are reached by their paths
/// where their last levels are bound by different names.
pub proof fn lemma_folders_share_levels(
    tree: Tree,
    first: Seq<char>,
    second: Seq<char>,
    s1: SystemTime,
    s2: SystemTime,
)
    requires
        tree.wf(),
        only_dirs(tree),
        tree.nodes.len() + path_segments(first).len() + 1 <= u64::MAX,
        path_segments(first).drop_last() == path_segments(second).drop_last(),
    ensures
        ({
            let upper = path_segments(first).drop_last();
            let a = sanitized(path_segments(first).last());
            let b = sanitized(path_segments(second).last());
            let p = descend(tree, upper, s1).1;
            let (t1, i1) = add_folder(tree, first, s1);
            let (t2, i2) = add_folder(t1, second, s2);
            &&& resolve(t1, upper) == Some(p)
            &&& resolve(t2, upper) == Some(p)
            &&& t2 == t1.add_dir(p, path_segments(second).last(), s2, s2)
            &&& t2.nodes.len() == t1.nodes.len() + 1
            &&& t2.is_dir(p)
            &&& t2.children(p).contains_key(b) && t2.children(p)[b] == i2
            &&& resolve(t2, path_segments(second)) == Some(i2)
            &&& a != b ==> t2.children(p).contains_key(a) && t2.children(p)[a] == i1
            &&& a != b ==> resolve(t2, path_segments(first)) == Some(i1)
        }),
{
    lemma_path_segments(first);
    lemma_path_segments(second);
    let upper = path_segments(first).drop_last();
    let a = sanitized(path_segments(first).last());
    let b = sanitized(path_segments(second).last());
    lemma_sanitized_is_sanitized(path_segments(first).last());
    lemma_sanitized_is_sanitized(path_segments(second).last());
    lemma_descend_reaches(tree, upper, s1);
    let (t0, p) = descend(tree, upper, s1);
    let (t1, i1) = add_folder(tree, first, s1);
    lemma_add_wf(t0, p, a, Node::empty_dir(s1, s1));
    assert(agree_before(t0, t1, p));
    lemma_resolve_kept(t0, t1, upper, p);
    lemma_add_folder_reuses(t1, second, s2, p);
    let (t2, i2) = add_folder(t1, second, s2);
    lemma_add_wf(t1, p, b, Node::empty_dir(s2, s2));
    assert(agree_before(t1, t2, p));
    lemma_resolve_kept(t1, t2, upper, p);
    assert(t1.is_dir(p));
    assert(t1.children(p).contains_key(a) && t1.children(p)[a] == i1);
    assert(t2.children(p) == t1.children(p).insert(b, i2));
    assert(path_segments(second).drop_last() == upper);
}

} // verus!
