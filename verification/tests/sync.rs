use bwfs::server::bwclient::{
    Folder, Secret, SecretField, SecretFieldType, SecretLogin, SecretLoginUri, SecretType, Status,
};
use bwfs::server::kernel::FsError;
use bwfs::server::mapfs::MapFS;
use bwfs::server::sync::SyncError;
use std::time::{Duration, SystemTime};
use time::OffsetDateTime;

fn status(text: &str) -> Option<Status> {
    Some(Status {
        last_sync: OffsetDateTime::UNIX_EPOCH,
        user_email: "me@example.org".to_owned(),
        user_id: 7,
        status: text.to_owned(),
    })
}

fn folder(id: Option<u128>, name: &str) -> Folder {
    Folder { object: "folder".to_owned(), id, name: name.to_owned() }
}

fn login(folder_id: Option<u128>, id: u128, name: &str, user: &str, password: &str) -> Secret {
    Secret {
        password_history: None,
        revision_date: OffsetDateTime::from_unix_timestamp(2_000).unwrap(),
        creation_date: OffsetDateTime::from_unix_timestamp(1_000).unwrap(),
        deleted_date: None,
        object: "item".to_owned(),
        id,
        organization_id: None,
        folder_id,
        kind: SecretType::Login,
        reprompt: 0,
        name: name.to_owned(),
        notes: None,
        favorite: false,
        fields: None,
        login: Some(SecretLogin {
            fido_2_credentials: vec![],
            uris: None,
            username: Some(user.to_owned()),
            password: Some(password.to_owned()),
            totp: None,
            password_revision_date: None,
        }),
        collection_ids: vec![],
    }
}

fn walk(fs: &MapFS, path: &[&str]) -> Option<u64> {
    let mut ino = 1;
    for part in path {
        ino = fs.find(ino, (*part).to_owned())?;
    }
    Some(ino)
}

fn content(fs: &MapFS, path: &[&str]) -> Option<String> {
    let ino = walk(fs, path)?;
    fs.read(ino, 0, 4096).ok().map(|b| String::from_utf8(b.to_vec()).unwrap())
}

#[test]
fn refresh_shows_login_under_its_folder() {
    let mut fs = MapFS::new(1000, 1000, 0o440, vec!["Work".to_owned()]);
    let r = fs.refresh(
        status("unlocked"),
        vec![folder(Some(1), "Work/Email")],
        vec![login(Some(1), 0xa1a2a3a4_b1b2_c1c2_d1d2_d3d4d5d6d7d8, "Gmail", "me", "p")],
    );
    assert_eq!(r, Ok(()));
    assert_eq!(content(&fs, &["Work", "Email", "Gmail", "username"]), Some("me".to_owned()));
    assert_eq!(content(&fs, &["Work", "Email", "Gmail", "password"]), Some("p".to_owned()));
    assert_eq!(content(&fs, &["Work", "Email", "Gmail", "type"]), Some("Login".to_owned()));
    assert_eq!(
        content(&fs, &["Work", "Email", "Gmail", "id"]),
        Some("a1a2a3a4-b1b2-c1c2-d1d2-d3d4d5d6d7d8".to_owned())
    );
    assert_eq!(walk(&fs, &["Work", "Email", "Gmail", "notes"]), None);
    assert_eq!(fs.generation(), 2);
}

#[test]
fn refresh_of_locked_vault_leaves_tree_alone() {
    let mut fs = MapFS::new(0, 0, 0o440, vec!["Work".to_owned()]);
    assert_eq!(fs.refresh(status("unlocked"), vec![folder(Some(1), "Work")], vec![]), Ok(()));
    let generation = fs.generation();
    let r = fs.refresh(status("locked"), vec![folder(Some(2), "Work2")], vec![]);
    assert_eq!(r, Err(SyncError::Locked));
    assert_eq!(r.unwrap_err().to_string(), "BWCLI is locked");
    assert_eq!(fs.refresh(None, vec![], vec![]), Err(SyncError::Locked));
    assert_eq!(fs.generation(), generation);
    assert_eq!(walk(&fs, &["Work"]), Some(2));
    assert_eq!(walk(&fs, &["Work2"]), None);
}

#[test]
fn refresh_twice_gives_same_paths_and_contents() {
    let mut fs = MapFS::new(0, 0, 0o440, vec!["Work".to_owned()]);
    let data = || {
        (
            vec![folder(Some(1), "Work/Email"), folder(Some(2), "Work")],
            vec![login(Some(1), 5, "Gmail", "me", "p"), login(Some(2), 6, "Bank", "you", "q")],
        )
    };
    let (f, s) = data();
    assert_eq!(fs.refresh(status("unlocked"), f, s), Ok(()));
    let first = (
        content(&fs, &["Work", "Email", "Gmail", "username"]),
        content(&fs, &["Work", "Bank", "password"]),
        fs.inode_count(),
        fs.generation(),
    );
    let (f, s) = data();
    assert_eq!(fs.refresh(status("unlocked"), f, s), Ok(()));
    assert_eq!(content(&fs, &["Work", "Email", "Gmail", "username"]), first.0);
    assert_eq!(content(&fs, &["Work", "Bank", "password"]), first.1);
    assert_eq!(fs.inode_count(), first.2);
    assert_eq!(fs.generation(), first.3 + 1);
}

#[test]
fn allow_list_keeps_entries_of_other_folders_out() {
    let mut fs = MapFS::new(0, 0, 0o440, vec!["Work".to_owned()]);
    let r = fs.refresh(
        status("unlocked"),
        vec![folder(Some(1), "Work"), folder(Some(2), "Personal")],
        vec![
            login(Some(1), 5, "Gmail", "me", "p"),
            login(Some(2), 6, "Diary", "you", "q"),
            login(Some(9), 7, "Stray", "x", "y"),
            login(None, 8, "Loose", "x", "y"),
        ],
    );
    assert_eq!(r, Ok(()));
    assert_eq!(content(&fs, &["Work", "Gmail", "username"]), Some("me".to_owned()));
    assert_eq!(walk(&fs, &["Personal"]), None);
    assert_eq!(fs.opendir(1), Ok(1));
    let names: Vec<String> = fs.readdir(1, 0).unwrap().into_iter().map(|d| d.name).collect();
    assert_eq!(names, vec!["Work".to_owned()]);
    // root, Work, Gmail and its four files
    assert_eq!(fs.inode_count(), 7);
}

#[test]
fn entry_with_uris_notes_and_fields() {
    let mut fs = MapFS::new(0, 0, 0o440, vec!["".to_owned()]);
    let mut s = login(None, 1, "Sh:op", "me", "p");
    s.notes = Some("remember".to_owned());
    s.fields = Some(vec![SecretField {
        name: "pin/code".to_owned(),
        value: "1234".to_owned(),
        kind: SecretFieldType::Hidden,
    }]);
    if let Some(l) = &mut s.login {
        l.uris = Some(
            (1..=11)
                .map(|i| SecretLoginUri { matching: None, uri: format!("https://{i}.example") })
                .collect(),
        );
    }
    assert_eq!(fs.refresh(status("unlocked"), vec![folder(None, "No Folder")], vec![s]), Ok(()));
    let base = ["No Folder", "Shop"];
    let at = |rest: &[&str]| {
        let mut p = base.to_vec();
        p.extend_from_slice(rest);
        content(&fs, &p)
    };
    assert_eq!(at(&["notes"]), Some("remember".to_owned()));
    assert_eq!(at(&["fields", "pincode"]), Some("1234".to_owned()));
    assert_eq!(at(&["uris", "01"]), Some("https://1.example".to_owned()));
    assert_eq!(at(&["uris", "09"]), Some("https://9.example".to_owned()));
    assert_eq!(at(&["uris", "10"]), Some("https://10.example".to_owned()));
    assert_eq!(at(&["uris", "11"]), Some("https://11.example".to_owned()));
    assert_eq!(at(&["uris", "12"]), None);
    let dir = walk(&fs, &base).unwrap();
    assert_eq!(fs.read(dir, 0, 10), Err(FsError::NotFound));
}

#[test]
fn entry_files_carry_the_dates_of_the_entry() {
    let mut fs = MapFS::new(0, 0, 0o440, vec!["Work".to_owned()]);
    let r = fs.refresh(
        status("unlocked"),
        vec![folder(Some(1), "Work")],
        vec![login(Some(1), 9, "Gmail", "me", "p")],
    );
    assert_eq!(r, Ok(()));
    let ino = walk(&fs, &["Work", "Gmail", "id"]).unwrap();
    let file = fs.entry(ino).unwrap();
    assert_eq!(file.ctime(), SystemTime::UNIX_EPOCH + Duration::from_secs(1_000));
    assert_eq!(file.mtime(), SystemTime::UNIX_EPOCH + Duration::from_secs(2_000));
    let attr = fs.getattr(ino).unwrap();
    assert_eq!(attr.ctime, SystemTime::UNIX_EPOCH + Duration::from_secs(1_000));
    assert_eq!(attr.mtime, SystemTime::UNIX_EPOCH + Duration::from_secs(2_000));
    assert_eq!(attr.size, 36);
}

#[test]
fn folders_share_a_level_with_a_prohibited_character() {
    let mut fs = MapFS::new(0, 0, 0o440, vec!["a".to_owned()]);
    let r = fs.refresh(
        status("unlocked"),
        vec![folder(Some(1), "a.b/x"), folder(Some(2), "a.b/y")],
        vec![],
    );
    assert_eq!(r, Ok(()));
    let top = fs.list_children(1).unwrap();
    assert_eq!(top.len(), 1);
    assert_eq!(top[0].0, "ab");
    let shared = top[0].1;
    let below = fs.list_children(shared).unwrap();
    let names: Vec<&str> = below.iter().map(|(name, _)| name.as_str()).collect();
    assert_eq!(names, vec!["x", "y"]);
    assert_eq!(walk(&fs, &["ab", "x"]), Some(below[0].1));
    assert_eq!(walk(&fs, &["ab", "y"]), Some(below[1].1));
    assert_ne!(below[0].1, below[1].1);
    // the level was made once: the root, the level and the two folders
    assert_eq!(fs.inode_count(), 4);
}

#[test]
fn entries_of_folders_with_a_shared_level_stay_in_reach() {
    let mut fs = MapFS::new(0, 0, 0o440, vec!["Work".to_owned()]);
    let r = fs.refresh(
        status("unlocked"),
        vec![folder(Some(1), "Work:1/Email"), folder(Some(2), "Work:1/Bank")],
        vec![login(Some(1), 5, "Gmail", "me", "p"), login(Some(2), 6, "Giro", "you", "q")],
    );
    assert_eq!(r, Ok(()));
    assert_eq!(content(&fs, &["Work1", "Email", "Gmail", "username"]), Some("me".to_owned()));
    assert_eq!(content(&fs, &["Work1", "Bank", "Giro", "password"]), Some("q".to_owned()));
    assert_eq!(fs.list_children(1).map(|c| c.len()), Some(1));
}
