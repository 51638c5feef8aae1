use bwfs::client::{
    lock_outcome, prompt_failure, refresh_after_unlock, refresh_outcome, skipped_message,
    status_outcome, unlock_outcome, unlock_request,
};
use bwfs::message::{Request, Response};
use bwfs::server::bwclient::{CommandOutput, SecretType, Status, BWCLI};
use bwfs::server::sync::{allowed, filter_folders, filter_names, key_of, uri_file_name, SyncError};
use bwfs::server::bwclient::Folder;
use time::OffsetDateTime;

fn out(success: bool, stdout: &[u8], stderr: &[u8]) -> CommandOutput {
    CommandOutput { success, stdout: stdout.to_vec(), stderr: stderr.to_vec() }
}

#[test]
fn commands_carry_the_session_token() {
    let mut cli = BWCLI::new("/usr/bin/bw".to_owned());
    assert!(!cli.has_session());
    let cmd = cli.status_command();
    assert_eq!(cmd.program, "/usr/bin/bw");
    assert_eq!(cmd.args, vec!["status"]);
    assert!(cmd.env.is_empty());
    assert_eq!(cli.unlock(out(true, b"tok", b"")), Ok(()));
    assert!(cli.has_session());
    let env = vec![("BW_SESSION".to_owned(), "tok".to_owned())];
    let cmd = cli.list_secrets_command();
    assert_eq!((cmd.args, cmd.env), (vec!["list".to_owned(), "items".to_owned()], env.clone()));
    let cmd = cli.list_folders_command();
    assert_eq!((cmd.args, cmd.env), (vec!["list".to_owned(), "folders".to_owned()], env.clone()));
    let cmd = cli.command(vec!["sync".to_owned()]);
    assert_eq!((cmd.program.as_str(), cmd.args, cmd.env), ("/usr/bin/bw", vec!["sync".to_owned()], env));
}

#[test]
fn unlock_command_hands_password_through_environment() {
    let cli = BWCLI::new("bw".to_owned());
    let cmd = cli.unlock_command("hunter2");
    assert_eq!(cmd.args, vec!["unlock", "--raw", "--passwordenv", "BWFS_PASSWORD"]);
    assert_eq!(cmd.env, vec![("BWFS_PASSWORD".to_owned(), "hunter2".to_owned())]);
}

#[test]
fn unlock_takes_token_or_gives_reason() {
    let mut cli = BWCLI::new("bw".to_owned());
    assert_eq!(cli.unlock(out(false, b"", b"Invalid master password.")), Err("Invalid master password.".to_owned()));
    assert!(!cli.has_session());
    assert_eq!(cli.unlock(out(false, b"ignored", &[0xff, 0xfe])), Err(String::new()));
    assert!(cli.unlock(out(true, &[0xff], b"")).is_err());
    assert!(!cli.has_session());
    assert_eq!(cli.unlock(out(true, "t\u{f6}ken".as_bytes(), b"")), Ok(()));
    assert_eq!(cli.status_command().env, vec![("BW_SESSION".to_owned(), "t\u{f6}ken".to_owned())]);
    // a failure leaves the token that is there
    assert!(cli.unlock(out(false, b"", b"no")).is_err());
    assert!(cli.has_session());
    assert_eq!(cli.lock(), Ok(()));
    assert!(!cli.has_session());
    assert!(cli.status_command().env.is_empty());
}

#[test]
fn status_and_type_texts() {
    let s = |text: &str| Status {
        last_sync: OffsetDateTime::UNIX_EPOCH,
        user_email: String::new(),
        user_id: 0,
        status: text.to_owned(),
    };
    assert!(s("unlocked").is_unlocked() && !s("unlocked").is_locked());
    assert!(s("locked").is_locked() && !s("locked").is_unlocked());
    assert!(!s("unauthenticated").is_locked() && !s("unauthenticated").is_unlocked());
    assert_eq!(SecretType::Login.to_string(), "Login");
    assert_eq!(SecretType::Card.to_string(), "Card");
    assert_eq!(SecretType::Identity.to_string(), "Identity");
    assert_eq!(SecretType::SecureNote.to_string(), "Secure note");
    assert_eq!(SyncError::Locked.to_string(), "BWCLI is locked");
    assert_eq!(SyncError::OutOfNumbers.to_string(), "the tree has run out of numbers");
}

#[test]
fn filters_keep_order() {
    let allow = vec!["Work".to_owned(), "Home/".to_owned()];
    assert!(allowed(&allow, "Work"));
    assert!(allowed(&allow, "Workshop/x"));
    assert!(allowed(&allow, "Home/Bills"));
    assert!(!allowed(&allow, "Home"));
    assert!(!allowed(&vec![], "Work"));
    assert!(allowed(&vec![String::new()], "anything"));
    let f = |id: Option<u128>, name: &str| Folder { object: "folder".to_owned(), id, name: name.to_owned() };
    let mut folders = vec![f(Some(1), "Work"), f(Some(2), "Personal"), f(None, "Home/x"), f(Some(3), "Works")];
    filter_names(&allow, &mut folders);
    let names: Vec<&str> = folders.iter().map(|f| f.name.as_str()).collect();
    assert_eq!(names, vec!["Work", "Home/x", "Works"]);
    assert_eq!(key_of(&Some(7)), 7);
    assert_eq!(key_of(&None), 0);
    let mut none = vec![];
    filter_folders(&vec![1, 2], &mut none);
    assert!(none.is_empty());
    assert_eq!(uri_file_name(1), "01");
    assert_eq!(uri_file_name(9), "09");
    assert_eq!(uri_file_name(10), "10");
    assert_eq!(uri_file_name(123), "123");
    assert_eq!(uri_file_name(0), "00");
}

#[test]
fn client_sends_and_reports() {
    assert!(unlock_request(String::new()).is_none());
    assert!(matches!(
        unlock_request("pw".to_owned()),
        Some(Request::Unlock { ref password }) if password == "pw"
    ));
    assert_eq!(skipped_message(), "Got empty password, skipping unlock");
    assert!(refresh_after_unlock(false));
    assert!(!refresh_after_unlock(true));
    let failure = Response::Failure { reason: "why".to_owned() };
    assert_eq!(unlock_outcome(&Response::Success), Ok("Unlocked".to_owned()));
    assert_eq!(unlock_outcome(&failure), Err("Failed to unlock: why".to_owned()));
    assert_eq!(refresh_outcome(&Response::Success), "Refreshed");
    assert_eq!(refresh_outcome(&failure), "Failed to refresh: why");
    assert_eq!(lock_outcome(&Response::Success), "Locked");
    assert_eq!(lock_outcome(&failure), "Failed to lock: why");
    assert_eq!(status_outcome(&Response::Status { locked: true }), ("Locked".to_owned(), 1));
    assert_eq!(status_outcome(&Response::Status { locked: false }), ("Unlocked".to_owned(), 0));
    assert_eq!(prompt_failure(Some(3)), "Password prompt failed with exit code 3");
    assert_eq!(prompt_failure(None), "Password prompt failed with exit code 1");
    assert_eq!(prompt_failure(Some(-15)), "Password prompt failed with exit code -15");
    assert_eq!(prompt_failure(Some(0)), "Password prompt failed with exit code 0");
    assert_eq!(
        prompt_failure(Some(i32::MIN)),
        "Password prompt failed with exit code -2147483648"
    );
}
