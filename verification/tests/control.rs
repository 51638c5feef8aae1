use bwfs::message::{frame, request_len, Request, Response};
use bwfs::server::bwclient::{CommandOutput, Folder, Status, BWCLI};
use bwfs::server::config::{mount_options, parse_mode, MountFlag};
use bwfs::server::lifecycle::{
    already_running_message, bind_step, conn_step, supervisor_enabled, supervisor_step,
    BindAction, BindEvent, BindState, ConnAction, ConnEvent, ConnState, LockAction, LockEvent,
    Supervisor,
};
use bwfs::server::mapfs::MapFS;
use bwfs::server::sync::wants_listing;
use bwfs::server::{
    act_on_session, act_on_tree, handle_request, vault_call, Snapshot, VaultCall, VaultReply,
};
use std::time::SystemTime;
use time::OffsetDateTime;

fn status(text: &str) -> Status {
    Status {
        last_sync: OffsetDateTime::UNIX_EPOCH,
        user_email: "me@example.org".to_owned(),
        user_id: 1,
        status: text.to_owned(),
    }
}

fn ran(success: bool, stdout: &str, stderr: &str) -> VaultReply {
    VaultReply::Unlock(Ok(CommandOutput {
        success,
        stdout: stdout.as_bytes().to_vec(),
        stderr: stderr.as_bytes().to_vec(),
    }))
}

fn daemon() -> (BWCLI, MapFS) {
    (BWCLI::new("bw".to_owned()), MapFS::new(0, 0, 0o440, vec!["Work".to_owned()]))
}

/// The vault as the tool shows it for a session with or without a token.
fn vault_status(cli: &BWCLI) -> VaultReply {
    VaultReply::Status(Ok(status(if cli.has_session() { "unlocked" } else { "locked" })))
}

#[test]
fn status_unlock_status_end_to_end() {
    let (mut cli, mut fs) = daemon();
    let h = handle_request(Request::Status, vault_status(&cli), &mut cli, &mut fs);
    assert!(matches!(h.response, Response::Status { locked: true }));
    assert!(!h.notify);

    let unlock = Request::Unlock { password: "correct".to_owned() };
    let h = handle_request(unlock, ran(true, "token", ""), &mut cli, &mut fs);
    assert!(matches!(h.response, Response::Success));
    assert!(h.notify);
    assert!(cli.has_session());

    let h = handle_request(Request::Status, vault_status(&cli), &mut cli, &mut fs);
    assert!(matches!(h.response, Response::Status { locked: false }));
}

#[test]
fn wrong_password_leaves_vault_locked() {
    let (mut cli, mut fs) = daemon();
    let unlock = Request::Unlock { password: "wrong".to_owned() };
    let h = handle_request(unlock, ran(false, "", "Invalid master password."), &mut cli, &mut fs);
    match h.response {
        Response::Failure { reason } => assert_eq!(reason, "Invalid master password."),
        other => panic!("{other:?}"),
    }
    assert!(!h.notify);
    assert!(!cli.has_session());
    let h = handle_request(Request::Status, vault_status(&cli), &mut cli, &mut fs);
    assert!(matches!(h.response, Response::Status { locked: true }));
}

#[test]
fn unlock_that_could_not_run_fails_with_its_reason() {
    let (mut cli, mut fs) = daemon();
    let unlock = Request::Unlock { password: "p".to_owned() };
    let reply = VaultReply::Unlock(Err("No such file or directory".to_owned()));
    let h = handle_request(unlock, reply, &mut cli, &mut fs);
    assert!(
        matches!(h.response, Response::Failure { ref reason } if reason == "No such file or directory")
    );
    assert!(!h.notify);
}

#[test]
fn lock_clears_tree_and_session() {
    let (mut cli, mut fs) = daemon();
    let now = SystemTime::now();
    assert!(cli
        .unlock(CommandOutput { success: true, stdout: b"t".to_vec(), stderr: vec![] })
        .is_ok());
    fs.add_dir(1, "a".to_owned(), now, now);
    let h = handle_request(Request::Lock, VaultReply::Nothing, &mut cli, &mut fs);
    assert!(matches!(h.response, Response::Success));
    assert!(!h.notify);
    assert!(!cli.has_session());
    assert_eq!(fs.inode_count(), 1);
    assert_eq!(fs.generation(), 2);
}

#[test]
fn status_that_could_not_be_read_is_a_failure() {
    let (mut cli, mut fs) = daemon();
    let reply = VaultReply::Status(Err("boom".to_owned()));
    let h = handle_request(Request::Status, reply, &mut cli, &mut fs);
    assert!(matches!(h.response, Response::Failure { ref reason } if reason == "boom"));
    let reply = VaultReply::Status(Ok(status("unauthenticated")));
    let h = handle_request(Request::Status, reply, &mut cli, &mut fs);
    assert!(matches!(h.response, Response::Status { locked: false }));
}

#[test]
fn refresh_request_synchronizes_or_says_why_not() {
    let (mut cli, mut fs) = daemon();
    let snap = |s: &str| {
        VaultReply::Fetch(Ok(Snapshot {
            status: Some(status(s)),
            folders: vec![Folder { object: "folder".to_owned(), id: Some(1), name: "Work".to_owned() }],
            secrets: vec![],
        }))
    };
    let h = handle_request(Request::Refresh, snap("locked"), &mut cli, &mut fs);
    assert!(matches!(h.response, Response::Failure { ref reason } if reason == "BWCLI is locked"));
    assert_eq!(fs.generation(), 1);
    let h = handle_request(Request::Refresh, snap("unlocked"), &mut cli, &mut fs);
    assert!(matches!(h.response, Response::Success));
    assert!(!h.notify);
    assert_eq!(fs.find(1, "Work".to_owned()), Some(2));
    let reply = VaultReply::Fetch(Err("list failed".to_owned()));
    let h = handle_request(Request::Refresh, reply, &mut cli, &mut fs);
    assert!(matches!(h.response, Response::Failure { ref reason } if reason == "list failed"));
    assert_eq!(fs.find(1, "Work".to_owned()), Some(2));
}

#[test]
fn reply_out_of_turn_changes_nothing() {
    let (mut cli, mut fs) = daemon();
    let h = handle_request(Request::Status, VaultReply::Nothing, &mut cli, &mut fs);
    assert!(
        matches!(h.response, Response::Failure { ref reason } if reason == "unexpected reply from the vault")
    );
    let unlock = Request::Unlock { password: "p".to_owned() };
    let h = handle_request(unlock, vault_status(&cli), &mut cli, &mut fs);
    assert!(matches!(h.response, Response::Failure { .. }));
    assert!(!h.notify);
    assert!(!cli.has_session());
    assert_eq!(fs.generation(), 1);
}

#[test]
fn each_request_names_its_vault_call() {
    assert_eq!(vault_call(&Request::Unlock { password: "p".to_owned() }), VaultCall::Unlock);
    assert_eq!(vault_call(&Request::Lock), VaultCall::Nothing);
    assert_eq!(vault_call(&Request::Status), VaultCall::Status);
    assert_eq!(vault_call(&Request::Refresh), VaultCall::Fetch);
}

#[test]
fn auto_lock_after_idle_period() {
    let after = 2;
    assert!(supervisor_enabled(after));
    assert!(!supervisor_enabled(0));
    let (mut cli, mut fs) = daemon();
    let unlock = Request::Unlock { password: "correct".to_owned() };
    let h = handle_request(unlock, ran(true, "token", ""), &mut cli, &mut fs);
    assert!(h.notify);
    let now = SystemTime::now();
    fs.add_dir(1, "a".to_owned(), now, now);

    let (s, a) = supervisor_step(Supervisor::Idle, LockEvent::Notified, after);
    assert_eq!((s, a), (Supervisor::Checking, LockAction::ReadStatus));
    let (s, a) = supervisor_step(s, LockEvent::Status { unlocked: cli.has_session() }, after);
    assert_eq!((s, a), (Supervisor::ArmedWaiting, LockAction::Sleep { seconds: 2 }));
    let (s, a) = supervisor_step(s, LockEvent::Elapsed, after);
    assert_eq!((s, a), (Supervisor::Expired, LockAction::ReadStatus));
    let (s, a) = supervisor_step(s, LockEvent::Status { unlocked: cli.has_session() }, after);
    assert_eq!((s, a), (Supervisor::Idle, LockAction::ClearAndLock));
    let generation = fs.generation();
    act_on_tree(a, &mut fs);
    act_on_session(a, &mut cli);
    assert!(!cli.has_session());
    assert_eq!(fs.generation(), generation + 1);
    assert_eq!(fs.list_children(1), Some(vec![]));
    assert_eq!(fs.find(1, "a".to_owned()), None);
    assert!(fs.entry(2).is_none());
    assert_eq!(fs.handle_count(), 0);

    let h = handle_request(Request::Status, vault_status(&cli), &mut cli, &mut fs);
    assert!(matches!(h.response, Response::Status { locked: true }));
    assert_eq!(fs.inode_count(), 1);
}

#[test]
fn supervisor_rearms_and_stops() {
    let (s, a) = supervisor_step(Supervisor::ArmedWaiting, LockEvent::Notified, 5);
    assert_eq!((s, a), (Supervisor::Checking, LockAction::ReadStatus));
    let (s, a) = supervisor_step(s, LockEvent::Status { unlocked: true }, 5);
    assert_eq!((s, a), (Supervisor::ArmedWaiting, LockAction::Sleep { seconds: 5 }));
    let (s, a) = supervisor_step(Supervisor::Checking, LockEvent::Status { unlocked: false }, 5);
    assert_eq!((s, a), (Supervisor::Idle, LockAction::Wait));
    let (s, a) = supervisor_step(Supervisor::Expired, LockEvent::Status { unlocked: false }, 5);
    assert_eq!((s, a), (Supervisor::Idle, LockAction::Wait));
    for state in [Supervisor::Idle, Supervisor::Checking, Supervisor::ArmedWaiting, Supervisor::Expired] {
        let (s, a) = supervisor_step(state, LockEvent::ChannelFailed, 5);
        assert_eq!((s, a), (Supervisor::Stopped, LockAction::Stop));
    }
    let (s, a) = supervisor_step(Supervisor::Stopped, LockEvent::Notified, 5);
    assert_eq!((s, a), (Supervisor::Stopped, LockAction::Stop));
    let (s, a) = supervisor_step(Supervisor::Idle, LockEvent::Elapsed, 5);
    assert_eq!((s, a), (Supervisor::Idle, LockAction::Wait));
}

#[test]
fn connection_serves_one_request() {
    let (s, a) = conn_step(ConnState::Listening, ConnEvent::Connected);
    assert_eq!((s, a), (ConnState::Accepted, ConnAction::ReadLine));
    let (s, a) = conn_step(s, ConnEvent::LineRead);
    assert_eq!((s, a), (ConnState::RequestRead, ConnAction::Decode));
    let (s, a) = conn_step(s, ConnEvent::Decoded);
    assert_eq!((s, a), (ConnState::Dispatch, ConnAction::Respond));
    let (s, a) = conn_step(s, ConnEvent::Written);
    assert_eq!((s, a), (ConnState::ResponseWritten, ConnAction::Close));
    let (s, a) = conn_step(s, ConnEvent::Closed);
    assert_eq!((s, a), (ConnState::Closed, ConnAction::Done));
    let (s, a) = conn_step(s, ConnEvent::Decoded);
    assert_eq!((s, a), (ConnState::Closed, ConnAction::Done));
}

#[test]
fn malformed_request_gets_no_response() {
    let (s, a) = conn_step(ConnState::RequestRead, ConnEvent::Malformed);
    assert_eq!((s, a), (ConnState::Closed, ConnAction::Close));
    let (s, a) = conn_step(ConnState::Accepted, ConnEvent::Failed);
    assert_eq!((s, a), (ConnState::Closed, ConnAction::Close));
    let (s, a) = conn_step(ConnState::Accepted, ConnEvent::Decoded);
    assert_eq!((s, a), (ConnState::Closed, ConnAction::Close));
    let (s, a) = conn_step(ConnState::ResponseWritten, ConnEvent::Decoded);
    assert_eq!((s, a), (ConnState::Closed, ConnAction::Close));
}

#[test]
fn socket_in_use_is_probed() {
    assert_eq!(bind_step(BindState::Binding, BindEvent::Bound), (BindState::Bound, BindAction::Serve));
    let (s, a) = bind_step(BindState::Binding, BindEvent::InUse);
    assert_eq!((s, a), (BindState::Probing, BindAction::Probe));
    assert_eq!(
        bind_step(s, BindEvent::PeerAnswered),
        (BindState::AlreadyRunning, BindAction::Fail)
    );
    let (s, a) = bind_step(s, BindEvent::NoPeer);
    assert_eq!((s, a), (BindState::Removing, BindAction::Remove));
    assert_eq!(bind_step(s, BindEvent::Error), (BindState::Failed, BindAction::Fail));
    let (s, a) = bind_step(s, BindEvent::Removed);
    assert_eq!((s, a), (BindState::Rebinding, BindAction::Bind));
    assert_eq!(bind_step(s, BindEvent::InUse), (BindState::Failed, BindAction::Fail));
    assert_eq!(bind_step(s, BindEvent::Bound), (BindState::Bound, BindAction::Serve));
    assert_eq!(bind_step(BindState::Binding, BindEvent::Error), (BindState::Failed, BindAction::Fail));
    assert_eq!(
        already_running_message("/tmp/bwfs"),
        "Socket /tmp/bwfs exists and is already listening from another instance"
    );
}

#[test]
fn mount_is_always_read_only() {
    assert_eq!(mount_options(true), vec![MountFlag::ReadOnly]);
    assert_eq!(
        mount_options(false),
        vec![MountFlag::ReadOnly, MountFlag::AutoUnmount, MountFlag::AllowOther]
    );
}

#[test]
fn mode_is_read_as_octal() {
    assert_eq!(parse_mode("440"), Some(0o440));
    assert_eq!(parse_mode("0"), Some(0));
    assert_eq!(parse_mode("+755"), Some(0o755));
    assert_eq!(parse_mode("177777"), Some(0xffff));
    assert_eq!(parse_mode("200000"), None);
    assert_eq!(parse_mode("7777777777777777777777"), None);
    assert_eq!(parse_mode(""), None);
    assert_eq!(parse_mode("+"), None);
    assert_eq!(parse_mode("-1"), None);
    assert_eq!(parse_mode("48"), None);
    assert_eq!(parse_mode("4 4"), None);
    assert_eq!(parse_mode("0o44"), None);
    for text in ["440", "+7", "", "8", "177777", "200000", "00012", "++1", " 1"] {
        assert_eq!(parse_mode(text), u16::from_str_radix(text, 8).ok());
    }
}

#[test]
fn request_ends_at_its_line_feed() {
    assert_eq!(frame(b"\"Lock\"".to_vec()), b"\"Lock\"\n");
    assert_eq!(frame(vec![]), b"\n");
    assert_eq!(request_len(b"\"Lock\"\nrest"), 7);
    assert_eq!(request_len(b"\n"), 1);
    assert_eq!(request_len(b"no end"), 6);
    assert_eq!(request_len(b""), 0);
    assert_eq!(request_len(b"a\nb\n"), 2);
}

#[test]
fn only_clear_and_lock_touches_tree_and_session() {
    let (mut cli, mut fs) = daemon();
    let unlock = Request::Unlock { password: "correct".to_owned() };
    assert!(handle_request(unlock, ran(true, "token", ""), &mut cli, &mut fs).notify);
    let now = SystemTime::now();
    let a = fs.add_dir(1, "a".to_owned(), now, now);
    let generation = fs.generation();
    for action in [
        LockAction::Wait,
        LockAction::ReadStatus,
        LockAction::Sleep { seconds: 2 },
        LockAction::Stop,
    ] {
        act_on_tree(action, &mut fs);
        act_on_session(action, &mut cli);
        assert!(cli.has_session());
        assert_eq!(fs.generation(), generation);
        assert_eq!(fs.find(1, "a".to_owned()), Some(a));
    }
}

#[test]
fn vault_is_listed_only_where_it_is_known_to_be_unlocked() {
    assert!(wants_listing(&Some(status("unlocked"))));
    assert!(!wants_listing(&Some(status("locked"))));
    assert!(!wants_listing(&Some(status("unauthenticated"))));
    assert!(!wants_listing(&Some(status("Unlocked"))));
    assert!(!wants_listing(&None));
}
