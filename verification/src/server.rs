//! The daemon's side: the tree it serves, the vault it reads, and what it
//! decides for each request of the control protocol.
//!
//! The daemon's outside work (running the vault's tool, reading and writing
//! the socket, sleeping) is not done here. Each decision takes what the
//! outside work gave and says what comes next.

pub mod bwclient;
pub mod config;
pub mod entry;
pub mod kernel;
pub mod laws;
pub mod lifecycle;
pub mod mapfs;
pub mod sync;

use vstd::prelude::*;
use crate::message::{Answer, Request, Response};
use crate::server::bwclient::{failure_text, CommandOutput, Folder, Secret, Status, BWCLI};
use crate::server::lifecycle::LockAction;
use crate::server::mapfs::{MapFS, Tree};
use crate::server::sync::{sync_fits, synced, vault_unlocked, SyncError};
use std::time::SystemTime;
use vstd::utf8::{decode_utf8, valid_utf8};

verus! {

/// What the daemon was started with.
#[derive(Debug)]
pub struct ServeArgs {
    /// Where to mount the secrets.
    pub mountpoint: String,
    /// Prevent auto unmounting.
    pub no_auto_unmount: bool,
    /// Path to the vault's tool.
    pub bw_bin: String,
    /// Show the folders whose names begin with one of these.
    pub folders: Vec<String>,
    /// User to own the filesystem entries.
    pub user: Option<String>,
    /// Group to own the filesystem entries.
    pub group: Option<String>,
    /// File access controls, in octal form.
    pub mode: String,
    /// Lock the filesystem after this many seconds since the unlock; zero
    /// for never.
    pub lock_after_s: u64,
}

/// What the vault must be asked before a request can be answered.
#[derive(Clone, Copy, PartialEq, Eq, Debug, Structural)]
pub enum VaultCall {
    /// Run the unlock command.
    Unlock,
    /// Read the status.
    Status,
    /// Read the status, and the folders and entries where it is unlocked.
    Fetch,
    /// Nothing.
    Nothing,
}

/// What the vault holds, as far as a synchronization reads it.
#[derive(Debug)]
pub struct Snapshot {
    /// The status, where it could be read.
    pub status: Option<Status>,
    pub folders: Vec<Folder>,
    pub secrets: Vec<Secret>,
}

/// What asking the vault gave. A failure holds the reason why the vault could
/// not be asked at all.
#[derive(Debug)]
pub enum VaultReply {
    Unlock(Result<CommandOutput, String>),
    Status(Result<Status, String>),
    Fetch(Result<Snapshot, String>),
    Nothing,
}

/// What the daemon does with a request: the response, and whether the
/// auto-lock supervisor is to be told of an unlock.
#[derive(Debug)]
pub struct Handled {
    pub response: Response,
    pub notify: bool,
}

/// What the vault must be asked for this request.
pub open spec fn call_for(request: Request) -> VaultCall {
    match request {
        Request::Unlock { .. } => VaultCall::Unlock,
        Request::Lock => VaultCall::Nothing,
        Request::Status => VaultCall::Status,
        Request::Refresh => VaultCall::Fetch,
    }
}

/// Decides what the vault must be asked before the request can be answered.
pub fn vault_call(request: &Request) -> (call: VaultCall)
    ensures
        call == call_for(*request),
{
    match request {
        Request::Unlock { .. } => VaultCall::Unlock,
        Request::Lock => VaultCall::Nothing,
        Request::Status => VaultCall::Status,
        Request::Refresh => VaultCall::Fetch,
    }
}

/// The reason that is given where the vault's reply is not the one that the
/// request called for.
pub open spec fn unexpected_reply() -> Seq<char> {
    "unexpected reply from the vault"@
}

/// Answers a request, given what asking the vault gave.
///
/// - Unlock: the session takes in what the unlock command gave. Success,
///   and a notice to the supervisor, where it got a token; else a failure
///   with the reason.
/// - Lock: the tree is emptied and the session forgets its token. Success.
/// - Status: whether the vault reports itself locked, or a failure where it
///   could not be asked.
/// - Refresh: the tree is synchronized. Success, or a failure with the
///   reason, the tree then staying as it is.
///
/// A reply that the request did not call for gives a failure and changes
/// nothing.
pub fn handle_request(request: Request, reply: VaultReply, cli: &mut BWCLI, fs: &mut MapFS) -> (h:
    Handled)
    requires
        old(fs).wf(),
        request is Lock ==> old(fs)@.generation < u64::MAX,
    ensures
        final(fs).wf(),
        final(cli).path() == old(cli).path(),
        h.notify <==> request is Unlock && h.response@ is Success,
        !(request is Lock) && !(request is Refresh && h.response@ is Success) ==> final(fs)@ == old(
            fs,
        )@,
        !(request is Lock) && !(request is Unlock && h.response@ is Success) ==> final(cli).token()
            == old(cli).token(),
        request is Lock ==> {
            &&& h.response@ is Success
            &&& final(fs)@ == old(fs)@.clear()
            &&& final(cli).token() is None
        },
        call_for(request) != reply_kind(reply) ==> !(request is Lock) ==> h.response@
            == (Answer::Failure { reason: unexpected_reply() }),
        request is Unlock ==> match reply {
            VaultReply::Unlock(Ok(output)) => {
                &&& h.response@ is Success <==> output.success && valid_utf8(output.stdout@)
                &&& h.response@ is Success ==> final(cli).token() == Some(
                    decode_utf8(output.stdout@),
                )
                &&& !(h.response@ is Success) ==> h.response@ is Failure
                &&& !output.success ==> h.response@ == (Answer::Failure {
                    reason: failure_text(output.stderr@),
                })
            },
            VaultReply::Unlock(Err(reason)) => h.response@ == (Answer::Failure { reason: reason@ }),
            _ => true,
        },
        request is Status ==> match reply {
            VaultReply::Status(Ok(status)) => h.response@ == (Answer::Status {
                locked: status.status@ == "locked"@,
            }),
            VaultReply::Status(Err(reason)) => h.response@ == (Answer::Failure { reason: reason@ }),
            _ => true,
        },
        request is Refresh ==> match reply {
            VaultReply::Fetch(Ok(snap)) => {
                let fits = sync_fits(old(fs)@, snap.folders@, snap.secrets@);
                &&& h.response@ is Success <==> vault_unlocked(snap.status) && fits
                &&& h.response@ is Success ==> exists|stamp: SystemTime|
                    final(fs)@ == #[trigger] synced(
                        old(fs)@,
                        snap.folders@,
                        snap.secrets@,
                        stamp,
                    )
                &&& !vault_unlocked(snap.status) ==> h.response@ == (Answer::Failure {
                    reason: SyncError::Locked.text(),
                })
                &&& vault_unlocked(snap.status) && !fits ==> h.response@ == (Answer::Failure {
                    reason: SyncError::OutOfNumbers.text(),
                })
            },
            VaultReply::Fetch(Err(reason)) => h.response@ == (Answer::Failure { reason: reason@ }),
            _ => true,
        },
{
    match request {
        Request::Unlock { password: _ } => match reply {
            VaultReply::Unlock(Ok(output)) => match cli.unlock(output) {
                Ok(()) => Handled { response: Response::Success, notify: true },
                Err(reason) => Handled { response: Response::Failure { reason }, notify: false },
            },
            VaultReply::Unlock(Err(reason)) => Handled {
                response: Response::Failure { reason },
                notify: false,
            },
            _ => unexpected(),
        },
        Request::Lock => {
            fs.clear();
            let _ = cli.lock();
            Handled { response: Response::Success, notify: false }
        },
        Request::Status => match reply {
            VaultReply::Status(Ok(status)) => Handled {
                response: Response::Status { locked: status.is_locked() },
                notify: false,
            },
            VaultReply::Status(Err(reason)) => Handled {
                response: Response::Failure { reason },
                notify: false,
            },
            _ => unexpected(),
        },
        Request::Refresh => match reply {
            VaultReply::Fetch(Ok(snap)) => match fs.refresh(
                snap.status,
                snap.folders,
                snap.secrets,
            ) {
                Ok(()) => Handled { response: Response::Success, notify: false },
                Err(e) => Handled {
                    response: Response::Failure { reason: e.to_string() },
                    notify: false,
                },
            },
            VaultReply::Fetch(Err(reason)) => Handled {
                response: Response::Failure { reason },
                notify: false,
            },
            _ => unexpected(),
        },
    }
}

/// What carrying out an action of the auto-lock supervisor makes of the tree:
/// emptying and locking starts the next generation, with the root alone;
/// every other action leaves the tree as it is.
pub open spec fn tree_after(tree: Tree, action: LockAction) -> Tree {
    if action == LockAction::ClearAndLock {
        tree.clear()
    } else {
        tree
    }
}

/// What carrying out an action of the auto-lock supervisor makes of the
/// session's token: emptying and locking forgets it; every other action
/// leaves it as it is.
pub open spec fn token_after(token: Option<Seq<char>>, action: LockAction) -> Option<Seq<char>> {
    if action == LockAction::ClearAndLock {
        None
    } else {
        token
    }
}

/// Carries out on the tree what an action of the auto-lock supervisor asks
/// of it.
pub fn act_on_tree(action: LockAction, fs: &mut MapFS)
    requires
        old(fs).wf(),
        action == LockAction::ClearAndLock ==> old(fs)@.generation < u64::MAX,
    ensures
        final(fs).wf(),
        final(fs)@ == tree_after(old(fs)@, action),
{
    match action {
        LockAction::ClearAndLock => {
            fs.clear();
        },
        _ => {},
    }
}

/// Carries out on the session what an action of the auto-lock supervisor
/// asks of it.
pub fn act_on_session(action: LockAction, cli: &mut BWCLI)
    ensures
        final(cli).path() == old(cli).path(),
        final(cli).token() == token_after(old(cli).token(), action),
{
    match action {
        LockAction::ClearAndLock => {
            let _ = cli.lock();
        },
        _ => {},
    }
}

/// Which call a reply answers.
pub open spec fn reply_kind(reply: VaultReply) -> VaultCall {
    match reply {
        VaultReply::Unlock(_) => VaultCall::Unlock,
        VaultReply::Status(_) => VaultCall::Status,
        VaultReply::Fetch(_) => VaultCall::Fetch,
        VaultReply::Nothing => VaultCall::Nothing,
    }
}

/// The failure for a reply that the request did not call for.
fn unexpected() -> (h: Handled)
    ensures
        !h.notify,
        h.response@ == (Answer::Failure { reason: unexpected_reply() }),
{
    Handled {
        response: Response::Failure { reason: "unexpected reply from the vault".to_owned() },
        notify: false,
    }
}

} // verus!
