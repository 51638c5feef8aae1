//! The command-line tool's side of the control protocol: which request a
//! command sends, and what it tells the user of the response.

use vstd::prelude::*;
use crate::message::{Request, Response};
use crate::names::{decimal, decimal_text};

verus! {

/// The request that unlocks the vault with this password. An empty password
/// sends nothing: the unlock is skipped.
pub fn unlock_request(password: String) -> (r: Option<Request>)
    ensures
        r is None <==> password@.len() == 0,
        r matches Some(request) ==> request matches Request::Unlock { password: p } && p@
            == password@,
{
    if password.as_str().is_empty() {
        None
    } else {
        Some(Request::Unlock { password })
    }
}

/// What the user is told where the password was empty.
pub fn skipped_message() -> (s: String)
    ensures
        s@ == "Got empty password, skipping unlock"@,
{
    "Got empty password, skipping unlock".to_owned()
}

/// Whether the tree is refreshed after an unlock.
pub fn refresh_after_unlock(no_refresh: bool) -> (r: bool)
    ensures
        r == !no_refresh,
{
    !no_refresh
}

/// A number in decimal, with a minus sign where it is negative.
pub open spec fn signed_decimal(n: int) -> Seq<char> {
    if n < 0 {
        "-"@ + decimal((-n) as nat)
    } else {
        decimal(n as nat)
    }
}

/// Why the unlock ends where the script that asks for the password failed:
/// the script's exit code is named, or 1 where it has none.
pub fn prompt_failure(code: Option<i32>) -> (s: String)
    ensures
        s@ == "Password prompt failed with exit code "@ + signed_decimal(
            match code {
                Some(c) => c as int,
                None => 1,
            },
        ),
{
    let c: i64 = match code {
        Some(c) => c as i64,
        None => 1,
    };
    let number = if c < 0 {
        "-".to_owned().concat(decimal_text((-c) as u64).as_str())
    } else {
        decimal_text(c as u64)
    };
    "Password prompt failed with exit code ".to_owned().concat(number.as_str())
}

/// What the user is told of the response to an unlock: the message to
/// print, or the error that ends the command. The daemon answers an unlock
/// with success or with a failure, never with a status.
pub fn unlock_outcome(response: &Response) -> (r: Result<String, String>)
    requires
        !(response is Status),
    ensures
        match *response {
            Response::Success => r matches Ok(m) && m@ == "Unlocked"@,
            Response::Failure { reason } => r matches Err(e) && e@ == "Failed to unlock: "@
                + reason@,
            Response::Status { .. } => false,
        },
{
    match response {
        Response::Failure { reason } => Err("Failed to unlock: ".to_owned().concat(reason.as_str())),
        _ => Ok("Unlocked".to_owned()),
    }
}

/// What the user is told of the response to a refresh.
pub fn refresh_outcome(response: &Response) -> (m: String)
    requires
        !(response is Status),
    ensures
        match *response {
            Response::Success => m@ == "Refreshed"@,
            Response::Failure { reason } => m@ == "Failed to refresh: "@ + reason@,
            Response::Status { .. } => false,
        },
{
    match response {
        Response::Failure { reason } => "Failed to refresh: ".to_owned().concat(reason.as_str()),
        _ => "Refreshed".to_owned(),
    }
}

/// What the user is told of the response to a lock.
pub fn lock_outcome(response: &Response) -> (m: String)
    requires
        !(response is Status),
    ensures
        match *response {
            Response::Success => m@ == "Locked"@,
            Response::Failure { reason } => m@ == "Failed to lock: "@ + reason@,
            Response::Status { .. } => false,
        },
{
    match response {
        Response::Failure { reason } => "Failed to lock: ".to_owned().concat(reason.as_str()),
        _ => "Locked".to_owned(),
    }
}

/// What the user is told of the response to a status request, and the exit
/// code of the command: 1 for a locked vault, 0 for an unlocked one. The
/// daemon answers a status request that it could carry out with a status.
pub fn status_outcome(response: &Response) -> (r: (String, i32))
    requires
        response is Status,
    ensures
        *response matches Response::Status { locked } && if locked {
            r.0@ == "Locked"@ && r.1 == 1
        } else {
            r.0@ == "Unlocked"@ && r.1 == 0
        },
{
    match response {
        Response::Status { locked: true } => ("Locked".to_owned(), 1),
        _ => ("Unlocked".to_owned(), 0),
    }
}

} // verus!
