//! The control protocol: what the command-line tool asks of the daemon, and
//! what the daemon answers. One request and one response per connection.

use vstd::prelude::*;

verus! {

/// A request to the daemon.
#[derive(Debug)]
pub enum Request {
    /// Unlock the vault with this password.
    Unlock { password: String },
    /// Lock the vault and empty the tree.
    Lock,
    /// Report whether the vault is locked.
    Status,
    /// Rebuild the tree from the vault.
    Refresh,
}

/// The daemon's answer to a request.
#[derive(Debug)]
pub enum Response {
    /// Whether the vault is locked.
    Status { locked: bool },
    /// The request was carried out.
    Success,
    /// The request was not carried out, and why.
    Failure { reason: String },
}

/// A response as the contracts see it.
pub enum Answer {
    Status { locked: bool },
    Success,
    Failure { reason: Seq<char> },
}

impl View for Response {
    type V = Answer;

    open spec fn view(&self) -> Answer {
        match self {
            Response::Status { locked } => Answer::Status { locked: *locked },
            Response::Success => Answer::Success,
            Response::Failure { reason } => Answer::Failure { reason: reason@ },
        }
    }
}

/// The bytes of a request on the wire: its encoding, closed by a line feed.
pub open spec fn framed(encoded: Seq<u8>) -> Seq<u8> {
    encoded.push(10u8)
}

/// Closes an encoded request with the line feed that ends it on the wire.
pub fn frame(encoded: Vec<u8>) -> (r: Vec<u8>)
    ensures
        r@ == framed(encoded@),
{
    let mut out = encoded;
    out.push(10u8);
    out
}

/// Where the request ends in what was read from a connection: behind the
/// first line feed, or at the end where there is none.
pub open spec fn request_end(input: Seq<u8>) -> int
    decreases input.len(),
{
    if input.len() == 0 {
        0
    } else if input[0] == 10u8 {
        1
    } else {
        1 + request_end(input.drop_first())
    }
}

/// The length of the request in what was read from a connection: up to and
/// including the first line feed.
pub fn request_len(input: &[u8]) -> (n: usize)
    ensures
        n == request_end(input@),
        n <= input.len(),
{
    let mut i: usize = 0;
    proof {
        assert(input@.skip(0) == input@);
        lemma_request_end_bound(input@);
    }
    while i < input.len()
        invariant
            i <= input.len(),
            request_end(input@) == i + request_end(input@.skip(i as int)),
            request_end(input@.skip(i as int)) <= input.len() - i,
        decreases input.len() - i,
    {
        proof {
            assert(input@.skip(i as int).drop_first() == input@.skip(i as int + 1));
            lemma_request_end_bound(input@.skip(i as int + 1));
        }
        if input[i] == 10u8 {
            return i + 1;
        }
        i += 1;
    }
    proof {
        assert(input@.skip(i as int).len() == 0);
    }
    i
}

/// A request ends within what was read.
pub proof fn lemma_request_end_bound(input: Seq<u8>)
    ensures
        0 <= request_end(input) <= input.len(),
    decreases input.len(),
{
    if input.len() > 0 && input[0] != 10u8 {
        lemma_request_end_bound(input.drop_first());
    }
}

} // verus!
