//! One exchange on the broker's pipe or socket: when a request is complete, whom it is taken from,
//! and which text of it is parsed.

use crate::broker::protocol::{failure, Response, ResponseView};
use crate::text::{trim, trimmed, utf8_text};
use vstd::prelude::*;
use vstd::slice::slice_subrange;
use vstd::utf8::{decode_utf8, encode_utf8, valid_utf8};

verus! {

/// The most bytes of a request on the Windows pipe.
pub const MAX_PIPE_REQUEST: usize = 65_536;

/// The most bytes of a request on the macOS socket.
pub const MAX_SOCKET_REQUEST: usize = 262_144;

/// The first uid that macOS gives to a person. The accounts below it have no business here.
pub const FIRST_HUMAN_UID: u32 = 500;

/// The position of the first line feed at or after `i`, or the length when there is none.
pub open spec fn feed_from(b: Seq<u8>, i: int) -> int
    decreases b.len() - i,
{
    if i < 0 || i >= b.len() {
        b.len() as int
    } else if b[i] == 10 {
        i
    } else {
        feed_from(b, i + 1)
    }
}

fn find_feed(b: &[u8]) -> (r: usize)
    ensures
        r == feed_from(b@, 0),
        r <= b@.len(),
{
    let mut i: usize = 0;
    while i < b.len()
        invariant
            i <= b@.len(),
            feed_from(b@, 0) == feed_from(b@, i as int),
        decreases b@.len() - i,
    {
        if b[i] == 10 {
            return i;
        }
        i = i + 1;
    }
    b.len()
}

/// Whether enough of a request was read from the pipe: a whole line, or as much as there may be.
pub fn is_complete(read: &[u8]) -> (r: bool)
    ensures
        r == (feed_from(read@, 0) < read@.len() || read@.len() >= MAX_PIPE_REQUEST),
{
    find_feed(read) < read.len() || read.len() >= MAX_PIPE_REQUEST
}

/// The text to parse of what was read from the pipe, or the answer when there is none.
pub open spec fn pipe_text(read: Seq<u8>) -> Result<Seq<char>, ResponseView> {
    let line = read.take(feed_from(read, 0));
    if !valid_utf8(line) {
        Err(failure("request was not valid UTF-8"@))
    } else if trimmed(decode_utf8(line)).len() == 0 {
        Err(failure("empty request"@))
    } else {
        Ok(trimmed(decode_utf8(line)))
    }
}

/// The text to parse of what was read from the pipe.
pub fn pipe_request(read: &[u8]) -> (r: Result<String, Response>)
    ensures
        match r {
            Ok(t) => pipe_text(read@) == Ok::<Seq<char>, ResponseView>(t@),
            Err(e) => pipe_text(read@) == Err::<Seq<char>, ResponseView>(e@),
        },
{
    let n: usize = find_feed(read);
    let line = slice_subrange(read, 0, n);
    assert(line@ =~= read@.take(n as int));
    match utf8_text(line) {
        None => Err(Response::err("request was not valid UTF-8".to_owned())),
        Some(s) => {
            let t = trim(s);
            if t.as_str().is_empty() {
                Err(Response::err("empty request".to_owned()))
            } else {
                Ok(t)
            }
        },
    }
}

/// Whether the helper serves the account on the other end of its socket.
pub fn serves(uid: u32) -> (r: Result<(), Response>)
    ensures
        match r {
            Ok(_) => uid >= FIRST_HUMAN_UID,
            Err(e) => uid < FIRST_HUMAN_UID && e@ == failure("not permitted for this account"@),
        },
{
    if uid < FIRST_HUMAN_UID {
        return Err(Response::err("not permitted for this account".to_owned()));
    }
    Ok(())
}

/// What a line from the socket comes to.
#[derive(Debug)]
pub enum SocketLine {
    /// The client hung up: there is nothing to answer.
    HungUp,
    /// The answer.
    Refused(Response),
    /// The text to parse.
    Parse(String),
}

/// What a line from the socket comes to: nothing was read, or too much, or a text to parse.
pub fn socket_request(line: &str) -> (r: SocketLine)
    ensures
        match r {
            SocketLine::HungUp => encode_utf8(line@).len() == 0,
            SocketLine::Refused(e) => encode_utf8(line@).len() >= MAX_SOCKET_REQUEST && e@
                == failure("request too large"@),
            SocketLine::Parse(t) => 0 < encode_utf8(line@).len() < MAX_SOCKET_REQUEST && t@
                == trimmed(line@),
        },
{
    let n: usize = line.as_bytes().len();
    if n == 0 {
        return SocketLine::HungUp;
    }
    if n >= MAX_SOCKET_REQUEST {
        return SocketLine::Refused(Response::err("request too large".to_owned()));
    }
    SocketLine::Parse(trim(line))
}

/// The answer to a request that could not be parsed.
pub fn bad_request(why: &str) -> (r: Response)
    ensures
        r@ == failure("bad request: "@ + why@),
{
    let mut s = "bad request: ".to_owned();
    s.append(why);
    Response::err(s)
}

/// The text to parse of an answer line, or what is wrong when there is none. `who` names the other
/// end.
pub fn response_text(line: &str, who: &str) -> (r: Result<String, String>)
    ensures
        match r {
            Ok(t) => t@ == trimmed(line@) && t@.len() > 0,
            Err(e) => trimmed(line@).len() == 0 && e@ == who@
                + " closed the connection without a response"@,
        },
{
    let t = trim(line);
    if t.as_str().is_empty() {
        let mut s = who.to_owned();
        s.append(" closed the connection without a response");
        return Err(s);
    }
    Ok(t)
}

proof fn lemma_feed(b: Seq<u8>, i: int)
    requires
        0 <= i <= b.len(),
    ensures
        i <= feed_from(b, i) <= b.len(),
        feed_from(b, i) < b.len() ==> b[feed_from(b, i)] == 10,
        forall|k: int| i <= k < feed_from(b, i) ==> #[trigger] b[k] != 10,
    decreases b.len() - i,
{
    if i < b.len() && b[i] != 10 {
        lemma_feed(b, i + 1);
    }
}

proof fn lemma_feed_is_there(b: Seq<u8>, i: int, n: int)
    requires
        0 <= i <= n <= b.len(),
        n < b.len() ==> b[n] == 10,
        forall|k: int| i <= k < n ==> #[trigger] b[k] != 10,
    ensures
        feed_from(b, i) == n,
    decreases n - i,
{
    if i < n {
        lemma_feed_is_there(b, i + 1, n);
    }
}

/// What is parsed of a request on the pipe is its first line, without the white space around it;
/// what follows that line plays no part. A line that is not UTF-8, or blank, is refused.
pub proof fn law_first_line_is_parsed(line: Seq<u8>, rest: Seq<u8>)
    requires
        !line.contains(10u8),
    ensures
        pipe_text(line + seq![10u8] + rest) == pipe_text(line),
        !valid_utf8(line) ==> pipe_text(line) == Err::<Seq<char>, ResponseView>(
            failure("request was not valid UTF-8"@),
        ),
        valid_utf8(line) && trimmed(decode_utf8(line)).len() == 0 ==> pipe_text(line) == Err::<
            Seq<char>,
            ResponseView,
        >(failure("empty request"@)),
        valid_utf8(line) && trimmed(decode_utf8(line)).len() > 0 ==> pipe_text(line) == Ok::<
            Seq<char>,
            ResponseView,
        >(trimmed(decode_utf8(line))),
        feed_from(line, 0) == line.len(),
        feed_from(line + seq![10u8] + rest, 0) == line.len(),
{
    let n = line.len() as int;
    let whole = line + seq![10u8] + rest;
    assert forall|k: int| 0 <= k < n implies #[trigger] line[k] != 10 by {
        assert(line.contains(line[k]));
    }
    assert forall|k: int| 0 <= k < n implies #[trigger] whole[k] != 10 by {
        assert(whole[k] == line[k]);
    }
    assert(whole[n] == 10);
    lemma_feed_is_there(line, 0, n);
    lemma_feed_is_there(whole, 0, n);
    assert(line.take(n) =~= line);
    assert(whole.take(n) =~= line);
}

/// A request is complete at its first line feed, wherever that stands.
pub proof fn law_line_feed_ends_a_request(read: Seq<u8>)
    ensures
        feed_from(read, 0) < read.len() <==> read.contains(10u8),
{
    lemma_feed(read, 0);
    if feed_from(read, 0) < read.len() {
        assert(read.contains(read[feed_from(read, 0)]));
    }
}

} // verus!
