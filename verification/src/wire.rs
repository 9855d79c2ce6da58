//! Transport-level framing: socket path derivation, the control channel's
//! terminator scan, and line extraction for the event stream.
//!
//! The application owns the sockets themselves; it hands raw bytes to the
//! functions here and gets back exactly framed requests, responses and event
//! lines.

use vstd::prelude::*;
use vstd::string::StringExecFns;

verus! {

/// The error taxonomy of the client.
///
/// `Connection` is a socket open/connect failure, `Control` a per-request
/// failure on the control channel, `Parse` a malformed event payload or
/// response, and `StreamEnded` the terminal end of the event socket.
#[derive(Clone, Copy, Debug, PartialEq, Eq, Structural)]
pub enum HyprError {
    Connection,
    Control,
    Parse,
    StreamEnded,
}

/// A fatal error terminates the affected stream; a non-fatal one is recovered
/// locally by skipping the reconciliation step or the event.
pub fn is_fatal(e: HyprError) -> (r: bool)
    ensures
        r == (e == HyprError::Connection || e == HyprError::StreamEnded),
{
    match e {
        HyprError::Connection => true,
        HyprError::Control => false,
        HyprError::Parse => false,
        HyprError::StreamEnded => true,
    }
}

/// First position at or after `i` where `b` occurs in `s`.
pub open spec fn find_from(s: Seq<u8>, i: int, b: u8) -> Option<int>
    decreases s.len() - i,
{
    if i < 0 || i >= s.len() {
        None
    } else if s[i] == b {
        Some(i)
    } else {
        find_from(s, i + 1, b)
    }
}

/// First position of `b` in `buf` at or after `start`, if any.
pub fn find_byte_from(buf: &Vec<u8>, start: usize, b: u8) -> (r: Option<usize>)
    ensures
        match r {
            Some(k) => start <= k < buf.len() && buf@[k as int] == b && find_from(
                buf@,
                start as int,
                b,
            ) == Some(k as int),
            None => find_from(buf@, start as int, b) is None,
        },
{
    let mut i: usize = start;
    if start > buf.len() {
        return None;
    }
    while i < buf.len()
        invariant
            start <= i <= buf.len(),
            find_from(buf@, start as int, b) == find_from(buf@, i as int, b),
        decreases buf.len() - i,
    {
        if buf[i] == b {
            return Some(i);
        }
        i = i + 1;
    }
    None
}

/// First position of `b` in `buf`, if any.
pub fn find_byte(buf: &Vec<u8>, b: u8) -> (r: Option<usize>)
    ensures
        match r {
            Some(k) => k < buf.len() && buf@[k as int] == b && find_from(buf@, 0, b) == Some(
                k as int,
            ),
            None => find_from(buf@, 0, b) is None,
        },
{
    find_byte_from(buf, 0, b)
}

/// The control protocol's response terminator.
pub const TERMINATOR: u8 = 59u8;

/// Extent of a complete control response inside an accumulating read buffer:
/// everything up to and including the first `;`, mirroring a read that stops
/// at that byte.  `None` while no terminator has arrived yet; the caller then
/// either reads more or, at end of stream, takes the whole buffer as the
/// response.
pub fn response_end(buf: &Vec<u8>) -> (r: Option<usize>)
    ensures
        match r {
            Some(k) => {
                &&& find_from(buf@, 0, TERMINATOR) == Some(k - 1)
                &&& 1 <= k <= buf@.len()
            },
            None => find_from(buf@, 0, TERMINATOR) is None,
        },
{
    match find_byte(buf, TERMINATOR) {
        Some(k) => {
            proof {
                lemma_find_from_in_range(buf@, 0, TERMINATOR);
            }
            Some(k + 1)
        },
        None => None,
    }
}

proof fn lemma_find_from_in_range(s: Seq<u8>, i: int, b: u8)
    ensures
        find_from(s, i, b) matches Some(k) ==> i <= k < s.len() && s[k] == b,
    decreases s.len() - i,
{
    if 0 <= i < s.len() && s[i] != b {
        lemma_find_from_in_range(s, i + 1, b);
    }
}

/// Splits the first newline-terminated line off an accumulating read buffer.
///
/// Returns the line without its `\n` (and without a preceding `\r`, as a
/// buffered line reader would strip it) together with the remaining bytes.
/// `None` while the buffer holds no complete line yet.
pub fn split_first_line(buf: &Vec<u8>) -> (r: Option<(Vec<u8>, Vec<u8>)>)
    ensures
        match r {
            Some((line, rest)) => {
                &&& find_from(buf@, 0, 10u8) matches Some(k) && {
                    &&& rest@ == buf@.subrange(k + 1, buf@.len() as int)
                    &&& if k > 0 && buf@[k - 1] == 13u8 {
                        line@ == buf@.subrange(0, k - 1)
                    } else {
                        line@ == buf@.subrange(0, k)
                    }
                }
            },
            None => find_from(buf@, 0, 10u8) is None,
        },
{
    match find_byte(buf, 10u8) {
        Some(k) => {
            proof {
                lemma_find_from_in_range(buf@, 0, 10u8);
            }
            let end: usize = if k > 0 && buf[k - 1] == 13u8 {
                k - 1
            } else {
                k
            };
            let mut line: Vec<u8> = Vec::new();
            let mut i: usize = 0;
            while i < end
                invariant
                    0 <= i <= end <= buf@.len(),
                    line@ == buf@.subrange(0, i as int),
                decreases end - i,
            {
                line.push(buf[i]);
                proof {
                    assert(line@ =~= buf@.subrange(0, i + 1));
                }
                i = i + 1;
            }
            let mut rest: Vec<u8> = Vec::new();
            let mut j: usize = k + 1;
            while j < buf.len()
                invariant
                    k + 1 <= j <= buf@.len(),
                    rest@ == buf@.subrange(k + 1, j as int),
                decreases buf.len() - j,
            {
                rest.push(buf[j]);
                proof {
                    assert(rest@ =~= buf@.subrange(k + 1, j + 1));
                }
                j = j + 1;
            }
            Some((line, rest))
        },
        None => None,
    }
}

/// Builds the two socket paths from the runtime directory and the
/// compositor's instance signature: `<dir>/hypr/<sig>/.socket.sock` for the
/// control channel and `<dir>/hypr/<sig>/.socket2.sock` for the event stream.
pub fn socket_paths(runtime_dir: &str, signature: &str) -> (r: (String, String))
    ensures
        r.0@ == runtime_dir@ + "/hypr/"@ + signature@ + "/.socket.sock"@,
        r.1@ == runtime_dir@ + "/hypr/"@ + signature@ + "/.socket2.sock"@,
{
    let mut base = String::from_str(runtime_dir);
    base.append("/hypr/");
    base.append(signature);
    let mut control = base.clone();
    control.append("/.socket.sock");
    let mut events = base;
    events.append("/.socket2.sock");
    (control, events)
}

} // verus!
