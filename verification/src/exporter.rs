//! Minimal HTTP exporter for Prometheus scrapes — `GET /metrics`.
//!
//! One short-lived connection at a time, bounded request size, a hard per-request deadline (so a
//! client dripping bytes cannot hold the sequential accept loop hostage), and no body parsing.
//! Serving is read-only against the [`Metrics`] cache; a scrape can never reach the i2c bus.

use crate::clock::{Duration, Instant};
use crate::metrics;
use crate::metrics::Metrics;
use crate::text;
use crate::text::{chars_of, decimal_text, decode_lossy, find_char, slice_of, text_of, word};
use vstd::prelude::*;
use vstd::utf8;

verus! {

/// Cap on a single read or write: two seconds, in nanoseconds.
pub const IO_TIMEOUT_NANOS: u128 = 2_000_000_000;

/// Hard ceiling on one request's lifetime — the accept loop is sequential, so no client may hold
/// it longer than this, no matter how slowly it feeds bytes: five seconds, in nanoseconds.
pub const REQUEST_DEADLINE_NANOS: u128 = 5_000_000_000;

/// Longest request head that is accepted.
pub const MAX_REQUEST: usize = 8192;

// ---------------------------------------------------------------- receiving the head

/// Whether a carriage return, line feed, carriage return, line feed stand at position `i`.
pub open spec fn blank_line_at(buf: Seq<u8>, i: int) -> bool {
    0 <= i <= buf.len() - 4 && buf[i] == 13 && buf[i + 1] == 10 && buf[i + 2] == 13 && buf[i + 3]
        == 10
}

/// Whether the head of the request is complete.
pub open spec fn head_complete(buf: Seq<u8>) -> bool {
    exists|i: int| #[trigger] blank_line_at(buf, i)
}

/// What to do with a connection.
#[derive(Debug, Clone, Copy, PartialEq, Eq, Structural)]
pub enum Next {
    /// The head is there: answer it.
    Answer,
    /// The head is too long.
    TooLarge,
    /// The deadline has passed.
    TimedOut,
    /// Read on, for so long at most.
    Read(Duration),
}

/// What to do after `elapsed` with what has arrived so far.
pub open spec fn next_of(buf: Seq<u8>, elapsed: Duration, deadline: Duration) -> Next {
    if head_complete(buf) {
        Next::Answer
    } else if buf.len() > MAX_REQUEST {
        Next::TooLarge
    } else if elapsed.nanos >= deadline.nanos {
        Next::TimedOut
    } else if deadline.nanos - elapsed.nanos <= IO_TIMEOUT_NANOS {
        Next::Read(Duration { nanos: (deadline.nanos - elapsed.nanos) as u128 })
    } else {
        Next::Read(Duration { nanos: IO_TIMEOUT_NANOS })
    }
}

fn complete(buf: &Vec<u8>) -> (r: bool)
    ensures
        r == head_complete(buf@),
{
    if buf.len() < 4 {
        return false;
    }
    let mut i: usize = 0;
    while i <= buf.len() - 4
        invariant
            buf.len() >= 4,
            i <= buf.len() - 3,
            forall|j: int| 0 <= j < i ==> !blank_line_at(buf@, j),
        decreases buf.len() - i,
    {
        if buf[i] == 13 && buf[i + 1] == 10 && buf[i + 2] == 13 && buf[i + 3] == 10 {
            assert(blank_line_at(buf@, i as int));
            return true;
        }
        i = i + 1;
    }
    false
}

/// What to do next with a connection that has sent `buf` in the time `elapsed` since it was
/// accepted. A received byte never resets the clock: the overall deadline is enforced.
pub fn next(buf: &Vec<u8>, elapsed: Duration, deadline: Duration) -> (n: Next)
    ensures
        n == next_of(buf@, elapsed, deadline),
{
    if complete(buf) {
        return Next::Answer;
    }
    if buf.len() > MAX_REQUEST {
        return Next::TooLarge;
    }
    let remaining = deadline.saturating_sub(elapsed);
    if remaining.is_zero() {
        return Next::TimedOut;
    }
    Next::Read(remaining.min(Duration { nanos: IO_TIMEOUT_NANOS }))
}

/// No client holds the loop past its deadline: a read is only started while time is left, is
/// never longer than what is left, and never longer than one I/O timeout.
pub proof fn law_reads_end_by_the_deadline(
    buf: Seq<u8>,
    elapsed: Duration,
    deadline: Duration,
    wait: Duration,
)
    requires
        next_of(buf, elapsed, deadline) == Next::Read(wait),
    ensures
        0 < wait.nanos <= IO_TIMEOUT_NANOS,
        elapsed.nanos + wait.nanos <= deadline.nanos,
        buf.len() <= MAX_REQUEST,
{
}

/// Once the deadline has passed an unfinished request is never read on, whatever arrived.
pub proof fn law_late_requests_are_dropped(buf: Seq<u8>, elapsed: Duration, deadline: Duration)
    requires
        elapsed.nanos >= deadline.nanos,
        !head_complete(buf),
    ensures
        next_of(buf, elapsed, deadline) == Next::TimedOut || next_of(buf, elapsed, deadline)
            == Next::TooLarge,
{
}

// ---------------------------------------------------------------- routing

/// The first line, without its end.
pub open spec fn first_line(s: Seq<char>) -> Seq<char> {
    match s.index_of_first('\n') {
        None => s,
        Some(i) => if i > 0 && s[i - 1] == '\r' {
            s.take(i - 1)
        } else {
            s.take(i)
        },
    }
}

/// A request target without its query and fragment.
pub open spec fn path_of(target: Seq<char>) -> Seq<char>
    decreases target.len(),
{
    if target.len() == 0 || target[0] == '?' || target[0] == '#' {
        seq![]
    } else {
        seq![target[0]] + path_of(target.drop_first())
    }
}

/// What a request asks for.
#[derive(Debug, Clone, Copy, PartialEq, Eq, Structural)]
pub enum Route {
    Metrics,
    Index,
    NotFound,
    NotAllowed,
}

/// What a method and a path ask for.
pub open spec fn route_for(method: Seq<char>, path: Seq<char>) -> Route {
    if method == "GET"@ {
        if path == "/metrics"@ {
            Route::Metrics
        } else if path == "/"@ {
            Route::Index
        } else {
            Route::NotFound
        }
    } else {
        Route::NotAllowed
    }
}

/// What the head of a request asks for.
pub open spec fn route_of(head: Seq<char>) -> Route {
    let line = first_line(head);
    route_for(
        text::first_word(line),
        path_of(text::first_word(text::after_word(line))),
    )
}

fn path_end(v: &Vec<char>, from: usize, to: usize) -> (end: usize)
    requires
        from <= to <= v.len(),
    ensures
        from <= end <= to,
        v@.subrange(from as int, end as int) == path_of(v@.subrange(from as int, to as int)),
{
    let ghost s = v@.subrange(from as int, to as int);
    let mut i: usize = from;
    assert(v@.subrange(from as int, from as int) + path_of(s) =~= path_of(s));
    while i < to && v[i] != '?' && v[i] != '#'
        invariant
            from <= i <= to <= v.len(),
            v@.subrange(from as int, i as int) + path_of(v@.subrange(i as int, to as int))
                == path_of(s),
        decreases to - i,
    {
        let ghost rest = v@.subrange(i as int, to as int);
        assert(rest[0] == v@[i as int]);
        assert(rest.drop_first() =~= v@.subrange(i + 1, to as int));
        assert(v@.subrange(from as int, i + 1) + path_of(v@.subrange(i + 1, to as int))
            =~= v@.subrange(from as int, i as int) + path_of(rest));
        i = i + 1;
    }
    proof {
        if i < to {
            assert(v@.subrange(i as int, to as int)[0] == v@[i as int]);
        }
        assert(v@.subrange(from as int, i as int) =~= path_of(s));
    }
    i
}

/// What the head of a request asks for. Scrapers may append query parameters: they do not
/// matter.
pub fn route_text(head: &str) -> (r: Route)
    ensures
        r == route_of(head@),
{
    let v = chars_of(head);
    proof {
        v@.index_of_first_ensures('\n');
    }
    let end: usize = match find_char(&v, '\n') {
        None => v.len(),
        Some(i) => {
            if i > 0 && v[i - 1] == '\r' {
                i - 1
            } else {
                i
            }
        },
    };
    let line = slice_of(&v, 0, end);
    assert(line@ =~= first_line(head@));
    assert(line@.skip(0) =~= line@);
    let method = word(&line, 0);
    let target = word(&line, method.1);
    let stop: usize = path_end(&line, target.0, target.1);
    let m = text_of(&slice_of(&line, method.0, method.1));
    let p = text_of(&slice_of(&line, target.0, stop));
    if text::same_text(m.as_str(), "GET") {
        if text::same_text(p.as_str(), "/metrics") {
            Route::Metrics
        } else if text::same_text(p.as_str(), "/") {
            Route::Index
        } else {
            Route::NotFound
        }
    } else {
        Route::NotAllowed
    }
}

/// What a received request asks for.
pub fn route(buf: &Vec<u8>) -> (r: Route)
    ensures
        r == route_of(text::lossy(buf@)),
        utf8::valid_utf8(buf@) ==> r == route_of(utf8::decode_utf8(buf@)),
{
    route_text(decode_lossy(buf).as_str())
}

/// Query parameters and fragments never change what is served.
pub proof fn law_query_does_not_matter(target: Seq<char>, mark: char, query: Seq<char>)
    requires
        mark == '?' || mark == '#',
    ensures
        path_of(target + seq![mark] + query) == path_of(target),
    decreases target.len(),
{
    let all = target + seq![mark] + query;
    if target.len() == 0 {
        assert(all[0] == mark);
    } else {
        assert(all[0] == target[0]);
        assert(all.drop_first() =~= target.drop_first() + seq![mark] + query);
        law_query_does_not_matter(target.drop_first(), mark, query);
    }
}

// ---------------------------------------------------------------- responses

/// A response: its status line's end, the type of the body, and the body.
#[derive(Debug, PartialEq)]
pub struct Response {
    pub status: &'static str,
    pub ctype: &'static str,
    pub body: String,
}

/// What a response holds.
#[verifier::ext_equal]
pub struct ResponseView {
    pub status: Seq<char>,
    pub ctype: Seq<char>,
    pub body: Seq<char>,
}

impl View for Response {
    type V = ResponseView;

    open spec fn view(&self) -> ResponseView {
        ResponseView { status: self.status@, ctype: self.ctype@, body: self.body@ }
    }
}

/// The page at the root.
pub open spec fn index_page() -> Seq<char> {
    "<html><body>astral-watch — <a href=\"/metrics\">/metrics</a></body></html>\n"@
}

/// What answers a request for `r`.
pub open spec fn response_for(r: Route, m: metrics::Snapshot, now: Instant) -> ResponseView {
    match r {
        Route::Metrics => ResponseView {
            status: "200 OK"@,
            ctype: "text/plain; version=0.0.4; charset=utf-8"@,
            body: metrics::exposition(m, now),
        },
        Route::Index => ResponseView {
            status: "200 OK"@,
            ctype: "text/html; charset=utf-8"@,
            body: index_page(),
        },
        Route::NotFound => ResponseView {
            status: "404 Not Found"@,
            ctype: "text/plain"@,
            body: "not found\n"@,
        },
        Route::NotAllowed => ResponseView {
            status: "405 Method Not Allowed"@,
            ctype: "text/plain"@,
            body: ""@,
        },
    }
}

/// The answer to a complete request, from the cached metrics as of `now`.
pub fn answer(r: Route, m: &Metrics, now: Instant) -> (out: Response)
    ensures
        out@ == response_for(r, m@, now),
{
    match r {
        Route::Metrics => Response {
            status: "200 OK",
            ctype: "text/plain; version=0.0.4; charset=utf-8",
            body: m.render(now),
        },
        Route::Index => Response {
            status: "200 OK",
            ctype: "text/html; charset=utf-8",
            body:
                "<html><body>astral-watch — <a href=\"/metrics\">/metrics</a></body></html>\n".to_owned(),
        },
        Route::NotFound => Response {
            status: "404 Not Found",
            ctype: "text/plain",
            body: "not found\n".to_owned(),
        },
        Route::NotAllowed => Response {
            status: "405 Method Not Allowed",
            ctype: "text/plain",
            body: "".to_owned(),
        },
    }
}

/// The answer to a head that is too long.
pub fn too_large() -> (out: Response)
    ensures
        out@ == (ResponseView {
            status: "431 Request Header Fields Too Large"@,
            ctype: "text/plain"@,
            body: ""@,
        }),
{
    Response {
        status: "431 Request Header Fields Too Large",
        ctype: "text/plain",
        body: "".to_owned(),
    }
}

/// The answer to a request that took too long.
pub fn timed_out() -> (out: Response)
    ensures
        out@ == (ResponseView {
            status: "408 Request Timeout"@,
            ctype: "text/plain"@,
            body: ""@,
        }),
{
    Response { status: "408 Request Timeout", ctype: "text/plain", body: "".to_owned() }
}

/// A response as sent: status line, headers, blank line, body. The length is that of the body's
/// bytes.
pub open spec fn wire_text(r: ResponseView) -> Seq<char> {
    "HTTP/1.1 "@ + r.status + "\r\ncontent-type: "@ + r.ctype + "\r\ncontent-length: "@
        + text::decimal(utf8::encode_utf8(r.body).len()) + "\r\nconnection: close\r\n\r\n"@
        + r.body
}

impl Response {
    /// The response as sent.
    pub fn to_wire(&self) -> (s: String)
        ensures
            s@ == wire_text(self@),
    {
        let mut s = "HTTP/1.1 ".to_owned();
        s.append(self.status);
        s.append("\r\ncontent-type: ");
        s.append(self.ctype);
        s.append("\r\ncontent-length: ");
        let n: usize = self.body.as_str().as_bytes().len();
        s.append(decimal_text(n as u128).as_str());
        s.append("\r\nconnection: close\r\n\r\n");
        s.append(self.body.as_str());
        s
    }
}

// ---------------------------------------------------------------- accepting

/// What the accept loop does after an attempt.
#[derive(Debug, Clone, Copy, PartialEq, Eq, Structural)]
pub enum Accepted {
    /// Serve the connection.
    Serve,
    /// Say that accepting fails, then back off for a second.
    WarnAndBackOff,
    /// Back off for a second.
    BackOff,
}

/// What one turn of the accept loop does.
pub open spec fn turn_of(ok: bool, failing: bool) -> Accepted {
    if ok {
        Accepted::Serve
    } else if failing {
        Accepted::BackOff
    } else {
        Accepted::WarnAndBackOff
    }
}

/// One turn of the accept loop: failures (e.g. running out of descriptors) warn once per streak
/// and always back off, so that they never become a silent busy-loop. The flag in the result is
/// whether accepting fails now.
pub fn accepted(ok: bool, failing: bool) -> (r: (Accepted, bool))
    ensures
        r.1 == !ok,
        r.0 == (if ok {
            Accepted::Serve
        } else if failing {
            Accepted::BackOff
        } else {
            Accepted::WarnAndBackOff
        }),
        r.0 == turn_of(ok, failing),
{
    if ok {
        (Accepted::Serve, false)
    } else if failing {
        (Accepted::BackOff, true)
    } else {
        (Accepted::WarnAndBackOff, true)
    }
}

} // verus!
