//! Which requests are answered, with what, and how long a client may take.

use crate::clock::{Duration, Instant};
use crate::exporter;
use crate::exporter::{Accepted, Next, ResponseView, Route};
use crate::metrics;
use crate::text;
use crate::text_laws;
use vstd::prelude::*;
use vstd::utf8;

verus! {

/// A line end and a blank line, in bytes.
pub open spec fn blank_line() -> Seq<u8> {
    seq![13, 10, 13, 10]
}

/// A request is answered exactly when the blank line behind its head has come, however late and
/// however long it is.
pub proof fn law_complete_heads_are_answered(buf: Seq<u8>, elapsed: Duration, deadline: Duration)
    ensures
        exporter::next_of(buf, elapsed, deadline) == Next::Answer <==> exists|
            front: Seq<u8>,
            back: Seq<u8>,
        | buf == #[trigger] (front + blank_line() + back),
{
    let end = blank_line();
    if exporter::head_complete(buf) {
        let i = choose|i: int| #[trigger] exporter::blank_line_at(buf, i);
        assert(buf =~= buf.take(i) + end + buf.skip(i + 4));
    }
    if exists|front: Seq<u8>, back: Seq<u8>| buf == #[trigger] (front + end + back) {
        let (front, back) = choose|front: Seq<u8>, back: Seq<u8>|
            buf == #[trigger] (front + end + back);
        let i = front.len() as int;
        assert(buf[i] == end[0] && buf[i + 1] == end[1] && buf[i + 2] == end[2] && buf[i + 3]
            == end[3]);
        assert(exporter::blank_line_at(buf, i));
    }
}

/// An unfinished request is too large past 8192 bytes, timed out once the deadline has come, and
/// read on otherwise: for what is left, two seconds at most.
pub proof fn law_what_becomes_of_unfinished_requests(
    buf: Seq<u8>,
    elapsed: Duration,
    deadline: Duration,
)
    requires
        exporter::next_of(buf, elapsed, deadline) != Next::Answer,
    ensures
        ({
            let next = exporter::next_of(buf, elapsed, deadline);
            &&& next == Next::TooLarge <==> buf.len() > 8192
            &&& next == Next::TimedOut <==> buf.len() <= 8192 && elapsed.nanos >= deadline.nanos
            &&& next is Read <==> buf.len() <= 8192 && elapsed.nanos < deadline.nanos
            &&& next matches Next::Read(wait) ==> wait.nanos <= 2_000_000_000 && elapsed.nanos
                + wait.nanos <= deadline.nanos && (wait.nanos == 2_000_000_000 || elapsed.nanos
                + wait.nanos == deadline.nanos)
        }),
{
}

/// The first line ends before the first line end, and a carriage return before that is no part
/// of it.
pub proof fn law_the_first_line(line: Seq<char>, rest: Seq<char>)
    requires
        !line.contains('\n'),
    ensures
        exporter::first_line(line) == line,
        exporter::first_line(line + seq!['\r', '\n'] + rest) == line,
        line.len() == 0 || line.last() != '\r' ==> exporter::first_line(line + seq!['\n'] + rest)
            == line,
{
    broadcast use vstd::seq_lib::group_seq_properties;

    lemma_first_at(line + seq!['\r', '\n'] + rest, line.len() as int + 1);
    lemma_first_at(line + seq!['\n'] + rest, line.len() as int);
    let s = line + seq!['\r', '\n'] + rest;
    assert(s[line.len() as int] == '\r');
    assert(s.take(line.len() as int) =~= line);
    assert((line + seq!['\n'] + rest).take(line.len() as int) =~= line);
    line.index_of_first_ensures('\n');
}

proof fn lemma_first_at(s: Seq<char>, i: int)
    requires
        0 <= i < s.len(),
        s[i] == '\n',
        forall|j: int| 0 <= j < i ==> s[j] != '\n',
    ensures
        s.index_of_first('\n') == Some(i),
{
    s.index_of_first_ensures('\n');
}

/// A path ends before the first mark of a query or a fragment.
pub proof fn law_paths_end_before_the_marks(target: Seq<char>)
    ensures
        ({
            let path = exporter::path_of(target);
            &&& path.len() <= target.len() && target.take(path.len() as int) == path
            &&& !path.contains('?') && !path.contains('#')
            &&& path.len() < target.len() ==> target[path.len() as int] == '?'
                || target[path.len() as int] == '#'
        }),
    decreases target.len(),
{
    let path = exporter::path_of(target);
    if target.len() > 0 && target[0] != '?' && target[0] != '#' {
        let rest = target.drop_first();
        let p = exporter::path_of(rest);
        law_paths_end_before_the_marks(rest);
        assert(path =~= seq![target[0]] + p);
        assert forall|i: int| 0 <= i < path.len() implies path[i] == target[i] && path[i] != '?'
            && path[i] != '#' by {
            if i > 0 {
                assert(path[i] == p[i - 1]);
                assert(rest.take(p.len() as int)[i - 1] == target[i]);
            }
        }
        assert(target.take(path.len() as int) =~= path);
        if path.len() < target.len() {
            assert(rest[p.len() as int] == target[path.len() as int]);
        }
    } else {
        assert(target.take(0) =~= seq![]);
    }
}

/// A request line of a method, a blank, a target without white space and a version asks for what
/// the method and the path say.
pub proof fn law_request_lines_are_read(
    method: Seq<char>,
    target: Seq<char>,
    version: Seq<char>,
    rest: Seq<char>,
)
    requires
        method.len() > 0 && forall|i: int|
            0 <= i < method.len() ==> !text::is_space(#[trigger] method[i]),
        target.len() > 0 && forall|i: int|
            0 <= i < target.len() ==> !text::is_space(#[trigger] target[i]),
        !version.contains('\n'),
    ensures
        ({
            let head = method + seq![' '] + target + seq![' '] + version + seq!['\r', '\n'] + rest;
            let path = exporter::path_of(target);
            &&& exporter::route_of(head) == Route::NotAllowed <==> method != "GET"@
            &&& exporter::route_of(head) == Route::Metrics <==> method == "GET"@ && path
                == "/metrics"@
            &&& exporter::route_of(head) == Route::Index <==> method == "GET"@ && path == "/"@
            &&& exporter::route_of(head) == Route::NotFound <==> method == "GET"@ && path
                != "/metrics"@ && path != "/"@
        }),
{
    let line = method + seq![' '] + target + seq![' '] + version;
    assert forall|i: int| 0 <= i < line.len() implies line[i] != '\n' by {
        if i < method.len() {
            assert(line[i] == method[i]);
        } else if i == method.len() {
        } else if i < method.len() + 1 + target.len() {
            assert(line[i] == target[i - method.len() - 1]);
        } else if i == method.len() + 1 + target.len() {
        } else {
            assert(line[i] == version[i - method.len() - target.len() - 2]);
        }
    }
    law_the_first_line(line, rest);
    let after = seq![' '] + target + seq![' '] + version;
    assert(line =~= method + after);
    lemma_word(method, after);
    let t = target + (seq![' '] + version);
    assert(after =~= seq![' '] + t);
    assert(after.drop_first() =~= t);
    lemma_word(target, seq![' '] + version);
    assert(text::trim_start(after) == text::trim_start(t));
    reveal_strlit("/metrics");
    reveal_strlit("/");
    assert("/metrics"@.len() == 8 && "/"@.len() == 1);
}

proof fn lemma_word(word: Seq<char>, rest: Seq<char>)
    requires
        word.len() > 0,
        forall|i: int| 0 <= i < word.len() ==> !text::is_space(#[trigger] word[i]),
        rest.len() > 0 && text::is_space(rest[0]),
    ensures
        text::first_word(word + rest) == word,
        text::after_word(word + rest) == rest,
        text::trim_start(word + rest) == word + rest,
{
    let s = word + rest;
    assert(s[0] == word[0]);
    lemma_up_to(word, rest);
    assert(s.skip(word.len() as int) =~= rest);
}

proof fn lemma_up_to(word: Seq<char>, rest: Seq<char>)
    requires
        forall|i: int| 0 <= i < word.len() ==> !text::is_space(#[trigger] word[i]),
        rest.len() > 0 && text::is_space(rest[0]),
    ensures
        text::up_to_space(word + rest) == word,
    decreases word.len(),
{
    let s = word + rest;
    if word.len() > 0 {
        let w = word.drop_first();
        assert forall|i: int| 0 <= i < w.len() implies !text::is_space(#[trigger] w[i]) by {
            assert(w[i] == word[i + 1]);
        }
        lemma_up_to(w, rest);
        assert(s[0] == word[0]);
        assert(s.drop_first() =~= w + rest);
        assert(seq![word[0]] + w =~= word);
    } else {
        assert(s =~= rest);
        assert(word =~= seq![]);
    }
}

/// Only the two pages that exist are found, only the metrics page shows the metrics, and what is
/// not found or not allowed says so in its status.
pub proof fn law_what_is_answered(r: Route, m: metrics::Snapshot, now: Instant)
    ensures
        ({
            let a = exporter::response_for(r, m, now);
            &&& a.status == "200 OK"@ <==> r == Route::Metrics || r == Route::Index
            &&& a.status == "404 Not Found"@ <==> r == Route::NotFound
            &&& a.status == "405 Method Not Allowed"@ <==> r == Route::NotAllowed
            &&& r == Route::Metrics ==> a.body == metrics::exposition(m, now) && a.ctype
                == "text/plain; version=0.0.4; charset=utf-8"@
            &&& r == Route::Index ==> a.ctype == "text/html; charset=utf-8"@
            &&& r == Route::NotFound || r == Route::NotAllowed ==> a.ctype == "text/plain"@
            &&& r == Route::NotFound ==> a.body == "not found\n"@
            &&& r == Route::NotAllowed ==> a.body == ""@
        }),
{
    reveal_strlit("200 OK");
    reveal_strlit("404 Not Found");
    reveal_strlit("405 Method Not Allowed");
    assert("200 OK"@[0] == '2' && "404 Not Found"@[0] == '4' && "404 Not Found"@[2] == '4'
        && "405 Method Not Allowed"@[0] == '4' && "405 Method Not Allowed"@[2] == '5');
}

/// A response begins with its status line and ends with a blank line and the body, whose length in
/// bytes stands among the headers.
pub proof fn law_responses_as_sent(r: ResponseView)
    ensures
        ({
            let s = exporter::wire_text(r);
            let length = text::decimal(utf8::encode_utf8(r.body).len());
            &&& ("HTTP/1.1 "@ + r.status + seq!['\r', '\n']).is_prefix_of(s)
            &&& (seq!['\r', '\n', '\r', '\n'] + r.body).is_suffix_of(s)
            &&& text::holds(s, "content-type: "@ + r.ctype + seq!['\r', '\n'])
            &&& text::holds(s, "content-length: "@ + length + seq!['\r', '\n'])
            &&& text_laws::worth(length, 10) == utf8::encode_utf8(r.body).len()
        }),
{
    let s = exporter::wire_text(r);
    let length = text::decimal(utf8::encode_utf8(r.body).len());
    text_laws::law_decimals_read_back(utf8::encode_utf8(r.body).len());
    reveal_strlit("HTTP/1.1 ");
    reveal_strlit("\r\ncontent-type: ");
    reveal_strlit("\r\ncontent-length: ");
    reveal_strlit("content-type: ");
    reveal_strlit("content-length: ");
    reveal_strlit("\r\nconnection: close\r\n\r\n");
    let end = seq!['\r', '\n'];
    let kind = "\r\ncontent-type: "@;
    let size = "\r\ncontent-length: "@;
    let close = "\r\nconnection: close\r\n\r\n"@;
    assert(kind =~= end + "content-type: "@);
    assert(size =~= end + "content-length: "@);
    assert(close =~= end + close.skip(2));
    let front = "HTTP/1.1 "@ + r.status;
    assert((front + end).is_prefix_of(s)) by {
        assert(s.subrange(0, (front + end).len() as int) =~= front + end);
    }
    let n = close.len() as int;
    assert(close.skip(n - 4) =~= seq!['\r', '\n', '\r', '\n']);
    let tail = seq!['\r', '\n', '\r', '\n'] + r.body;
    assert(tail.is_suffix_of(s)) by {
        assert(s.subrange(s.len() - tail.len(), s.len() as int) =~= tail);
    }
    let a = "content-type: "@ + r.ctype + end;
    let b = "content-length: "@ + length + end;
    let i = front.len() as int + 2;
    assert(text::stands_at(s, a, i)) by {
        assert(s.subrange(i, i + a.len()) =~= a);
    }
    let j = front.len() as int + kind.len() + r.ctype.len() + 2;
    assert(text::stands_at(s, b, j)) by {
        assert(s.subrange(j, j + b.len()) =~= b);
    }
}

/// A connection is served exactly when it was accepted; a failure is told of when the one before
/// it was not one, and always followed by a pause.
pub proof fn law_when_accepting_is_warned_of(ok: bool, failing: bool)
    ensures
        exporter::turn_of(ok, failing) == Accepted::Serve <==> ok,
        exporter::turn_of(ok, failing) == Accepted::WarnAndBackOff <==> !ok && !failing,
        exporter::turn_of(ok, failing) == Accepted::BackOff <==> !ok && failing,
{
}

} // verus!
