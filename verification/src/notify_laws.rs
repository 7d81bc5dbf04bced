//! What a notification says of the event it announces, and which message makes way in a full
//! queue.

use crate::clock::Duration;
use crate::lifecycle;
use crate::lifecycle::{Condition, EventView};
use crate::notify;
use crate::notify::{Attempt, ChannelView, MessageView, Priority};
use vstd::prelude::*;

verus! {

/// The condition of an event.
pub open spec fn condition_of(e: EventView) -> Condition {
    match e {
        EventView::Raised { condition, detail } => condition,
        EventView::Repeated { condition, detail, active_for } => condition,
        EventView::Resolved { condition, active_for } => condition,
    }
}

proof fn lemma_kinds_differ()
    ensures
        "raised"@ != "repeated"@,
        "raised"@ != "resolved"@,
        "repeated"@ != "resolved"@,
{
    reveal_strlit("raised");
    reveal_strlit("repeated");
    reveal_strlit("resolved");
    assert("raised"@.len() == 6);
    assert("repeated"@[2] == 'p' && "resolved"@[2] == 's');
}

/// The kind of a message is that of its event: no message of an alert that is still active calls
/// itself resolved.
pub proof fn law_the_kind_is_that_of_the_event(e: EventView, ts: Seq<char>)
    ensures
        notify::rendered(e, ts).kind == "raised"@ <==> e is Raised,
        notify::rendered(e, ts).kind == "repeated"@ <==> e is Repeated,
        notify::rendered(e, ts).kind == "resolved"@ <==> e is Resolved,
        notify::is_raise(notify::rendered(e, ts)) <==> e is Raised,
{
    lemma_kinds_differ();
}

/// The tag of a message is that of its event: only an all-clear shows a check mark.
pub proof fn law_the_tag_is_that_of_the_event(e: EventView, ts: Seq<char>)
    ensures
        notify::tags_for(notify::rendered(e, ts).kind) == "rotating_light"@ <==> e is Raised,
        notify::tags_for(notify::rendered(e, ts).kind) == "warning"@ <==> e is Repeated,
        notify::tags_for(notify::rendered(e, ts).kind) == "white_check_mark"@ <==> e is Resolved,
{
    lemma_kinds_differ();
    reveal_strlit("rotating_light");
    reveal_strlit("warning");
    reveal_strlit("white_check_mark");
    assert("rotating_light"@.len() == 14 && "warning"@.len() == 7 && "white_check_mark"@.len()
        == 16);
}

/// How loudly an event pages: an overload or a lost pin urgently, anything else that is active
/// high, and an all-clear not at all.
pub proof fn law_how_loudly_an_event_pages(e: EventView, ts: Seq<char>)
    ensures
        notify::rendered(e, ts).priority == Priority::Default <==> e is Resolved,
        notify::rendered(e, ts).priority == Priority::Urgent <==> !(e is Resolved) && (condition_of(
            e,
        ) == Condition::Overload || condition_of(e) == Condition::Disconnected),
        notify::rendered(e, ts).priority == Priority::High <==> !(e is Resolved) && (condition_of(e)
            == Condition::Imbalance || condition_of(e) == Condition::TelemetryLost),
{
}

/// The condition of a message is that of its event, each by its own name.
pub proof fn law_the_condition_is_that_of_the_event(e: EventView, ts: Seq<char>)
    ensures
        notify::rendered(e, ts).condition == "overload"@ <==> condition_of(e)
            == Condition::Overload,
        notify::rendered(e, ts).condition == "disconnected"@ <==> condition_of(e)
            == Condition::Disconnected,
        notify::rendered(e, ts).condition == "imbalance"@ <==> condition_of(e)
            == Condition::Imbalance,
        notify::rendered(e, ts).condition == "telemetry_lost"@ <==> condition_of(e)
            == Condition::TelemetryLost,
        notify::rendered(e, ts).ts == ts,
{
    reveal_strlit("overload");
    reveal_strlit("disconnected");
    reveal_strlit("imbalance");
    reveal_strlit("telemetry_lost");
    assert("overload"@[0] == 'o' && "disconnected"@[0] == 'd' && "imbalance"@[0] == 'i'
        && "telemetry_lost"@[0] == 't');
}

/// The body of a message about an active alert is the text of the alert, and an all-clear says how
/// long the alert was active.
pub proof fn law_the_body_is_the_detail(e: EventView, ts: Seq<char>)
    ensures
        e matches EventView::Raised { condition, detail } ==> notify::rendered(e, ts).body
            == detail,
        e matches EventView::Repeated { condition, detail, active_for } ==> notify::rendered(
            e,
            ts,
        ).body == detail,
        e matches EventView::Resolved { condition, active_for } ==> notify::rendered(e, ts).body
            == "clear after "@ + lifecycle::duration_text(active_for),
{
}

/// The title of a message begins with the name of the program and the label of its condition; a
/// raise says no more, a repeat for how long, and an all-clear that it is one.
pub proof fn law_the_title_names_the_condition(e: EventView, ts: Seq<char>)
    ensures
        ({
            let label = match condition_of(e) {
                Condition::Overload => "OVERLOAD"@,
                Condition::Disconnected => "DISCONNECT"@,
                Condition::Imbalance => "IMBALANCE"@,
                Condition::TelemetryLost => "TELEMETRY LOST"@,
            };
            let begin = "astral-watch: "@ + label;
            let title = notify::rendered(e, ts).title;
            &&& begin.is_prefix_of(title)
            &&& e is Raised ==> title == begin
            &&& e is Resolved ==> title.skip(begin.len() as int) == " resolved"@
            &&& e matches EventView::Repeated { condition, detail, active_for } ==> title.skip(
                begin.len() as int,
            ) == " still active ("@ + lifecycle::duration_text(active_for) + ")"@
        }),
{
    let begin = "astral-watch: "@ + lifecycle::condition_label(condition_of(e));
    let title = notify::rendered(e, ts).title;
    assert(title.subrange(0, begin.len() as int) =~= begin);
    match e {
        EventView::Raised { condition, detail } => {},
        EventView::Repeated { condition, detail, active_for } => {
            assert(title.skip(begin.len() as int) =~= " still active ("@
                + lifecycle::duration_text(active_for) + ")"@);
        },
        EventView::Resolved { condition, active_for } => {
            assert(title.skip(begin.len() as int) =~= " resolved"@);
        },
    }
}

/// A priority has a name of its own everywhere.
pub proof fn law_priorities_are_told_apart(p: Priority)
    ensures
        notify::priority_id(p) == "urgent"@ <==> p == Priority::Urgent,
        notify::priority_id(p) == "high"@ <==> p == Priority::High,
        notify::priority_id(p) == "default"@ <==> p == Priority::Default,
        notify::urgency(p) == "critical"@ <==> p == Priority::Urgent,
        notify::urgency(p) == "normal"@ <==> p == Priority::High,
        notify::urgency(p) == "low"@ <==> p == Priority::Default,
{
    reveal_strlit("urgent");
    reveal_strlit("high");
    reveal_strlit("default");
    reveal_strlit("critical");
    reveal_strlit("normal");
    reveal_strlit("low");
    assert("urgent"@[0] == 'u' && "high"@[0] == 'h' && "default"@[0] == 'd' && "critical"@[0] == 'c'
        && "normal"@[0] == 'n' && "low"@[0] == 'l');
}

/// A webhook gets each part of a message under its own name, and nothing else.
pub proof fn law_the_payload_holds_the_message(m: MessageView)
    ensures
        ({
            let p = notify::payload(m);
            &&& p["source"@] == Some("astral-watch"@)
            &&& p["event"@] == Some(m.kind)
            &&& p["condition"@] == Some(m.condition)
            &&& p["title"@] == Some(m.title)
            &&& p["detail"@] == Some(m.body)
            &&& p["priority"@] == Some(notify::priority_id(m.priority))
            &&& p["timestamp"@] == Some(m.ts)
            &&& p.dom() == set![
                "source"@,
                "event"@,
                "condition"@,
                "title"@,
                "detail"@,
                "priority"@,
                "timestamp"@,
            ]
        }),
{
    reveal_strlit("source");
    reveal_strlit("event");
    reveal_strlit("condition");
    reveal_strlit("title");
    reveal_strlit("detail");
    reveal_strlit("priority");
    reveal_strlit("timestamp");
    assert("source"@[0] == 's' && "event"@[0] == 'e' && "condition"@[0] == 'c' && "title"@[1] == 'i'
        && "title"@[0] == 't' && "detail"@[0] == 'd' && "priority"@[0] == 'p' && "timestamp"@.len()
        == 9 && "title"@.len() == 5 && "timestamp"@[0] == 't');
    assert(notify::payload(m).dom() =~= set![
        "source"@,
        "event"@,
        "condition"@,
        "title"@,
        "detail"@,
        "priority"@,
        "timestamp"@,
    ]);
}

/// Slashes at the end of an address are left out, and nothing else of it is.
pub proof fn law_only_slashes_at_the_end_are_left_out(s: Seq<char>)
    ensures
        notify::without_slashes(s).is_prefix_of(s),
        notify::without_slashes(s).len() > 0 ==> notify::without_slashes(s).last() != '/',
        forall|i: int|
            notify::without_slashes(s).len() <= i < s.len() ==> #[trigger] s[i] == '/',
    decreases s.len(),
{
    let t = notify::without_slashes(s);
    if s.len() > 0 && s.last() == '/' {
        let init = s.drop_last();
        law_only_slashes_at_the_end_are_left_out(init);
        assert(t =~= s.subrange(0, t.len() as int)) by {
            assert(t =~= init.subrange(0, t.len() as int));
        }
        assert forall|i: int| t.len() <= i < s.len() implies #[trigger] s[i] == '/' by {
            if i < init.len() {
                assert(init[i] == '/');
            }
        }
    } else {
        assert(t =~= s.subrange(0, s.len() as int));
    }
}

// ---------------------------------------------------------------- the queue

proof fn lemma_oldest(q: Seq<MessageView>, raise: bool)
    ensures
        match notify::oldest(q, raise) {
            Some(i) => {
                &&& 0 <= i < q.len()
                &&& (q[i].kind == "raised"@) == raise
                &&& forall|j: int| 0 <= j < i ==> ((#[trigger] q[j]).kind == "raised"@) != raise
            },
            None => forall|j: int|
                0 <= j < q.len() ==> ((#[trigger] q[j]).kind == "raised"@) != raise,
        },
    decreases q.len(),
{
    if q.len() > 0 {
        let front = q.drop_last();
        lemma_oldest(front, raise);
        assert forall|j: int| 0 <= j < front.len() implies front[j] == q[j] by {}
        match notify::oldest(front, raise) {
            Some(i) => {
                assert(q[i] == front[i]);
                assert forall|j: int| 0 <= j < i implies ((#[trigger] q[j]).kind == "raised"@)
                    != raise by {
                    assert(front[j] == q[j]);
                }
            },
            None => {
                assert forall|j: int| 0 <= j < q.len() - 1 implies ((#[trigger] q[j]).kind
                    == "raised"@) != raise by {
                    assert(front[j] == q[j]);
                }
            },
        }
    }
}

/// A queue that is not full only grows at its end; in a full one the oldest message that is not a
/// raise makes way — the oldest of all, when all are raises — and the others stay in order.
pub proof fn law_which_message_makes_way(q: Seq<MessageView>, m: MessageView, cap: nat)
    ensures
        q.len() < cap ==> notify::enqueued(q, m, cap) == q.push(m),
        q.len() >= cap && q.len() > 0 ==> exists|i: int|
            #![trigger q.remove(i)]
            0 <= i < q.len() && notify::enqueued(q, m, cap) == q.remove(i).push(m) && ((q[i].kind
                != "raised"@ && forall|j: int|
                0 <= j < i ==> (#[trigger] q[j]).kind == "raised"@) || (i == 0 && forall|j: int|
                0 <= j < q.len() ==> (#[trigger] q[j]).kind == "raised"@)),
        q.len() == 0 ==> notify::enqueued(q, m, cap) == seq![m],
{
    lemma_oldest(q, false);
    if q.len() == 0 {
        assert(notify::enqueued(q, m, cap) =~= seq![m]);
    }
    if q.len() >= cap && q.len() > 0 {
        match notify::oldest(q, false) {
            Some(i) => {
                assert(notify::enqueued(q, m, cap) == q.remove(i).push(m));
            },
            None => {
                assert(notify::enqueued(q, m, cap) == q.remove(0).push(m));
            },
        }
    }
}

/// The next message is the oldest raise, and without a raise the oldest of all.
pub proof fn law_which_message_is_next(q: Seq<MessageView>)
    requires
        q.len() > 0,
    ensures
        0 <= notify::next_index(q) < q.len(),
        q[notify::next_index(q)].kind == "raised"@ || forall|j: int|
            0 <= j < q.len() ==> (#[trigger] q[j]).kind != "raised"@,
        forall|j: int|
            0 <= j < notify::next_index(q) ==> (#[trigger] q[j]).kind != "raised"@
                && q[notify::next_index(q)].kind == "raised"@,
{
    lemma_oldest(q, true);
}

// ---------------------------------------------------------------- deliveries

/// A push goes to the topic behind the server, with one slash between them whatever the server's
/// address ends in.
pub proof fn law_where_a_message_is_pushed(server: Seq<char>, topic: Seq<char>)
    requires
        server.len() == 0 || server.last() != '/',
    ensures
        notify::ntfy_url(server, topic) == server + seq!['/'] + topic,
        notify::ntfy_url(server + seq!['/'], topic) == server + seq!['/'] + topic,
        notify::ntfy_url(server + seq!['/', '/'], topic) == server + seq!['/'] + topic,
{
    reveal_strlit("/");
    assert("/"@ =~= seq!['/']);
    reveal_with_fuel(notify::without_slashes, 3);
    assert((server + seq!['/']).drop_last() =~= server);
    assert((server + seq!['/', '/']).drop_last() =~= server + seq!['/']);
}

/// A push bears the title, the priority and the tag of its message, and the token exactly where
/// there is one.
pub proof fn law_what_a_push_bears(m: MessageView, token: Option<String>)
    ensures
        ({
            let h = notify::ntfy_headers(m, token);
            &&& h[0] == ("Title"@, m.title)
            &&& h[1] == ("Priority"@, notify::priority_id(m.priority))
            &&& h[2] == ("Tags"@, notify::tags_for(m.kind))
            &&& h.len() == 4 <==> token is Some
            &&& h.len() == 3 <==> token is None
            &&& token matches Some(t) ==> h[3] == ("Authorization"@, "Bearer "@ + t@)
        }),
{
}

/// The desktop gets the urgency, the title and the body of the message, in that order.
pub proof fn law_what_the_desktop_gets(m: MessageView)
    ensures
        ({
            let a = notify::send_args(m);
            &&& a.len() == 4
            &&& a[0] == "--app-name=astral-watch"@
            &&& a[1] == "--urgency="@ + notify::urgency(m.priority)
            &&& a[2] == m.title
            &&& a[3] == m.body
        }),
{
}

/// A message is tried three times at most. What was not delivered is tried again after two
/// seconds, or at once while the queues drain.
pub proof fn law_how_often_a_message_is_tried(ok: bool, attempt: u32, draining: bool)
    ensures
        ({
            let next = notify::attempt_outcome(ok, attempt, draining);
            &&& next == Attempt::Delivered <==> ok
            &&& next == Attempt::GiveUp <==> !ok && attempt >= 3
            &&& next is Retry <==> !ok && attempt < 3
            &&& next matches Attempt::Retry(pause) ==> pause.nanos == (if draining {
                0int
            } else {
                2_000_000_000
            })
        }),
{
}

/// A streak of failed deliveries is told of once when it begins and once when it ends, with the
/// transport's name.
pub proof fn law_what_is_said_of_deliveries(
    name: Seq<char>,
    error: Option<Seq<char>>,
    failing: bool,
)
    ensures
        ({
            let said = notify::delivery_says(name, error, failing);
            &&& said is Some <==> failing != (error is Some)
            &&& said matches Some(s) ==> ("# notify: "@ + name + " delivery "@).is_prefix_of(s)
            &&& said is Some && error is Some ==> ("# notify: "@ + name
                + " delivery failed after 3 attempts: "@ + error->0).is_prefix_of(said->0)
            &&& said is Some && error is None ==> said->0 == "# notify: "@ + name
                + " delivery recovered"@
        }),
{
    reveal_strlit(" delivery ");
    reveal_strlit(" delivery recovered");
    reveal_strlit(" delivery failed after 3 attempts: ");
    let said = notify::delivery_says(name, error, failing);
    let p = "# notify: "@ + name + " delivery "@;
    if let Some(s) = said {
        assert(s.subrange(0, p.len() as int) =~= p);
        if let Some(e) = error {
            let q = "# notify: "@ + name + " delivery failed after 3 attempts: "@ + e;
            assert(s.subrange(0, q.len() as int) =~= q);
        }
    }
}

/// A published message stands last in the queue of every transport, and nothing else of the
/// transports changes; a queue holds 64.
pub proof fn law_everyone_gets_a_published_message(
    channels: Seq<ChannelView>,
    m: MessageView,
    i: int,
)
    requires
        0 <= i < channels.len(),
        channels[i].queue.len() <= 64,
    ensures
        ({
            let after = notify::published(channels, m);
            &&& after.len() == channels.len()
            &&& after[i].name == channels[i].name && after[i].stopped == channels[i].stopped
            &&& after[i].queue.last() == m
            &&& channels[i].queue.len() < 64 ==> after[i].queue == channels[i].queue.push(m)
            &&& channels[i].queue.len() == 64 ==> after[i].queue.len() == 64
        }),
{
    notify::law_queue_is_bounded(channels[i].queue, m, 64);
    let q = channels[i].queue;
    if q.len() == 64 {
        notify::lemma_oldest(q, false);
    }
}

/// A worker leaves exactly when its queue is empty and closed, so what is queued is delivered
/// first.
pub proof fn law_workers_leave_when_all_is_delivered(c: ChannelView, closed: bool)
    ensures
        notify::leaves(c, closed) <==> closed && c.queue =~= seq![],
{
}

/// Shutting down waits for every worker, and for no longer than the grace.
pub proof fn law_how_long_shutting_down_waits(
    channels: Seq<ChannelView>,
    elapsed: Duration,
    grace: Duration,
)
    ensures
        elapsed.nanos >= grace.nanos ==> !notify::still_waits(channels, elapsed, grace),
        (forall|i: int| 0 <= i < channels.len() ==> (#[trigger] channels[i]).stopped)
            ==> !notify::still_waits(channels, elapsed, grace),
        elapsed.nanos < grace.nanos && (exists|i: int|
            0 <= i < channels.len() && !(#[trigger] channels[i]).stopped) ==> notify::still_waits(
            channels,
            elapsed,
            grace,
        ),
{
}

} // verus!
