//! Delivering lifecycle events: ntfy push, generic JSON webhook, desktop (`notify-send`).
//!
//! Each transport gets its own worker and bounded queue, so a slow or dead notification server
//! can never stall sampling *or* starve the other transports. Within a queue, raise messages are
//! delivered first (a fresh OVERLOAD must not wait behind stale resolves), each message gets a
//! bounded number of delivery attempts, and on overflow the oldest non-raise message is dropped.
//! Failures degrade to deduplicated warnings; they never kill the watchdog. On shutdown the
//! queues get a short grace to drain.

use crate::clock::Duration;
use crate::config;
use crate::config::{NotifyConfig, NtfyConfig, WebhookConfig};
use crate::lifecycle;
use crate::lifecycle::{fmt_duration, Condition, Event, EventView};
use crate::text;
use crate::text::{chars_of, same_text, slice_of, text_of};
use std::collections::VecDeque;
use vstd::prelude::*;

verus! {

/// Most messages a transport queue holds before dropping the oldest non-raise.
pub const QUEUE_CAP: usize = 64;

/// Delivery attempts per message before it is dropped.
pub const DELIVERY_ATTEMPTS: u32 = 3;

/// Pause between attempts, in nanoseconds: two seconds.
pub const RETRY_PAUSE_NANOS: u128 = 2_000_000_000;

/// How loudly a message should be delivered, mapped per transport.
#[derive(Debug, Clone, Copy, PartialEq, Eq, Structural)]
pub enum Priority {
    Urgent,
    High,
    Default,
}

/// Stable name of a priority.
pub open spec fn priority_id(p: Priority) -> Seq<char> {
    match p {
        Priority::Urgent => "urgent"@,
        Priority::High => "high"@,
        Priority::Default => "default"@,
    }
}

/// What `notify-send` calls a priority.
pub open spec fn urgency(p: Priority) -> Seq<char> {
    match p {
        Priority::Urgent => "critical"@,
        Priority::High => "normal"@,
        Priority::Default => "low"@,
    }
}

impl Priority {
    /// What ntfy calls it.
    pub fn ntfy(self) -> (s: &'static str)
        ensures
            s@ == priority_id(self),
    {
        match self {
            Priority::Urgent => "urgent",
            Priority::High => "high",
            Priority::Default => "default",
        }
    }

    /// What `notify-send` calls it.
    pub fn notify_send_urgency(self) -> (s: &'static str)
        ensures
            s@ == urgency(self),
    {
        match self {
            Priority::Urgent => "critical",
            Priority::High => "normal",
            Priority::Default => "low",
        }
    }

    /// Stable name.
    pub fn id(self) -> (s: &'static str)
        ensures
            s@ == priority_id(self),
    {
        match self {
            Priority::Urgent => "urgent",
            Priority::High => "high",
            Priority::Default => "default",
        }
    }
}

/// A rendered notification, ready for any transport.
#[derive(Debug, PartialEq)]
pub struct Message {
    /// `raised` | `repeated` | `resolved`
    pub kind: &'static str,
    /// Stable condition id, e.g. `overload`.
    pub condition: &'static str,
    pub title: String,
    pub body: String,
    pub priority: Priority,
    pub ts: String,
}

/// What a [`Message`] says.
#[verifier::ext_equal]
pub struct MessageView {
    pub kind: Seq<char>,
    pub condition: Seq<char>,
    pub title: Seq<char>,
    pub body: Seq<char>,
    pub priority: Priority,
    pub ts: Seq<char>,
}

impl View for Message {
    type V = MessageView;

    open spec fn view(&self) -> MessageView {
        MessageView {
            kind: self.kind@,
            condition: self.condition@,
            title: self.title@,
            body: self.body@,
            priority: self.priority,
            ts: self.ts@,
        }
    }
}

impl Clone for Message {
    fn clone(&self) -> (m: Message)
        ensures
            m@ == self@,
    {
        Message {
            kind: self.kind,
            condition: self.condition,
            title: self.title.clone(),
            body: self.body.clone(),
            priority: self.priority,
            ts: self.ts.clone(),
        }
    }
}

// ---------------------------------------------------------------- rendering

/// How loudly a condition pages: the two melt precursors page hardest.
pub open spec fn priority_of(c: Condition) -> Priority {
    match c {
        Condition::Overload => Priority::Urgent,
        Condition::Disconnected => Priority::Urgent,
        Condition::Imbalance => Priority::High,
        Condition::TelemetryLost => Priority::High,
    }
}

/// The message that announces an event.
pub open spec fn rendered(e: EventView, ts: Seq<char>) -> MessageView {
    match e {
        EventView::Raised { condition, detail } => MessageView {
            kind: "raised"@,
            condition: lifecycle::condition_id(condition),
            title: "astral-watch: "@ + lifecycle::condition_label(condition),
            body: detail,
            priority: priority_of(condition),
            ts,
        },
        EventView::Repeated { condition, detail, active_for } => MessageView {
            kind: "repeated"@,
            condition: lifecycle::condition_id(condition),
            title: "astral-watch: "@ + lifecycle::condition_label(condition) + " still active ("@
                + lifecycle::duration_text(active_for) + ")"@,
            body: detail,
            priority: priority_of(condition),
            ts,
        },
        EventView::Resolved { condition, active_for } => MessageView {
            kind: "resolved"@,
            condition: lifecycle::condition_id(condition),
            title: "astral-watch: "@ + lifecycle::condition_label(condition) + " resolved"@,
            body: "clear after "@ + lifecycle::duration_text(active_for),
            priority: Priority::Default,
            ts,
        },
    }
}

fn priority_for(c: Condition) -> (p: Priority)
    ensures
        p == priority_of(c),
{
    match c {
        Condition::Overload => Priority::Urgent,
        Condition::Disconnected => Priority::Urgent,
        Condition::Imbalance => Priority::High,
        Condition::TelemetryLost => Priority::High,
    }
}

/// Render a lifecycle event into a transport-agnostic message.
pub fn render(event: &Event, ts: &str) -> (m: Message)
    ensures
        m@ == rendered(event@, ts@),
{
    match event {
        Event::Raised { condition, detail } => {
            let mut title = "astral-watch: ".to_owned();
            title.append(condition.label());
            Message {
                kind: "raised",
                condition: condition.id(),
                title,
                body: detail.clone(),
                priority: priority_for(*condition),
                ts: ts.to_owned(),
            }
        },
        Event::Repeated { condition, detail, active_for } => {
            let mut title = "astral-watch: ".to_owned();
            title.append(condition.label());
            title.append(" still active (");
            title.append(fmt_duration(*active_for).as_str());
            title.append(")");
            Message {
                kind: "repeated",
                condition: condition.id(),
                title,
                // a repeat is the backstop for a missed raise — it must page just as hard
                body: detail.clone(),
                priority: priority_for(*condition),
                ts: ts.to_owned(),
            }
        },
        Event::Resolved { condition, active_for } => {
            let mut title = "astral-watch: ".to_owned();
            title.append(condition.label());
            title.append(" resolved");
            let mut body = "clear after ".to_owned();
            body.append(fmt_duration(*active_for).as_str());
            Message {
                kind: "resolved",
                condition: condition.id(),
                title,
                body,
                priority: Priority::Default,
                ts: ts.to_owned(),
            }
        },
    }
}

/// A repeat pages exactly as hard as the raise it backstops.
pub proof fn law_repeats_page_like_raises(
    condition: Condition,
    detail: Seq<char>,
    active_for: Duration,
    ts: Seq<char>,
)
    ensures
        rendered(EventView::Repeated { condition, detail, active_for }, ts).priority == rendered(
            EventView::Raised { condition, detail },
            ts,
        ).priority,
{
}

// ---------------------------------------------------------------- what each transport sends

/// The emoji ntfy shows beside a kind of message.
pub open spec fn tags_for(kind: Seq<char>) -> Seq<char> {
    if kind == "raised"@ {
        "rotating_light"@
    } else if kind == "repeated"@ {
        "warning"@
    } else {
        "white_check_mark"@
    }
}

fn ntfy_tags(kind: &str) -> (s: &'static str)
    ensures
        s@ == tags_for(kind@),
{
    if same_text(kind, "raised") {
        "rotating_light"
    } else if same_text(kind, "repeated") {
        "warning"
    } else {
        "white_check_mark"
    }
}

/// A text without the slashes it ends in.
pub open spec fn without_slashes(s: Seq<char>) -> Seq<char>
    decreases s.len(),
{
    if s.len() > 0 && s.last() == '/' {
        without_slashes(s.drop_last())
    } else {
        s
    }
}

fn trim_slashes(s: &str) -> (out: String)
    ensures
        out@ == without_slashes(s@),
{
    let v = chars_of(s);
    let mut n: usize = v.len();
    assert(v@.take(n as int) =~= v@);
    while n > 0 && v[n - 1] == '/'
        invariant
            n <= v.len(),
            v@ == s@,
            without_slashes(v@.take(n as int)) == without_slashes(s@),
        decreases n,
    {
        assert(v@.take(n as int).drop_last() =~= v@.take(n - 1));
        n = n - 1;
    }
    assert(v@.subrange(0, n as int) =~= v@.take(n as int));
    text_of(&slice_of(&v, 0, n))
}

/// A request to post: where, with which headers.
#[derive(Debug, PartialEq)]
pub struct Post {
    pub url: String,
    pub headers: Vec<(&'static str, String)>,
}

/// What a list of headers says.
pub open spec fn header_views(v: Seq<(&'static str, String)>) -> Seq<(Seq<char>, Seq<char>)> {
    v.map_values(|h: (&'static str, String)| (h.0@, h.1@))
}

/// The authorization header, where there is a token.
pub open spec fn bearer(token: Option<String>) -> Seq<(Seq<char>, Seq<char>)> {
    match token {
        Some(t) => seq![("Authorization"@, "Bearer "@ + t@)],
        None => seq![],
    }
}

fn push_bearer(headers: &mut Vec<(&'static str, String)>, token: &Option<String>)
    ensures
        header_views(final(headers)@) == header_views(old(headers)@) + bearer(*token),
{
    let ghost had = header_views(headers@);
    if let Some(t) = token {
        let mut s = "Bearer ".to_owned();
        s.append(t.as_str());
        let ghost said = s@;
        headers.push(("Authorization", s));
        assert(header_views(headers@) =~= had + seq![("Authorization"@, said)]);
    } else {
        assert(header_views(headers@) =~= had + bearer(*token));
    }
}

/// Where a message is pushed: the topic behind the server, with one slash between them.
pub open spec fn ntfy_url(server: Seq<char>, topic: Seq<char>) -> Seq<char> {
    without_slashes(server) + "/"@ + topic
}

/// What goes with a pushed message.
pub open spec fn ntfy_headers(m: MessageView, token: Option<String>) -> Seq<
    (Seq<char>, Seq<char>),
> {
    seq![
        ("Title"@, m.title),
        ("Priority"@, priority_id(m.priority)),
        ("Tags"@, tags_for(m.kind)),
    ] + bearer(token)
}

/// The request that pushes a message through ntfy; its body is the message's.
pub fn ntfy_post(cfg: &NtfyConfig, m: &Message) -> (p: Post)
    ensures
        p.url@ == without_slashes(cfg.url@) + "/"@ + cfg.topic@,
        header_views(p.headers@) == seq![
            ("Title"@, m.title@),
            ("Priority"@, priority_id(m.priority)),
            ("Tags"@, tags_for(m.kind@)),
        ] + bearer(cfg.token),
        p.url@ == ntfy_url(cfg.url@, cfg.topic@),
        header_views(p.headers@) == ntfy_headers(m@, cfg.token),
{
    let mut url = trim_slashes(cfg.url.as_str());
    url.append("/");
    url.append(cfg.topic.as_str());
    let mut headers: Vec<(&'static str, String)> = Vec::new();
    headers.push(("Title", m.title.clone()));
    headers.push(("Priority", m.priority.ntfy().to_owned()));
    headers.push(("Tags", ntfy_tags(m.kind).to_owned()));
    assert(header_views(headers@) =~= seq![
        ("Title"@, m.title@),
        ("Priority"@, priority_id(m.priority)),
        ("Tags"@, tags_for(m.kind@)),
    ]);
    push_bearer(&mut headers, &cfg.token);
    Post { url, headers }
}

/// The request that posts to a webhook; its body is the [`webhook_payload`].
pub fn webhook_post(cfg: &WebhookConfig) -> (p: Post)
    ensures
        p.url@ == cfg.url@,
        header_views(p.headers@) == bearer(cfg.token),
{
    let mut headers: Vec<(&'static str, String)> = Vec::new();
    assert(header_views(headers@) =~= seq![]);
    push_bearer(&mut headers, &cfg.token);
    assert(header_views(headers@) =~= bearer(cfg.token));
    Post { url: cfg.url.clone(), headers }
}

/// A JSON value of serde_json; nothing inside it is seen here.
#[verifier::external_type_specification]
#[verifier::external_body]
pub struct ExJsonValue(serde_json::Value);

/// A JSON object of serde_json; what it holds is named by [`members`].
#[verifier::external_type_specification]
#[verifier::external_body]
#[verifier::reject_recursive_types(K)]
#[verifier::reject_recursive_types(V)]
pub struct ExJsonObject<K, V>(serde_json::Map<K, V>);

/// The members of a JSON object: under each name the text it holds, or `None` for a value that
/// is not a string.
pub uninterp spec fn members(object: serde_json::Map<String, serde_json::Value>) -> Map<
    Seq<char>,
    Option<Seq<char>>,
>;

/// The members of an empty object.
pub open spec fn no_members() -> Map<Seq<char>, Option<Seq<char>>> {
    Map::empty()
}

/// Calls `serde_json::Map::new`: the object is empty.
#[verifier::external_body]
fn json_object() -> (object: serde_json::Map<String, serde_json::Value>)
    ensures
        members(object) == no_members(),
{
    serde_json::Map::new()
}

/// Calls `serde_json::Map::insert` with a `serde_json::Value::String`: the text stands under the
/// name, in place of what was there, and every other member stays.
#[verifier::external_body]
fn json_insert(
    object: &mut serde_json::Map<String, serde_json::Value>,
    name: &str,
    value: &str,
)
    ensures
        members(*final(object)) == members(*old(object)).insert(name@, Some(value@)),
{
    object.insert(name.to_owned(), serde_json::Value::String(value.to_owned()));
}

/// The members of the JSON document a webhook receives.
pub open spec fn payload(m: MessageView) -> Map<Seq<char>, Option<Seq<char>>> {
    map![
        "source"@ => Some("astral-watch"@),
        "event"@ => Some(m.kind),
        "condition"@ => Some(m.condition),
        "title"@ => Some(m.title),
        "detail"@ => Some(m.body),
        "priority"@ => Some(priority_id(m.priority)),
        "timestamp"@ => Some(m.ts),
    ]
}

/// The JSON document a webhook receives.
pub fn webhook_payload(m: &Message) -> (v: serde_json::Map<String, serde_json::Value>)
    ensures
        members(v) == payload(m@),
{
    let mut v = json_object();
    json_insert(&mut v, "source", "astral-watch");
    json_insert(&mut v, "event", m.kind);
    json_insert(&mut v, "condition", m.condition);
    json_insert(&mut v, "title", m.title.as_str());
    json_insert(&mut v, "detail", m.body.as_str());
    json_insert(&mut v, "priority", m.priority.id());
    json_insert(&mut v, "timestamp", m.ts.as_str());
    v
}

/// The arguments `notify-send` is run with for a message.
pub open spec fn send_args(m: MessageView) -> Seq<Seq<char>> {
    seq!["--app-name=astral-watch"@, "--urgency="@ + urgency(m.priority), m.title, m.body]
}

/// The arguments `notify-send` is run with.
pub fn notify_send_args(m: &Message) -> (args: Vec<String>)
    ensures
        text::views(args@) == seq![
            "--app-name=astral-watch"@,
            "--urgency="@ + urgency(m.priority),
            m.title@,
            m.body@,
        ],
        text::views(args@) == send_args(m@),
{
    let mut level = "--urgency=".to_owned();
    level.append(m.priority.notify_send_urgency());
    let mut args: Vec<String> = Vec::new();
    args.push("--app-name=astral-watch".to_owned());
    args.push(level);
    args.push(m.title.clone());
    args.push(m.body.clone());
    assert(text::views(args@) =~= seq![
        "--app-name=astral-watch"@,
        "--urgency="@ + urgency(m.priority),
        m.title@,
        m.body@,
    ]);
    args
}

// ---------------------------------------------------------------- the queue

/// What a queue holds, oldest first.
pub open spec fn message_views(q: Seq<Message>) -> Seq<MessageView> {
    q.map_values(|m: Message| m@)
}

/// Whether a message announces a fresh alert.
pub open spec fn is_raise(m: MessageView) -> bool {
    m.kind == "raised"@
}

/// The position of the oldest message that is a raise, or is not one.
pub open spec fn oldest(q: Seq<MessageView>, raise: bool) -> Option<int>
    decreases q.len(),
{
    if q.len() == 0 {
        None
    } else {
        match oldest(q.drop_last(), raise) {
            Some(i) => Some(i),
            None => if is_raise(q.last()) == raise {
                Some(q.len() - 1)
            } else {
                None
            },
        }
    }
}

/// A full queue without the message that makes way: the oldest non-raise, or the oldest of all
/// when there are only raises.
pub open spec fn made_way(q: Seq<MessageView>) -> Seq<MessageView> {
    match oldest(q, false) {
        Some(i) => q.remove(i),
        None => if q.len() > 0 {
            q.remove(0)
        } else {
            q
        },
    }
}

/// A queue with one more message.
pub open spec fn enqueued(q: Seq<MessageView>, m: MessageView, cap: nat) -> Seq<MessageView> {
    if q.len() >= cap {
        made_way(q).push(m)
    } else {
        q.push(m)
    }
}

/// The position of the message delivered next: the oldest raise, else the oldest of all.
pub open spec fn next_index(q: Seq<MessageView>) -> int {
    match oldest(q, true) {
        Some(i) => i,
        None => 0,
    }
}

pub proof fn lemma_oldest(q: Seq<MessageView>, raise: bool)
    ensures
        match oldest(q, raise) {
            Some(i) => {
                &&& 0 <= i < q.len()
                &&& is_raise(q[i]) == raise
                &&& forall|j: int| 0 <= j < i ==> is_raise(#[trigger] q[j]) != raise
            },
            None => forall|j: int| 0 <= j < q.len() ==> is_raise(#[trigger] q[j]) != raise,
        },
    decreases q.len(),
{
    if q.len() > 0 {
        let front = q.drop_last();
        lemma_oldest(front, raise);
        assert forall|j: int| 0 <= j < q.len() - 1 implies #[trigger] q[j] == front[j] by {}
    }
}

fn position(queue: &VecDeque<Message>, raise: bool) -> (at: Option<usize>)
    ensures
        match at {
            Some(i) => oldest(message_views(queue@), raise) == Some(i as int) && i < queue@.len(),
            None => oldest(message_views(queue@), raise) is None,
        },
{
    let ghost all = message_views(queue@);
    let mut i: usize = 0;
    proof {
        lemma_oldest(all, raise);
    }
    while i < queue.len()
        invariant
            i <= queue@.len(),
            all == message_views(queue@),
            forall|j: int| 0 <= j < i ==> is_raise(#[trigger] all[j]) != raise,
            match oldest(all, raise) {
                Some(k) => {
                    &&& 0 <= k < all.len()
                    &&& is_raise(all[k]) == raise
                    &&& forall|j: int| 0 <= j < k ==> is_raise(#[trigger] all[j]) != raise
                },
                None => forall|j: int| 0 <= j < all.len() ==> is_raise(#[trigger] all[j]) != raise,
            },
        decreases queue@.len() - i,
    {
        assert(all[i as int] == queue@[i as int]@);
        if same_text(queue[i].kind, "raised") == raise {
            return Some(i);
        }
        i = i + 1;
    }
    None
}

/// Queue a message, dropping the oldest non-raise (raises last) once `cap` is reached.
pub fn enqueue(queue: &mut VecDeque<Message>, m: Message, cap: usize)
    ensures
        message_views(final(queue)@) == enqueued(message_views(old(queue)@), m@, cap as nat),
{
    let ghost had = message_views(queue@);
    let ghost said = m@;
    if queue.len() >= cap {
        match position(queue, false) {
            Some(i) => {
                let _ = queue.remove(i);
                assert(message_views(queue@) =~= had.remove(i as int));
            },
            None => {
                let gone = queue.pop_front();
                if gone.is_some() {
                    assert(message_views(queue@) =~= had.remove(0));
                }
            },
        }
        assert(message_views(queue@) =~= made_way(had));
    }
    let ghost now = message_views(queue@);
    queue.push_back(m);
    assert(message_views(queue@) =~= now.push(said));
}

/// Oldest raise first, then plain FIFO — a fresh alert never waits behind stale resolves.
pub fn next_message(queue: &mut VecDeque<Message>) -> (m: Option<Message>)
    ensures
        ({
            let had = message_views(old(queue)@);
            match m {
                Some(m) => {
                    &&& had.len() > 0
                    &&& m@ == had[next_index(had)]
                    &&& message_views(final(queue)@) == had.remove(next_index(had))
                },
                None => had.len() == 0 && message_views(final(queue)@) == had,
            }
        }),
{
    let ghost had = message_views(queue@);
    let i: usize = match position(queue, true) {
        Some(i) => i,
        None => 0,
    };
    let m = queue.remove(i);
    if m.is_some() {
        assert(message_views(queue@) =~= had.remove(i as int));
    }
    m
}

/// The raises of a queue, oldest first.
pub open spec fn raises(q: Seq<MessageView>) -> Seq<MessageView>
    decreases q.len(),
{
    if q.len() == 0 {
        seq![]
    } else if is_raise(q.last()) {
        raises(q.drop_last()).push(q.last())
    } else {
        raises(q.drop_last())
    }
}

/// A raise never waits: while one is queued, the next message is a raise, and the oldest one.
pub proof fn law_raises_jump_the_queue(q: Seq<MessageView>, j: int)
    requires
        0 <= j < q.len(),
        is_raise(q[j]),
    ensures
        is_raise(q[next_index(q)]),
        next_index(q) <= j,
{
    lemma_oldest(q, true);
}

/// With no raise queued, messages leave in the order they came.
pub proof fn law_others_are_first_in_first_out(q: Seq<MessageView>)
    requires
        forall|j: int| 0 <= j < q.len() ==> !is_raise(#[trigger] q[j]),
    ensures
        next_index(q) == 0,
{
    lemma_oldest(q, true);
}

proof fn lemma_raises_without(q: Seq<MessageView>, i: int)
    requires
        0 <= i < q.len(),
        !is_raise(q[i]),
    ensures
        raises(q.remove(i)) == raises(q),
    decreases q.len(),
{
    let r = q.remove(i);
    if i == q.len() - 1 {
        assert(r =~= q.drop_last());
    } else {
        assert(r.drop_last() =~= q.drop_last().remove(i));
        assert(r.last() == q.last());
        lemma_raises_without(q.drop_last(), i);
    }
}

/// Overflow never drops a raise while anything else can be dropped: every raise stays, in order.
pub proof fn law_overflow_keeps_raises(q: Seq<MessageView>, m: MessageView, cap: nat, j: int)
    requires
        0 <= j < q.len(),
        !is_raise(q[j]),
    ensures
        raises(enqueued(q, m, cap)) == (if is_raise(m) {
            raises(q).push(m)
        } else {
            raises(q)
        }),
{
    lemma_oldest(q, false);
    let i = oldest(q, false)->0;
    lemma_raises_without(q, i);
    let before = if q.len() >= cap { q.remove(i) } else { q };
    assert(before.push(m).drop_last() =~= before);
}

/// The queue never grows past its cap, and the newest message is always in it.
pub proof fn law_queue_is_bounded(q: Seq<MessageView>, m: MessageView, cap: nat)
    requires
        q.len() <= cap,
        cap > 0,
    ensures
        enqueued(q, m, cap).len() <= cap,
        enqueued(q, m, cap).last() == m,
        q.len() < cap ==> enqueued(q, m, cap) == q.push(m),
{
    lemma_oldest(q, false);
}

// ---------------------------------------------------------------- attempts

/// What follows a delivery attempt.
#[derive(Debug, Clone, Copy, PartialEq, Eq, Structural)]
pub enum Attempt {
    /// The message is out.
    Delivered,
    /// Try again after this pause.
    Retry(Duration),
    /// The message is dropped.
    GiveUp,
}

/// What follows attempt number `attempt` (counted from one).
pub open spec fn attempt_outcome(ok: bool, attempt: u32, draining: bool) -> Attempt {
    if ok {
        Attempt::Delivered
    } else if attempt >= DELIVERY_ATTEMPTS {
        Attempt::GiveUp
    } else if draining {
        Attempt::Retry(Duration { nanos: 0 })
    } else {
        Attempt::Retry(Duration { nanos: RETRY_PAUSE_NANOS })
    }
}

/// What follows attempt number `attempt` (counted from one). While the queues drain on shutdown,
/// the pause is skipped.
pub fn after_attempt(ok: bool, attempt: u32, draining: bool) -> (r: Attempt)
    ensures
        r == (if ok {
            Attempt::Delivered
        } else if attempt >= DELIVERY_ATTEMPTS {
            Attempt::GiveUp
        } else if draining {
            Attempt::Retry(Duration { nanos: 0 })
        } else {
            Attempt::Retry(Duration { nanos: RETRY_PAUSE_NANOS })
        }),
        r == attempt_outcome(ok, attempt, draining),
{
    if ok {
        Attempt::Delivered
    } else if attempt >= DELIVERY_ATTEMPTS {
        Attempt::GiveUp
    } else if draining {
        Attempt::Retry(Duration { nanos: 0 })
    } else {
        Attempt::Retry(Duration { nanos: RETRY_PAUSE_NANOS })
    }
}

/// What is said about a delivery, if anything: the first failure of a streak and its end.
pub open spec fn delivery_says(
    name: Seq<char>,
    error: Option<Seq<char>>,
    failing: bool,
) -> Option<Seq<char>> {
    match error {
        Some(e) => if failing {
            None
        } else {
            Some(
                "# notify: "@ + name + " delivery failed after 3 attempts: "@ + e
                    + " (message dropped; later messages will still be attempted)"@,
            )
        },
        None => if failing {
            Some("# notify: "@ + name + " delivery recovered"@)
        } else {
            None
        },
    }
}

/// What to say about a delivery, once per streak of failures: `error` is the last one, where
/// every attempt failed, and the flag is whether the transport was failing already. The flag in
/// the result is whether it is failing now.
pub fn report(name: &str, error: Option<&str>, failing: bool) -> (r: (Option<String>, bool))
    ensures
        r.1 == error is Some,
        match r.0 {
            Some(s) => match error {
                Some(e) => !failing && s@ == "# notify: "@ + name@
                    + " delivery failed after 3 attempts: "@ + e@
                    + " (message dropped; later messages will still be attempted)"@,
                None => failing && s@ == "# notify: "@ + name@ + " delivery recovered"@,
            },
            None => failing == error is Some,
        },
        (match r.0 {
            Some(s) => Some(s@),
            None => None,
        }) == delivery_says(
            name@,
            match error {
                Some(e) => Some(e@),
                None => None,
            },
            failing,
        ),
{
    match error {
        Some(e) => {
            if failing {
                (None, true)
            } else {
                let mut s = "# notify: ".to_owned();
                s.append(name);
                s.append(" delivery failed after 3 attempts: ");
                s.append(e);
                s.append(" (message dropped; later messages will still be attempted)");
                (Some(s), true)
            }
        },
        None => {
            if failing {
                let mut s = "# notify: ".to_owned();
                s.append(name);
                s.append(" delivery recovered");
                (Some(s), false)
            } else {
                (None, false)
            }
        },
    }
}

// ---------------------------------------------------------------- the dispatcher

/// A transport's queue.
#[derive(Debug)]
struct Channel {
    name: &'static str,
    queue: VecDeque<Message>,
    stopped: bool,
}

/// What a transport's queue holds.
#[verifier::ext_equal]
pub struct ChannelView {
    pub name: Seq<char>,
    pub queue: Seq<MessageView>,
    /// Whether the worker has left.
    pub stopped: bool,
}

/// Hands rendered messages to every configured transport, each with its own queue and worker.
#[derive(Debug)]
pub struct Dispatcher {
    channels: Vec<Channel>,
    closed: bool,
}

/// What a worker is told.
#[derive(Debug)]
pub enum Taken {
    /// Deliver this.
    Deliver(Message),
    /// Nothing to do yet.
    Wait,
    /// The queue is closed and empty.
    Stop,
}

/// An empty queue with a worker.
pub open spec fn fresh_channel(name: Seq<char>) -> ChannelView {
    ChannelView { name, queue: seq![], stopped: false }
}

/// A queue with one more message.
pub open spec fn with_message(c: ChannelView, m: MessageView) -> ChannelView {
    ChannelView { queue: enqueued(c.queue, m, QUEUE_CAP as nat), ..c }
}

spec fn channel_view(c: Channel) -> ChannelView {
    ChannelView { name: c.name@, queue: message_views(c.queue@), stopped: c.stopped }
}

/// The channels once a message was published: it is queued on every one.
pub open spec fn published(channels: Seq<ChannelView>, m: MessageView) -> Seq<ChannelView> {
    channels.map_values(|c: ChannelView| with_message(c, m))
}

/// Whether the worker of a transport leaves: nothing is queued and nothing more will be.
pub open spec fn leaves(c: ChannelView, closed: bool) -> bool {
    c.queue.len() == 0 && closed
}

/// Whether shutting down still waits after `elapsed`.
pub open spec fn still_waits(
    channels: Seq<ChannelView>,
    elapsed: Duration,
    grace: Duration,
) -> bool {
    elapsed.nanos < grace.nanos && exists|i: int|
        0 <= i < channels.len() && !(#[trigger] channels[i]).stopped
}

impl Dispatcher {
    /// The queues.
    pub closed spec fn channels(&self) -> Seq<ChannelView> {
        self.channels@.map_values(|c: Channel| channel_view(c))
    }

    /// Whether the dispatcher is shutting down.
    pub closed spec fn is_closed(&self) -> bool {
        self.closed
    }

    /// Build from config. Inert (no channels, `publish` is a no-op) when nothing is configured.
    pub fn from_config(cfg: &NotifyConfig) -> (d: Dispatcher)
        ensures
            !d.is_closed(),
            d.channels() == (config::named_if(cfg.ntfy is Some, "ntfy"@) + config::named_if(
                cfg.webhook is Some,
                "webhook"@,
            ) + config::named_if(cfg.desktop, "desktop"@)).map_values(
                |name: Seq<char>| fresh_channel(name),
            ),
            d.channels() == config::transports(
                cfg.ntfy is Some,
                cfg.webhook is Some,
                cfg.desktop,
            ).map_values(|name: Seq<char>| fresh_channel(name)),
    {
        let names = cfg.enabled();
        let ghost expected = config::str_views(names@).map_values(
            |name: Seq<char>| fresh_channel(name),
        );
        let mut channels: Vec<Channel> = Vec::new();
        let mut i: usize = 0;
        while i < names.len()
            invariant
                i <= names.len(),
                channels.len() == i,
                expected == config::str_views(names@).map_values(
                    |name: Seq<char>| fresh_channel(name),
                ),
                forall|j: int| 0 <= j < i ==> channel_view(#[trigger] channels@[j]) == expected[j],
            decreases names.len() - i,
        {
            let c = Channel { name: names[i], queue: VecDeque::new(), stopped: false };
            assert(message_views(c.queue@) =~= seq![]);
            assert(channel_view(c) =~= expected[i as int]);
            channels.push(c);
            i = i + 1;
        }
        let d = Dispatcher { channels, closed: false };
        assert(d.channels() =~= expected);
        d
    }

    /// How many transports there are.
    pub fn len(&self) -> (n: usize)
        ensures
            n == self.channels().len(),
    {
        self.channels.len()
    }

    /// The name of a transport.
    pub fn name(&self, i: usize) -> (s: &'static str)
        requires
            i < self.channels().len(),
        ensures
            s@ == self.channels()[i as int].name,
    {
        self.channels[i].name
    }

    /// Queue a message for delivery on every transport. Never blocks the sampling loop.
    pub fn publish(&mut self, m: &Message)
        ensures
            final(self).is_closed() == old(self).is_closed(),
            final(self).channels() == old(self).channels().map_values(
                |c: ChannelView| with_message(c, m@),
            ),
            final(self).channels() == published(old(self).channels(), m@),
    {
        let ghost had = self.channels();
        let n: usize = self.channels.len();
        let mut i: usize = 0;
        while i < n
            invariant
                i <= n,
                n == self.channels@.len(),
                had.len() == n,
                self.closed == old(self).closed,
                forall|j: int|
                    0 <= j < i ==> channel_view(#[trigger] self.channels@[j]) == with_message(had[j], m@),
                forall|j: int|
                    i <= j < n ==> channel_view(#[trigger] self.channels@[j]) == had[j],
            decreases n - i,
        {
            let ghost before = self.channels@;
            assert(channel_view(before[i as int]) == had[i as int]);
            enqueue(&mut self.channels[i].queue, m.clone(), QUEUE_CAP);
            assert(channel_view(self.channels@[i as int]) =~= with_message(had[i as int], m@));
            assert forall|j: int| 0 <= j < n && j != i implies #[trigger] self.channels@[j]
                == before[j] by {}
            i = i + 1;
        }
        assert(self.channels() =~= had.map_values(
            |c: ChannelView| with_message(c, m@),
        ));
    }

    /// What the worker of transport `i` does next.
    pub fn take(&mut self, i: usize) -> (t: Taken)
        requires
            i < old(self).channels().len(),
        ensures
            final(self).is_closed() == old(self).is_closed(),
            ({
                let c = old(self).channels()[i as int];
                let k = next_index(c.queue);
                match t {
                    Taken::Deliver(m) => {
                        &&& c.queue.len() > 0
                        &&& m@ == c.queue[k]
                        &&& final(self).channels() == old(self).channels().update(
                            i as int,
                            ChannelView { queue: c.queue.remove(k), ..c },
                        )
                    },
                    Taken::Wait => {
                        &&& c.queue.len() == 0
                        &&& !old(self).is_closed()
                        &&& final(self).channels() == old(self).channels()
                    },
                    Taken::Stop => {
                        &&& c.queue.len() == 0
                        &&& old(self).is_closed()
                        &&& final(self).channels() == old(self).channels().update(
                            i as int,
                            ChannelView { stopped: true, ..c },
                        )
                    },
                }
            }),
            t is Stop <==> leaves(old(self).channels()[i as int], old(self).is_closed()),
    {
        let ghost had = self.channels();
        let ghost before = self.channels@;
        assert(channel_view(before[i as int]) == had[i as int]);
        let taken = next_message(&mut self.channels[i].queue);
        assert forall|j: int| 0 <= j < before.len() && j != i implies #[trigger] self.channels@[j]
            == before[j] by {}
        match taken {
            Some(m) => {
                assert(self.channels() =~= had.update(
                    i as int,
                    ChannelView {
                        queue: had[i as int].queue.remove(next_index(had[i as int].queue)),
                        ..had[i as int]
                    },
                ));
                Taken::Deliver(m)
            },
            None => {
                assert(self.channels() =~= had);
                if self.closed {
                    self.channels[i].stopped = true;
                    assert(self.channels() =~= had.update(
                        i as int,
                        ChannelView { stopped: true, ..had[i as int] },
                    ));
                    Taken::Stop
                } else {
                    Taken::Wait
                }
            },
        }
    }

    /// Close the queues: what is queued is still delivered, then the workers leave.
    pub fn shutdown(&mut self)
        ensures
            final(self).is_closed(),
            final(self).channels() == old(self).channels(),
    {
        self.closed = true;
    }

    /// Whether the queues are closed, so that workers drain without pausing.
    pub fn draining(&self) -> (r: bool)
        ensures
            r == self.is_closed(),
    {
        self.closed
    }

    /// Whether shutting down still waits after `elapsed`: some worker is at it and grace is left.
    pub fn waiting(&self, elapsed: Duration, grace: Duration) -> (r: bool)
        ensures
            r == (elapsed.nanos < grace.nanos && exists|i: int|
                0 <= i < self.channels().len() && !(#[trigger] self.channels()[i]).stopped),
            r == still_waits(self.channels(), elapsed, grace),
    {
        if elapsed.nanos >= grace.nanos {
            return false;
        }
        let ghost all = self.channels();
        let mut i: usize = 0;
        while i < self.channels.len()
            invariant
                i <= self.channels.len(),
                elapsed.nanos < grace.nanos,
                all == self.channels(),
                all.len() == self.channels.len(),
                forall|j: int| 0 <= j < i ==> (#[trigger] all[j]).stopped,
            decreases self.channels.len() - i,
        {
            assert(all[i as int] == channel_view(self.channels@[i as int]));
            if !self.channels[i].stopped {
                assert(!all[i as int].stopped);
                return true;
            }
            i = i + 1;
        }
        false
    }
}

} // verus!
