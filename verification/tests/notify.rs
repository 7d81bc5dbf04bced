use astral_watch::clock::Duration;
use astral_watch::config::{NotifyConfig, NtfyConfig, WebhookConfig};
use astral_watch::lifecycle::{Condition, Event};
use astral_watch::notify::{
    after_attempt, enqueue, next_message, notify_send_args, ntfy_post, render, report,
    webhook_payload, webhook_post, Attempt, Dispatcher, Message, Priority, Taken, QUEUE_CAP,
};
use std::collections::VecDeque;

fn raised() -> Event {
    Event::Raised {
        condition: Condition::Overload,
        detail: "OVERLOAD pins 1+2 >9.2A".into(),
    }
}

#[test]
fn render_maps_priorities_and_titles() {
    let m = render(&raised(), "2026-06-11T10:00:00");
    assert_eq!(m.kind, "raised");
    assert_eq!(m.condition, "overload");
    assert_eq!(m.title, "astral-watch: OVERLOAD");
    assert_eq!(m.priority, Priority::Urgent);

    // a repeat of a melt precursor must page as hard as the raise it backstops
    let repeated = Event::Repeated {
        condition: Condition::Overload,
        detail: "OVERLOAD pins 1+2 >9.2A".into(),
        active_for: Duration::from_secs(600),
    };
    assert_eq!(render(&repeated, "t").priority, Priority::Urgent);

    let resolved = Event::Resolved {
        condition: Condition::Imbalance,
        active_for: Duration::from_secs(120),
    };
    let m = render(&resolved, "2026-06-11T10:02:00");
    assert_eq!(m.priority, Priority::Default);
    assert_eq!(m.body, "clear after 2m00s");
}

#[test]
fn webhook_payload_has_stable_schema() {
    let m = render(&raised(), "2026-06-11T10:00:00");
    let v = webhook_payload(&m);
    assert_eq!(v["source"], "astral-watch");
    assert_eq!(v["event"], "raised");
    assert_eq!(v["condition"], "overload");
    assert_eq!(v["priority"], "urgent");
    assert_eq!(v["timestamp"], "2026-06-11T10:00:00");
    assert_eq!(v["title"], "astral-watch: OVERLOAD");
    assert_eq!(v["detail"], "OVERLOAD pins 1+2 >9.2A");
    assert_eq!(v.len(), 7);
}

#[test]
fn the_webhook_document_reads_back_as_json() {
    let body =
        serde_json::to_string(&webhook_payload(&render(&raised(), "2026-06-11T10:00:00"))).unwrap();
    let v: serde_json::Value = serde_json::from_str(&body).unwrap();
    assert_eq!(v["event"], "raised");
    assert_eq!(v["detail"], "OVERLOAD pins 1+2 >9.2A");
}

#[test]
fn notify_send_args_map_urgency() {
    let args = notify_send_args(&render(&raised(), "t"));
    assert!(args.contains(&"--urgency=critical".to_string()));
    assert_eq!(args.last().unwrap(), "OVERLOAD pins 1+2 >9.2A");
}

fn msg(kind: &'static str, n: usize) -> Message {
    Message {
        kind,
        condition: "overload",
        title: format!("m{n}"),
        body: String::new(),
        priority: Priority::Default,
        ts: String::new(),
    }
}

#[test]
fn raises_jump_the_queue() {
    let mut q = VecDeque::new();
    enqueue(&mut q, msg("resolved", 1), QUEUE_CAP);
    enqueue(&mut q, msg("repeated", 2), QUEUE_CAP);
    enqueue(&mut q, msg("raised", 3), QUEUE_CAP);
    enqueue(&mut q, msg("raised", 4), QUEUE_CAP);
    assert_eq!(
        next_message(&mut q).unwrap().title,
        "m3",
        "oldest raise first"
    );
    assert_eq!(next_message(&mut q).unwrap().title, "m4");
    assert_eq!(next_message(&mut q).unwrap().title, "m1", "then FIFO");
    assert_eq!(next_message(&mut q).unwrap().title, "m2");
    assert!(next_message(&mut q).is_none());
}

#[test]
fn overflow_drops_oldest_non_raise_and_keeps_raises() {
    let mut q = VecDeque::new();
    enqueue(&mut q, msg("raised", 0), 3);
    enqueue(&mut q, msg("resolved", 1), 3);
    enqueue(&mut q, msg("repeated", 2), 3);
    enqueue(&mut q, msg("resolved", 3), 3); // drops m1
    assert_eq!(q.len(), 3);
    assert!(q.iter().all(|m| m.title != "m1"), "{q:?}");
    // all-raise queue: oldest raise goes
    let mut q: VecDeque<Message> = VecDeque::new();
    for n in 0..4 {
        enqueue(&mut q, msg("raised", n), 3);
    }
    assert_eq!(q.len(), 3);
    assert!(q.iter().all(|m| m.title != "m0"), "{q:?}");
}

#[test]
fn ntfy_posts_topic_headers_and_body() {
    let cfg = NtfyConfig {
        url: "http://127.0.0.1:8080".to_string(),
        topic: "gpu-alerts".into(),
        token: Some("tk_secret".into()),
    };
    let m = render(&raised(), "2026-06-11T10:00:00");
    let p = ntfy_post(&cfg, &m);
    assert_eq!(p.url, "http://127.0.0.1:8080/gpu-alerts");
    let has = |k: &str, v: &str| p.headers.iter().any(|h| h.0 == k && h.1 == v);
    assert!(has("Title", "astral-watch: OVERLOAD"));
    assert!(has("Priority", "urgent"));
    assert!(has("Tags", "rotating_light"));
    assert!(has("Authorization", "Bearer tk_secret"));
    assert_eq!(m.body, "OVERLOAD pins 1+2 >9.2A");
}

#[test]
fn trailing_slashes_and_missing_tokens() {
    let cfg = NtfyConfig {
        url: "https://ntfy.sh//".to_string(),
        topic: "t".into(),
        token: None,
    };
    let m = render(
        &Event::Resolved {
            condition: Condition::Overload,
            active_for: Duration::from_secs(1),
        },
        "t",
    );
    let p = ntfy_post(&cfg, &m);
    assert_eq!(p.url, "https://ntfy.sh/t");
    assert_eq!(p.headers.len(), 3);
    assert_eq!(p.headers[2], ("Tags", "white_check_mark".to_string()));
    let p = webhook_post(&WebhookConfig {
        url: "http://127.0.0.1:1/hook".to_string(),
        token: None,
    });
    assert_eq!(p.url, "http://127.0.0.1:1/hook");
    assert!(p.headers.is_empty());
}

#[test]
fn attempts_are_bounded_and_unpaused_while_draining() {
    let pause = Duration::from_secs(2);
    assert_eq!(after_attempt(true, 1, false), Attempt::Delivered);
    assert_eq!(after_attempt(false, 1, false), Attempt::Retry(pause));
    assert_eq!(after_attempt(false, 2, false), Attempt::Retry(pause));
    assert_eq!(after_attempt(false, 3, false), Attempt::GiveUp);
    assert_eq!(
        after_attempt(false, 1, true),
        Attempt::Retry(Duration::from_secs(0))
    );
}

#[test]
fn failures_are_reported_once_per_streak() {
    let (s, failing) = report("ntfy", Some("timeout"), false);
    assert_eq!(
        s.unwrap(),
        "# notify: ntfy delivery failed after 3 attempts: timeout (message dropped; later messages will still be attempted)"
    );
    assert!(failing);
    assert_eq!(report("ntfy", Some("timeout"), true), (None, true));
    assert_eq!(
        report("ntfy", None, true),
        (Some("# notify: ntfy delivery recovered".to_string()), false)
    );
    assert_eq!(report("ntfy", None, false), (None, false));
}

#[test]
fn dispatcher_delivers_everything_before_it_stops() {
    let cfg = NotifyConfig {
        desktop: true,
        ntfy: None,
        webhook: Some(WebhookConfig {
            url: "http://h".to_string(),
            token: None,
        }),
    };
    let mut d = Dispatcher::from_config(&cfg);
    assert_eq!(d.len(), 2);
    assert_eq!((d.name(0), d.name(1)), ("webhook", "desktop"));
    assert!(matches!(d.take(0), Taken::Wait));
    d.publish(&msg("resolved", 1));
    d.publish(&msg("raised", 2));
    d.shutdown();
    assert!(d.draining());
    let mut titles = Vec::new();
    loop {
        match d.take(0) {
            Taken::Deliver(m) => titles.push(m.title),
            Taken::Stop => break,
            Taken::Wait => panic!("closed queues never wait"),
        }
    }
    assert_eq!(titles, vec!["m2", "m1"]);
    let grace = Duration::from_secs(5);
    // the other transport has not drained yet
    assert!(d.waiting(Duration::from_secs(1), grace));
    assert!(!d.waiting(Duration::from_secs(5), grace));
    while !matches!(d.take(1), Taken::Stop) {}
    assert!(!d.waiting(Duration::from_secs(1), grace));
}

#[test]
fn nothing_configured_is_inert() {
    let mut d = Dispatcher::from_config(&NotifyConfig::default());
    d.publish(&msg("raised", 1));
    assert_eq!(d.len(), 0);
    assert!(!d.waiting(Duration::from_secs(0), Duration::from_secs(5)));
}
