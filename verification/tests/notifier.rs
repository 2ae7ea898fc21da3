use vetterd::command::{BadgeSeverity, RiskSignal, SignalKind, WireDecision};
use vetterd::notifier::linux::{
    action_intent, banner_actions, banner_hints, banner_text, banners_to_close, click_outcome,
    decision_for_action, prune_tokens, reconcile, sound_name_for, ActionIntent, BusAction,
    BusEvent, Capabilities, ClickOutcome, Desk, NotificationMap, MAX_PARKED_TOKENS,
};
use vetterd::notifier::mac::{
    category_buttons, did_receive_response, post_notification, MacAction, CATEGORY_ID,
    CATEGORY_ID_WITH_UNKNOWN_HOST,
};
use vetterd::notifier::mock::{answer, read_reply, rendered_for};
use vetterd::notifier::{
    build_from_env, default_kind, resolved_kind, should_raise_banner, NotifierBuildError,
    NotifierKind, PlatformDriver,
};
use vetterd::paths::Platform;
use vetterd::pending::{NotifyHint, PendingDecision, PendingQueue, PromptSummary};

fn summary(verb: &str, force_prompt: bool) -> PromptSummary {
    PromptSummary {
        id: "1".to_string(),
        command: "curl".to_string(),
        primary_verb: verb.to_string(),
        primary_target: "<b>!".to_string(),
        force_prompt,
        signals: Vec::new(),
        parsed: None,
        host_known: Vec::new(),
        peer_sid: None,
    }
}

fn clean(s: &str) -> String {
    s.chars().filter(|c| *c != '!').collect()
}

fn text(s: &str) -> Option<String> {
    Some(s.to_string())
}

#[test]
fn the_notifier_is_chosen_by_the_environment() {
    assert_eq!(
        build_from_env(Platform::Linux, None, None),
        Ok((NotifierKind::Linux, PlatformDriver::NoDriver))
    );
    assert_eq!(
        build_from_env(Platform::MacOs, None, None),
        Ok((NotifierKind::Mac, PlatformDriver::AppKit))
    );
    assert_eq!(
        build_from_env(Platform::Linux, text("mock"), text("/s")),
        Ok((NotifierKind::Mock { socket: "/s".to_string() }, PlatformDriver::NoDriver))
    );
    assert_eq!(
        build_from_env(Platform::Other, None, None),
        Ok((NotifierKind::Noop, PlatformDriver::NoDriver))
    );
    let missing = build_from_env(Platform::Linux, text("mock"), None).expect_err("no socket");
    assert_eq!(
        missing.message(),
        "missing required env: VETTERD_NOTIFIER_SOCKET (required for mock)"
    );
    let mac = build_from_env(Platform::Linux, text("mac"), None).expect_err("not a mac");
    assert_eq!(
        mac.message(),
        "notifier not supported on this build: VETTERD_NOTIFIER=mac requires a macOS target"
    );
    let unknown = build_from_env(Platform::Linux, text("x"), None).expect_err("no such kind");
    assert_eq!(
        unknown.message(),
        "unknown VETTERD_NOTIFIER value `x`; expected mac | linux | mock | noop"
    );
    assert_eq!(
        NotifierBuildError::Setup("s".to_string()).message(),
        "notifier setup failed: s"
    );
    assert_eq!(default_kind(Platform::Linux), "linux");
    assert_eq!(resolved_kind(Platform::Linux, text("")), "");
    assert!(should_raise_banner(NotifyHint { was_empty_before: true }));
    assert!(!should_raise_banner(NotifyHint { was_empty_before: false }));
}

#[test]
fn the_mock_answers_or_denies() {
    assert_eq!(read_reply("allow", ""), Ok(PendingDecision::allow("mock notifier")));
    assert_eq!(read_reply("deny", "why"), Ok(PendingDecision::deny("why")));
    assert_eq!(read_reply("maybe", ""), Err("unknown decision `maybe`".to_string()));
    assert_eq!(
        answer(Err("gone".to_string())),
        PendingDecision::deny("mock notifier error: gone")
    );
    assert_eq!(answer(Ok(PendingDecision::allow("a"))), PendingDecision::allow("a"));
    let mut q = PendingQueue::new();
    q.submit_with_render(summary("GET", false), "raw".to_string());
    assert_eq!(rendered_for(q.pending_entries(), "1"), "raw");
    assert_eq!(rendered_for(q.pending_entries(), "2"), "");
}

#[test]
fn a_mac_banner_is_sanitised() {
    let id = |s: &str| clean(s);
    let b = post_notification(&summary("GET", true), &id);
    assert_eq!((b.title.as_str(), b.body.as_str()), ("vet curl", "GET <b>"));
    assert_eq!(b.subtitle, text("dry run"));
    assert_eq!(b.category, CATEGORY_ID);
    let mut s = summary("", false);
    s.signals.push(RiskSignal {
        kind: SignalKind::UnknownHost,
        label: String::new(),
        severity: BadgeSeverity::Warn,
        detail: String::new(),
        effect: None,
    });
    let b = post_notification(&s, &id);
    assert_eq!((b.body.as_str(), b.subtitle), ("<b>", None));
    assert_eq!(b.category, CATEGORY_ID_WITH_UNKNOWN_HOST);
    assert_eq!(category_buttons(false).len(), 3);
    let with_host = category_buttons(true);
    assert_eq!(with_host[3].title, "Trust host\u{2026}");
    assert!(with_host[1].destructive && !with_host[0].destructive);
}

#[test]
fn mac_buttons_decide() {
    let act = |a: &str| did_receive_response(a, "default!", "dismiss!");
    assert_eq!(
        act("vetter.approve"),
        MacAction::Resolve(PendingDecision::allow("approved via notification"))
    );
    assert_eq!(
        act("vetter.reject"),
        MacAction::Resolve(PendingDecision::deny("rejected via notification"))
    );
    assert_eq!(
        act("dismiss!"),
        MacAction::Resolve(PendingDecision::deny("dismissed via notification (treated as reject)"))
    );
    assert_eq!(act("default!"), MacAction::ShowCard);
    assert_eq!(act("vetter.allowlist"), MacAction::Allowlist);
    assert_eq!(act("vetter.trust_host"), MacAction::TrustHost);
    assert_eq!(act("other"), MacAction::Unknown);
}

#[test]
fn a_linux_banner_is_escaped_where_markup_is_parsed() {
    let id = |s: &str| clean(s);
    let caps = Capabilities::from_list(&vec!["body-markup".to_string(), "actions".to_string()]);
    assert_eq!(
        banner_text(&summary("GET", true), caps, &id),
        ("vet curl (dry run)".to_string(), "GET &lt;b&gt;".to_string())
    );
    assert_eq!(
        banner_text(&summary("", false), Capabilities::default(), &id),
        ("vet curl".to_string(), "<b>".to_string())
    );
    assert_eq!(
        banner_actions(caps),
        vec!["default", "Open Vetter", "approve", "Approve", "reject", "Reject"]
    );
    assert!(banner_actions(Capabilities::default()).is_empty());
    let hints = banner_hints(true);
    assert_eq!((hints.urgency, hints.expire_timeout), (2, 0));
    assert_eq!(hints.sound_name, sound_name_for(true));
    assert_eq!(sound_name_for(false), None);
}

#[test]
fn only_the_buttons_decide() {
    assert_eq!(decision_for_action("approve").map(|d| d.decision), Some(WireDecision::Allow));
    assert_eq!(decision_for_action("reject").map(|d| d.decision), Some(WireDecision::Deny));
    assert_eq!(decision_for_action("default"), None);
    assert_eq!(action_intent("default"), ActionIntent::OpenWindow);
    assert_eq!(action_intent("x"), ActionIntent::Ignore);
    assert_eq!(click_outcome("default", None), ClickOutcome::Show { card: None });
    assert_eq!(click_outcome("default", Some("a")), ClickOutcome::Show { card: text("a") });
    assert_eq!(click_outcome("approve", None), ClickOutcome::Nothing);
    assert_eq!(
        click_outcome("approve", Some("a")),
        ClickOutcome::Resolve {
            request: "a".to_string(),
            decision: PendingDecision::allow("approved via notification"),
        }
    );
}

#[test]
fn a_link_replaces_both_sides() {
    let mut map = NotificationMap::new();
    map.link(1, "a");
    map.link(2, "b");
    map.link(1, "b");
    assert_eq!(map.len(), 1);
    assert_eq!(map.request_for(1), Some("b"));
    assert_eq!(map.request_for(2), None);
    assert_eq!(map.forget_request("a"), None);
    assert_eq!(map.forget_request("b"), Some(1));
    map.link(3, "c");
    assert_eq!(map.requests(), vec!["c".to_string()]);
    assert_eq!(map.forget_notification(3), text("c"));
    assert_eq!(map.forget_notification(3), None);
    map.link(4, "d");
    map.clear();
    assert_eq!(map.len(), 0);
}

#[test]
fn stale_banners_are_closed() {
    let list = |v: &[&str]| v.iter().map(|s| s.to_string()).collect::<Vec<_>>();
    assert_eq!(banners_to_close(&list(&["a", "b"]), &list(&["b"])), list(&["a"]));
    let mut map = NotificationMap::new();
    map.link(1, "a");
    map.link(2, "b");
    assert_eq!(reconcile(&mut map, &list(&["b"])), vec![(1, "a".to_string())]);
    assert_eq!(map.len(), 1);
    assert_eq!(map.request_for(2), Some("b"));
    map.link(3, "c");
    map.link(4, "d");
    let mut closed = reconcile(&mut map, &Vec::new());
    closed.sort();
    assert_eq!(
        closed,
        vec![(2, "b".to_string()), (3, "c".to_string()), (4, "d".to_string())]
    );
    assert!(reconcile(&mut map, &Vec::new()).is_empty());
}

#[test]
fn tokens_are_bounded() {
    let mut tokens: Vec<(u32, String)> = Vec::new();
    for i in 0..MAX_PARKED_TOKENS {
        tokens.push((i as u32, String::new()));
        if i + 1 < MAX_PARKED_TOKENS {
            prune_tokens(&mut tokens);
            assert_eq!(tokens.len(), i + 1);
        }
    }
    prune_tokens(&mut tokens);
    assert!(tokens.is_empty());
}

#[test]
fn bus_events_are_handled() {
    let mut desk = Desk::new();
    desk.map.link(1, "a");
    desk.map.link(2, "b");
    assert_eq!(
        desk.on_event(BusEvent::ActivationToken { notification: 1, token: "t".to_string() }),
        BusAction::Nothing
    );
    assert_eq!(
        desk.on_event(BusEvent::ActionInvoked { notification: 1, key: "default".to_string() }),
        BusAction::Show { card: text("a"), token: text("t") }
    );
    assert_eq!(
        desk.on_event(BusEvent::ActionInvoked { notification: 1, key: "default".to_string() }),
        BusAction::Show { card: text("a"), token: None }
    );
    assert_eq!(
        desk.on_event(BusEvent::ActionInvoked { notification: 1, key: "reject".to_string() }),
        BusAction::Resolve {
            request: "a".to_string(),
            decision: PendingDecision::deny("rejected via notification"),
        }
    );
    assert_eq!(
        desk.on_event(BusEvent::NotificationClosed { notification: 1 }),
        BusAction::Nothing
    );
    assert_eq!(
        desk.on_event(BusEvent::ActionInvoked { notification: 1, key: "approve".to_string() }),
        BusAction::Nothing
    );
    assert_eq!(
        desk.on_event(BusEvent::OwnerChanged),
        BusAction::RefreshCapabilities { dropped: 1 }
    );
    assert_eq!(desk.map.len(), 0);
}
