use vetterd::admin::{
    host_response, list_pending, rule_response, suggestions_response, MgmtResponse,
};
use vetterd::audit::AuditEntry;
use vetterd::command::{
    BadgeSeverity, Decision, Effect, HttpMethod, HttpRequest, Body, ParsedCommand, RiskSignal,
    RuleScope, Scope, SignalKind, Url, WireDecision, WireScope,
};
use vetterd::pending::{
    refresh_summary, PendingDecision, PendingQueue, PromptSummary, ResolvedEntry, RESOLVED_CAP,
};
use vetterd::policy::HostLookups;
use vetterd::suggestions::{
    approval_by_rule, approve_covered, plan_host, plan_remove, plan_rule, resolve_allowlist_path,
    resolve_known_hosts_path, suggestions_for, AddError, AddedRule,
};

fn parsed(target: &str) -> ParsedCommand {
    ParsedCommand {
        command: "curl".to_string(),
        primary_verb: "GET".to_string(),
        primary_target: target.to_string(),
        argv: vec!["curl".to_string(), target.to_string()],
        cwd: "/".to_string(),
        effects: vec![Effect::HttpRequest(HttpRequest {
            method: HttpMethod::Get,
            url: Url {
                scheme: "https".to_string(),
                host: Some(target.to_string()),
                port: None,
                path: "/".to_string(),
                query: None,
            },
            headers: Vec::new(),
            body: Body::Empty,
            auth: None,
        })],
        signals: Vec::new(),
    }
}

fn unknown_host() -> RiskSignal {
    RiskSignal {
        kind: SignalKind::UnknownHost,
        label: "unknown host".to_string(),
        severity: BadgeSeverity::Warn,
        detail: String::new(),
        effect: Some(0),
    }
}

fn summary(id: &str) -> PromptSummary {
    PromptSummary {
        id: id.to_string(),
        command: "curl".to_string(),
        primary_verb: "GET".to_string(),
        primary_target: "h".to_string(),
        force_prompt: false,
        signals: vec![unknown_host()],
        parsed: Some(parsed("h")),
        host_known: vec![false],
        peer_sid: Some(7),
    }
}

fn resolved(id: &str, decision: WireDecision) -> ResolvedEntry {
    ResolvedEntry {
        summary: summary(id),
        rendered: "detail".to_string(),
        decision,
        rule_id: None,
        rule_scope: None,
    }
}

#[test]
fn a_submitted_request_waits_until_it_is_resolved() {
    let mut q = PendingQueue::new();
    assert!(q.is_empty());
    assert!(q.submit(summary("a")).was_empty_before);
    assert!(!q.submit_with_render(summary("b"), "raw".to_string()).was_empty_before);
    assert_eq!(q.len(), 2);
    assert!(q.resolve("a", &PendingDecision::allow("yes")));
    assert_eq!(q.pending_summaries().len(), 1);
    assert_eq!(q.pending_entries()[0].1, "raw");
    assert_eq!(q.resolved_entries()[0].summary.id, "a");
    assert_eq!(q.resolved_entries()[0].decision, WireDecision::Allow);
}

#[test]
fn a_request_is_resolved_once() {
    let mut q = PendingQueue::new();
    q.submit(summary("a"));
    assert!(q.resolve("a", &PendingDecision::deny("no")));
    assert!(!q.resolve("a", &PendingDecision::allow("yes")));
    assert!(!q.resolve("other", &PendingDecision::allow("yes")));
    assert_eq!(q.resolved_entries().len(), 1);
    assert_eq!(q.resolved_entries()[0].decision, WireDecision::Deny);
}

#[test]
fn the_history_is_newest_first_and_bounded() {
    let mut q = PendingQueue::new();
    for i in 0..(RESOLVED_CAP + 5) {
        q.record_auto(
            summary(&i.to_string()),
            String::new(),
            WireDecision::Allow,
            Some("r".to_string()),
            Some(RuleScope { layer: Scope::User, name: "user".to_string() }),
        );
    }
    let (pending, history) = q.all_entries();
    assert!(pending.is_empty());
    assert_eq!(history.len(), RESOLVED_CAP);
    assert_eq!(history[0].summary.id, (RESOLVED_CAP + 4).to_string());
    assert_eq!(history[0].rule_id, Some("r".to_string()));
}

#[test]
fn old_entries_go_behind_the_history() {
    let mut q = PendingQueue::new();
    q.submit(summary("new"));
    q.resolve("new", &PendingDecision::allow("yes"));
    assert!(q.warm_resolved(vec![resolved("old1", WireDecision::Deny), resolved("old2", WireDecision::Allow)]));
    let ids: Vec<&str> = q.resolved_entries().iter().map(|e| e.summary.id.as_str()).collect();
    assert_eq!(ids, vec!["new", "old1", "old2"]);
    assert!(!q.warm_resolved(Vec::new()));
}

#[test]
fn two_requests_with_one_command_line_are_told_apart() {
    let mut q = PendingQueue::new();
    q.submit(summary("a"));
    q.submit(summary("b"));
    let decide = |id: &str, _: &ParsedCommand| {
        if id == "b" {
            Decision::Allow {
                rule_id: "r".to_string(),
                scope: RuleScope { layer: Scope::User, name: "user".to_string() },
            }
        } else {
            Decision::Prompt
        }
    };
    assert_eq!(approve_covered(&mut q, "r", &decide).auto_approved_ids, vec!["b".to_string()]);
    assert_eq!(q.pending_summaries()[0].id, "a");
}

#[test]
fn the_history_survives_a_mix_of_operations() {
    let mut q = PendingQueue::new();
    q.submit(summary("gone"));
    q.resolve("gone", &PendingDecision::deny("no"));
    q.cancel_all();
    for i in 0..RESOLVED_CAP - 1 {
        q.submit(summary(&format!("s{i}")));
        assert!(q.resolve(&format!("s{i}"), &PendingDecision::allow("yes")));
    }
    assert!(q.warm_resolved(vec![
        resolved("old1", WireDecision::Deny),
        resolved("old2", WireDecision::Deny)
    ]));
    let hosts = HostLookups {
        knows: |_: &str| true,
        loopback_ip: |_: &str| false,
        check: |_: &str, _: &ParsedCommand| Vec::new(),
    };
    q.refresh_with(&hosts);
    q.record_auto(summary("auto"), String::new(), WireDecision::Allow, None, None);
    let ids: Vec<&str> = q.resolved_entries().iter().map(|e| e.summary.id.as_str()).collect();
    assert_eq!(ids.len(), RESOLVED_CAP);
    assert_eq!(ids[0], "auto");
    assert_eq!(ids[1], format!("s{}", RESOLVED_CAP - 2));
    assert_eq!(ids[RESOLVED_CAP - 1], "s0");
}

#[test]
fn cancelling_empties_the_queue() {
    let mut q = PendingQueue::new();
    assert!(!q.cancel_all());
    q.submit(summary("a"));
    assert!(q.cancel_all());
    assert!(q.is_empty());
    assert!(q.resolved_entries().is_empty());
}

#[test]
fn a_refresh_keeps_the_other_signals() {
    let mut s = summary("a");
    s.signals.push(RiskSignal {
        kind: SignalKind::Other(3),
        label: "destructive".to_string(),
        severity: BadgeSeverity::Danger,
        detail: String::new(),
        effect: None,
    });
    let hosts = HostLookups {
        knows: |h: &str| h == "h",
        loopback_ip: |_: &str| false,
        check: |_: &str, _: &ParsedCommand| Vec::new(),
    };
    refresh_summary(&mut s, &hosts);
    assert_eq!(s.signals.len(), 1);
    assert_eq!(s.signals[0].kind, SignalKind::Other(3));
    assert_eq!(s.host_known, vec![true]);
    let once = s.clone();
    refresh_summary(&mut s, &hosts);
    assert_eq!(s, once);
    let mut q = PendingQueue::new();
    assert!(!q.refresh_with(&hosts));
    q.submit(summary("a"));
    assert!(q.refresh_with(&hosts));
    assert_eq!(q.pending_summaries()[0].host_known, vec![true]);
    let strict = HostLookups {
        knows: |_: &str| false,
        loopback_ip: |_: &str| false,
        check: |_: &str, _: &ParsedCommand| vec![unknown_host()],
    };
    assert!(q.refresh_with(&strict));
    assert_eq!(q.pending_summaries()[0].signals, vec![unknown_host()]);
    assert_eq!(q.pending_summaries()[0].host_known, vec![false]);
}

fn audit(rendered: &str) -> AuditEntry {
    AuditEntry {
        id: "a".to_string(),
        timestamp: "t".to_string(),
        command: "curl".to_string(),
        argv: vec!["curl".to_string()],
        decision: WireDecision::Allow,
        reason: "r".to_string(),
        rule_id: Some("rule".to_string()),
        rule_scope: Some(RuleScope { layer: Scope::User, name: "user".to_string() }),
        force_prompt: true,
        primary_verb: "GET".to_string(),
        primary_target: "h".to_string(),
        signals: vec![unknown_host()],
        parsed: Some(parsed("h")),
        host_known: vec![true],
        rendered: rendered.to_string(),
        peer_sid: Some(3),
    }
}

#[test]
fn only_lines_with_a_card_come_back() {
    assert!(ResolvedEntry::try_from_audit(audit("")).is_none());
    let e = ResolvedEntry::try_from_audit(audit("raw")).expect("it carries a card");
    assert_eq!((e.summary.id.as_str(), e.rendered.as_str()), ("a", "raw"));
    assert_eq!(e.decision, WireDecision::Allow);
    assert_eq!(e.rule_id, Some("rule".to_string()));
    assert!(e.summary.force_prompt);
}

#[test]
fn suggestions_come_from_what_waits_or_was_allowed() {
    let mut q = PendingQueue::new();
    q.submit(summary("a"));
    assert_eq!(suggestions_for(&q, "a").map(|s| s.peer_sid), Some(Some(7)));
    q.resolve("a", &PendingDecision::deny("no"));
    assert!(suggestions_for(&q, "a").is_none());
    q.submit(summary("b"));
    q.resolve("b", &PendingDecision::allow("yes"));
    assert!(suggestions_for(&q, "b").is_some());
    assert!(suggestions_for(&q, "zzz").is_none());
}

#[test]
fn a_new_rule_approves_what_it_covers() {
    let mut q = PendingQueue::new();
    for id in ["a", "b", "c"] {
        let mut s = summary(id);
        s.parsed = Some(parsed(if id == "b" { "other" } else { "h" }));
        q.submit(s);
    }
    let decide = |id: &str, p: &ParsedCommand| {
        assert!(["a", "b", "c"].contains(&id));
        if p.primary_target == "h" {
            Decision::Allow {
                rule_id: "r".to_string(),
                scope: RuleScope { layer: Scope::User, name: "user".to_string() },
            }
        } else {
            Decision::Prompt
        }
    };
    let added = approve_covered(&mut q, "r", &decide);
    assert_eq!(added.id, "r");
    assert_eq!(added.auto_approved_ids, vec!["a".to_string(), "c".to_string()]);
    assert_eq!(q.pending_summaries().len(), 1);
    assert_eq!(q.pending_summaries()[0].id, "b");
    assert_eq!(approval_by_rule("r").reason, "auto-approved by newly added rule `r`");
    // A rule of another name covers nothing.
    assert!(approve_covered(&mut q, "x", &decide).auto_approved_ids.is_empty());
}

#[test]
fn rules_and_hosts_go_to_the_files_of_the_user() {
    let user = Some("/home/u/.vet/allowlist.yaml".to_string());
    let plan = plan_rule(WireScope::User, "", "derived", &None, &user).expect("a home is known");
    assert_eq!((plan.id.as_str(), plan.target.as_str()), ("derived", "/home/u/.vet/allowlist.yaml"));
    let given = Some("/etc/rules.yaml".to_string());
    let plan = plan_rule(WireScope::User, "mine", "derived", &given, &user).expect("a file is given");
    assert_eq!((plan.id.as_str(), plan.target.as_str()), ("mine", "/etc/rules.yaml"));
    assert_eq!(
        plan_rule(WireScope::Project, "", "d", &None, &user),
        Err(AddError::UnsupportedScope(WireScope::Project))
    );
    assert_eq!(plan_rule(WireScope::User, "", "d", &None, &None), Err(AddError::NoUserHome));
    assert_eq!(resolve_allowlist_path(&None, &None), Err(AddError::NoUserHome));
    assert_eq!(
        plan_remove(WireScope::User, &None, &user),
        Ok("/home/u/.vet/allowlist.yaml".to_string())
    );
    assert_eq!(
        plan_remove(WireScope::Project, &given, &user),
        Err(AddError::UnsupportedScope(WireScope::Project))
    );
    assert_eq!(plan_remove(WireScope::User, &None, &None), Err(AddError::NoUserHome));
    assert_eq!(plan_host(WireScope::User, &user), Ok("/home/u/.vet/allowlist.yaml".to_string()));
    assert_eq!(
        plan_host(WireScope::Project, &user),
        Err(AddError::UnsupportedScope(WireScope::Project))
    );
    assert_eq!(resolve_known_hosts_path(&None), Err(AddError::NoUserHome));
}

#[test]
fn errors_of_adding_have_messages() {
    assert_eq!(
        AddError::UnsupportedScope(WireScope::Project).message(),
        "unsupported scope `Project` (only `User` is wired through the popover today)"
    );
    assert_eq!(
        AddError::UnsupportedScope(WireScope::User).message(),
        "unsupported scope `User` (only `User` is wired through the popover today)"
    );
    assert_eq!(
        AddError::NoUserHome.message(),
        "$HOME is not set; cannot resolve user-scope path"
    );
    assert_eq!(AddError::Allowlist("x".to_string()).message(), "allowlist write: x");
    assert_eq!(AddError::KnownHosts("x".to_string()).message(), "known-hosts write: x");
}

#[test]
fn management_requests_are_answered() {
    let mut q = PendingQueue::new();
    q.submit(summary("a"));
    match list_pending(&q) {
        MgmtResponse::PendingList { items } => {
            assert_eq!(items.len(), 1);
            assert_eq!((items[0].id.as_str(), items[0].primary_verb.as_str()), ("a", "GET"));
        }
        other => panic!("{other:?}"),
    }
    assert_eq!(
        suggestions_response("x", None),
        MgmtResponse::Error { message: "no pending or resolved entry with id `x`".to_string() }
    );
    assert_eq!(
        suggestions_response("x", Some((Vec::new(), Vec::new()))),
        MgmtResponse::Suggestions { allowlist: Vec::new(), known_host: Vec::new() }
    );
    let added = AddedRule { id: "r".to_string(), auto_approved_ids: vec!["a".to_string()] };
    assert_eq!(
        rule_response(WireScope::User, Ok(added)),
        MgmtResponse::RuleAdded {
            id: "r".to_string(),
            scope: WireScope::User,
            auto_approved_ids: vec!["a".to_string()],
        }
    );
    assert_eq!(
        host_response(WireScope::User, "p".to_string(), Ok(())),
        MgmtResponse::KnownHostAdded { pattern: "p".to_string(), scope: WireScope::User }
    );
    assert_eq!(
        host_response(WireScope::User, "p".to_string(), Err(AddError::NoUserHome)),
        MgmtResponse::Error { message: AddError::NoUserHome.message() }
    );
}
