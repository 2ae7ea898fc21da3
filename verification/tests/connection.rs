use vetterd::command::{
    Body, Decision, Effect, HttpMethod, HttpRequest, ParsedCommand, RiskSignal, RuleScope, Scope,
    Url, WireDecision,
};
use vetterd::connection::{
    answer_without_prompt, audit_entry, explain_parse_error, judge, open_request, parse_request,
    parser_name_hint, prompt_answer, render_detail, reply, shell_quote, CardRecord, Judged,
    ParseError, Parsers, Request,
};
use vetterd::cards::spans::strip_ansi;
use vetterd::pending::{PendingDecision, ResolvedEntry};
use vetterd::policy::{
    evaluate, host_flags, is_known_host, outcome_for, HostLookups, PolicyOutcome,
};

fn request(argv: &[&str]) -> Request {
    Request {
        id: "7".to_string(),
        argv: argv.iter().map(|a| a.to_string()).collect(),
        cwd: "/work".to_string(),
        force_prompt: false,
    }
}

fn http(host: Option<&str>) -> HttpRequest {
    HttpRequest {
        method: HttpMethod::Get,
        url: Url {
            scheme: "https".to_string(),
            host: host.map(|h| h.to_string()),
            port: None,
            path: "/".to_string(),
            query: None,
        },
        headers: Vec::new(),
        body: Body::Empty,
        auth: None,
    }
}

fn parsed(argv: &[&str]) -> ParsedCommand {
    ParsedCommand {
        command: "curl".to_string(),
        primary_verb: "GET".to_string(),
        primary_target: "https://h/".to_string(),
        argv: argv.iter().map(|a| a.to_string()).collect(),
        cwd: String::new(),
        effects: vec![Effect::HttpRequest(http(Some("h"))), Effect::Network],
        signals: Vec::new(),
    }
}

fn allow() -> Decision {
    Decision::Allow {
        rule_id: "r".to_string(),
        scope: RuleScope { layer: Scope::User, name: "user".to_string() },
    }
}

fn deny() -> Decision {
    Decision::Deny {
        rule_id: "d".to_string(),
        scope: RuleScope { layer: Scope::Denylist, name: "denylist".to_string() },
    }
}

fn none(_: &ParsedCommand) -> Vec<RiskSignal> {
    Vec::new()
}

fn no_check(_: &str, _: &ParsedCommand) -> Vec<RiskSignal> {
    Vec::new()
}

#[test]
fn a_request_is_parsed_by_its_parser() {
    let parsers = Parsers {
        registered: |name: &str| name == "curl",
        parse: |req: &Request| Ok(parsed(&[req.argv[0].as_str()])),
        analyze: none,
    };
    let p = parse_request(&request(&["curl", "x"]), &parsers).expect("curl is registered");
    assert_eq!(p.cwd, "/work");
    assert_eq!(
        parse_request(&request(&[]), &parsers),
        Err(ParseError::Other("argv is empty".to_string()))
    );
    assert_eq!(
        parse_request(&request(&["wget"]), &parsers),
        Err(ParseError::Other("no parser registered for `wget`".to_string()))
    );
    let failing = Parsers {
        registered: |_: &str| true,
        parse: |_: &Request| Err(ParseError::StreamingUnsupported),
        analyze: none,
    };
    assert_eq!(
        parse_request(&request(&["curl"]), &failing),
        Err(ParseError::StreamingUnsupported)
    );
}

#[test]
fn a_dry_run_asks_whatever_the_registry_says() {
    let asked = std::cell::Cell::new(0);
    let parsers = Parsers {
        registered: |_: &str| {
            asked.set(asked.get() + 1);
            asked.get() % 2 == 1
        },
        parse: |_: &Request| Ok(parsed(&["curl"])),
        analyze: none,
    };
    let hosts = HostLookups { knows: |_: &str| false, loopback_ip: |_: &str| false, check: no_check };
    let mut req = request(&["curl"]);
    req.force_prompt = true;
    for _ in 0..4 {
        match open_request(&req, None, &parsers, &|_: &ParsedCommand| allow(), &hosts) {
            Judged::Decided { outcome, .. } => assert!(matches!(outcome, PolicyOutcome::Prompt(_))),
            Judged::Refused { reason, .. } => assert!(reason.starts_with("parse failed: ")),
        }
    }
    assert_eq!(asked.get(), 4);
}

#[test]
fn parse_errors_are_explained() {
    let text = |e: ParseError| explain_parse_error(&e);
    assert_eq!(text(ParseError::MissingArgument("url".to_string())), "missing required argument `url`");
    assert_eq!(text(ParseError::ConflictingArgs("a, b".to_string())), "conflicting arguments: a, b");
    assert_eq!(text(ParseError::UnknownArgument("-z".to_string())), "unknown argument `-z`");
    assert_eq!(
        text(ParseError::StreamingUnsupported),
        "streaming bodies are not supported (`-T -`, chunked transfer, or `-d @-` over 1 MiB)"
    );
    assert_eq!(text(ParseError::Other("x".to_string())), "x");
}

#[test]
fn the_hint_is_the_name_of_the_program() {
    let hint = |argv: &[&str]| parser_name_hint(&request(argv).argv);
    assert_eq!(hint(&[]), "?");
    assert_eq!(hint(&["curl"]), "curl");
    assert_eq!(hint(&["/usr/bin/curl", "x"]), "curl");
    assert_eq!(hint(&["/usr/bin/curl/"]), "curl");
    assert_eq!(hint(&["a/.."]), "a/..");
    assert_eq!(hint(&["/"]), "/");
}

#[test]
fn arguments_are_quoted_for_the_shell() {
    assert_eq!(shell_quote(""), "''");
    assert_eq!(shell_quote("a-b_C.9"), "a-b_C.9");
    assert_eq!(shell_quote("a:b,c/d"), "'a:b,c/d'");
    assert_eq!(shell_quote("$x y"), "'$x y'");
    assert_eq!(shell_quote("a b"), "'a b'");
    assert_eq!(shell_quote("it's"), "'it'\\''s'");
    assert_eq!(shell_quote("h\u{e9}"), "'h\u{e9}'");
}

#[test]
fn the_detail_is_the_command_line() {
    let detail = render_detail(&parsed(&["curl", "-H", "a b"]));
    assert_eq!(detail, "\u{1b}[1mcurl\u{1b}[0m -H 'a b'");
    assert_eq!(strip_ansi(&detail), "curl -H 'a b'");
    assert_eq!(render_detail(&parsed(&[])), "");
}

#[test]
fn rules_decide_unless_a_prompt_is_forced() {
    let hosts = HostLookups { knows: |h: &str| h == "h", loopback_ip: |_: &str| false, check: no_check };
    let ask = |force: bool, d: fn() -> Decision| {
        evaluate(parsed(&["curl"]), "7", force, Some(3), &|_: &ParsedCommand| d(), &hosts)
    };
    match ask(false, allow) {
        PolicyOutcome::Auto { decision, reason, rule_id, .. } => {
            assert_eq!(decision, WireDecision::Allow);
            assert_eq!(reason, "matched rule `r` in user");
            assert_eq!(rule_id, "r");
        }
        other => panic!("{other:?}"),
    }
    match ask(false, deny) {
        PolicyOutcome::Auto { decision, reason, .. } => {
            assert_eq!(decision, WireDecision::Deny);
            assert_eq!(reason, "denylist rule `d` in denylist");
        }
        other => panic!("{other:?}"),
    }
    match ask(false, || Decision::Prompt) {
        PolicyOutcome::Prompt(s) => {
            assert_eq!((s.id.as_str(), s.force_prompt), ("7", false));
            assert_eq!(s.host_known, vec![true, false]);
            assert_eq!(s.peer_sid, Some(3));
        }
        other => panic!("{other:?}"),
    }
    for d in [allow, deny] {
        match ask(true, d) {
            PolicyOutcome::Prompt(s) => assert!(s.force_prompt),
            other => panic!("{other:?}"),
        }
    }
}

#[test]
fn hosts_are_known_by_the_list_or_as_this_machine() {
    let hosts = HostLookups {
        knows: |h: &str| h == "h",
        loopback_ip: |h: &str| h == "127.0.0.1",
        check: no_check,
    };
    assert!(is_known_host(&http(Some("h")), &hosts));
    assert!(is_known_host(&http(Some("127.0.0.1")), &hosts));
    assert!(is_known_host(&http(Some("localhost")), &hosts));
    assert!(!is_known_host(&http(Some("x")), &hosts));
    assert!(!is_known_host(&http(None), &hosts));
    let effects = vec![Effect::Network, Effect::HttpRequest(http(Some("h")))];
    assert_eq!(host_flags(&effects, &hosts), vec![false, true]);
}

#[test]
fn a_request_is_opened_and_answered() {
    let parsers = Parsers {
        registered: |name: &str| name == "curl",
        parse: |_: &Request| Ok(parsed(&["curl"])),
        analyze: none,
    };
    let hosts = HostLookups { knows: |_: &str| false, loopback_ip: |_: &str| false, check: no_check };
    let refused = open_request(&request(&["/bin/wget"]), None, &parsers, &|_: &ParsedCommand| allow(), &hosts);
    match &refused {
        Judged::Refused { command, reason } => {
            assert_eq!(command, "wget");
            assert_eq!(reason, "parse failed: no parser registered for `/bin/wget`");
        }
        other => panic!("{other:?}"),
    }
    let no = answer_without_prompt(&refused).expect("it needs no human");
    assert_eq!(no.decision, WireDecision::Deny);
    let allowed = open_request(&request(&["curl"]), None, &parsers, &|_: &ParsedCommand| allow(), &hosts);
    assert_eq!(
        answer_without_prompt(&allowed).map(|d| d.decision),
        Some(WireDecision::Allow)
    );
    let asked = open_request(&request(&["curl"]), None, &parsers, &|_: &ParsedCommand| Decision::Prompt, &hosts);
    assert_eq!(answer_without_prompt(&asked), None);
    assert!(matches!(
        judge(&request(&["curl"]), parsed(&["curl"]), None, &|_: &ParsedCommand| Decision::Prompt, &hosts),
        PolicyOutcome::Prompt(_)
    ));
}

#[test]
fn a_request_without_an_answer_is_denied() {
    let d = prompt_answer("7", None);
    assert_eq!(d.decision, WireDecision::Deny);
    assert_eq!(d.reason, "daemon shutting down (pending request `7` cancelled)");
    let given = prompt_answer("7", Some(PendingDecision::allow("yes")));
    assert_eq!((given.decision, given.reason.as_str()), (WireDecision::Allow, "yes"));
    let r = reply("7", &given);
    assert_eq!((r.id.as_str(), r.decision, r.reason.as_str()), ("7", WireDecision::Allow, "yes"));
}

#[test]
fn a_logged_card_comes_back_after_a_restart() {
    let hosts = HostLookups { knows: |_: &str| false, loopback_ip: |_: &str| false, check: no_check };
    let summary = match evaluate(parsed(&["curl"]), "7", true, Some(5), &|_: &ParsedCommand| allow(), &hosts) {
        PolicyOutcome::Prompt(s) => s,
        other => panic!("{other:?}"),
    };
    let mut req = request(&["curl", "x"]);
    req.force_prompt = true;
    let answer = PendingDecision::allow("yes");
    let entry = audit_entry(
        &req,
        "now".to_string(),
        "curl".to_string(),
        &answer,
        Some(CardRecord { summary: summary.clone(), rendered: "raw".to_string(), rule: None }),
    );
    assert_eq!((entry.id.as_str(), entry.timestamp.as_str()), ("7", "now"));
    assert_eq!(entry.argv, vec!["curl".to_string(), "x".to_string()]);
    let back = ResolvedEntry::try_from_audit(entry).expect("it carries a card");
    assert_eq!(back.summary, summary);
    assert_eq!(back.rendered, "raw");
    let plain = audit_entry(&req, "now".to_string(), "curl".to_string(), &answer, None);
    assert!(plain.rendered.is_empty());
    assert!(ResolvedEntry::try_from_audit(plain).is_none());
}

#[test]
fn an_outcome_follows_the_decision() {
    let hosts = HostLookups { knows: |_: &str| false, loopback_ip: |_: &str| false, check: no_check };
    let summary = match evaluate(parsed(&["curl"]), "7", true, None, &|_: &ParsedCommand| allow(), &hosts) {
        PolicyOutcome::Prompt(s) => s,
        other => panic!("{other:?}"),
    };
    assert!(matches!(outcome_for(Decision::Prompt, summary.clone()), PolicyOutcome::Prompt(_)));
    assert!(matches!(
        outcome_for(deny(), summary),
        PolicyOutcome::Auto { decision: WireDecision::Deny, .. }
    ));
}
