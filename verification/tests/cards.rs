use vetterd::cards::card::{card_view, snapshot, CardView, UrlView};
use vetterd::cards::effects::{
    auth_label, body_meta_label, collect_body_file_paths, form_field_text, inline_body_text,
};
use vetterd::cards::markup::escape_markup;
use vetterd::cards::picker::{
    host_picker_rows, rule_picker_rows, rule_with_duration, show_trust_host,
};
use vetterd::cards::pills::{pills_for, signal_pill, signal_priority, signal_tone, Tone};
use vetterd::cards::resolved::{
    attribution_sentence, resolved_card_view, resolved_snapshot, revoke_scope, Outcome,
};
use vetterd::cards::rows::{can_open, effect_rows, BodyContent, EffectRow, EffectRows};
use vetterd::cards::rules::{render_rule_when_yaml, DurationChoice};
use vetterd::cards::spans::{parse_ansi_spans, strip_ansi, AnsiColor, SpanStyle};
use vetterd::cards::url::{
    fallback_text, host_trust, is_loopback, method_tone, path_query, visible_port, HostTrust,
    MethodTone,
};
use vetterd::command::{
    Auth, BadgeSeverity, Body, Effect, FormField, Header, HostSuggestion, HttpMethod, HttpRequest,
    ParsedCommand, RiskSignal, Rule, RuleScope, RuleSuggestion, Scope, SignalKind, Url,
    WireDecision, WireScope,
};
use vetterd::outside::Lookups;
use vetterd::pending::{PromptSummary, ResolvedEntry};

fn plain() -> SpanStyle {
    SpanStyle { color: None, bold: false, dim: false, underline: false }
}

fn url(host: &str, port: Option<u16>, path: &str, query: Option<&str>) -> Url {
    Url {
        scheme: "https".to_string(),
        host: Some(host.to_string()),
        port,
        path: path.to_string(),
        query: query.map(|q| q.to_string()),
    }
}

fn request(method: HttpMethod, body: Body, auth: Option<Auth>) -> HttpRequest {
    HttpRequest {
        method,
        url: url("api.example.com", Some(9000), "/v1/things", Some("q=1")),
        headers: vec![Header { name: "X-Trace".to_string(), value: "abc".to_string() }],
        body,
        auth,
    }
}

fn signal(kind: SignalKind, label: &str, severity: BadgeSeverity, detail: &str) -> RiskSignal {
    RiskSignal {
        kind,
        label: label.to_string(),
        severity,
        detail: detail.to_string(),
        effect: None,
    }
}

fn parsed(effects: Vec<Effect>) -> ParsedCommand {
    ParsedCommand {
        command: "curl".to_string(),
        primary_verb: "GET".to_string(),
        primary_target: "https://api.example.com/".to_string(),
        argv: vec!["curl".to_string()],
        cwd: "/".to_string(),
        effects,
        signals: Vec::new(),
    }
}

fn summary(id: &str, parsed: Option<ParsedCommand>, signals: Vec<RiskSignal>) -> PromptSummary {
    PromptSummary {
        id: id.to_string(),
        command: "curl".to_string(),
        primary_verb: "GET".to_string(),
        primary_target: "https://api.example.com/".to_string(),
        force_prompt: false,
        signals,
        parsed,
        host_known: vec![true],
        peer_sid: None,
    }
}

/// A sanitiser that drops `!`, so that a test sees where it was applied.
fn clean(s: &str) -> String {
    s.chars().filter(|c| *c != '!').collect()
}

fn card(s: &PromptSummary, rendered: &str) -> CardView {
    let ask = Lookups {
        sanitize: |t: &str| clean(t),
        loopback_ip: |t: &str| t == "127.0.0.1" || t == "::1",
        on_disk: |t: &str| t == "/tmp/there",
    };
    card_view(s, rendered, &ask)
}

#[test]
fn styled_text_becomes_spans() {
    let spans = parse_ansi_spans("a\u{1b}[1;31mb\u{1b}[0mc");
    assert_eq!(spans.len(), 3);
    assert_eq!((spans[0].text.as_str(), spans[0].style), ("a", plain()));
    assert_eq!(spans[1].text, "b");
    assert!(spans[1].style.bold);
    assert_eq!(spans[1].style.color, Some(AnsiColor::Red));
    assert_eq!((spans[2].text.as_str(), spans[2].style), ("c", plain()));
}

#[test]
fn each_style_code_has_its_effect() {
    for (code, color) in [
        (31, AnsiColor::Red),
        (32, AnsiColor::Green),
        (33, AnsiColor::Yellow),
        (35, AnsiColor::Magenta),
        (36, AnsiColor::Cyan),
        (90, AnsiColor::BrightBlack),
        (94, AnsiColor::BrightBlue),
    ] {
        let spans = parse_ansi_spans(&format!("\u{1b}[{code}mx"));
        assert_eq!(spans[0].style.color, Some(color));
    }
    assert!(parse_ansi_spans("\u{1b}[2mx")[0].style.dim);
    assert!(parse_ansi_spans("\u{1b}[4mx")[0].style.underline);
    assert_eq!(parse_ansi_spans("\u{1b}[34mx")[0].style, plain());
    assert_eq!(parse_ansi_spans("\u{1b}[1m\u{1b}[mx")[0].style, plain());
}

#[test]
fn stray_escapes_are_kept() {
    assert_eq!(strip_ansi("a\u{1b}b"), "a\u{1b}b");
    assert_eq!(strip_ansi("a\u{1b}[31"), "a\u{1b}[31");
    assert_eq!(strip_ansi("a\u{1b}[31xb"), "a\u{1b}[31xb");
}

#[test]
fn stripped_text_is_the_text_of_the_spans() {
    let text = "\u{1b}[1mcurl\u{1b}[0m 'a b' \u{1b}[90mx";
    let shown: String = parse_ansi_spans(text).iter().map(|s| s.text.clone()).collect();
    assert_eq!(strip_ansi(text), shown);
    assert_eq!(shown, "curl 'a b' x");
    assert!(parse_ansi_spans("\u{1b}[1m\u{1b}[0m").is_empty());
}

#[test]
fn markup_is_escaped() {
    assert_eq!(escape_markup("<b>\"a\" & 'b'</b>"), "&lt;b&gt;&quot;a&quot; &amp; &apos;b&apos;&lt;/b&gt;");
    assert_eq!(escape_markup("plain"), "plain");
    assert_eq!(escape_markup(""), "");
    let (a, b) = ("<", "&");
    assert_eq!(escape_markup(&format!("{a}{b}")), format!("{}{}", escape_markup(a), escape_markup(b)));
}

#[test]
fn methods_have_tones() {
    for (method, tone) in [
        (HttpMethod::Get, MethodTone::Read),
        (HttpMethod::Head, MethodTone::Read),
        (HttpMethod::Options, MethodTone::Read),
        (HttpMethod::Post, MethodTone::Write),
        (HttpMethod::Put, MethodTone::Write),
        (HttpMethod::Patch, MethodTone::Write),
        (HttpMethod::Delete, MethodTone::Destructive),
        (HttpMethod::Other("LINK".to_string()), MethodTone::Other),
    ] {
        assert_eq!(method_tone(&method), tone, "{method:?}");
    }
    assert_eq!(HttpMethod::Other("LINK".to_string()).as_str(), "LINK");
    assert_eq!(HttpMethod::Delete.as_str(), "DELETE");
}

#[test]
fn only_unusual_ports_are_shown() {
    assert_eq!(visible_port(&url("h", Some(9000), "/", None)), Some(9000));
    for quiet in [80, 443, 8080, 8443] {
        assert_eq!(visible_port(&url("h", Some(quiet), "/", None)), None);
    }
    assert_eq!(visible_port(&url("h", None, "/", None)), None);
}

#[test]
fn the_tail_folds_path_and_query() {
    let id = |s: &str| clean(s);
    let tail = path_query(&url("h", None, "/a!b", Some("q=!1")), &id);
    assert_eq!((tail.text.as_str(), tail.has_path), ("/ab?q=1", true));
    let root = path_query(&url("h", None, "/", None), &id);
    assert_eq!((root.text.as_str(), root.has_path), ("/", false));
    let bare = path_query(&url("h", None, "", None), &id);
    assert_eq!((bare.text.as_str(), bare.has_path), ("", false));
    let query = path_query(&url("h", None, "/", Some("q=1")), &id);
    assert_eq!((query.text.as_str(), query.has_path), ("?q=1", false));
}

#[test]
fn loopback_hosts_are_recognised() {
    let ip = |s: &str| s == "127.0.0.1" || s == "::1";
    assert!(is_loopback("localhost", &ip));
    assert!(is_loopback("LocalHost", &ip));
    assert!(is_loopback("127.0.0.1", &ip));
    assert!(is_loopback("[::1]", &ip));
    assert!(!is_loopback("localhost.example.com", &ip));
    assert_eq!(host_trust("localhost", false, &ip), HostTrust::Loopback);
    assert_eq!(host_trust("a.example", true, &ip), HostTrust::Known);
    assert_eq!(host_trust("a.example", false, &ip), HostTrust::Unknown);
    assert_ne!(HostTrust::Known.tooltip(), HostTrust::Unknown.tooltip());
}

#[test]
fn the_fallback_line_joins_what_there_is() {
    let id = |s: &str| clean(s);
    assert_eq!(fallback_text("curl", "GET", "https://h!/", &id), "curl  GET https://h/");
    assert_eq!(fallback_text("curl", "", "target", &id), "curl  target");
    assert_eq!(fallback_text("", "", "target", &id), "  target");
}

#[test]
fn body_files_are_collected() {
    let p = parsed(vec![
        Effect::HttpRequest(request(HttpMethod::Post, Body::FromFile { path: "/tmp/a".to_string() }, None)),
        Effect::FileRead { path: "/tmp/b".to_string() },
    ]);
    assert_eq!(collect_body_file_paths(&p), vec!["/tmp/a".to_string()]);
}

#[test]
fn bodies_have_labels() {
    assert_eq!(body_meta_label(&Body::Empty), None);
    assert_eq!(
        body_meta_label(&Body::Inline { bytes: vec![1, 2, 3] }),
        Some("inline, 3 B".to_string())
    );
    let form = Body::Form {
        fields: vec![FormField { name: "a".to_string(), value: "b".to_string() }],
    };
    assert_eq!(
        body_meta_label(&Body::FromFile { path: "/a".to_string() }),
        Some("from file".to_string())
    );
    assert_eq!(body_meta_label(&form), Some("x-www-form-urlencoded, 1 fields".to_string()));
}

#[test]
fn inline_bodies_are_shown_as_text_where_they_are_text() {
    let id = |s: &str| clean(s);
    assert_eq!(inline_body_text(&b"hello!".to_vec(), &id), "hello");
    assert_eq!(inline_body_text(&"h\u{e9}".as_bytes().to_vec(), &id), "h\u{e9}");
    assert_eq!(inline_body_text(&vec![0xff, 0x0e], &id), "ff 0e");
    let long = inline_body_text(&vec![0xff; 70], &id);
    assert!(long.starts_with("ff ff ff"));
    assert!(long.ends_with(" \u{2026} (6 more bytes)"));
}

#[test]
fn form_fields_and_identities_are_sanitised() {
    let id = |s: &str| clean(s);
    let field = FormField { name: "na!me".to_string(), value: "v!".to_string() };
    assert_eq!(form_field_text(&field, &id), "name=v");
    let basic = Auth::Basic { user: "jo!".to_string(), password_redacted: true };
    assert_eq!(
        auth_label(&basic, &id),
        ("Basic user=jo password=\u{2022}\u{2022}\u{2022}\u{2022}".to_string(), true)
    );
    assert_eq!(
        auth_label(&Auth::Bearer { token_redacted: false }, &id),
        ("Bearer \u{2022}\u{2022}\u{2022}\u{2022}".to_string(), false)
    );
    assert_eq!(
        auth_label(&Auth::Header { name: "X-!Key".to_string() }, &id).0,
        "X-Key: \u{2022}\u{2022}\u{2022}\u{2022}"
    );
    assert_eq!(auth_label(&Auth::Netrc, &id).0, "from .netrc");
}

#[test]
fn fixed_texts_do_not_ask_the_sanitiser() {
    let never = |_: &str| -> String { panic!("nothing to sanitise") };
    assert_eq!(inline_body_text(&vec![0xff, 0x00], &never), "ff 00");
    assert_eq!(
        auth_label(&Auth::Bearer { token_redacted: true }, &never),
        ("Bearer \u{2022}\u{2022}\u{2022}\u{2022}".to_string(), true)
    );
    assert_eq!(auth_label(&Auth::Netrc, &never).0, "from .netrc");
}

#[test]
fn rows_follow_the_effects() {
    let ask = Lookups {
        sanitize: |t: &str| clean(t),
        loopback_ip: |_: &str| false,
        on_disk: |t: &str| t == "/tmp/there",
    };
    let p = parsed(vec![
        Effect::HttpRequest(request(
            HttpMethod::Post,
            Body::FromFile { path: "/tmp/there".to_string() },
            None,
        )),
        Effect::FileRead { path: "/tmp/there".to_string() },
        Effect::FileRead { path: "/tmp/gone".to_string() },
        Effect::FileWrite { path: "/tmp/out".to_string() },
        Effect::ProcessSpawn { command: "sh!".to_string() },
    ]);
    let rows = effect_rows(&p, &ask);
    // The file that is sent has its body row and no row of its own.
    assert_eq!(rows.file_inputs.len(), 2);
    match &rows.file_inputs[0] {
        EffectRow::Body { content: BodyContent::FromFile(f), .. } => assert!(f.can_open),
        other => panic!("{other:?}"),
    }
    match &rows.file_inputs[1] {
        EffectRow::FileRead(f) => assert_eq!((f.path.as_str(), f.can_open), ("/tmp/gone", false)),
        other => panic!("{other:?}"),
    }
    assert_eq!(rows.others[0], EffectRow::Headers(vec!["X-Trace".to_string()]));
    assert_eq!(rows.others.last(), Some(&EffectRow::ProcessSpawn("sh".to_string())));
    assert_eq!(rows.total(), 5);
    assert!(!rows.is_empty());
    assert_eq!(rows.flattened().len(), 5);
    assert!(EffectRows::default().is_empty());
    assert!(can_open("/tmp/there", &|t: &str| t == "/tmp/there"));
}

#[test]
fn rows_stay_whatever_the_disk_says() {
    let asked = std::cell::Cell::new(0);
    let ask = Lookups {
        sanitize: |t: &str| clean(t),
        loopback_ip: |_: &str| false,
        on_disk: |_: &str| {
            asked.set(asked.get() + 1);
            asked.get() % 2 == 1
        },
    };
    let p = parsed(vec![
        Effect::FileRead { path: "/tmp/a".to_string() },
        Effect::FileWrite { path: "/tmp/a".to_string() },
    ]);
    let rows = effect_rows(&p, &ask);
    match (&rows.file_inputs[..], &rows.others[..]) {
        ([EffectRow::FileRead(read)], [EffectRow::FileWrite(write)]) => {
            assert_eq!((read.path.as_str(), read.can_open), ("/tmp/a", true));
            assert_eq!((write.path.as_str(), write.can_open), ("/tmp/a", false));
        }
        other => panic!("{other:?}"),
    }
}

#[test]
fn header_values_never_reach_a_card() {
    let s = summary(
        "1",
        Some(parsed(vec![Effect::HttpRequest(request(HttpMethod::Get, Body::Empty, None))])),
        Vec::new(),
    );
    assert!(!format!("{:?}", card(&s, "")).contains("abc"));
}

#[test]
fn pills_are_deduped_and_sorted() {
    let signals = vec![
        signal(SignalKind::AuthHeader, "auth", BadgeSeverity::Info, ""),
        signal(SignalKind::UnknownHost, "unknown host", BadgeSeverity::Warn, "h"),
        signal(SignalKind::Other(1), "destructive", BadgeSeverity::Danger, "why"),
        signal(SignalKind::UnknownHost, "unknown host", BadgeSeverity::Warn, "again"),
        signal(SignalKind::Other(2), "note", BadgeSeverity::Info, "n"),
    ];
    let pills = pills_for(&signals);
    let shown: Vec<(Tone, &str)> = pills.iter().map(|p| (p.tone, p.label.as_str())).collect();
    assert_eq!(
        shown,
        vec![(Tone::Danger, "destructive"), (Tone::Warn, "unknown host"), (Tone::Positive, "auth")]
    );
    assert!(signal_pill(&signals[4]).is_none());
    assert_eq!(signal_tone(SignalKind::AuthHeader, BadgeSeverity::Info), Some(Tone::Positive));
    assert!(
        signal_priority(SignalKind::Other(1), BadgeSeverity::Danger)
            < signal_priority(SignalKind::UnknownHost, BadgeSeverity::Warn)
    );
    assert!(show_trust_host(&signals));
    assert!(!show_trust_host(&Vec::new()));
}

#[test]
fn a_card_shows_what_will_run() {
    let mut s = summary(
        "7",
        Some(parsed(vec![Effect::HttpRequest(request(HttpMethod::Get, Body::Empty, None))])),
        vec![signal(SignalKind::UnknownHost, "unknown host", BadgeSeverity::Warn, "h")],
    );
    s.command = "cu!rl".to_string();
    let c = card(&s, "\u{1b}[1mcurl\u{1b}[0m x");
    assert_eq!((c.id.as_str(), c.title.as_str(), c.dry_run), ("7", "curl", false));
    assert_eq!(c.raw.plain, "curl x");
    assert_eq!(c.raw.spans.len(), 2);
    assert_eq!(c.trust, HostTrust::Known);
    assert!(c.show_trust_host);
    match &c.url {
        UrlView::Http(u) => {
            assert_eq!(u.method, "GET");
            assert_eq!(u.scheme, "https://");
            assert_eq!(u.host, "api.example.com");
            assert_eq!(u.port, Some(9000));
            assert_eq!(u.tail.text, "/v1/things?q=1");
        }
        other => panic!("{other:?}"),
    }
    assert_eq!(c.all_rows(), vec![EffectRow::Headers(vec!["X-Trace".to_string()])]);
}

#[test]
fn a_card_without_a_request_has_a_line() {
    let c = card(&summary("1", None, Vec::new()), "");
    assert_eq!(c.url, UrlView::Fallback("curl  GET https://api.example.com/".to_string()));
    assert_eq!(c.trust, HostTrust::Unknown);
    assert!(c.rows.is_empty());
}

#[test]
fn cards_are_ordered_by_id() {
    let ask = Lookups {
        sanitize: |t: &str| t.to_string(),
        loopback_ip: |_: &str| false,
        on_disk: |_: &str| false,
    };
    let entries = vec![
        (summary("b", None, Vec::new()), String::new()),
        (summary("a", None, Vec::new()), String::new()),
        (summary("ab", None, Vec::new()), String::new()),
    ];
    let ids: Vec<String> = snapshot(&entries, &ask).into_iter().map(|c| c.id).collect();
    assert_eq!(ids, vec!["a", "ab", "b"]);
}

fn entry(decision: WireDecision, rule: Option<(&str, Scope, &str)>) -> ResolvedEntry {
    ResolvedEntry {
        summary: summary("1", None, Vec::new()),
        rendered: String::new(),
        decision,
        rule_id: rule.map(|r| r.0.to_string()),
        rule_scope: rule.map(|r| RuleScope { layer: r.1, name: r.2.to_string() }),
    }
}

#[test]
fn resolved_cards_name_their_rule() {
    let ask = Lookups {
        sanitize: |t: &str| t.to_string(),
        loopback_ip: |_: &str| false,
        on_disk: |_: &str| false,
    };
    let allowed = resolved_card_view(&entry(WireDecision::Allow, Some(("r1", Scope::User, "user"))), &ask);
    assert_eq!(allowed.outcome, Outcome::Allowed);
    assert!(allowed.show_pickers);
    let why = allowed.attribution.expect("a rule allowed it");
    assert_eq!(why.summary, "Auto-allowed by rule `r1` in user scope.");
    assert_eq!(why.revoke, Some(WireScope::User));
    let builtin =
        resolved_card_view(&entry(WireDecision::Allow, Some(("r2", Scope::Builtin, "builtin"))), &ask);
    assert_eq!(builtin.attribution.expect("a rule allowed it").revoke, None);
    let denied = resolved_card_view(&entry(WireDecision::Deny, Some(("r1", Scope::User, "user"))), &ask);
    assert_eq!((denied.outcome, denied.show_pickers), (Outcome::Denied, false));
    assert!(denied.attribution.is_none());
    let human = resolved_card_view(&entry(WireDecision::AllowOnce, None), &ask);
    assert_eq!(human.outcome.label(), "allowed");
    assert!(human.attribution.is_none());
    assert_eq!(resolved_snapshot(&vec![entry(WireDecision::Deny, None)], &ask).len(), 1);
}

#[test]
fn only_layers_of_the_user_can_be_revoked() {
    assert_eq!(revoke_scope(Scope::User), Some(WireScope::User));
    assert_eq!(revoke_scope(Scope::Session), Some(WireScope::User));
    for layer in [Scope::Project, Scope::Builtin, Scope::Denylist] {
        assert_eq!(revoke_scope(layer), None);
    }
    assert_eq!(attribution_sentence("a", "b"), "Auto-allowed by rule `a` in b scope.");
}

#[test]
fn durations_set_expiry_and_session() {
    let rule = |choice: DurationChoice| {
        rule_with_duration(
            Rule { id: "r".to_string(), expires_at: Some(1), sid: Some(9) },
            choice,
            1000,
            Some(42),
        )
    };
    assert_eq!(rule(DurationChoice::FifteenMinutes).expires_at, Some(1900));
    assert_eq!(rule(DurationChoice::OneHour).expires_at, Some(4600));
    assert_eq!(rule(DurationChoice::FourHours).expires_at, Some(15400));
    let session = rule(DurationChoice::ThisSession);
    assert_eq!((session.expires_at, session.sid), (Some(605800), Some(42)));
    let forever = rule(DurationChoice::Forever);
    assert_eq!((forever.expires_at, forever.sid), (None, None));
    assert_eq!(DurationChoice::all().len(), 5);
    assert_eq!(DurationChoice::all()[4].title(), "Forever");
    assert_eq!(DurationChoice::OneHour.confirmation_note(), "Expires in 1 hour.");
}

#[test]
fn picker_rows_preview_what_is_saved() {
    let rules = vec![RuleSuggestion {
        tier: "exact".to_string(),
        label: "this URL".to_string(),
        rule: Rule { id: "r".to_string(), expires_at: None, sid: None },
        when_yaml: Ok("host: a\npath: /b\n".to_string()),
    }];
    let rows = rule_picker_rows(&rules);
    assert_eq!(rows[0].title, "exact  \u{2014}  this URL");
    assert_eq!(rows[0].preview, "when:\n  host: a\n  path: /b");
    assert_eq!(
        render_rule_when_yaml(&Err("bad".to_string())),
        "(yaml render failed: bad)"
    );
    let hosts = vec![HostSuggestion {
        tier: "host".to_string(),
        label: "this host".to_string(),
        pattern: "a.example".to_string(),
    }];
    assert_eq!(host_picker_rows(&hosts)[0].preview, "pattern: \"a.example\"");
}
