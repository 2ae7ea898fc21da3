use vetterd::autostart::{AutostartError, AutostartStatus};
use vetterd::cards::picker::PickerKind;
use vetterd::cards::pills::Tone;
use vetterd::cards::resolved::Outcome;
use vetterd::cards::rows::{BodyContent, EffectRow, FilePath};
use vetterd::cards::rules::DurationChoice;
use vetterd::cards::spans::{parse_ansi_spans, AnsiColor, SpanStyle};
use vetterd::cards::url::{HostTrust, MethodTone};
use vetterd::cards::card::{snapshot, UrlView};
use vetterd::cards::resolved::resolved_snapshot;
use vetterd::command::{
    BadgeSeverity, Body, Effect, HostSuggestion, HttpMethod, HttpRequest, ParsedCommand,
    RiskSignal, Rule, RuleScope, RuleSuggestion, Scope, SignalKind, Url, WireDecision, WireScope,
};
use vetterd::outside::Lookups;
use vetterd::pending::{PromptSummary, ResolvedEntry};
use vetterd::runloop::layout::{list_items, ListItem};
use vetterd::runloop::pickers::{
    allowlist_opening, chosen_duration, confirm_and_revoke_rule, confirm_revoke, duration_radios,
    host_alert, host_opening, host_toast, newest_toast, not_editable_note, picked_host,
    picked_rule, radio_clicked, read_selected_index, revoke_alert, revoke_toast, row_radios,
    rule_alert, rule_toast, toast_class, RevokeStep, Toast,
};
use vetterd::runloop::popover::{
    apply_autostart_change, autostart_checkbox, badge_title, build_card,
    first_http_request, host_color, method_color, ns_color_for, outcome_icon, pill_color,
    popover_decision, popover_section, refresh, title_of, CheckboxAfter, SystemColor,
};
use vetterd::runloop::window::{
    autostart_toast, display_available, effect_row, host_class, live_ids, may_open, method_class, outcome_class,
    palette, picker_to_open, pill_class, request_show_card, sound_toast, spans_to_markup, CardAction,
    Disclosure, ExpandedState, GlibError, ShowRequest,
};
use vetterd::suggestions::{AddError, AddedRule};

fn summary(id: &str, effects: Vec<Effect>) -> PromptSummary {
    PromptSummary {
        id: id.to_string(),
        command: "curl".to_string(),
        primary_verb: "GET".to_string(),
        primary_target: "t".to_string(),
        force_prompt: false,
        signals: vec![RiskSignal {
            kind: SignalKind::UnknownHost,
            label: "unknown host".to_string(),
            severity: BadgeSeverity::Warn,
            detail: String::new(),
            effect: None,
        }],
        parsed: Some(ParsedCommand {
            command: "curl".to_string(),
            primary_verb: "GET".to_string(),
            primary_target: "t".to_string(),
            argv: Vec::new(),
            cwd: String::new(),
            effects,
            signals: Vec::new(),
        }),
        host_known: vec![false, true],
        peer_sid: None,
    }
}

fn http() -> Effect {
    Effect::HttpRequest(HttpRequest {
        method: HttpMethod::Get,
        url: Url {
            scheme: "https".to_string(),
            host: Some("h".to_string()),
            port: None,
            path: "/".to_string(),
            query: None,
        },
        headers: Vec::new(),
        body: Body::Empty,
        auth: None,
    })
}

fn resolved(id: &str, decision: WireDecision) -> ResolvedEntry {
    ResolvedEntry {
        summary: summary(
            id,
            vec![
                Effect::FileRead { path: "/there".to_string() },
                Effect::FileWrite { path: "/out".to_string() },
            ],
        ),
        rendered: "\u{1b}[1mraw\u{1b}[0m".to_string(),
        decision,
        rule_id: Some("r".to_string()),
        rule_scope: Some(RuleScope { layer: Scope::User, name: "user".to_string() }),
    }
}

fn style(color: Option<AnsiColor>, dim: bool) -> SpanStyle {
    SpanStyle { color, bold: false, dim, underline: false }
}

#[test]
fn the_list_has_every_card_once() {
    assert_eq!(list_items(false, 0, 0), vec![ListItem::Empty]);
    assert_eq!(list_items(true, 0, 0), vec![ListItem::Toast, ListItem::Empty]);
    assert_eq!(
        list_items(true, 2, 1),
        vec![
            ListItem::Toast,
            ListItem::Pending(0),
            ListItem::Separator,
            ListItem::Pending(1),
            ListItem::Separator,
            ListItem::RecentTitle,
            ListItem::Separator,
            ListItem::Resolved(0),
        ]
    );
    assert_eq!(list_items(false, 0, 1)[0], ListItem::NoPending);
}

#[test]
fn window_buttons_decide_with_their_reason() {
    let yes = CardAction::Approve.decision();
    assert_eq!((yes.decision, yes.reason.as_str()), (WireDecision::Allow, "approved via window"));
    let no = CardAction::Reject.decision();
    assert_eq!((no.decision, no.reason.as_str()), (WireDecision::Deny, "rejected via window"));
}

#[test]
fn open_parts_survive_while_their_card_lives() {
    let mut open = ExpandedState::new();
    assert!(!open.is_open(Disclosure::Raw, "a"));
    open.set_open(Disclosure::Raw, "a", true);
    open.set_open(Disclosure::Raw, "a", true);
    open.set_open(Disclosure::Details, "b", true);
    assert!(open.is_open(Disclosure::Raw, "a"));
    assert!(!open.is_open(Disclosure::Details, "a"));
    open.set_open(Disclosure::Raw, "a", false);
    assert!(!open.is_open(Disclosure::Raw, "a"));
    assert!(open.is_open(Disclosure::Details, "b"));
    open.set_open(Disclosure::Raw, "a", true);
    open.retain_live(&vec!["a", "c"]);
    assert!(open.is_open(Disclosure::Raw, "a"));
    assert!(!open.is_open(Disclosure::Details, "b"));
}

#[test]
fn live_cards_are_those_of_both_sections() {
    let ask = Lookups {
        sanitize: |t: &str| t.to_string(),
        loopback_ip: |_: &str| false,
        on_disk: |_: &str| false,
    };
    let pending = snapshot(&vec![(summary("a", Vec::new()), String::new())], &ask);
    let history = resolved_snapshot(&vec![resolved("b", WireDecision::Allow)], &ask);
    assert_eq!(live_ids(&pending, &history), vec!["a", "b"]);
}

#[test]
fn spans_become_markup_with_their_text_escaped() {
    let spans = parse_ansi_spans("a<\u{1b}[1;31;4m<b>\u{1b}[0m&");
    assert_eq!(
        spans_to_markup(&spans, palette(false)),
        "a&lt;<span foreground=\"#c01c28\" weight=\"bold\" underline=\"single\">&lt;b&gt;</span>&amp;"
    );
    let dim = parse_ansi_spans("\u{1b}[36;2mx");
    assert_eq!(spans_to_markup(&dim, palette(true)), "<span foreground=\"#9a9996\">x</span>");
    let cyan = parse_ansi_spans("\u{1b}[36mx");
    assert_eq!(spans_to_markup(&cyan, palette(true)), "<span foreground=\"#33d1c9\">x</span>");
    assert_eq!(spans_to_markup(&Vec::new(), palette(true)), "");
}

#[test]
fn a_window_needs_a_display_and_its_name() {
    let set = |s: &str| Some(s.to_string());
    assert!(display_available(&set("wayland-0"), &None));
    assert!(display_available(&set(""), &set(":0")));
    assert!(!display_available(&set(""), &None));
    assert!(!display_available(&None, &None));
    assert_eq!(may_open(false, true), Err(GlibError::NoDisplay));
    assert_eq!(
        may_open(true, true),
        Err(GlibError::AlreadyRunning(
            "`dev.vetter.daemon` is already owned on the session bus".to_string()
        ))
    );
    assert_eq!(may_open(true, false), Ok(()));
}

#[test]
fn tones_have_classes_and_colours() {
    assert_eq!(method_class(MethodTone::Destructive), "destructive");
    assert_eq!(method_class(MethodTone::Read), "read");
    assert_eq!(host_class(HostTrust::Loopback), "neutral");
    assert_eq!(pill_class(Tone::Danger), "danger");
    assert_eq!(outcome_class(Outcome::Denied), "danger");
    assert_eq!(method_color(MethodTone::Write), SystemColor::Yellow);
    assert_eq!(host_color(HostTrust::Unknown), SystemColor::Orange);
    assert_eq!(pill_color(Tone::Positive), SystemColor::Green);
    assert_eq!(ns_color_for(style(None, false)), SystemColor::Text);
    assert_eq!(ns_color_for(style(Some(AnsiColor::Cyan), true)), SystemColor::SecondaryLabel);
    assert_eq!(ns_color_for(style(Some(AnsiColor::Cyan), false)), SystemColor::Teal);
    assert_eq!(
        outcome_icon(Outcome::Allowed),
        ("checkmark.circle.fill", "Allowed", SystemColor::Green)
    );
    assert_eq!(toast_class(true), "error");
    assert_eq!(toast_class(false), "ok");
}

#[test]
fn rows_become_sections() {
    let file = FilePath { display: "/a".to_string(), path: "/a".to_string(), can_open: true };
    let body = EffectRow::Body { meta: "from file".to_string(), content: BodyContent::FromFile(file) };
    let section = effect_row(&body);
    assert_eq!((section.title, section.open.as_deref()), ("body", Some("/a")));
    assert_eq!(section.lines.len(), 2);
    assert_eq!(section.lines[0].class, Some("dim-label"));
    assert_eq!(section.lines[1].text, "/a");
    let gone = FilePath { display: "/b".to_string(), path: "/b".to_string(), can_open: false };
    let write = effect_row(&EffectRow::FileWrite(gone));
    assert_eq!((write.title, write.open), ("writes", None));
    let auth = effect_row(&EffectRow::Auth { text: "Bearer".to_string(), redacted: true });
    assert_eq!(auth.lines[0].class, Some("success"));
    assert_eq!(popover_section(&EffectRow::ProcessSpawn(String::new())), "spawn");
}

#[test]
fn a_picker_opens_only_on_a_card() {
    let both = ShowRequest {
        card_id: Some("a".to_string()),
        token: None,
        picker: Some(PickerKind::TrustHost),
    };
    assert_eq!(picker_to_open(&both), Some((PickerKind::TrustHost, "a".to_string())));
    let alone = ShowRequest { card_id: None, token: None, picker: Some(PickerKind::Allowlist) };
    assert_eq!(picker_to_open(&alone), None);
    assert_eq!(picker_to_open(&request_show_card("a".to_string())), None);
    assert_eq!(ShowRequest::default().card_id, None);
}

#[test]
fn the_newest_result_is_shown() {
    let toast = |s: &str| Toast { text: s.to_string(), error: false };
    assert_eq!(newest_toast(Some(toast("a")), Vec::new()), Some(toast("a")));
    assert_eq!(newest_toast(Some(toast("a")), vec![toast("b"), toast("c")]), Some(toast("c")));
}

fn suggestion(id: &str) -> RuleSuggestion {
    RuleSuggestion {
        tier: "exact".to_string(),
        label: "l".to_string(),
        rule: Rule { id: id.to_string(), expires_at: None, sid: None },
        when_yaml: Ok("a: b\n".to_string()),
    }
}

#[test]
fn pickers_open_where_there_is_a_choice() {
    assert_eq!(allowlist_opening(&Some(vec![suggestion("r")])).map(|r| r.len()), Ok(1));
    let gone = allowlist_opening(&None).expect_err("the request is gone");
    assert_eq!(gone.text, "That request is no longer available to build a rule from.");
    assert!(gone.error);
    let none = allowlist_opening(&Some(Vec::new())).expect_err("nothing to suggest");
    assert_eq!(none.text, "No allowlist rule can be suggested for this request.");
    let known = host_opening(&Some(Vec::new())).expect_err("nothing to suggest");
    assert_eq!((known.text.as_str(), known.error), ("This host is already trusted.", false));
    assert!(host_opening(&None).expect_err("the request is gone").error);
}

#[test]
fn a_picker_opens_on_its_first_row() {
    let rows = allowlist_opening(&Some(vec![suggestion("a"), suggestion("b")])).expect("two rules");
    let radios = row_radios(&rows);
    assert_eq!(radios.iter().map(|r| r.on).collect::<Vec<_>>(), vec![true, false]);
    assert!(radios.iter().all(|r| r.enabled));
    assert_eq!(radios[1].title, rows[1].title);
    assert!(row_radios(&Vec::new()).is_empty());
}

#[test]
fn one_button_of_a_group_is_on() {
    let radios = duration_radios(None);
    let on: Vec<&str> = radios.iter().filter(|r| r.on).map(|r| r.title.as_str()).collect();
    assert_eq!(on, vec!["Forever"]);
    assert!(!radios[3].enabled);
    assert!(duration_radios(Some(1))[3].enabled);
    let mut states = vec![true, false, false];
    radio_clicked(&mut states, 2);
    assert_eq!(states, vec![false, false, true]);
    assert_eq!(read_selected_index(&states), Some(2));
    assert_eq!(read_selected_index(&vec![false, false]), None);
    assert_eq!(read_selected_index(&vec![false, true, true]), Some(1));
}

#[test]
fn a_pick_is_saved_with_its_duration() {
    assert_eq!(chosen_duration(Some(1)), DurationChoice::OneHour);
    assert_eq!(chosen_duration(Some(9)), DurationChoice::Forever);
    assert_eq!(chosen_duration(None), DurationChoice::Forever);
    let all = || vec![suggestion("a"), suggestion("b"), suggestion("c")];
    let p = picked_rule(all(), Some(1), Some(3), 100, Some(5)).expect("b is picked");
    assert_eq!((p.index, p.rule.id.as_str()), (1, "b"));
    assert_eq!((p.rule.expires_at, p.rule.sid), (Some(604900), Some(5)));
    assert_eq!(picked_rule(all(), None, None, 0, None), None);
    assert_eq!(picked_rule(all(), Some(3), None, 0, None), None);
    let hosts = vec![HostSuggestion {
        tier: String::new(),
        label: String::new(),
        pattern: "*.h".to_string(),
    }];
    assert_eq!(picked_host(&hosts, Some(0)), Some("*.h".to_string()));
    assert_eq!(picked_host(&hosts, Some(1)), None);
    assert_eq!(picked_host(&hosts, None), None);
}

fn added(n: usize) -> Result<AddedRule, AddError> {
    Ok(AddedRule {
        id: "r".to_string(),
        auto_approved_ids: (0..n).map(|i| i.to_string()).collect(),
    })
}

#[test]
fn results_are_told() {
    assert_eq!(rule_toast(&added(0), "Note.").text, "Added rule `r`. Note.");
    assert_eq!(rule_toast(&added(1), "Note.").text, "Added rule `r`. Note. Approved 1 waiting request.");
    assert_eq!(rule_toast(&added(12), "Note.").text, "Added rule `r`. Note. Approved 12 waiting requests.");
    let failed = rule_toast(&Err(AddError::NoUserHome), "");
    assert!(failed.error);
    assert_eq!(
        failed.text,
        "Could not add the rule: $HOME is not set; cannot resolve user-scope path"
    );
    assert_eq!(host_toast(&Ok(()), "p").text, "Now trusting `p`.");
    assert!(host_toast(&Err(AddError::NoUserHome), "p").text.starts_with("Could not trust the host: "));
    assert_eq!(revoke_toast(&Ok(()), "r").text, "Removed rule `r`.");
    assert!(revoke_toast(&Err(AddError::NoUserHome), "r").error);
    let alert = rule_alert(&added(0), "Note.");
    assert_eq!(alert.text, "Persisted as `r`. Note. No pending requests matched.");
    assert_eq!(
        rule_alert(&added(2), "Note.").text,
        "Persisted as `r`. Note. Auto-approved 2 pending request(s)."
    );
    assert!(rule_alert(&Err(AddError::NoUserHome), "").warning);
    assert_eq!(host_alert(&Ok(()), "p").text, "Pattern `p` added to your user known-hosts.");
    assert_eq!(host_alert(&Err(AddError::NoUserHome), "p").title, "Could not trust host");
    assert_eq!(
        revoke_alert(&Ok(()), "r").text,
        "Rule `r` has been removed from your user allowlist."
    );
    assert_eq!(revoke_alert(&Err(AddError::NoUserHome), "r").title, "Could not remove rule");
}

#[test]
fn only_rules_of_the_user_are_revoked() {
    let scope = |layer, name: &str| RuleScope { layer, name: name.to_string() };
    match confirm_and_revoke_rule("r", &scope(Scope::Session, "session")) {
        RevokeStep::Ask { question, scope } => {
            assert_eq!(question.title, "Remove rule `r`?");
            assert!(question.text.ends_with("\n\nScope: session"));
            assert_eq!(scope, WireScope::User);
        }
        other => panic!("{other:?}"),
    }
    match confirm_and_revoke_rule("r", &scope(Scope::Builtin, "builtin")) {
        RevokeStep::Refuse(alert) => {
            assert!(alert.text.starts_with("Rule `r` lives in the builtin layer"));
        }
        other => panic!("{other:?}"),
    }
    let (heading, text) = confirm_revoke("r", "user");
    assert_eq!(heading, "Remove rule `r`?");
    assert!(text.ends_with("\n\nScope: user"));
    assert!(not_editable_note("project").starts_with("Rules in the project layer"));
}

#[test]
fn the_popover_shows_the_queue() {
    let ask = Lookups {
        sanitize: |t: &str| t.to_string(),
        loopback_ip: |_: &str| false,
        on_disk: |p: &str| p == "/there",
    };
    let entries = vec![
        (summary("a", vec![Effect::FileRead { path: "/gone".to_string() }, http()]), "raw a".to_string()),
        (summary("b", Vec::new()), String::new()),
    ];
    let history = vec![resolved("c", WireDecision::Allow), resolved("d", WireDecision::Deny)];
    let view = refresh(&entries, &history, Some("b"), &ask);
    assert_eq!(view.items, list_items(false, 2, 2));
    assert_eq!((view.pending, view.focused), (2, Some(1)));
    // The request is the second effect, whose host is known.
    match &view.cards[0].url {
        UrlView::Http(u) => assert_eq!(u.trust, HostTrust::Known),
        other => panic!("{other:?}"),
    }
    assert_eq!(view.cards[1].url, UrlView::Fallback("  GET t".to_string()));
    assert_eq!(view.cards[0].inline.len(), 1);
    assert!(view.cards[0].details.is_empty());
    assert_eq!((view.cards[2].inline.len(), view.cards[2].details.len()), (1, 1));
    assert_eq!(view.cards[2].outcome, Some(Outcome::Allowed));
    assert_eq!(view.cards[2].plain, "raw");
    assert!(view.cards[3].attribution.is_none());
    assert_eq!(view.file_paths, vec!["/there".to_string(), "/there".to_string()]);
    assert_eq!(view.pending_for_tag(1), Some("b"));
    assert_eq!(view.pending_for_tag(2), None);
    assert_eq!(view.pending_for_tag(-1), None);
    assert_eq!(view.id_for_tag(2), Some("c"));
    assert_eq!(view.id_for_tag(3), None);
    assert_eq!(view.raw_for_tag(0), Some("raw a"));
    assert_eq!(view.raw_for_tag(4), None);
    assert_eq!(view.file_for_tag(1), Some("/there"));
    assert_eq!(view.file_for_tag(2), None);
    assert_eq!(view.revoke_for_tag(2).map(|r| r.0), Some("r"));
    assert_eq!(view.revoke_for_tag(3), None);
    assert_eq!(view.toggle_for_tag(Disclosure::Raw, 0, true), Some("\u{25b8} Show raw"));
    assert_eq!(view.toggle_for_tag(Disclosure::Details, 0, true), None);
    assert_eq!(view.toggle_for_tag(Disclosure::Details, 2, false), Some("\u{25be} Hide details"));
    assert_eq!(view.toggle_for_tag(Disclosure::Reason, 3, false), None);
    assert_eq!(title_of(Disclosure::Reason, true), "\u{25b8} See approval reason");
    assert_eq!(refresh(&entries, &history, Some("zz"), &ask).focused, None);
    assert_eq!(refresh(&entries, &history, None, &ask).focused, None);
}

#[test]
fn one_time_approval_names_no_rule_in_the_popover() {
    let ask = Lookups {
        sanitize: |t: &str| t.to_string(),
        loopback_ip: |_: &str| false,
        on_disk: |_: &str| false,
    };
    let view = refresh(&Vec::new(), &vec![resolved("c", WireDecision::AllowOnce)], None, &ask);
    assert!(view.cards[0].attribution.is_none());
    assert!(view.cards[0].show_pickers);
    let denied = build_card(&summary("a", Vec::new()), "", Some(WireDecision::Deny), None, &ask);
    assert!(!denied.show_pickers && !denied.show_trust_host);
    assert!(first_http_request(&summary("a", Vec::new())).is_none());
    assert_eq!(
        first_http_request(&summary("a", vec![Effect::Network, http()])).map(|r| r.1),
        Some(1)
    );
}

#[test]
fn the_popover_decides_with_its_reason() {
    assert_eq!(popover_decision(true).reason, "approved via popover");
    assert_eq!(popover_decision(false).decision, WireDecision::Deny);
    assert_eq!(badge_title(0), "");
    assert_eq!(badge_title(12), " 12");
}

#[test]
fn the_checkbox_never_claims_what_was_refused() {
    assert!(autostart_checkbox(AutostartStatus::RequiresApproval).on);
    assert!(!autostart_checkbox(AutostartStatus::Unsupported).enabled);
    let refused = || Err(AutostartError::Unavailable("x".to_string()));
    assert_eq!(apply_autostart_change(true, &Ok(()), &Ok(())), CheckboxAfter::Shows(true));
    assert_eq!(apply_autostart_change(true, &Ok(()), &refused()), CheckboxAfter::Reread);
    assert_eq!(
        apply_autostart_change(true, &Err("e".to_string()), &Ok(())),
        CheckboxAfter::Reread
    );
    assert_eq!(autostart_toast(&Ok(()), &Ok(())), None);
    assert_eq!(
        autostart_toast(&Err("e".to_string()), &Ok(())).map(|t| t.text),
        Some("Could not save the autostart setting: e".to_string())
    );
    assert_eq!(
        autostart_toast(&Ok(()), &refused()).map(|t| t.text),
        Some(
            "Could not update the autostart entry: autostart unavailable on this platform: x"
                .to_string()
        )
    );
    assert_eq!(sound_toast(&Ok(())), None);
    assert_eq!(
        sound_toast(&Err("e".to_string())).map(|t| t.text),
        Some("Could not save the sound setting: e".to_string())
    );
}
