//! The rows of the "Allowlist…" and "Trust host…" pickers.
use crate::cards::rules::{render_rule_when_yaml, when_preview, DurationChoice};
use crate::command::{HostSuggestion, RiskSignal, Rule, RuleSuggestion, SignalKind};
use vstd::prelude::*;
use vstd::string::*;

verus! {

/// Which of the two pickers a surface asks for.
#[derive(Debug, Clone, Copy, PartialEq, Eq, Structural)]
pub enum PickerKind {
    /// Pick how general a rule should be, and for how long.
    Allowlist,
    /// Mark a host as known.
    TrustHost,
}

/// One row of a picker: the headline of a choice, and the YAML that it would
/// save. The preview is plain text and no markup.
#[derive(Debug, Clone, PartialEq, Eq)]
pub struct PickerRow {
    pub title: String,
    pub preview: String,
}

/// What a [`PickerRow`] holds.
#[verifier::ext_equal]
pub struct PickerShown {
    pub title: Seq<char>,
    pub preview: Seq<char>,
}

impl View for PickerRow {
    type V = PickerShown;

    open spec fn view(&self) -> PickerShown {
        PickerShown { title: self.title@, preview: self.preview@ }
    }
}

/// What a list of picker rows holds.
pub open spec fn picker_views(v: Seq<PickerRow>) -> Seq<PickerShown> {
    v.map_values(|r: PickerRow| r@)
}

/// The headline of a choice.
pub open spec fn choice_title(tier: Seq<char>, label: Seq<char>) -> Seq<char> {
    tier + "  —  "@ + label
}

/// The row for a rule.
pub open spec fn rule_row(s: RuleSuggestion) -> PickerShown {
    PickerShown { title: choice_title(s.tier@, s.label@), preview: when_preview(s.when_yaml) }
}

/// The row for a host pattern.
pub open spec fn host_row(s: HostSuggestion) -> PickerShown {
    PickerShown {
        title: choice_title(s.tier@, s.label@),
        preview: "pattern: \""@ + s.pattern@ + "\""@,
    }
}

fn title_of(tier: &str, label: &str) -> (r: String)
    ensures
        r@ == choice_title(tier@, label@),
{
    let mut out = tier.to_owned();
    out.append("  —  ");
    out.append(label);
    out
}

/// The rows of the "Allowlist…" picker, in the order of the suggestions.
pub fn rule_picker_rows(suggestions: &Vec<RuleSuggestion>) -> (r: Vec<PickerRow>)
    ensures
        picker_views(r@) == suggestions@.map_values(|s: RuleSuggestion| rule_row(s)),
{
    let mut out: Vec<PickerRow> = Vec::new();
    let mut i: usize = 0;
    while i < suggestions.len()
        invariant
            i <= suggestions.len(),
            out.len() == i,
            forall|k: int| 0 <= k < i ==> (#[trigger] out@[k])@ == rule_row(suggestions@[k]),
        decreases suggestions.len() - i,
    {
        let s = &suggestions[i];
        out.push(
            PickerRow {
                title: title_of(s.tier.as_str(), s.label.as_str()),
                preview: render_rule_when_yaml(&s.when_yaml),
            },
        );
        i += 1;
    }
    assert(picker_views(out@) =~= suggestions@.map_values(|s: RuleSuggestion| rule_row(s)));
    out
}

/// The rows of the "Trust host…" picker, in the order of the suggestions.
pub fn host_picker_rows(suggestions: &Vec<HostSuggestion>) -> (r: Vec<PickerRow>)
    ensures
        picker_views(r@) == suggestions@.map_values(|s: HostSuggestion| host_row(s)),
{
    let mut out: Vec<PickerRow> = Vec::new();
    let mut i: usize = 0;
    while i < suggestions.len()
        invariant
            i <= suggestions.len(),
            out.len() == i,
            forall|k: int| 0 <= k < i ==> (#[trigger] out@[k])@ == host_row(suggestions@[k]),
        decreases suggestions.len() - i,
    {
        let s = &suggestions[i];
        let mut preview = "pattern: \"".to_owned();
        preview.append(s.pattern.as_str());
        preview.append("\"");
        out.push(PickerRow { title: title_of(s.tier.as_str(), s.label.as_str()), preview });
        i += 1;
    }
    assert(picker_views(out@) =~= suggestions@.map_values(|s: HostSuggestion| host_row(s)));
    out
}

/// `rule` with the lifetime that `choice` gives it: the same rule in all else.
pub fn rule_with_duration(
    rule: Rule,
    choice: DurationChoice,
    now: u64,
    peer_sid: Option<i32>,
) -> (r: Rule)
    requires
        choice.lifetime() is Some ==> now + choice.lifetime()->0 <= u64::MAX,
    ensures
        r.id == rule.id,
        choice.lifetime() is None ==> r.expires_at is None,
        choice.lifetime() is Some ==> r.expires_at is Some && r.expires_at->0 == now
            + choice.lifetime()->0,
        r.sid == (if choice == DurationChoice::ThisSession {
            peer_sid
        } else {
            None
        }),
{
    let (expires_at, sid) = choice.apply(now, peer_sid);
    Rule { id: rule.id, expires_at, sid }
}

/// Whether a signal says that the host is unknown.
pub open spec fn warns_of_host(signals: Seq<RiskSignal>) -> bool {
    exists|i: int| 0 <= i < signals.len() && (#[trigger] signals[i]).kind == SignalKind::UnknownHost
}

/// Whether the "Trust host…" button appears. It does where the host is
/// unknown: else there is nothing to suggest.
pub fn show_trust_host(signals: &Vec<RiskSignal>) -> (r: bool)
    ensures
        r == warns_of_host(signals@),
{
    let mut i: usize = 0;
    while i < signals.len()
        invariant
            i <= signals.len(),
            forall|k: int|
                0 <= k < i ==> (#[trigger] signals@[k]).kind != SignalKind::UnknownHost,
        decreases signals.len() - i,
    {
        if signals[i].kind == SignalKind::UnknownHost {
            assert(signals@[i as int].kind == SignalKind::UnknownHost);
            return true;
        }
        i += 1;
    }
    false
}

/// Each row of a picker has the tier in front of its title and the label at the
/// end, and the row of a host pattern shows the pattern in quotes.
pub proof fn law_picker_row_shows_the_choice(s: HostSuggestion, rule: RuleSuggestion)
    ensures
        s.tier@.is_prefix_of(host_row(s).title),
        s.label@.is_suffix_of(host_row(s).title),
        host_row(s).title.len() == s.tier@.len() + 5 + s.label@.len(),
        host_row(s).preview.len() == s.pattern@.len() + 11,
        host_row(s).preview.subrange(10, 10 + s.pattern@.len() as int) == s.pattern@,
        host_row(s).preview.last() == '"',
        rule.tier@.is_prefix_of(rule_row(rule).title),
        rule.label@.is_suffix_of(rule_row(rule).title),
        rule_row(rule).title.len() == rule.tier@.len() + 5 + rule.label@.len(),
{
    reveal_strlit("  —  ");
    reveal_strlit("pattern: \"");
    reveal_strlit("\"");
    let title = host_row(s).title;
    let preview = host_row(s).preview;
    assert(s.tier@ =~= title.subrange(0, s.tier@.len() as int));
    assert(s.label@ =~= title.subrange(title.len() - s.label@.len(), title.len() as int));
    assert(preview.subrange(10, 10 + s.pattern@.len() as int) =~= s.pattern@);
    let other = rule_row(rule).title;
    assert(rule.tier@ =~= other.subrange(0, rule.tier@.len() as int));
    assert(rule.label@ =~= other.subrange(other.len() - rule.label@.len(), other.len() as int));
}

/// The lifetime of a rule changes nothing else of it: it keeps its id, it expires
/// after now or never, and it is bound to a session only where it is for one.
pub proof fn law_lifetime_changes_nothing_else(
    rule: Rule,
    choice: DurationChoice,
    now: u64,
    peer_sid: Option<i32>,
    r: Rule,
)
    requires
        call_ensures(rule_with_duration, (rule, choice, now, peer_sid), r),
    ensures
        r.id == rule.id,
        r.expires_at is None <==> choice == DurationChoice::Forever,
        r.expires_at is Some ==> r.expires_at->0 > now,
        choice == DurationChoice::FifteenMinutes ==> r.expires_at->0 - now == 900,
        choice == DurationChoice::OneHour ==> r.expires_at->0 - now == 3600,
        choice == DurationChoice::FourHours ==> r.expires_at->0 - now == 14400,
        choice == DurationChoice::ThisSession ==> r.expires_at->0 - now == 604800 && r.sid == peer_sid,
        choice != DurationChoice::ThisSession ==> r.sid is None,
{
}

} // verus!
