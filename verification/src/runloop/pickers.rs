//! What the pickers offer, what a pick means, and what the user is told of it.
use crate::cards::markup::stands_at;
use crate::cards::picker::{
    host_picker_rows, host_row, law_picker_row_shows_the_choice, picker_views, rule_picker_rows, rule_row,
    rule_with_duration, PickerRow,
};
use crate::cards::resolved::revocable_in;
use crate::cards::rules::DurationChoice;
use crate::command::{HostSuggestion, Rule, RuleScope, RuleSuggestion, Scope, WireScope};
use crate::suggestions::{AddError, AddedRule};
use crate::text::{decimal, decimal_text, digits_value, law_decimal_reads_back};
use vstd::prelude::*;
use vstd::string::*;

verus! {

/// A one-line result of an action, shown on top of the list.
#[derive(Debug, Clone, PartialEq, Eq)]
pub struct Toast {
    pub text: String,
    /// Whether the action failed.
    pub error: bool,
}

/// What a [`Toast`] holds.
#[verifier::ext_equal]
pub struct ToastShown {
    pub text: Seq<char>,
    pub error: bool,
}

impl View for Toast {
    type V = ToastShown;

    open spec fn view(&self) -> ToastShown {
        ToastShown { text: self.text@, error: self.error }
    }
}

/// The style class of a result.
pub fn toast_class(error: bool) -> (r: &'static str)
    ensures
        r@ == (if error {
            "error"@
        } else {
            "ok"@
        }),
{
    if error {
        "error"
    } else {
        "ok"
    }
}

/// The result that is shown once those that have come in are collected: the
/// newest of them, or the one that was shown before.
pub fn newest_toast(shown: Option<Toast>, drained: Vec<Toast>) -> (r: Option<Toast>)
    ensures
        r == (if drained.len() == 0 {
            shown
        } else {
            Some(drained@.last())
        }),
{
    let mut drained = drained;
    match drained.pop() {
        Some(latest) => Some(latest),
        None => shown,
    }
}

/// What the "Allowlist…" button opens: the rows of its picker where rules can
/// be suggested. `found` is none where the request is gone.
pub fn allowlist_opening(found: &Option<Vec<RuleSuggestion>>) -> (r: Result<Vec<PickerRow>, Toast>)
    ensures
        match *found {
            None => r matches Err(t) && t@ == (ToastShown {
                text: "That request is no longer available to build a rule from."@,
                error: true,
            }),
            Some(rules) => if rules@.len() == 0 {
                r matches Err(t) && t@ == (ToastShown {
                    text: "No allowlist rule can be suggested for this request."@,
                    error: true,
                })
            } else {
                r matches Ok(rows) && picker_views(rows@) == rules@.map_values(
                    |s: RuleSuggestion| rule_row(s),
                )
            },
        },
{
    match found {
        None => Err(
            Toast {
                text: "That request is no longer available to build a rule from.".to_owned(),
                error: true,
            },
        ),
        Some(rules) => if rules.len() == 0 {
            Err(
                Toast {
                    text: "No allowlist rule can be suggested for this request.".to_owned(),
                    error: true,
                },
            )
        } else {
            Ok(rule_picker_rows(rules))
        },
    }
}

/// What the "Trust host…" button opens: the rows of its picker where patterns
/// can be suggested. `found` is none where the request is gone.
pub fn host_opening(found: &Option<Vec<HostSuggestion>>) -> (r: Result<Vec<PickerRow>, Toast>)
    ensures
        match *found {
            None => r matches Err(t) && t@ == (ToastShown {
                text: "That request is no longer available to build a host pattern from."@,
                error: true,
            }),
            Some(hosts) => if hosts@.len() == 0 {
                r matches Err(t) && t@ == (ToastShown {
                    text: "This host is already trusted."@,
                    error: false,
                })
            } else {
                r matches Ok(rows) && picker_views(rows@) == hosts@.map_values(
                    |s: HostSuggestion| host_row(s),
                )
            },
        },
{
    match found {
        None => Err(
            Toast {
                text: "That request is no longer available to build a host pattern from.".to_owned(),
                error: true,
            },
        ),
        Some(hosts) => if hosts.len() == 0 {
            Err(Toast { text: "This host is already trusted.".to_owned(), error: false })
        } else {
            Ok(host_picker_rows(hosts))
        },
    }
}

/// One button of a group of which one is on.
#[derive(Debug, PartialEq, Eq)]
pub struct Radio {
    pub title: String,
    pub on: bool,
    /// Whether it can be pressed.
    pub enabled: bool,
}

/// The buttons for the rows of a picker, with the first one on.
pub fn row_radios(rows: &Vec<PickerRow>) -> (r: Vec<Radio>)
    ensures
        r.len() == rows.len(),
        forall|i: int|
            0 <= i < r.len() ==> {
                let b = #[trigger] r@[i];
                &&& b.title@ == rows@[i].title@
                &&& b.on == (i == 0)
                &&& b.enabled
            },
{
    let mut out: Vec<Radio> = Vec::new();
    let mut i: usize = 0;
    while i < rows.len()
        invariant
            i <= rows.len(),
            out.len() == i,
            forall|k: int|
                0 <= k < i ==> {
                    let b = #[trigger] out@[k];
                    &&& b.title@ == rows@[k].title@
                    &&& b.on == (k == 0)
                    &&& b.enabled
                },
        decreases rows.len() - i,
    {
        out.push(Radio { title: rows[i].title.clone(), on: i == 0, enabled: true });
        i += 1;
    }
    out
}

/// The button for one duration. To save is to keep the rule for ever, unless
/// the user picks otherwise; a rule for a session needs a session.
pub open spec fn duration_button(choice: DurationChoice, has_session: bool, b: Radio) -> bool {
    &&& b.title@ == choice.name()
    &&& b.on == (choice == DurationChoice::Forever)
    &&& b.enabled == (choice != DurationChoice::ThisSession || has_session)
}

/// The buttons for the durations, for a request of the session `peer_sid`.
pub fn duration_radios(peer_sid: Option<i32>) -> (r: Vec<Radio>)
    ensures
        r.len() == DurationChoice::choices().len(),
        forall|i: int|
            0 <= i < r.len() ==> duration_button(
                DurationChoice::choices()[i],
                peer_sid is Some,
                #[trigger] r@[i],
            ),
{
    let all = DurationChoice::all();
    let mut out: Vec<Radio> = Vec::new();
    let mut i: usize = 0;
    while i < all.len()
        invariant
            i <= all.len(),
            out.len() == i,
            all@ == DurationChoice::choices(),
            forall|k: int|
                0 <= k < i ==> duration_button(all@[k], peer_sid is Some, #[trigger] out@[k]),
        decreases all.len() - i,
    {
        let choice = all[i];
        out.push(
            Radio {
                title: choice.title().to_owned(),
                on: choice == DurationChoice::Forever,
                enabled: choice != DurationChoice::ThisSession || peer_sid.is_some(),
            },
        );
        i += 1;
    }
    out
}

/// The states of a group once the button at `pressed` was pressed.
pub open spec fn pressed_at(len: nat, pressed: int) -> Seq<bool> {
    Seq::new(len, |i: int| i == pressed)
}

/// Presses one button of a group: it goes on and every other goes off.
pub fn radio_clicked(states: &mut Vec<bool>, pressed: usize)
    ensures
        final(states)@ == pressed_at(old(states)@.len(), pressed as int),
{
    let ghost len = states@.len();
    let mut i: usize = 0;
    while i < states.len()
        invariant
            i <= states@.len(),
            states@.len() == len,
            forall|k: int| 0 <= k < i ==> #[trigger] states@[k] == (k == pressed),
        decreases states@.len() - i,
    {
        states.set(i, i == pressed);
        i += 1;
    }
    assert(states@ =~= pressed_at(len, pressed as int));
}

/// The place of the first button that is on, if one is.
pub open spec fn first_on(states: Seq<bool>) -> Option<int>
    decreases states.len(),
{
    if states.len() == 0 {
        None
    } else {
        match first_on(states.drop_last()) {
            Some(i) => Some(i),
            None => if states.last() {
                Some(states.len() - 1)
            } else {
                None
            },
        }
    }
}

/// The place of the first button that is on, if one is.
pub fn read_selected_index(states: &Vec<bool>) -> (r: Option<usize>)
    ensures
        (match r {
            Some(i) => Some(i as int),
            None => None,
        }) == first_on(states@),
        r matches Some(i) ==> i < states.len(),
{
    let mut i: usize = 0;
    assert(states@.take(0) =~= Seq::empty());
    while i < states.len()
        invariant
            i <= states.len(),
            first_on(states@.take(i as int)) is None,
        decreases states.len() - i,
    {
        proof {
            assert(states@.take(i + 1).drop_last() =~= states@.take(i as int));
            assert(states@.take(i + 1).last() == states@[i as int]);
        }
        if states[i] {
            proof {
                lemma_first_on_stays(states@, i + 1);
            }
            return Some(i);
        }
        i += 1;
    }
    assert(states@.take(i as int) =~= states@);
    None
}

proof fn lemma_first_on_stays(states: Seq<bool>, n: int)
    requires
        0 <= n <= states.len(),
        first_on(states.take(n)) is Some,
    ensures
        first_on(states) == first_on(states.take(n)),
    decreases states.len(),
{
    if n == states.len() {
        assert(states.take(n) =~= states);
    } else {
        assert(states.drop_last().take(n) =~= states.take(n));
        lemma_first_on_stays(states.drop_last(), n);
    }
}

/// After a press the group shows the button that was pressed, and no other is
/// on.
pub proof fn law_one_button_is_on(len: nat, pressed: int)
    requires
        0 <= pressed < len,
    ensures
        first_on(pressed_at(len, pressed)) == Some(pressed),
        forall|i: int|
            0 <= i < len ==> (#[trigger] pressed_at(len, pressed)[i] <==> i == pressed),
    decreases len,
{
    let all = pressed_at(len, pressed);
    if pressed == len - 1 {
        lemma_none_on(all.drop_last());
    } else {
        assert(all.drop_last() =~= pressed_at((len - 1) as nat, pressed));
        law_one_button_is_on((len - 1) as nat, pressed);
    }
}

proof fn lemma_none_on(states: Seq<bool>)
    requires
        forall|i: int| 0 <= i < states.len() ==> !#[trigger] states[i],
    ensures
        first_on(states) is None,
    decreases states.len(),
{
    if states.len() > 0 {
        assert forall|i: int| 0 <= i < states.drop_last().len() implies !#[trigger] states.drop_last()[i] by {
            assert(!states[i]);
        }
        lemma_none_on(states.drop_last());
    }
}

/// The duration at a place of the group: for ever where no button is on.
pub open spec fn duration_at(selected: Option<usize>) -> DurationChoice {
    match selected {
        Some(i) => if i < DurationChoice::choices().len() {
            DurationChoice::choices()[i as int]
        } else {
            DurationChoice::Forever
        },
        None => DurationChoice::Forever,
    }
}

/// The duration that was picked.
pub fn chosen_duration(selected: Option<usize>) -> (r: DurationChoice)
    ensures
        r == duration_at(selected),
{
    let all = DurationChoice::all();
    match selected {
        Some(i) => if i < all.len() {
            all[i]
        } else {
            DurationChoice::Forever
        },
        None => DurationChoice::Forever,
    }
}

/// A rule that was picked.
#[derive(Debug, PartialEq, Eq)]
pub struct PickedRule {
    /// The place of its suggestion.
    pub index: usize,
    pub rule: Rule,
    pub duration: DurationChoice,
}

/// The rule to save when the picker is confirmed, or none where no rule is
/// picked: that of the suggestion, with the lifetime of the duration.
pub fn picked_rule(
    suggestions: Vec<RuleSuggestion>,
    tier: Option<usize>,
    duration: Option<usize>,
    now: u64,
    peer_sid: Option<i32>,
) -> (r: Option<PickedRule>)
    requires
        duration_at(duration).lifetime() is Some ==> now + duration_at(duration).lifetime()->0
            <= u64::MAX,
    ensures
        r is Some <==> tier is Some && tier->0 < suggestions.len(),
        r matches Some(p) ==> {
            let lifetime = duration_at(duration).lifetime();
            &&& p.index == tier->0
            &&& p.duration == duration_at(duration)
            &&& p.rule.id == suggestions@[p.index as int].rule.id
            &&& p.rule.expires_at is Some <==> lifetime is Some
            &&& lifetime is Some ==> p.rule.expires_at->0 == now + lifetime->0
            &&& p.rule.sid == (if p.duration == DurationChoice::ThisSession {
                peer_sid
            } else {
                None
            })
        },
{
    let index: usize = match tier {
        Some(i) => i,
        None => {
            return None;
        },
    };
    if index >= suggestions.len() {
        return None;
    }
    let choice = chosen_duration(duration);
    let mut suggestions = suggestions;
    let picked = suggestions.swap_remove(index);
    Some(
        PickedRule {
            index,
            rule: rule_with_duration(picked.rule, choice, now, peer_sid),
            duration: choice,
        },
    )
}

/// The host pattern to save when the picker is confirmed, or none where no
/// pattern is picked.
pub fn picked_host(suggestions: &Vec<HostSuggestion>, selected: Option<usize>) -> (r: Option<String>)
    ensures
        r == (match selected {
            Some(i) => if i < suggestions.len() {
                Some(suggestions@[i as int].pattern)
            } else {
                None
            },
            None => None,
        }),
{
    match selected {
        Some(i) => if i < suggestions.len() {
            Some(suggestions[i].pattern.clone())
        } else {
            None
        },
        None => None,
    }
}

/// How many requests a new rule approved, at the end of a sentence.
pub open spec fn approved_tail(approved: nat) -> Seq<char> {
    if approved == 0 {
        ""@
    } else if approved == 1 {
        " Approved 1 waiting request."@
    } else {
        " Approved "@ + decimal(approved) + " waiting requests."@
    }
}

/// The result of saving a rule.
pub open spec fn rule_toast_shown(result: Result<AddedRule, AddError>, note: Seq<char>) -> ToastShown {
    match result {
        Ok(added) => ToastShown {
            text: "Added rule `"@ + added.id@ + "`. "@ + note + approved_tail(
                added.auto_approved_ids@.len(),
            ),
            error: false,
        },
        Err(e) => ToastShown { text: "Could not add the rule: "@ + e.text(), error: true },
    }
}

/// The result of saving a rule, with what was said of its duration.
pub fn rule_toast(result: &Result<AddedRule, AddError>, note: &str) -> (r: Toast)
    ensures
        r@ == rule_toast_shown(*result, note@),
{
    match result {
        Ok(added) => {
            let mut text = "Added rule `".to_owned();
            text.append(added.id.as_str());
            text.append("`. ");
            text.append(note);
            let approved: usize = added.auto_approved_ids.len();
            let tail = if approved == 0 {
                "".to_owned()
            } else if approved == 1 {
                " Approved 1 waiting request.".to_owned()
            } else {
                let mut tail = " Approved ".to_owned();
                let count = decimal_text(approved as u64);
                tail.append(count.as_str());
                tail.append(" waiting requests.");
                tail
            };
            text.append(tail.as_str());
            Toast { text, error: false }
        },
        Err(e) => {
            let mut text = "Could not add the rule: ".to_owned();
            let why = e.message();
            text.append(why.as_str());
            Toast { text, error: true }
        },
    }
}

/// The result of saving a host pattern.
pub fn host_toast(result: &Result<(), AddError>, pattern: &str) -> (r: Toast)
    ensures
        r@ == (match *result {
            Ok(_) => ToastShown { text: "Now trusting `"@ + pattern@ + "`."@, error: false },
            Err(e) => ToastShown { text: "Could not trust the host: "@ + e.text(), error: true },
        }),
{
    match result {
        Ok(_) => {
            let mut text = "Now trusting `".to_owned();
            text.append(pattern);
            text.append("`.");
            Toast { text, error: false }
        },
        Err(e) => {
            let mut text = "Could not trust the host: ".to_owned();
            let why = e.message();
            text.append(why.as_str());
            Toast { text, error: true }
        },
    }
}

/// The result of removing a rule.
pub fn revoke_toast(result: &Result<(), AddError>, rule_id: &str) -> (r: Toast)
    ensures
        r@ == (match *result {
            Ok(_) => ToastShown { text: "Removed rule `"@ + rule_id@ + "`."@, error: false },
            Err(e) => ToastShown { text: "Could not remove the rule: "@ + e.text(), error: true },
        }),
{
    match result {
        Ok(_) => {
            let mut text = "Removed rule `".to_owned();
            text.append(rule_id);
            text.append("`.");
            Toast { text, error: false }
        },
        Err(e) => {
            let mut text = "Could not remove the rule: ".to_owned();
            let why = e.message();
            text.append(why.as_str());
            Toast { text, error: true }
        },
    }
}

/// What a surface says in a dialog of its own.
#[derive(Debug, PartialEq, Eq)]
pub struct Alert {
    pub title: String,
    pub text: String,
    /// Whether it warns of something.
    pub warning: bool,
}

/// What an [`Alert`] holds.
#[verifier::ext_equal]
pub struct AlertShown {
    pub title: Seq<char>,
    pub text: Seq<char>,
    pub warning: bool,
}

impl View for Alert {
    type V = AlertShown;

    open spec fn view(&self) -> AlertShown {
        AlertShown { title: self.title@, text: self.text@, warning: self.warning }
    }
}

/// The dialog after saving a rule.
pub open spec fn rule_alert_shown(result: Result<AddedRule, AddError>, note: Seq<char>) -> AlertShown {
    match result {
        Ok(added) => AlertShown {
            title: "Rule added"@,
            text: "Persisted as `"@ + added.id@ + "`. "@ + note + (if added.auto_approved_ids@.len() == 0 {
                " No pending requests matched."@
            } else {
                " Auto-approved "@ + decimal(added.auto_approved_ids@.len()) + " pending request(s)."@
            }),
            warning: false,
        },
        Err(e) => AlertShown { title: "Could not add rule"@, text: e.text(), warning: true },
    }
}

/// The dialog after saving a rule, with what was said of its duration.
pub fn rule_alert(result: &Result<AddedRule, AddError>, note: &str) -> (r: Alert)
    ensures
        r@ == rule_alert_shown(*result, note@),
{
    match result {
        Ok(added) => {
            let mut text = "Persisted as `".to_owned();
            text.append(added.id.as_str());
            text.append("`. ");
            text.append(note);
            let approved: usize = added.auto_approved_ids.len();
            let tail = if approved == 0 {
                " No pending requests matched.".to_owned()
            } else {
                let mut tail = " Auto-approved ".to_owned();
                let count = decimal_text(approved as u64);
                tail.append(count.as_str());
                tail.append(" pending request(s).");
                tail
            };
            text.append(tail.as_str());
            Alert { title: "Rule added".to_owned(), text, warning: false }
        },
        Err(e) => Alert {
            title: "Could not add rule".to_owned(),
            text: e.message(),
            warning: true,
        },
    }
}

/// The dialog after saving a host pattern.
pub fn host_alert(result: &Result<(), AddError>, pattern: &str) -> (r: Alert)
    ensures
        r@ == (match *result {
            Ok(_) => AlertShown {
                title: "Host trusted"@,
                text: "Pattern `"@ + pattern@ + "` added to your user known-hosts."@,
                warning: false,
            },
            Err(e) => AlertShown { title: "Could not trust host"@, text: e.text(), warning: true },
        }),
{
    match result {
        Ok(_) => {
            let mut text = "Pattern `".to_owned();
            text.append(pattern);
            text.append("` added to your user known-hosts.");
            Alert { title: "Host trusted".to_owned(), text, warning: false }
        },
        Err(e) => Alert {
            title: "Could not trust host".to_owned(),
            text: e.message(),
            warning: true,
        },
    }
}

/// The dialog after removing a rule.
pub fn revoke_alert(result: &Result<(), AddError>, rule_id: &str) -> (r: Alert)
    ensures
        r@ == (match *result {
            Ok(_) => AlertShown {
                title: "Rule removed"@,
                text: "Rule `"@ + rule_id@ + "` has been removed from your user allowlist."@,
                warning: false,
            },
            Err(e) => AlertShown { title: "Could not remove rule"@, text: e.text(), warning: true },
        }),
{
    match result {
        Ok(_) => {
            let mut text = "Rule `".to_owned();
            text.append(rule_id);
            text.append("` has been removed from your user allowlist.");
            Alert { title: "Rule removed".to_owned(), text, warning: false }
        },
        Err(e) => Alert {
            title: "Could not remove rule".to_owned(),
            text: e.message(),
            warning: true,
        },
    }
}

/// The heading of the question whether to remove a rule.
pub open spec fn remove_title(rule_id: Seq<char>) -> Seq<char> {
    "Remove rule `"@ + rule_id + "`?"@
}

fn remove_heading(rule_id: &str) -> (r: String)
    ensures
        r@ == remove_title(rule_id@),
{
    let mut out = "Remove rule `".to_owned();
    out.append(rule_id);
    out.append("`?");
    out
}

/// What the popover asks before it removes a rule, or what it says where it
/// cannot.
#[derive(Debug, PartialEq, Eq)]
pub enum RevokeStep {
    /// Ask, and on yes remove the rule from this layer.
    Ask { question: Alert, scope: WireScope },
    /// The layer is not edited from here.
    Refuse(Alert),
}

/// The question of the popover before it removes a rule.
pub open spec fn revoke_question(rule_id: Seq<char>, layer: Seq<char>) -> AlertShown {
    AlertShown {
        title: remove_title(rule_id),
        text: "This deletes the rule from your user allowlist. Past auto-allowed entries will stay in Recent as a record of what was approved while the rule was active; only future requests will be re-prompted.\n\nScope: "@
            + layer,
        warning: true,
    }
}

/// What the popover says of a rule in a layer that it does not edit.
pub open spec fn revoke_refusal(rule_id: Seq<char>, layer: Seq<char>) -> AlertShown {
    AlertShown {
        title: "Cannot revoke from this scope"@,
        text: "Rule `"@ + rule_id + "` lives in the "@ + layer
            + " layer, which the popover does not edit. Use `vet allow rm` for project rules; built-in / denylist / session entries are not removable from the UI."@,
        warning: false,
    }
}

/// What the popover does when "Revoke rule" is pressed: it asks where the
/// user owns the layer, and else says why it cannot.
pub fn confirm_and_revoke_rule(rule_id: &str, scope: &RuleScope) -> (r: RevokeStep)
    ensures
        match revocable_in(scope.layer) {
            Some(at) => r matches RevokeStep::Ask { question, scope: to } && to == at && question@
                == revoke_question(rule_id@, scope.name@),
            None => r matches RevokeStep::Refuse(alert) && alert@ == revoke_refusal(
                rule_id@,
                scope.name@,
            ),
        },
{
    match scope.layer {
        Scope::User | Scope::Session => {
            let mut text = "This deletes the rule from your user allowlist. Past auto-allowed entries will stay in Recent as a record of what was approved while the rule was active; only future requests will be re-prompted.\n\nScope: ".to_owned();
            text.append(scope.name.as_str());
            RevokeStep::Ask {
                question: Alert { title: remove_heading(rule_id), text, warning: true },
                scope: WireScope::User,
            }
        },
        Scope::Project | Scope::Builtin | Scope::Denylist => {
            let mut text = "Rule `".to_owned();
            text.append(rule_id);
            text.append("` lives in the ");
            text.append(scope.name.as_str());
            text.append(
                " layer, which the popover does not edit. Use `vet allow rm` for project rules; built-in / denylist / session entries are not removable from the UI.",
            );
            RevokeStep::Refuse(
                Alert { title: "Cannot revoke from this scope".to_owned(), text, warning: false },
            )
        },
    }
}

/// What the window asks before it removes a rule: the heading and the text.
pub fn confirm_revoke(rule_id: &str, scope_name: &str) -> (r: (String, String))
    ensures
        r.0@ == remove_title(rule_id@),
        r.1@
            == "This deletes the rule from your user allowlist. Entries already in Recent stay as a record of what was approved while the rule was active; only future requests are re-prompted.\n\nScope: "@
            + scope_name@,
{
    let mut text = "This deletes the rule from your user allowlist. Entries already in Recent stay as a record of what was approved while the rule was active; only future requests are re-prompted.\n\nScope: ".to_owned();
    text.append(scope_name);
    (remove_heading(rule_id), text)
}

/// What the window says of a rule in a layer that it does not edit.
pub fn not_editable_note(scope_name: &str) -> (r: String)
    ensures
        r@ == "Rules in the "@ + scope_name@
            + " layer are not editable from this window. Use `vet allow rm` for project rules."@,
{
    let mut out = "Rules in the ".to_owned();
    out.append(scope_name);
    out.append(" layer are not editable from this window. Use `vet allow rm` for project rules.");
    out
}

/// The button that is read as pressed is the first that is on, and where none is
/// on none is read.
pub proof fn law_first_pressed_button_counts(states: Seq<bool>)
    ensures
        match first_on(states) {
            Some(i) => 0 <= i < states.len() && states[i] && forall|j: int|
                0 <= j < i ==> !#[trigger] states[j],
            None => forall|j: int| 0 <= j < states.len() ==> !#[trigger] states[j],
        },
    decreases states.len(),
{
    if states.len() > 0 {
        let front = states.drop_last();
        law_first_pressed_button_counts(front);
        match first_on(front) {
            Some(i) => {
                assert(front[i] == states[i]);
                assert forall|j: int| 0 <= j < i implies !#[trigger] states[j] by {
                    assert(front[j] == states[j]);
                }
            },
            None => {
                assert forall|j: int| 0 <= j < states.len() - 1 implies !#[trigger] states[j] by {
                    assert(front[j] == states[j]);
                }
            },
        }
    }
}

/// The duration that is taken is the one that stands on the button, and the
/// button that is on when the picker opens stands for a rule that never expires.
pub proof fn law_duration_is_what_the_button_says(peer_sid: Option<i32>, radios: Vec<Radio>, i: usize)
    requires
        call_ensures(duration_radios, (peer_sid,), radios),
        i < radios.len(),
    ensures
        radios@[i as int].title@ == duration_at(Some(i)).name(),
        radios@[i as int].on <==> duration_at(Some(i)).lifetime() is None,
        radios@[i as int].enabled <==> duration_at(Some(i)) != DurationChoice::ThisSession || peer_sid is Some,
        radios.len() == 5,
        forall|j: usize| j < radios.len() && j != i ==> #[trigger] duration_at(Some(j)) != duration_at(Some(i)),
        duration_at(None) == DurationChoice::Forever,
{
    assert(duration_button(DurationChoice::choices()[i as int], peer_sid is Some, radios@[i as int]));
}

/// What is added is told: a rule that was added is named by its id with the note
/// on how long it lives and the number of requests that it approved, and a
/// failure reads as an error with its reason.
pub proof fn law_toast_tells_what_was_added(result: Result<AddedRule, AddError>, note: Seq<char>)
    ensures
        rule_toast_shown(result, note).error <==> result is Err,
        result matches Err(e) ==> e.text().is_suffix_of(rule_toast_shown(result, note).text),
        result matches Ok(added) ==> {
            let text = rule_toast_shown(result, note).text;
            let n = added.auto_approved_ids@.len();
            let id_end = 12 + added.id@.len() as int;
            &&& text.subrange(12, id_end) == added.id@
            &&& text.subrange(id_end + 3, id_end + 3 + note.len()) == note
            &&& n == 0 ==> text.len() == id_end + 3 + note.len()
            &&& n > 0 ==> exists|count: Seq<char>, at: int|
                digits_value(count) == n && at == id_end + 3 + note.len() && #[trigger] stands_at(
                    text,
                    at,
                    " Approved "@ + count + " waiting request"@,
                )
        },
        rule_alert_shown(result, note).warning <==> result is Err,
        result matches Err(e) ==> rule_alert_shown(result, note).text == e.text(),
{
    match result {
        Err(e) => {
            let text = rule_toast_shown(result, note).text;
            let why = e.text();
            assert(why =~= text.subrange(text.len() - why.len(), text.len() as int));
        },
        Ok(added) => {
            reveal_strlit("Added rule `");
            reveal_strlit("`. ");
            reveal_strlit("");
            reveal_strlit("1");
            reveal_strlit(" Approved 1 waiting request.");
            reveal_strlit(" Approved ");
            reveal_strlit(" waiting request");
            reveal_strlit(" waiting requests.");
            let text = rule_toast_shown(result, note).text;
            let n = added.auto_approved_ids@.len();
            let id_end = 12 + added.id@.len() as int;
            let at = id_end + 3 + note.len();
            assert(text.subrange(12, id_end) =~= added.id@);
            assert(text.subrange(id_end + 3, id_end + 3 + note.len()) =~= note);
            if n > 0 {
                let count = decimal(n);
                law_decimal_reads_back(n);
                let piece = " Approved "@ + count + " waiting request"@;
                if n == 1 {
                    assert(count =~= seq!['1']);
                }
                assert(text.subrange(at, at + piece.len()) =~= piece);
                assert(stands_at(text, at, piece));
            }
        },
    }
}

/// A rule that was picked is the one of the row, with the lifetime of the
/// button; nothing is picked where no row is.
pub proof fn law_picked_rule_is_of_its_row(
    suggestions: Vec<RuleSuggestion>,
    tier: Option<usize>,
    duration: Option<usize>,
    now: u64,
    peer_sid: Option<i32>,
    r: Option<PickedRule>,
)
    requires
        call_ensures(picked_rule, (suggestions, tier, duration, now, peer_sid), r),
    ensures
        tier is None ==> r is None,
        tier is Some && tier->0 < suggestions@.len() ==> r is Some && r->0.rule.id
            == suggestions@[tier->0 as int].rule.id,
        r is Some && duration is None ==> r->0.rule.expires_at is None && r->0.rule.sid is None,
        r is Some && r->0.rule.sid is Some ==> r->0.rule.sid == peer_sid && r->0.duration
            == DurationChoice::ThisSession,
        r is Some && r->0.rule.expires_at is Some ==> r->0.rule.expires_at->0 > now,
{
}

/// A picker opens exactly where there is something to pick, with a row for each
/// suggestion in their order, and else the user is told why not.
pub proof fn law_picker_has_every_suggestion(
    rules: &Option<Vec<RuleSuggestion>>,
    hosts: &Option<Vec<HostSuggestion>>,
    allow: Result<Vec<PickerRow>, Toast>,
    trust: Result<Vec<PickerRow>, Toast>,
)
    requires
        call_ensures(allowlist_opening, (rules,), allow),
        call_ensures(host_opening, (hosts,), trust),
    ensures
        allow is Ok <==> *rules is Some && (*rules)->0@.len() > 0,
        trust is Ok <==> *hosts is Some && (*hosts)->0@.len() > 0,
        allow is Ok ==> allow->Ok_0@.len() == (*rules)->0@.len(),
        trust is Ok ==> trust->Ok_0@.len() == (*hosts)->0@.len(),
        allow is Ok ==> forall|i: int|
            0 <= i < allow->Ok_0@.len() ==> (*rules)->0@[i].label@.is_suffix_of(
                (#[trigger] allow->Ok_0@[i]).title@,
            ) && (*rules)->0@[i].tier@.is_prefix_of(allow->Ok_0@[i].title@),
        trust is Ok ==> forall|i: int|
            0 <= i < trust->Ok_0@.len() ==> (*hosts)->0@[i].label@.is_suffix_of(
                (#[trigger] trust->Ok_0@[i]).title@,
            ) && trust->Ok_0@[i].preview@.subrange(10, 10 + (*hosts)->0@[i].pattern@.len() as int)
                == (*hosts)->0@[i].pattern@,
        allow is Err ==> allow->Err_0.error,
        trust is Err ==> (trust->Err_0.error <==> *hosts is None),
{
    if allow is Ok {
        let rows = allow->Ok_0@;
        let all = (*rules)->0@;
        let shown = all.map_values(|s: RuleSuggestion| rule_row(s));
        assert(picker_views(rows).len() == rows.len());
        assert forall|i: int| 0 <= i < rows.len() implies all[i].label@.is_suffix_of(
            (#[trigger] rows[i]).title@,
        ) && all[i].tier@.is_prefix_of(rows[i].title@) by {
            assert(picker_views(rows)[i] == shown[i]);
            law_picker_row_shows_the_choice(arbitrary(), all[i]);
        }
    }
    if trust is Ok {
        let rows = trust->Ok_0@;
        let all = (*hosts)->0@;
        let shown = all.map_values(|s: HostSuggestion| host_row(s));
        assert(picker_views(rows).len() == rows.len());
        assert forall|i: int| 0 <= i < rows.len() implies all[i].label@.is_suffix_of(
            (#[trigger] rows[i]).title@,
        ) && rows[i].preview@.subrange(10, 10 + all[i].pattern@.len() as int) == all[i].pattern@ by {
            assert(picker_views(rows)[i] == shown[i]);
            law_picker_row_shows_the_choice(all[i], arbitrary());
        }
    }
}

/// The host that is trusted is the one of the row that was picked, and none where
/// no row was.
pub proof fn law_picked_host_is_of_its_row(
    suggestions: &Vec<HostSuggestion>,
    selected: Option<usize>,
    r: Option<String>,
)
    requires
        call_ensures(picked_host, (suggestions, selected), r),
    ensures
        r is Some <==> selected is Some && selected->0 < suggestions@.len(),
        r is Some ==> r->0@ == suggestions@[selected->0 as int].pattern@,
{
}

/// Only a rule of the user or of a session is offered for removal, under its id,
/// and it is removed from the rules of the user. Any other is refused.
pub proof fn law_only_own_rules_are_removed(rule_id: &str, scope: &RuleScope, r: RevokeStep)
    requires
        call_ensures(confirm_and_revoke_rule, (rule_id, scope), r),
    ensures
        r is Ask <==> scope.layer == Scope::User || scope.layer == Scope::Session,
        r is Ask ==> r->scope == WireScope::User && r->question.warning && r->question.title@.subrange(
            13,
            13 + rule_id@.len() as int,
        ) == rule_id@ && scope.name@.is_suffix_of(r->question.text@),
        r matches RevokeStep::Refuse(alert) ==> alert.text@.subrange(6, 6 + rule_id@.len() as int)
            == rule_id@,
{
    reveal_strlit("Remove rule `");
    reveal_strlit("Rule `");
    match r {
        RevokeStep::Ask { question, .. } => {
            let title = question.title@;
            let text = question.text@;
            assert(question@.title == title && question@.text == text);
            assert(title.subrange(13, 13 + rule_id@.len() as int) =~= rule_id@);
            assert(scope.name@ =~= text.subrange(text.len() - scope.name@.len(), text.len() as int));
        },
        RevokeStep::Refuse(alert) => {
            let text = alert.text@;
            assert(alert@.text == text);
            assert(text.subrange(6, 6 + rule_id@.len() as int) =~= rule_id@);
        },
    }
}

/// Of several results the newest is shown, and where none is new the one that is
/// shown stays.
pub proof fn law_newest_toast_is_shown(shown: Option<Toast>, drained: Vec<Toast>, r: Option<Toast>)
    requires
        call_ensures(newest_toast, (shown, drained), r),
    ensures
        drained@.len() == 0 ==> r == shown,
        drained@.len() > 0 ==> r is Some && r->0 == drained@[drained@.len() - 1],
{
}

/// After a button was pressed it is on and every other one is off.
pub proof fn law_pressing_turns_the_others_off(states: &mut Vec<bool>, pressed: usize)
    requires
        call_ensures(radio_clicked, (states, pressed), ()),
    ensures
        final(states)@.len() == old(states)@.len(),
        forall|i: int|
            0 <= i < final(states)@.len() ==> (#[trigger] final(states)@[i] <==> i == pressed),
{
}

/// A result is told as it was: a failure reads as an error with its reason, and a
/// success names the host or the rule.
pub proof fn law_result_is_told(
    result: &Result<(), AddError>,
    name: &str,
    trusted: Toast,
    removed: Toast,
)
    requires
        call_ensures(host_toast, (result, name), trusted),
        call_ensures(revoke_toast, (result, name), removed),
    ensures
        trusted.error <==> *result is Err,
        removed.error <==> *result is Err,
        *result is Ok ==> trusted.text@.subrange(14, 14 + name@.len() as int) == name@,
        *result is Ok ==> removed.text@.subrange(14, 14 + name@.len() as int) == name@,
        *result is Err ==> (*result)->Err_0.text().is_suffix_of(trusted.text@)
            && (*result)->Err_0.text().is_suffix_of(removed.text@),
{
    reveal_strlit("Now trusting `");
    reveal_strlit("Removed rule `");
    let a = trusted.text@;
    let b = removed.text@;
    assert(trusted@.text == a && removed@.text == b);
    match *result {
        Ok(_) => {
            assert(a.subrange(14, 14 + name@.len() as int) =~= name@);
            assert(b.subrange(14, 14 + name@.len() as int) =~= name@);
        },
        Err(e) => {
            let why = e.text();
            assert(why =~= a.subrange(a.len() - why.len(), a.len() as int));
            assert(why =~= b.subrange(b.len() - why.len(), b.len() as int));
        },
    }
}

/// The dialog on a rule that was added names it by its id, gives the note, and
/// says how many requests were approved with it.
pub proof fn law_alert_tells_what_was_added(added: AddedRule, note: Seq<char>)
    ensures
        ({
            let text = rule_alert_shown(Ok(added), note).text;
            let n = added.auto_approved_ids@.len();
            let id_end = 14 + added.id@.len() as int;
            let at = id_end + 3 + note.len();
            &&& text.subrange(14, id_end) == added.id@
            &&& text.subrange(id_end + 3, at) == note
            &&& n == 0 ==> " No pending requests matched."@.is_suffix_of(text)
            &&& n > 0 ==> exists|count: Seq<char>|
                digits_value(count) == n && #[trigger] stands_at(text, at, " Auto-approved "@ + count)
        }),
{
    reveal_strlit("Persisted as `");
    reveal_strlit("`. ");
    let text = rule_alert_shown(Ok(added), note).text;
    let n = added.auto_approved_ids@.len();
    let id_end = 14 + added.id@.len() as int;
    let at = id_end + 3 + note.len();
    assert(text.subrange(14, id_end) =~= added.id@);
    assert(text.subrange(id_end + 3, at) =~= note);
    if n == 0 {
        let end = " No pending requests matched."@;
        assert(end =~= text.subrange(text.len() - end.len(), text.len() as int));
    } else {
        law_decimal_reads_back(n);
        let piece = " Auto-approved "@ + decimal(n);
        assert(text.subrange(at, at + piece.len()) =~= piece);
        assert(stands_at(text, at, piece));
    }
}

} // verus!
