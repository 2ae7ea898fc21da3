//! Entries of the history, lowered for painting.
use crate::cards::card::{bare_card, card_shown, card_view, unopened_card, CardShown, CardView};
use crate::cards::rows::asked;
use crate::command::{RuleScope, Scope, WireDecision, WireScope};
use crate::outside::{no_answers, Answers, Lookups};
use crate::pending::ResolvedEntry;
use vstd::prelude::*;
use vstd::string::*;

verus! {

/// How a request came out. A surface paints two outcomes.
#[derive(Debug, Clone, Copy, PartialEq, Eq, Structural)]
pub enum Outcome {
    Allowed,
    Denied,
}

impl Outcome {
    pub open spec fn word(self) -> Seq<char> {
        match self {
            Outcome::Allowed => "allowed"@,
            Outcome::Denied => "denied"@,
        }
    }

    pub fn label(self) -> (r: &'static str)
        ensures
            r@ == self.word(),
    {
        match self {
            Outcome::Allowed => "allowed",
            Outcome::Denied => "denied",
        }
    }

    /// The outcome of a decision.
    pub open spec fn of(decision: WireDecision) -> Outcome {
        if decision.allows() {
            Outcome::Allowed
        } else {
            Outcome::Denied
        }
    }

    /// The outcome of a decision: every way to allow reads as allowed.
    pub fn from_decision(decision: WireDecision) -> (r: Outcome)
        ensures
            r == Outcome::of(decision),
    {
        match decision {
            WireDecision::Allow | WireDecision::AllowOnce => Outcome::Allowed,
            WireDecision::Deny => Outcome::Denied,
        }
    }
}

/// Why a request was allowed without a human, and whether that can be taken
/// back.
#[derive(Debug, Clone, PartialEq, Eq)]
pub struct RuleAttribution {
    pub rule_id: String,
    pub scope: RuleScope,
    pub summary: String,
    /// Where the rule would be removed, or none where no surface can edit its
    /// layer.
    pub revoke: Option<WireScope>,
}

/// What a [`RuleAttribution`] holds.
#[verifier::ext_equal]
pub struct AttributionShown {
    pub rule_id: Seq<char>,
    pub scope: RuleScope,
    pub summary: Seq<char>,
    pub revoke: Option<WireScope>,
}

impl View for RuleAttribution {
    type V = AttributionShown;

    open spec fn view(&self) -> AttributionShown {
        AttributionShown {
            rule_id: self.rule_id@,
            scope: self.scope,
            summary: self.summary@,
            revoke: self.revoke,
        }
    }
}

/// One entry of the history, lowered for painting.
#[derive(Debug, Clone, PartialEq, Eq)]
pub struct ResolvedCardView {
    pub card: CardView,
    pub outcome: Outcome,
    /// The rule that allowed the request, where a rule did.
    pub attribution: Option<RuleAttribution>,
    /// Whether the pickers are offered: on a card that was allowed.
    pub show_pickers: bool,
}

/// What a [`ResolvedCardView`] holds.
#[verifier::ext_equal]
pub struct ResolvedShown {
    pub card: CardShown,
    pub outcome: Outcome,
    pub attribution: Option<AttributionShown>,
    pub show_pickers: bool,
}

impl View for ResolvedCardView {
    type V = ResolvedShown;

    open spec fn view(&self) -> ResolvedShown {
        ResolvedShown {
            card: self.card@,
            outcome: self.outcome,
            attribution: match self.attribution {
                Some(x) => Some(x@),
                None => None,
            },
            show_pickers: self.show_pickers,
        }
    }
}

/// Where a rule of this layer can be removed from a surface. The rules of a
/// session live in the user's own file; the other layers are not the user's to
/// edit there.
pub open spec fn revocable_in(layer: Scope) -> Option<WireScope> {
    if layer == Scope::User || layer == Scope::Session {
        Some(WireScope::User)
    } else {
        None
    }
}

/// Where a rule of this layer can be removed from a surface.
pub fn revoke_scope(layer: Scope) -> (r: Option<WireScope>)
    ensures
        r == revocable_in(layer),
{
    match layer {
        Scope::User | Scope::Session => Some(WireScope::User),
        Scope::Project | Scope::Builtin | Scope::Denylist => None,
    }
}

/// The sentence that names the rule.
pub open spec fn attribution_text(rule_id: Seq<char>, scope: Seq<char>) -> Seq<char> {
    "Auto-allowed by rule `"@ + rule_id + "` in "@ + scope + " scope."@
}

/// The sentence that names the rule.
pub fn attribution_sentence(rule_id: &str, scope: &str) -> (r: String)
    ensures
        r@ == attribution_text(rule_id@, scope@),
{
    let mut out = "Auto-allowed by rule `".to_owned();
    out.append(rule_id);
    out.append("` in ");
    out.append(scope);
    out.append(" scope.");
    out
}

/// The attribution of an entry: both the rule and its layer have to be there,
/// and the request has to have been allowed.
pub open spec fn attribution_shown(entry: ResolvedEntry) -> Option<AttributionShown> {
    match (entry.rule_id, entry.rule_scope) {
        (Some(rule_id), Some(scope)) => if entry.decision.allows() {
            Some(
                AttributionShown {
                    rule_id: rule_id@,
                    scope,
                    summary: attribution_text(rule_id@, scope.name@),
                    revoke: revocable_in(scope.layer),
                },
            )
        } else {
            None
        },
        _ => None,
    }
}

/// A card of the history apart from the answers of the disk.
pub open spec fn unopened_resolved(card: ResolvedShown) -> ResolvedShown {
    ResolvedShown { card: unopened_card(card.card), ..card }
}

/// A card of the history apart from everything that was asked of the outside.
pub open spec fn bare_resolved(card: ResolvedShown) -> ResolvedShown {
    ResolvedShown { card: bare_card(card.card), ..card }
}

/// The card of an entry of the history, apart from the answers of the disk.
pub open spec fn resolved_shown(a: Answers, entry: ResolvedEntry) -> ResolvedShown {
    ResolvedShown {
        card: card_shown(a, entry.summary, entry.rendered@),
        outcome: Outcome::of(entry.decision),
        attribution: attribution_shown(entry),
        show_pickers: entry.decision.allows(),
    }
}

/// The attribution of an entry.
pub fn attribution_of(entry: &ResolvedEntry) -> (r: Option<RuleAttribution>)
    ensures
        (match r {
            Some(x) => Some(x@),
            None => None,
        }) == attribution_shown(*entry),
{
    if !entry.decision.is_allow() {
        return None;
    }
    match (&entry.rule_id, &entry.rule_scope) {
        (Some(rule_id), Some(scope)) => Some(
            RuleAttribution {
                rule_id: rule_id.clone(),
                scope: scope.clone(),
                summary: attribution_sentence(rule_id.as_str(), scope.name.as_str()),
                revoke: revoke_scope(scope.layer),
            },
        ),
        _ => None,
    }
}

/// Lowers one entry of the history into a card.
pub fn resolved_card_view<S: Fn(&str) -> String, L: Fn(&str) -> bool, E: Fn(&str) -> bool>(
    entry: &ResolvedEntry,
    ask: &Lookups<S, L, E>,
) -> (r: ResolvedCardView)
    requires
        ask.ready(),
    ensures
        forall|a: Answers| #[trigger]
            ask.give(a) ==> unopened_resolved(r@) == resolved_shown(a, *entry),
        bare_resolved(r@) == bare_resolved(resolved_shown(no_answers(), *entry)),
        asked(ask.on_disk, r@.card.rows),
{
    let outcome = Outcome::from_decision(entry.decision);
    ResolvedCardView {
        card: card_view(&entry.summary, entry.rendered.as_str(), ask),
        outcome,
        attribution: attribution_of(entry),
        show_pickers: outcome == Outcome::Allowed,
    }
}

/// The cards of the history, in its own order: newest first.
pub fn resolved_snapshot<S: Fn(&str) -> String, L: Fn(&str) -> bool, E: Fn(&str) -> bool>(
    resolved: &Vec<ResolvedEntry>,
    ask: &Lookups<S, L, E>,
) -> (r: Vec<ResolvedCardView>)
    requires
        ask.ready(),
    ensures
        r.len() == resolved.len(),
        forall|a: Answers, i: int|
            #![trigger ask.give(a), r@[i]]
            ask.give(a) && 0 <= i < r.len() ==> unopened_resolved(r@[i]@) == resolved_shown(
                a,
                resolved@[i],
            ),
        forall|i: int|
            0 <= i < r.len() ==> bare_resolved((#[trigger] r@[i])@) == bare_resolved(
                resolved_shown(no_answers(), resolved@[i]),
            ),
        forall|i: int| 0 <= i < r.len() ==> asked(ask.on_disk, (#[trigger] r@[i])@.card.rows),
{
    let mut out: Vec<ResolvedCardView> = Vec::new();
    let mut i: usize = 0;
    while i < resolved.len()
        invariant
            i <= resolved.len(),
            ask.ready(),
            out.len() == i,
            forall|a: Answers, k: int|
                #![trigger ask.give(a), out@[k]]
                ask.give(a) && 0 <= k < i ==> unopened_resolved(out@[k]@) == resolved_shown(
                    a,
                    resolved@[k],
                ),
            forall|k: int|
                0 <= k < i ==> bare_resolved((#[trigger] out@[k])@) == bare_resolved(
                    resolved_shown(no_answers(), resolved@[k]),
                ),
            forall|k: int| 0 <= k < i ==> asked(ask.on_disk, (#[trigger] out@[k])@.card.rows),
        decreases resolved.len() - i,
    {
        out.push(resolved_card_view(&resolved[i], ask));
        i += 1;
    }
    out
}

/// A card that was denied names no rule and offers neither to revoke one nor
/// the pickers.
pub proof fn law_denied_card_offers_nothing(a: Answers, entry: ResolvedEntry)
    requires
        entry.decision == WireDecision::Deny,
    ensures
        resolved_shown(a, entry).attribution is None,
        !resolved_shown(a, entry).show_pickers,
        resolved_shown(a, entry).outcome == Outcome::Denied,
{
}

/// A rule can be revoked from a surface only where the user owns its layer.
pub proof fn law_only_user_rules_revocable(a: Answers, entry: ResolvedEntry)
    ensures
        resolved_shown(a, entry).attribution matches Some(x) ==> (x.revoke is Some
            <==> x.scope.layer == Scope::User || x.scope.layer == Scope::Session),
{
}

/// A card of the history reads as allowed exactly where the request was not
/// denied, and then offers the pickers. It names the rule that allowed it where
/// one did, by its id and layer, and no other.
pub proof fn law_outcome_is_the_decision(a: Answers, entry: ResolvedEntry)
    ensures
        ({
            let card = resolved_shown(a, entry);
            &&& card.outcome == Outcome::Allowed <==> entry.decision == WireDecision::Allow
                || entry.decision == WireDecision::AllowOnce
            &&& card.show_pickers <==> card.outcome == Outcome::Allowed
            &&& card.attribution is Some <==> entry.rule_id is Some && entry.rule_scope is Some
                && entry.decision != WireDecision::Deny
            &&& card.card == card_shown(a, entry.summary, entry.rendered@)
            &&& card.card.id == entry.summary.id@
            &&& card.card.title == (a.clean)(entry.summary.command@)
            &&& card.card.dry_run == entry.summary.force_prompt
        }),
        resolved_shown(a, entry).attribution matches Some(x) ==> {
            &&& x.rule_id == entry.rule_id->0@
            &&& x.scope == entry.rule_scope->0
            &&& x.revoke is Some ==> x.revoke == Some(WireScope::User)
            &&& exists|at: int|
                0 <= at && at + x.rule_id.len() <= x.summary.len() && #[trigger] x.summary.subrange(
                    at,
                    at + x.rule_id.len(),
                ) == x.rule_id
            &&& exists|at: int|
                0 <= at && at + x.scope.name@.len() <= x.summary.len() && #[trigger] x.summary.subrange(
                    at,
                    at + x.scope.name@.len(),
                ) == x.scope.name@
        },
{
    if let Some(x) = resolved_shown(a, entry).attribution {
        reveal_strlit("Auto-allowed by rule `");
        reveal_strlit("` in ");
        let n = "Auto-allowed by rule `"@.len() as int;
        let m = n + x.rule_id.len() + "` in "@.len();
        assert(x.summary.subrange(n, n + x.rule_id.len()) =~= x.rule_id);
        assert(x.summary.subrange(m, m + x.scope.name@.len()) =~= x.scope.name@);
    }
}

/// No two outcomes read the same, and what was allowed reads as allowed.
pub proof fn law_outcomes_read_differently(x: Outcome, y: Outcome)
    requires
        x != y,
    ensures
        x.word() != y.word(),
        Outcome::Allowed.word() == "allowed"@,
{
    reveal_strlit("allowed");
    reveal_strlit("denied");
    assert("allowed"@.len() != "denied"@.len());
}

} // verus!
