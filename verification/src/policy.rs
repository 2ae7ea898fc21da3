//! What the rules say of a request, and what that means for it.
use crate::cards::url::{is_local, is_loopback, local_told, same_ignoring_case, unbracketed};
use crate::command::{
    copy_signals, Decision, Effect, HttpRequest, ParsedCommand, RiskSignal, RuleScope, WireDecision,
};
use crate::outside::{decides, decides_all, told};
use crate::pending::PromptSummary;
use vstd::prelude::*;
use vstd::string::*;

verus! {

/// The functions that answer for the known-hosts list.
pub struct HostLookups<K, L, C> {
    /// Whether the list has an entry for the host.
    pub knows: K,
    /// Whether the text is an IP address of the loopback range.
    pub loopback_ip: L,
    /// The signals that the list gives for the request of this id and command:
    /// one for each unknown host.
    pub check: C,
}

/// What the functions of a [`HostLookups`] answer while the list stays as it is.
pub struct HostAnswers {
    pub knows: spec_fn(Seq<char>) -> bool,
    pub loopback: spec_fn(Seq<char>) -> bool,
    pub check: spec_fn(Seq<char>, ParsedCommand) -> Seq<RiskSignal>,
}

impl<K: Fn(&str) -> bool, L: Fn(&str) -> bool, C: Fn(&str, &ParsedCommand) -> Vec<RiskSignal>> HostLookups<K, L, C> {
    /// The functions take every argument.
    pub open spec fn ready(&self) -> bool {
        &&& decides_all(self.knows)
        &&& decides_all(self.loopback_ip)
        &&& forall|id: &str, p: &ParsedCommand| #[trigger] call_requires(self.check, (id, p))
    }

    /// The functions give the answers `a`, whenever they are asked.
    pub open spec fn give(&self, a: HostAnswers) -> bool {
        &&& decides(self.knows, a.knows)
        &&& decides(self.loopback_ip, a.loopback)
        &&& forall|id: &str, p: &ParsedCommand, r: Vec<RiskSignal>| #[trigger]
            call_ensures(self.check, (id, p), r) ==> r@ == (a.check)(id@, *p)
    }

    /// The list was asked for the signals of this request, and gave `found`.
    pub open spec fn checked(&self, id: Seq<char>, parsed: ParsedCommand, found: Seq<RiskSignal>) -> bool {
        exists|i: &str, p: &ParsedCommand, r: Vec<RiskSignal>|
            i@ == id && *p == parsed && r@ == found && #[trigger] call_ensures(self.check, (i, p), r)
    }

    /// `r` is whether the host of a request is known, by the answers that were
    /// given: it is the machine itself, or else the list has it. A request
    /// without a host is not.
    pub open spec fn host_told(&self, req: HttpRequest, r: bool) -> bool {
        match req.url.host {
            Some(host) => {
                ||| r && local_told(self.loopback_ip, host@, true)
                ||| local_told(self.loopback_ip, host@, false) && told(self.knows, host@, r)
            },
            None => !r,
        }
    }

    /// `flags` says for each effect whether it is a request to a known host, by
    /// the answers that were given.
    pub open spec fn flags_told(&self, effects: Seq<Effect>, flags: Seq<bool>) -> bool {
        &&& flags.len() == effects.len()
        &&& forall|i: int|
            0 <= i < effects.len() ==> self.flag_told(effects[i], #[trigger] flags[i])
    }

    /// `r` is whether an effect is a request to a known host, by the answers
    /// that were given.
    pub open spec fn flag_told(&self, effect: Effect, r: bool) -> bool {
        match effect {
            Effect::HttpRequest(req) => self.host_told(req, r),
            _ => !r,
        }
    }
}

/// Whether the host of a request is known: it is on the list, or it is the
/// machine itself. A request without a host is not.
pub open spec fn host_is_known(a: HostAnswers, req: HttpRequest) -> bool {
    match req.url.host {
        Some(host) => is_local(a.loopback, host@) || (a.knows)(host@),
        None => false,
    }
}

/// For each effect whether it is a request to a known host.
pub open spec fn known_flags(a: HostAnswers, effects: Seq<Effect>) -> Seq<bool> {
    effects.map_values(
        |e: Effect|
            match e {
                Effect::HttpRequest(req) => host_is_known(a, req),
                _ => false,
            },
    )
}

/// While the list stays as it is, the flags are those of its entries.
pub proof fn law_flags_follow_the_list<
    K: Fn(&str) -> bool,
    L: Fn(&str) -> bool,
    C: Fn(&str, &ParsedCommand) -> Vec<RiskSignal>,
>(hosts: HostLookups<K, L, C>, a: HostAnswers, effects: Seq<Effect>, flags: Seq<bool>)
    requires
        hosts.give(a),
        hosts.flags_told(effects, flags),
    ensures
        flags == known_flags(a, effects),
{
    assert forall|i: int| 0 <= i < effects.len() implies flags[i] == known_flags(a, effects)[i] by {
        assert(hosts.flag_told(effects[i], flags[i]));
    }
    assert(flags =~= known_flags(a, effects));
}

/// Whether the host of a request is known.
pub fn is_known_host<
    K: Fn(&str) -> bool,
    L: Fn(&str) -> bool,
    C: Fn(&str, &ParsedCommand) -> Vec<RiskSignal>,
>(req: &HttpRequest, hosts: &HostLookups<K, L, C>) -> (r: bool)
    requires
        hosts.ready(),
    ensures
        hosts.host_told(*req, r),
{
    match &req.url.host {
        Some(host) => {
            if is_loopback(host.as_str(), &hosts.loopback_ip) {
                return true;
            }
            let knows = &hosts.knows;
            knows(host.as_str())
        },
        None => false,
    }
}

/// For each effect whether it is a request to a known host.
pub fn host_flags<
    K: Fn(&str) -> bool,
    L: Fn(&str) -> bool,
    C: Fn(&str, &ParsedCommand) -> Vec<RiskSignal>,
>(effects: &Vec<Effect>, hosts: &HostLookups<K, L, C>) -> (r: Vec<bool>)
    requires
        hosts.ready(),
    ensures
        hosts.flags_told(effects@, r@),
{
    let mut out: Vec<bool> = Vec::new();
    let mut i: usize = 0;
    while i < effects.len()
        invariant
            i <= effects.len(),
            hosts.ready(),
            out.len() == i,
            forall|k: int| 0 <= k < i ==> hosts.flag_told(effects@[k], #[trigger] out@[k]),
        decreases effects.len() - i,
    {
        let known = match &effects[i] {
            Effect::HttpRequest(req) => is_known_host(req, hosts),
            _ => false,
        };
        out.push(known);
        i += 1;
    }
    out
}

/// The rules answer every command.
pub open spec fn rules_ready<D: Fn(&ParsedCommand) -> Decision>(decide: D) -> bool {
    forall|p: &ParsedCommand| #[trigger] call_requires(decide, (p,))
}

/// The rules were asked about this command, and said `d`.
pub open spec fn rules_said<D: Fn(&ParsedCommand) -> Decision>(
    decide: D,
    parsed: ParsedCommand,
    d: Decision,
) -> bool {
    exists|p: &ParsedCommand| *p == parsed && #[trigger] call_ensures(decide, (p,), d)
}

/// What is to be done with a request.
#[derive(Debug, Clone, PartialEq, Eq)]
pub enum PolicyOutcome {
    /// A rule decided: the answer can go out without asking anybody.
    Auto {
        decision: WireDecision,
        reason: String,
        rule_id: String,
        scope: RuleScope,
        summary: PromptSummary,
    },
    /// A human has to decide.
    Prompt(PromptSummary),
}

impl PolicyOutcome {
    /// The summary of the request.
    pub open spec fn about(self) -> PromptSummary {
        match self {
            PolicyOutcome::Auto { summary, .. } => summary,
            PolicyOutcome::Prompt(summary) => summary,
        }
    }
}

/// `s` is the summary of the request `id` with this command.
pub open spec fn summarizes(
    s: PromptSummary,
    id: Seq<char>,
    parsed: ParsedCommand,
    force_prompt: bool,
    known: Seq<bool>,
    peer_sid: Option<i32>,
) -> bool {
    &&& s.id@ == id
    &&& s.command == parsed.command
    &&& s.primary_verb == parsed.primary_verb
    &&& s.primary_target == parsed.primary_target
    &&& s.force_prompt == force_prompt
    &&& s.signals@ == parsed.signals@
    &&& s.parsed == Some(parsed)
    &&& s.host_known@ == known
    &&& s.peer_sid == peer_sid
}

/// Why a rule allowed a request.
pub open spec fn matched_reason(rule_id: Seq<char>, scope: Seq<char>) -> Seq<char> {
    "matched rule `"@ + rule_id + "` in "@ + scope
}

/// Why a rule denied a request.
pub open spec fn denied_reason(rule_id: Seq<char>, scope: Seq<char>) -> Seq<char> {
    "denylist rule `"@ + rule_id + "` in "@ + scope
}

/// `outcome` is what the answer `d` of the rules means for a request.
pub open spec fn ruled(d: Decision, outcome: PolicyOutcome) -> bool {
    match d {
        Decision::Allow { rule_id, scope } => {
            &&& outcome is Auto
            &&& outcome->decision == WireDecision::Allow
            &&& outcome->reason@ == matched_reason(rule_id@, scope.name@)
            &&& outcome->rule_id == rule_id
            &&& outcome->scope == scope
        },
        Decision::Deny { rule_id, scope } => {
            &&& outcome is Auto
            &&& outcome->decision == WireDecision::Deny
            &&& outcome->reason@ == denied_reason(rule_id@, scope.name@)
            &&& outcome->rule_id == rule_id
            &&& outcome->scope == scope
        },
        Decision::Prompt => outcome is Prompt,
    }
}

/// What the answer of the rules means for a request.
pub fn outcome_for(decision: Decision, summary: PromptSummary) -> (r: PolicyOutcome)
    ensures
        ruled(decision, r),
        r.about() == summary,
{
    match decision {
        Decision::Allow { rule_id, scope } => {
            let mut reason = "matched rule `".to_owned();
            reason.append(rule_id.as_str());
            reason.append("` in ");
            reason.append(scope.name.as_str());
            PolicyOutcome::Auto { decision: WireDecision::Allow, reason, rule_id, scope, summary }
        },
        Decision::Deny { rule_id, scope } => {
            let mut reason = "denylist rule `".to_owned();
            reason.append(rule_id.as_str());
            reason.append("` in ");
            reason.append(scope.name.as_str());
            PolicyOutcome::Auto { decision: WireDecision::Deny, reason, rule_id, scope, summary }
        },
        Decision::Prompt => PolicyOutcome::Prompt(summary),
    }
}

fn prompt_summary(
    id: &str,
    parsed: ParsedCommand,
    force_prompt: bool,
    host_known: Vec<bool>,
    peer_sid: Option<i32>,
) -> (r: PromptSummary)
    ensures
        summarizes(r, id@, parsed, force_prompt, host_known@, peer_sid),
{
    PromptSummary {
        id: id.to_owned(),
        command: parsed.command.clone(),
        primary_verb: parsed.primary_verb.clone(),
        primary_target: parsed.primary_target.clone(),
        force_prompt,
        signals: copy_signals(&parsed.signals),
        parsed: Some(parsed),
        host_known,
        peer_sid,
    }
}

/// Decides whether a request can be answered by the rules or goes to a human.
/// A request that asks for a prompt always goes to a human.
pub fn evaluate<
    D: Fn(&ParsedCommand) -> Decision,
    K: Fn(&str) -> bool,
    L: Fn(&str) -> bool,
    C: Fn(&str, &ParsedCommand) -> Vec<RiskSignal>,
>(
    parsed: ParsedCommand,
    request_id: &str,
    force_prompt: bool,
    peer_sid: Option<i32>,
    decide: &D,
    hosts: &HostLookups<K, L, C>,
) -> (r: PolicyOutcome)
    requires
        rules_ready(*decide),
        hosts.ready(),
    ensures
        force_prompt ==> r is Prompt,
        !force_prompt ==> exists|d: Decision| #[trigger]
            rules_said(*decide, parsed, d) && ruled(d, r),
        hosts.flags_told(parsed.effects@, r.about().host_known@),
        summarizes(
            r.about(),
            request_id@,
            parsed,
            force_prompt,
            r.about().host_known@,
            peer_sid,
        ),
{
    let host_known = host_flags(&parsed.effects, hosts);
    if force_prompt {
        return PolicyOutcome::Prompt(
            prompt_summary(request_id, parsed, true, host_known, peer_sid),
        );
    }
    let decision = decide(&parsed);
    assert(rules_said(*decide, parsed, decision));
    outcome_for(decision, prompt_summary(request_id, parsed, false, host_known, peer_sid))
}

/// Whether the flag of an effect is what was answered: set only where the effect is
/// a request to a host that is this machine or that the known-hosts list knows,
/// and not set for a request only where the list said no.
pub open spec fn flag_answers<
    K: Fn(&str) -> bool,
    L: Fn(&str) -> bool,
    C: Fn(&str, &ParsedCommand) -> Vec<RiskSignal>,
>(hosts: HostLookups<K, L, C>, effect: Effect, flag: bool) -> bool {
    if !(effect is HttpRequest) || effect->HttpRequest_0.url.host is None {
        !flag
    } else {
        let host = effect->HttpRequest_0.url.host->0@;
        let listed = exists|a: &str, r: bool|
            a@ == host && r == flag && #[trigger] call_ensures(hosts.knows, (a,), r);
        let looped = exists|b: &str|
            b@ == unbracketed(host) && #[trigger] call_ensures(hosts.loopback_ip, (b,), true);
        &&& flag ==> listed || looped || same_ignoring_case(host, "localhost"@)
        &&& !flag ==> listed && !same_ignoring_case(host, "localhost"@)
    }
}

/// A flag says that a host is known only where it is a request to a host, and
/// that host is this machine or the known-hosts list said so of it; and that it
/// is not known only where the list said that.
pub proof fn law_flag_is_an_answer<
    K: Fn(&str) -> bool,
    L: Fn(&str) -> bool,
    C: Fn(&str, &ParsedCommand) -> Vec<RiskSignal>,
>(hosts: HostLookups<K, L, C>, effects: Seq<Effect>, flags: Seq<bool>, i: int)
    requires
        hosts.flags_told(effects, flags),
        0 <= i < effects.len(),
    ensures
        flags.len() == effects.len(),
        flag_answers(hosts, effects[i], flags[i]),
{
    assert(hosts.flag_told(effects[i], flags[i]));
    if effects[i] is HttpRequest && effects[i]->HttpRequest_0.url.host is Some {
        let host = effects[i]->HttpRequest_0.url.host->0@;
        if told(hosts.knows, host, flags[i]) {
            let a = choose|a: &str| a@ == host && #[trigger] call_ensures(hosts.knows, (a,), flags[i]);
            assert(call_ensures(hosts.knows, (a,), flags[i]));
        }
        if told(hosts.loopback_ip, unbracketed(host), true) {
            let b = choose|b: &str|
                b@ == unbracketed(host) && #[trigger] call_ensures(hosts.loopback_ip, (b,), true);
            assert(call_ensures(hosts.loopback_ip, (b,), true));
        }
    }
}

/// An answer of the rules is carried out as it was given: what they allow is
/// allowed, what they deny is denied, what they leave open is asked, and the
/// reason names the rule and its layer.
pub proof fn law_rule_is_carried_out(d: Decision, outcome: PolicyOutcome)
    requires
        ruled(d, outcome),
    ensures
        d is Prompt <==> outcome is Prompt,
        d is Allow ==> outcome->decision == WireDecision::Allow,
        d is Deny ==> outcome->decision == WireDecision::Deny,
        outcome is Auto ==> exists|at: int, end: int|
            0 <= at <= end <= outcome->reason@.len() && #[trigger] outcome->reason@.subrange(at, end)
                == outcome->rule_id@,
        outcome is Auto ==> outcome->scope.name@.is_suffix_of(outcome->reason@),
        d is Allow ==> outcome->rule_id == d->Allow_rule_id,
        d is Deny ==> outcome->rule_id == d->Deny_rule_id,
{
    reveal_strlit("matched rule `");
    reveal_strlit("denylist rule `");
    if outcome is Auto {
        let reason = outcome->reason@;
        let id = outcome->rule_id@;
        let name = outcome->scope.name@;
        let at = if d is Allow {
            14int
        } else {
            15int
        };
        assert(reason.subrange(at, at + id.len()) =~= id);
        assert(name =~= reason.subrange(reason.len() - name.len(), reason.len() as int));
    }
}

} // verus!
