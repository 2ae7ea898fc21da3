//! The notifications of macOS: what a banner says, and what its buttons do.
use crate::cards::picker::{show_trust_host, warns_of_host};
use crate::command::{SignalKind, WireDecision};
use crate::outside::{answers_all, cleaned, computes};
use crate::pending::{PendingDecision, PromptSummary};
use crate::text::same_text;
use vstd::prelude::*;
use vstd::string::*;

verus! {

/// The category of a banner with the buttons approve, reject and allowlist.
pub const CATEGORY_ID: &'static str = "vetter.prompt";

/// The category of a banner that also offers to trust the host.
pub const CATEGORY_ID_WITH_UNKNOWN_HOST: &'static str = "vetter.prompt.with_unknown_host";

pub const ACTION_APPROVE: &'static str = "vetter.approve";

pub const ACTION_REJECT: &'static str = "vetter.reject";

pub const ACTION_ALLOWLIST: &'static str = "vetter.allowlist";

pub const ACTION_TRUST_HOST: &'static str = "vetter.trust_host";

/// A banner.
#[derive(Debug, PartialEq, Eq)]
pub struct MacBanner {
    pub title: String,
    pub subtitle: Option<String>,
    pub body: String,
    pub category: String,
}

/// The body of a banner: verb and target, or the target alone.
pub open spec fn banner_body(
    clean: spec_fn(Seq<char>) -> Seq<char>,
    verb: Seq<char>,
    target: Seq<char>,
) -> Seq<char> {
    if verb.len() == 0 {
        clean(target)
    } else {
        clean(verb) + " "@ + clean(target)
    }
}

/// `out` is the body of a banner, by the answers that were given.
pub open spec fn body_painted<S: Fn(&str) -> String>(
    sanitize: S,
    verb: Seq<char>,
    target: Seq<char>,
    out: Seq<char>,
) -> bool {
    exists|t: Seq<char>| #[trigger]
        cleaned(sanitize, target, t) && if verb.len() == 0 {
            out == t
        } else {
            exists|v: Seq<char>| #[trigger] cleaned(sanitize, verb, v) && out == v + " "@ + t
        }
}

/// The body of a banner: verb and target, or the target alone, made safe to
/// paint.
pub fn body_text<S: Fn(&str) -> String>(summary: &PromptSummary, sanitize: &S) -> (r: String)
    requires
        answers_all(*sanitize),
    ensures
        forall|clean: spec_fn(Seq<char>) -> Seq<char>| #[trigger]
            computes(*sanitize, clean) ==> r@ == banner_body(
                clean,
                summary.primary_verb@,
                summary.primary_target@,
            ),
        body_painted(*sanitize, summary.primary_verb@, summary.primary_target@, r@),
{
    let target = sanitize(summary.primary_target.as_str());
    assert(cleaned(*sanitize, summary.primary_target@, target@));
    if summary.primary_verb.as_str().is_empty() {
        return target;
    }
    let mut out = sanitize(summary.primary_verb.as_str());
    assert(cleaned(*sanitize, summary.primary_verb@, out@));
    out.append(" ");
    out.append(target.as_str());
    out
}

/// The banner for a request. It offers to trust the host where a signal says
/// that the host is unknown.
pub fn post_notification<S: Fn(&str) -> String>(summary: &PromptSummary, sanitize: &S) -> (r: MacBanner)
    requires
        answers_all(*sanitize),
    ensures
        forall|clean: spec_fn(Seq<char>) -> Seq<char>| #[trigger]
            computes(*sanitize, clean) ==> r.title@ == "vet "@ + clean(summary.command@) && r.body@
                == banner_body(clean, summary.primary_verb@, summary.primary_target@),
        exists|c: Seq<char>| #[trigger]
            cleaned(*sanitize, summary.command@, c) && r.title@ == "vet "@ + c,
        body_painted(*sanitize, summary.primary_verb@, summary.primary_target@, r.body@),
        r.subtitle is Some <==> summary.force_prompt,
        r.subtitle matches Some(s) ==> s@ == "dry run"@,
        r.category@ == (if warns_of_host(summary.signals@) {
            CATEGORY_ID_WITH_UNKNOWN_HOST@
        } else {
            CATEGORY_ID@
        }),
{
    let mut title = "vet ".to_owned();
    let command = sanitize(summary.command.as_str());
    assert(cleaned(*sanitize, summary.command@, command@));
    title.append(command.as_str());
    let category = if show_trust_host(&summary.signals) {
        CATEGORY_ID_WITH_UNKNOWN_HOST
    } else {
        CATEGORY_ID
    };
    let subtitle = if summary.force_prompt {
        Some("dry run".to_owned())
    } else {
        None
    };
    MacBanner { title, subtitle, body: body_text(summary, sanitize), category: category.to_owned() }
}

/// A button of a banner.
#[derive(Debug, Clone, Copy, PartialEq, Eq)]
pub struct MacButton {
    pub action: &'static str,
    pub title: &'static str,
    /// Whether it is marked as one that destroys.
    pub destructive: bool,
}

/// The buttons of a category, by their actions.
pub open spec fn category_actions(with_trust_host: bool) -> Seq<Seq<char>> {
    let base = seq![ACTION_APPROVE@, ACTION_REJECT@, ACTION_ALLOWLIST@];
    if with_trust_host {
        base.push(ACTION_TRUST_HOST@)
    } else {
        base
    }
}

/// The title of the button for an action.
pub open spec fn button_title(action: Seq<char>) -> Seq<char> {
    if action == ACTION_APPROVE@ {
        "Approve"@
    } else if action == ACTION_REJECT@ {
        "Reject"@
    } else if action == ACTION_ALLOWLIST@ {
        "Allowlist…"@
    } else {
        "Trust host…"@
    }
}

/// The buttons of a banner, of the category that offers to trust the host or of
/// the other. Only the one to reject is marked as one that destroys.
pub fn category_buttons(with_trust_host: bool) -> (r: Vec<MacButton>)
    ensures
        r@.map_values(|b: MacButton| b.action@) == category_actions(with_trust_host),
        forall|i: int|
            0 <= i < r.len() ==> (#[trigger] r@[i]).title@ == button_title(r@[i].action@)
                && r@[i].destructive == (r@[i].action@ == ACTION_REJECT@),
{
    proof {
        reveal_strlit("vetter.approve");
        reveal_strlit("vetter.reject");
        reveal_strlit("vetter.allowlist");
        reveal_strlit("vetter.trust_host");
        assert(ACTION_APPROVE@.len() == 14 && ACTION_REJECT@.len() == 13 && ACTION_ALLOWLIST@.len() == 16
            && ACTION_TRUST_HOST@.len() == 17);
    }
    let mut out: Vec<MacButton> = Vec::new();
    out.push(MacButton { action: ACTION_APPROVE, title: "Approve", destructive: false });
    out.push(MacButton { action: ACTION_REJECT, title: "Reject", destructive: true });
    out.push(MacButton { action: ACTION_ALLOWLIST, title: "Allowlist…", destructive: false });
    if with_trust_host {
        out.push(MacButton { action: ACTION_TRUST_HOST, title: "Trust host…", destructive: false });
    }
    assert(out@.map_values(|b: MacButton| b.action@) =~= category_actions(with_trust_host));
    out
}

/// What a banner's button does.
#[derive(Debug, PartialEq, Eq)]
pub enum MacAction {
    /// Resolve the request, and take its banner away.
    Resolve(PendingDecision),
    /// Open the picker for rules. The request goes on waiting.
    Allowlist,
    /// Open the picker for hosts. The request goes on waiting.
    TrustHost,
    /// Open the popover at the request, which goes on waiting.
    ShowCard,
    Unknown,
}

/// What the button `action` does, `default` and `dismiss` being the system's own
/// names for a click on the banner and for its dismissal. A dismissal counts as
/// a rejection; a click on the banner never decides.
pub fn did_receive_response(action: &str, default: &str, dismiss: &str) -> (r: MacAction)
    ensures
        if action@ == ACTION_APPROVE@ {
            r matches MacAction::Resolve(d) && d.decision == WireDecision::Allow && d.reason@
                == "approved via notification"@
        } else if action@ == ACTION_REJECT@ {
            r matches MacAction::Resolve(d) && d.decision == WireDecision::Deny && d.reason@
                == "rejected via notification"@
        } else if action@ == ACTION_ALLOWLIST@ {
            r is Allowlist
        } else if action@ == ACTION_TRUST_HOST@ {
            r is TrustHost
        } else if action@ == dismiss@ {
            r matches MacAction::Resolve(d) && d.decision == WireDecision::Deny && d.reason@
                == "dismissed via notification (treated as reject)"@
        } else if action@ == default@ {
            r is ShowCard
        } else {
            r is Unknown
        },
{
    if same_text(action, ACTION_APPROVE) {
        MacAction::Resolve(PendingDecision::allow("approved via notification"))
    } else if same_text(action, ACTION_REJECT) {
        MacAction::Resolve(PendingDecision::deny("rejected via notification"))
    } else if same_text(action, ACTION_ALLOWLIST) {
        MacAction::Allowlist
    } else if same_text(action, ACTION_TRUST_HOST) {
        MacAction::TrustHost
    } else if same_text(action, dismiss) {
        MacAction::Resolve(PendingDecision::deny("dismissed via notification (treated as reject)"))
    } else if same_text(action, default) {
        MacAction::ShowCard
    } else {
        MacAction::Unknown
    }
}

/// Nothing but the approve button allows a request, and whatever button is
/// pressed, one that opens a picker or a card leaves the request waiting.
pub proof fn law_only_approve_allows(action: &str, default: &str, dismiss: &str, r: MacAction)
    requires
        call_ensures(did_receive_response, (action, default, dismiss), r),
    ensures
        r matches MacAction::Resolve(d) ==> (d.decision != WireDecision::Deny <==> action@
            == "vetter.approve"@),
        r matches MacAction::Resolve(d) ==> action@ == "vetter.approve"@ || action@
            == "vetter.reject"@ || action@ == dismiss@,
        action@ == "vetter.approve"@ || action@ == "vetter.reject"@ ==> r is Resolve,
{
    reveal_strlit("vetter.approve");
    reveal_strlit("vetter.reject");
    assert("vetter.approve"@.len() != "vetter.reject"@.len());
}

/// The body of a banner ends with the target, and begins with the verb where
/// there is one.
pub proof fn law_banner_body_shows_the_target(
    clean: spec_fn(Seq<char>) -> Seq<char>,
    verb: Seq<char>,
    target: Seq<char>,
)
    ensures
        clean(target).is_suffix_of(banner_body(clean, verb, target)),
        verb.len() == 0 ==> banner_body(clean, verb, target).len() == clean(target).len(),
        verb.len() > 0 ==> clean(verb).is_prefix_of(banner_body(clean, verb, target)) && banner_body(
            clean,
            verb,
            target,
        ).len() == clean(verb).len() + 1 + clean(target).len(),
{
    reveal_strlit(" ");
    let body = banner_body(clean, verb, target);
    let end = clean(target);
    assert(end =~= body.subrange(body.len() - end.len(), body.len() as int));
    if verb.len() > 0 {
        let front = clean(verb);
        assert(front =~= body.subrange(0, front.len() as int));
    }
}

/// A banner has a button to approve and one to reject, each under its name, and
/// one to trust the host exactly where the host is unknown.
pub proof fn law_banner_has_both_answers(with_trust_host: bool)
    ensures
        category_actions(with_trust_host).contains("vetter.approve"@),
        category_actions(with_trust_host).contains("vetter.reject"@),
        category_actions(with_trust_host).contains("vetter.allowlist"@),
        category_actions(with_trust_host).contains("vetter.trust_host"@) <==> with_trust_host,
        button_title("vetter.approve"@) == "Approve"@,
        button_title("vetter.reject"@) == "Reject"@,
{
    reveal_strlit("vetter.approve");
    reveal_strlit("vetter.reject");
    reveal_strlit("vetter.allowlist");
    reveal_strlit("vetter.trust_host");
    let all = category_actions(with_trust_host);
    assert("vetter.approve"@.len() != "vetter.reject"@.len());
    assert("vetter.trust_host"@.len() == 17);
    assert("vetter.trust_host"@[7] == 't');
    assert("vetter.allowlist"@.len() == 16);
    assert(all[0] == "vetter.approve"@ && all[1] == "vetter.reject"@ && all[2] == "vetter.allowlist"@);
    if with_trust_host {
        assert(all[3] == "vetter.trust_host"@);
    }
}

/// A banner says what asks: the command in its title and the target at the end of
/// its body, that it is a dry run exactly where it is one, and it has the button
/// to trust the host exactly where a signal warns of an unknown one.
pub proof fn law_banner_says_what_asks<S: Fn(&str) -> String>(
    summary: &PromptSummary,
    sanitize: &S,
    clean: spec_fn(Seq<char>) -> Seq<char>,
    r: MacBanner,
)
    requires
        call_ensures(post_notification::<S>, (summary, sanitize), r),
        computes(*sanitize, clean),
    ensures
        r.title@.subrange(4, 4 + clean(summary.command@).len() as int) == clean(summary.command@),
        r.title@.len() == 4 + clean(summary.command@).len(),
        clean(summary.primary_target@).is_suffix_of(r.body@),
        r.subtitle is Some <==> summary.force_prompt,
        r.category@ == "vetter.prompt.with_unknown_host"@ <==> exists|i: int|
            0 <= i < summary.signals@.len() && (#[trigger] summary.signals@[i]).kind
                == SignalKind::UnknownHost,
{
    reveal_strlit("vet ");
    reveal_strlit("vetter.prompt");
    reveal_strlit("vetter.prompt.with_unknown_host");
    assert("vetter.prompt"@.len() != "vetter.prompt.with_unknown_host"@.len());
    let name = clean(summary.command@);
    assert(r.title@.subrange(4, 4 + name.len() as int) =~= name);
    law_banner_body_shows_the_target(clean, summary.primary_verb@, summary.primary_target@);
}

} // verus!
