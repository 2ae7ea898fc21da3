//! The notifier that asks a test: one line of JSON goes out for each prompt,
//! and one comes back. Whatever goes wrong is a denial.
use crate::command::WireDecision;
use crate::pending::{waiting, waits, PendingDecision, PromptSummary};
use crate::text::same_text;
use vstd::prelude::*;
use vstd::string::*;

verus! {

/// The reason of a test that gives none.
pub const DEFAULT_REASON: &'static str = "mock notifier";

/// What is wrong with a connection that ends before its answer.
pub const CLOSED_EARLY: &'static str = "control socket closed before sending decision";

/// The answer that a reply stands for: `allow` or `deny`, with its reason.
pub fn read_reply(decision: &str, reason: &str) -> (r: Result<PendingDecision, String>)
    ensures
        decision@ == "allow"@ || decision@ == "deny"@ ==> (r matches Ok(d) && d.decision == (
        if decision@ == "allow"@ {
            WireDecision::Allow
        } else {
            WireDecision::Deny
        }) && d.reason@ == (if reason@.len() == 0 {
            DEFAULT_REASON@
        } else {
            reason@
        })),
        decision@ != "allow"@ && decision@ != "deny"@ ==> (r matches Err(e) && e@
            == "unknown decision `"@ + decision@ + "`"@),
{
    let shown = if reason.is_empty() {
        DEFAULT_REASON
    } else {
        reason
    };
    if same_text(decision, "allow") {
        Ok(PendingDecision::allow(shown))
    } else if same_text(decision, "deny") {
        Ok(PendingDecision::deny(shown))
    } else {
        let mut e = "unknown decision `".to_owned();
        e.append(decision);
        e.append("`");
        Err(e)
    }
}

/// The answer to a prompt: what the test said, or a denial where asking it
/// failed.
pub fn answer(asked: Result<PendingDecision, String>) -> (r: PendingDecision)
    ensures
        match asked {
            Ok(d) => r == d,
            Err(e) => r.decision == WireDecision::Deny && r.reason@ == "mock notifier error: "@ + e@,
        },
{
    match asked {
        Ok(d) => d,
        Err(e) => {
            let mut reason = "mock notifier error: ".to_owned();
            reason.append(e.as_str());
            PendingDecision { decision: WireDecision::Deny, reason }
        },
    }
}

/// The rendered detail of the request that waits under `id`, or nothing where
/// none does.
pub fn rendered_for(pending: &Vec<(PromptSummary, String)>, id: &str) -> (r: String)
    requires
        crate::pending::distinct_ids(pending@),
    ensures
        r@ == (if waits(pending@, id@) {
            waiting(pending@, id@).1@
        } else {
            Seq::empty()
        }),
{
    let mut i: usize = 0;
    while i < pending.len()
        invariant
            i <= pending.len(),
            crate::pending::distinct_ids(pending@),
            forall|k: int| 0 <= k < i ==> (#[trigger] pending@[k]).0.id@ != id@,
        decreases pending.len() - i,
    {
        if same_text(pending[i].0.id.as_str(), id) {
            proof {
                crate::pending::lemma_waiting_is(pending@, i as int);
            }
            return pending[i].1.clone();
        }
        i += 1;
    }
    String::new()
}

/// Only the word `allow` allows: any other reply, and no reply at all, denies.
pub proof fn law_only_allow_allows(
    decision: &str,
    reason: &str,
    r: Result<PendingDecision, String>,
    given: PendingDecision,
)
    requires
        call_ensures(read_reply, (decision, reason), r),
        call_ensures(answer, (r,), given),
    ensures
        given.decision == WireDecision::Allow <==> decision@ == "allow"@,
        given.decision != WireDecision::Allow ==> given.decision == WireDecision::Deny,
        r is Ok && reason@.len() > 0 ==> given.reason@ == reason@,
        r is Err <==> decision@ != "allow"@ && decision@ != "deny"@,
{
    reveal_strlit("allow");
    reveal_strlit("deny");
    assert("allow"@.len() != "deny"@.len());
}

} // verus!
