//! The management requests that come over the admin socket.
use crate::command::{HostSuggestion, RuleSuggestion, WireScope};
use crate::pending::{PendingQueue, PromptSummary};
use crate::suggestions::{AddError, AddedRule};
use vstd::prelude::*;
use vstd::string::*;

verus! {

/// A request that waits, as the management client sees it.
#[derive(Debug, PartialEq, Eq)]
pub struct PendingItem {
    pub id: String,
    pub command: String,
    pub primary_verb: String,
    pub primary_target: String,
    pub force_prompt: bool,
}

/// `item` is the listing of the summary `s`.
pub open spec fn lists(item: PendingItem, s: PromptSummary) -> bool {
    &&& item.id == s.id
    &&& item.command == s.command
    &&& item.primary_verb == s.primary_verb
    &&& item.primary_target == s.primary_target
    &&& item.force_prompt == s.force_prompt
}

/// The answer to a management request.
#[derive(Debug, PartialEq, Eq)]
pub enum MgmtResponse {
    PendingList { items: Vec<PendingItem> },
    Suggestions { allowlist: Vec<RuleSuggestion>, known_host: Vec<HostSuggestion> },
    RuleAdded { id: String, scope: WireScope, auto_approved_ids: Vec<String> },
    KnownHostAdded { pattern: String, scope: WireScope },
    Error { message: String },
}

/// The answer to a request for the list of those that wait.
pub fn list_pending(queue: &PendingQueue) -> (r: MgmtResponse)
    ensures
        r matches MgmtResponse::PendingList { items } && {
            &&& items@.len() == queue.pending().len()
            &&& forall|i: int|
                0 <= i < items@.len() ==> lists(#[trigger] items@[i], queue.pending()[i].0)
        },
{
    let summaries = queue.pending_summaries();
    let mut items: Vec<PendingItem> = Vec::new();
    let mut i: usize = 0;
    while i < summaries.len()
        invariant
            i <= summaries.len(),
            summaries.len() == queue.pending().len(),
            forall|k: int| 0 <= k < summaries.len() ==> *(#[trigger] summaries@[k]) == queue.pending()[k].0,
            items.len() == i,
            forall|k: int| 0 <= k < i ==> lists(#[trigger] items@[k], queue.pending()[k].0),
        decreases summaries.len() - i,
    {
        let s = summaries[i];
        items.push(
            PendingItem {
                id: s.id.clone(),
                command: s.command.clone(),
                primary_verb: s.primary_verb.clone(),
                primary_target: s.primary_target.clone(),
                force_prompt: s.force_prompt,
            },
        );
        i += 1;
    }
    MgmtResponse::PendingList { items }
}

/// The message for an id that no suggestions can be made for.
pub open spec fn unknown_id_text(id: Seq<char>) -> Seq<char> {
    "no pending or resolved entry with id `"@ + id + "`"@
}

/// The answer to a request for suggestions, from what was found for the id.
pub fn suggestions_response(
    id: &str,
    found: Option<(Vec<RuleSuggestion>, Vec<HostSuggestion>)>,
) -> (r: MgmtResponse)
    ensures
        match found {
            Some((rules, hosts)) => r == (MgmtResponse::Suggestions {
                allowlist: rules,
                known_host: hosts,
            }),
            None => r matches MgmtResponse::Error { message } && message@ == unknown_id_text(id@),
        },
{
    match found {
        Some((allowlist, known_host)) => MgmtResponse::Suggestions { allowlist, known_host },
        None => {
            let mut message = "no pending or resolved entry with id `".to_owned();
            message.append(id);
            message.append("`");
            MgmtResponse::Error { message }
        },
    }
}

/// The answer to a request to add a rule.
pub fn rule_response(scope: WireScope, added: Result<AddedRule, AddError>) -> (r: MgmtResponse)
    ensures
        match added {
            Ok(a) => r == (MgmtResponse::RuleAdded {
                id: a.id,
                scope,
                auto_approved_ids: a.auto_approved_ids,
            }),
            Err(e) => r matches MgmtResponse::Error { message } && message@ == e.text(),
        },
{
    match added {
        Ok(a) => MgmtResponse::RuleAdded { id: a.id, scope, auto_approved_ids: a.auto_approved_ids },
        Err(e) => MgmtResponse::Error { message: e.message() },
    }
}

/// The answer to a request to add a known host.
pub fn host_response(scope: WireScope, pattern: String, added: Result<(), AddError>) -> (r: MgmtResponse)
    ensures
        match added {
            Ok(_) => r == (MgmtResponse::KnownHostAdded { pattern, scope }),
            Err(e) => r matches MgmtResponse::Error { message } && message@ == e.text(),
        },
{
    match added {
        Ok(_) => MgmtResponse::KnownHostAdded { pattern, scope },
        Err(e) => MgmtResponse::Error { message: e.message() },
    }
}

/// The list of what waits has an item for each request, in the order of the
/// queue, under its id.
pub proof fn law_list_has_every_request(queue: &PendingQueue, r: MgmtResponse, i: int)
    requires
        call_ensures(list_pending, (queue,), r),
        0 <= i < queue.pending().len(),
    ensures
        r is PendingList,
        r->items@.len() == queue.pending().len(),
        r->items@[i].id@ == queue.pending()[i].0.id@,
        r->items@[i].command@ == queue.pending()[i].0.command@,
        r->items@[i].primary_verb@ == queue.pending()[i].0.primary_verb@,
        r->items@[i].primary_target@ == queue.pending()[i].0.primary_target@,
        r->items@[i].force_prompt == queue.pending()[i].0.force_prompt,
{
    assert(lists(r->items@[i], queue.pending()[i].0));
}

/// What is answered to a request to add a rule or a host is what came of it: a
/// failure is answered with its message, and never as done.
pub proof fn law_failure_is_answered_as_one(
    scope: WireScope,
    added: Result<AddedRule, AddError>,
    rule: MgmtResponse,
    pattern: String,
    trusted: Result<(), AddError>,
    host: MgmtResponse,
)
    requires
        call_ensures(rule_response, (scope, added), rule),
        call_ensures(host_response, (scope, pattern, trusted), host),
    ensures
        added is Err <==> rule is Error,
        added is Ok ==> rule is RuleAdded && rule->id@ == added->Ok_0.id@ && rule->auto_approved_ids
            == added->Ok_0.auto_approved_ids && rule->RuleAdded_scope == scope,
        added is Err ==> rule->message@ == added->Err_0.text(),
        trusted is Err <==> host is Error,
        trusted is Ok ==> host is KnownHostAdded && host->pattern == pattern,
        trusted is Err ==> host->message@ == trusted->Err_0.text(),
{
}

} // verus!
