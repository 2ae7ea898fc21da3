//! Rules and hosts that a user adds from a card.
//!
//! Adding is done in steps, between which the process around the library
//! writes and reloads files: [`plan_rule`] says what to write where,
//! [`approve_covered`] resolves the requests that the new rule covers;
//! [`plan_host`] says where a host goes, and the queue is refreshed after it.
use crate::command::{Decision, ParsedCommand, WireDecision, WireScope};
use crate::pending::{
    distinct_ids, lemma_waiting_is, lemma_without_present, recorded, PendingDecision, PendingQueue,
    PromptSummary, ResolvedEntry, RESOLVED_CAP,
};
use crate::text::{same_text, texts};
use vstd::prelude::*;
use vstd::string::*;

verus! {

/// What adding a rule has done.
#[derive(Debug, Clone, PartialEq, Eq)]
pub struct AddedRule {
    /// The id under which the rule was saved.
    pub id: String,
    /// The requests that it approved.
    pub auto_approved_ids: Vec<String>,
}

/// Why a rule or a host could not be added.
#[derive(Debug, PartialEq, Eq)]
pub enum AddError {
    UnsupportedScope(WireScope),
    NoUserHome,
    /// The allowlist could not be written or read back.
    Allowlist(String),
    /// The known-hosts list could not be written or read back.
    KnownHosts(String),
}

impl AddError {
    pub open spec fn text(self) -> Seq<char> {
        match self {
            AddError::UnsupportedScope(WireScope::User) => "unsupported scope `User` (only `User` is wired through the popover today)"@,
            AddError::UnsupportedScope(WireScope::Project) => "unsupported scope `Project` (only `User` is wired through the popover today)"@,
            AddError::NoUserHome => "$HOME is not set; cannot resolve user-scope path"@,
            AddError::Allowlist(e) => "allowlist write: "@ + e@,
            AddError::KnownHosts(e) => "known-hosts write: "@ + e@,
        }
    }

    /// The message of the error.
    pub fn message(&self) -> (r: String)
        ensures
            r@ == self.text(),
    {
        match self {
            AddError::UnsupportedScope(WireScope::User) => {
                "unsupported scope `User` (only `User` is wired through the popover today)".to_owned()
            },
            AddError::UnsupportedScope(WireScope::Project) => {
                "unsupported scope `Project` (only `User` is wired through the popover today)".to_owned()
            },
            AddError::NoUserHome => "$HOME is not set; cannot resolve user-scope path".to_owned(),
            AddError::Allowlist(e) => {
                let mut out = "allowlist write: ".to_owned();
                out.append(e.as_str());
                out
            },
            AddError::KnownHosts(e) => {
                let mut out = "known-hosts write: ".to_owned();
                out.append(e.as_str());
                out
            },
        }
    }
}

/// Whether suggestions can be made from this entry of the history: not from one
/// that was denied, which the user has just said no to.
pub open spec fn is_source(entry: ResolvedEntry, id: Seq<char>) -> bool {
    entry.summary.id@ == id && entry.decision.allows() && entry.summary.parsed is Some
}

/// The first entry of the history that suggestions for `id` can be made from.
pub open spec fn recent_source(recent: Seq<ResolvedEntry>, id: Seq<char>) -> Option<PromptSummary>
    decreases recent.len(),
{
    if recent.len() == 0 {
        None
    } else if is_source(recent[0], id) {
        Some(recent[0].summary)
    } else {
        recent_source(recent.drop_first(), id)
    }
}

/// Whether the request waits under `id` with a parsed command.
pub open spec fn is_pending_source(entry: (PromptSummary, String), id: Seq<char>) -> bool {
    entry.0.id@ == id && entry.0.parsed is Some
}

/// The request that suggestions for `id` are made from: the one that waits, or
/// else the first of the history that was allowed.
pub open spec fn source(
    pending: Seq<(PromptSummary, String)>,
    recent: Seq<ResolvedEntry>,
    id: Seq<char>,
) -> Option<PromptSummary> {
    if exists|i: int| 0 <= i < pending.len() && #[trigger] is_pending_source(pending[i], id) {
        Some(
            pending[choose|i: int|
                0 <= i < pending.len() && #[trigger] is_pending_source(pending[i], id)].0,
        )
    } else {
        recent_source(recent, id)
    }
}

/// The request that the suggestions for `id` are to be made from, or none
/// where the id is unknown or was denied. Its parsed command goes to the
/// suggestion engine; its session says whether a rule for the session can be
/// offered.
pub fn suggestions_for<'a>(queue: &'a PendingQueue, id: &str) -> (r: Option<&'a PromptSummary>)
    requires
        queue.wf(),
    ensures
        (match r {
            Some(s) => Some(*s),
            None => None,
        }) == source(queue.pending(), queue.recent(), id@),
{
    let (pending, resolved) = queue.all_entries();
    let mut i: usize = 0;
    while i < pending.len()
        invariant
            i <= pending.len(),
            pending@ == queue.pending(),
            queue.wf(),
            forall|k: int| 0 <= k < i ==> !#[trigger] is_pending_source(pending@[k], id@),
        decreases pending.len() - i,
    {
        if same_text(pending[i].0.id.as_str(), id) && pending[i].0.parsed.is_some() {
            proof {
                assert(is_pending_source(pending@[i as int], id@));
                let k = choose|k: int|
                    0 <= k < pending@.len() && #[trigger] is_pending_source(pending@[k], id@);
                if k < i {
                    assert(!is_pending_source(pending@[k], id@));
                } else if i < k {
                    assert(pending@[i as int].0.id@ != pending@[k].0.id@);
                }
            }
            return Some(&pending[i].0);
        }
        i += 1;
    }
    let mut j: usize = 0;
    assert(resolved@.skip(0) =~= resolved@);
    while j < resolved.len()
        invariant
            j <= resolved.len(),
            pending@ == queue.pending(),
            resolved@ == queue.recent(),
            forall|k: int| 0 <= k < pending@.len() ==> !#[trigger] is_pending_source(pending@[k], id@),
            recent_source(queue.recent(), id@) == recent_source(resolved@.skip(j as int), id@),
        decreases resolved.len() - j,
    {
        proof {
            assert(resolved@.skip(j as int)[0] == resolved@[j as int]);
            assert(resolved@.skip(j as int).drop_first() =~= resolved@.skip(j + 1));
        }
        let entry = &resolved[j];
        if same_text(entry.summary.id.as_str(), id) && entry.decision.is_allow()
            && entry.summary.parsed.is_some() {
            return Some(&entry.summary);
        }
        j += 1;
    }
    None
}

/// A rule that is to be written: its id, and the file it goes to.
#[derive(Debug, PartialEq, Eq)]
pub struct RulePlan {
    pub id: String,
    pub target: String,
}

/// The file for rules of the user: the one the daemon was started with, or the
/// user's own.
pub open spec fn rule_file(given: Option<String>, user: Option<String>) -> Option<Seq<char>> {
    match given {
        Some(p) => Some(p@),
        None => match user {
            Some(p) => Some(p@),
            None => None,
        },
    }
}

/// The file for rules of the user: the one the daemon was started with, or the
/// user's own. `user_path` is none where no home directory is known.
pub fn resolve_allowlist_path(allowlist_override: &Option<String>, user_path: &Option<String>) -> (r: Result<
    String,
    AddError,
>)
    ensures
        match rule_file(*allowlist_override, *user_path) {
            Some(p) => r matches Ok(target) && target@ == p,
            None => r == Err::<String, AddError>(AddError::NoUserHome),
        },
{
    if let Some(p) = allowlist_override {
        return Ok(p.clone());
    }
    match user_path {
        Some(p) => Ok(p.clone()),
        None => Err(AddError::NoUserHome),
    }
}

/// What to write for a new rule. Only rules of the user can be added here. A
/// rule without an id gets the derived one.
pub fn plan_rule(
    scope: WireScope,
    rule_id: &str,
    derived_id: &str,
    allowlist_override: &Option<String>,
    user_path: &Option<String>,
) -> (r: Result<RulePlan, AddError>)
    ensures
        scope != WireScope::User ==> r == Err::<RulePlan, AddError>(
            AddError::UnsupportedScope(scope),
        ),
        scope == WireScope::User ==> match rule_file(*allowlist_override, *user_path) {
            Some(p) => r matches Ok(plan) && plan.target@ == p && plan.id@ == (if rule_id@.len() == 0 {
                derived_id@
            } else {
                rule_id@
            }),
            None => r == Err::<RulePlan, AddError>(AddError::NoUserHome),
        },
{
    if scope != WireScope::User {
        return Err(AddError::UnsupportedScope(scope));
    }
    let id = if rule_id.is_empty() {
        derived_id.to_owned()
    } else {
        rule_id.to_owned()
    };
    match resolve_allowlist_path(allowlist_override, user_path) {
        Ok(target) => Ok(RulePlan { id, target }),
        Err(e) => Err(e),
    }
}

/// The file to remove a rule from. Only rules of the user can be removed here.
pub fn plan_remove(
    scope: WireScope,
    allowlist_override: &Option<String>,
    user_path: &Option<String>,
) -> (r: Result<String, AddError>)
    ensures
        scope != WireScope::User ==> r == Err::<String, AddError>(AddError::UnsupportedScope(scope)),
        scope == WireScope::User ==> match rule_file(*allowlist_override, *user_path) {
            Some(p) => r matches Ok(target) && target@ == p,
            None => r == Err::<String, AddError>(AddError::NoUserHome),
        },
{
    if scope != WireScope::User {
        return Err(AddError::UnsupportedScope(scope));
    }
    resolve_allowlist_path(allowlist_override, user_path)
}

/// The file for known hosts of the user.
pub fn resolve_known_hosts_path(user_path: &Option<String>) -> (r: Result<String, AddError>)
    ensures
        match *user_path {
            Some(p) => r matches Ok(target) && target == p,
            None => r == Err::<String, AddError>(AddError::NoUserHome),
        },
{
    match user_path {
        Some(p) => Ok(p.clone()),
        None => Err(AddError::NoUserHome),
    }
}

/// Where to write a new known host. Only hosts of the user can be added here.
pub fn plan_host(scope: WireScope, user_path: &Option<String>) -> (r: Result<String, AddError>)
    ensures
        scope != WireScope::User ==> r == Err::<String, AddError>(AddError::UnsupportedScope(scope)),
        scope == WireScope::User ==> match *user_path {
            Some(p) => r matches Ok(target) && target == p,
            None => r == Err::<String, AddError>(AddError::NoUserHome),
        },
{
    if scope != WireScope::User {
        return Err(AddError::UnsupportedScope(scope));
    }
    resolve_known_hosts_path(user_path)
}

/// Whether the answer `d` of the rules says that the rule `rule_id` allows.
pub open spec fn allows_by(d: Decision, rule_id: Seq<char>) -> bool {
    d matches Decision::Allow { rule_id: by, .. } && by@ == rule_id
}

/// The rules were asked about this request, and said `d`.
pub open spec fn said<D: Fn(&str, &ParsedCommand) -> Decision>(
    decide: D,
    id: Seq<char>,
    parsed: ParsedCommand,
    d: Decision,
) -> bool {
    exists|i: &str, p: &ParsedCommand|
        i@ == id && *p == parsed && #[trigger] call_ensures(decide, (i, p), d)
}

/// `answers` holds what the rules said of each request that waits with a parsed
/// command.
pub open spec fn said_all<D: Fn(&str, &ParsedCommand) -> Decision>(
    decide: D,
    pending: Seq<(PromptSummary, String)>,
    answers: Seq<Decision>,
) -> bool {
    &&& answers.len() == pending.len()
    &&& forall|i: int|
        0 <= i < pending.len() && (#[trigger] pending[i]).0.parsed is Some ==> said(
            decide,
            pending[i].0.id@,
            pending[i].0.parsed->0,
            answers[i],
        )
}

/// Whether the rule `rule_id` covers the request that the rules answered with
/// `d`. A request without a parsed command is covered by none.
pub open spec fn covered(d: Decision, rule_id: Seq<char>, entry: (PromptSummary, String)) -> bool {
    entry.0.parsed is Some && allows_by(d, rule_id)
}

/// The requests that the rule does not cover.
pub open spec fn uncovered(
    answers: Seq<Decision>,
    rule_id: Seq<char>,
    pending: Seq<(PromptSummary, String)>,
) -> Seq<(PromptSummary, String)>
    decreases pending.len(),
{
    if pending.len() == 0 {
        Seq::empty()
    } else {
        let rest = uncovered(answers.drop_last(), rule_id, pending.drop_last());
        if covered(answers.last(), rule_id, pending.last()) {
            rest
        } else {
            rest.push(pending.last())
        }
    }
}

/// The ids of the requests that the rule covers.
pub open spec fn covered_ids(
    answers: Seq<Decision>,
    rule_id: Seq<char>,
    pending: Seq<(PromptSummary, String)>,
) -> Seq<Seq<char>>
    decreases pending.len(),
{
    if pending.len() == 0 {
        Seq::empty()
    } else {
        let rest = covered_ids(answers.drop_last(), rule_id, pending.drop_last());
        if covered(answers.last(), rule_id, pending.last()) {
            rest.push(pending.last().0.id@)
        } else {
            rest
        }
    }
}

/// The history after the requests that the rule covers were allowed.
pub open spec fn history_after(
    answers: Seq<Decision>,
    rule_id: Seq<char>,
    pending: Seq<(PromptSummary, String)>,
    recent: Seq<ResolvedEntry>,
) -> Seq<ResolvedEntry>
    decreases pending.len(),
{
    if pending.len() == 0 {
        recent
    } else {
        let before = history_after(answers.drop_last(), rule_id, pending.drop_last(), recent);
        if covered(answers.last(), rule_id, pending.last()) {
            recorded(
                before,
                ResolvedEntry {
                    summary: pending.last().0,
                    rendered: pending.last().1,
                    decision: WireDecision::Allow,
                    rule_id: None,
                    rule_scope: None,
                },
            )
        } else {
            before
        }
    }
}

/// The reason for a request that a new rule approved.
pub open spec fn approved_reason(rule_id: Seq<char>) -> Seq<char> {
    "auto-approved by newly added rule `"@ + rule_id + "`"@
}

/// The answer to a request that a new rule approved.
pub fn approval_by_rule(rule_id: &str) -> (r: PendingDecision)
    ensures
        r.decision == WireDecision::Allow,
        r.reason@ == approved_reason(rule_id@),
{
    let mut reason = "auto-approved by newly added rule `".to_owned();
    reason.append(rule_id);
    reason.append("`");
    PendingDecision { decision: WireDecision::Allow, reason }
}

fn is_covered<D: Fn(&str, &ParsedCommand) -> Decision>(
    entry: &(PromptSummary, String),
    rule_id: &str,
    decide: &D,
) -> (r: bool)
    requires
        forall|i: &str, p: &ParsedCommand| #[trigger] call_requires(*decide, (i, p)),
    ensures
        match entry.0.parsed {
            Some(parsed) => exists|d: Decision| #[trigger]
                said(*decide, entry.0.id@, parsed, d) && r == allows_by(d, rule_id@),
            None => !r,
        },
{
    match &entry.0.parsed {
        Some(parsed) => {
            let answer = decide(entry.0.id.as_str(), parsed);
            assert(said(*decide, entry.0.id@, *parsed, answer));
            match answer {
                Decision::Allow { rule_id: by, .. } => same_text(by.as_str(), rule_id),
                _ => false,
            }
        },
        None => false,
    }
}

/// Allows every request that waits and that the rule `rule_id` covers, now that
/// the rules are in force. `decide` is asked once for each request with a parsed
/// command, by its id and the command. A request that another rule would allow
/// goes on waiting. Gives the ids of those that were allowed.
pub fn approve_covered<D: Fn(&str, &ParsedCommand) -> Decision>(
    queue: &mut PendingQueue,
    rule_id: &str,
    decide: &D,
) -> (r: AddedRule)
    requires
        old(queue).wf(),
        forall|i: &str, p: &ParsedCommand| #[trigger] call_requires(*decide, (i, p)),
    ensures
        final(queue).wf(),
        r.id@ == rule_id@,
        exists|answers: Seq<Decision>| #[trigger]
            said_all(*decide, old(queue).pending(), answers) && final(queue).pending() == uncovered(
                answers,
                rule_id@,
                old(queue).pending(),
            ) && texts(r.auto_approved_ids@) == covered_ids(
                answers,
                rule_id@,
                old(queue).pending(),
            ) && final(queue).recent() == history_after(
                answers,
                rule_id@,
                old(queue).pending(),
                old(queue).recent(),
            ),
        forall|i: int|
            0 <= i < r.auto_approved_ids@.len() && i < final(queue).recent().len() ==> {
                &&& (#[trigger] final(queue).recent()[i]).decision == WireDecision::Allow
                &&& final(queue).recent()[i].summary.id@ == r.auto_approved_ids@[r.auto_approved_ids@.len()
                    - 1 - i]@
            },
{
    let answer = approval_by_rule(rule_id);
    let mut ids: Vec<String> = Vec::new();
    let mut i: usize = 0;
    let total: usize = queue.len();
    let mut done: usize = 0;
    let ghost all = queue.pending();
    let ghost recent = queue.recent();
    let ghost mut kept = Seq::<(PromptSummary, String)>::empty();
    let ghost mut answers = Seq::<Decision>::empty();
    proof {
        assert(all.take(0) =~= Seq::empty());
        assert(all =~= kept + all.skip(0));
        assert(texts(ids@) =~= Seq::empty());
    }
    while done < total
        invariant
            done <= total,
            total == all.len(),
            queue.wf(),
            forall|i: &str, p: &ParsedCommand| #[trigger] call_requires(*decide, (i, p)),
            answer.decision == WireDecision::Allow,
            queue.pending() == kept + all.skip(done as int),
            i == kept.len(),
            said_all(*decide, all.take(done as int), answers),
            kept == uncovered(answers, rule_id@, all.take(done as int)),
            texts(ids@) == covered_ids(answers, rule_id@, all.take(done as int)),
            queue.recent() == history_after(answers, rule_id@, all.take(done as int), recent),
        decreases total - done,
    {
        let ghost before = queue.pending();
        let ghost known = texts(ids@);
        assert(before[i as int] == all[done as int]);
        let entries = queue.pending_entries();
        let n: usize = entries.len();
        let hit = is_covered(&entries[i], rule_id, decide);
        let ghost entry = all[done as int];
        let ghost d = if entry.0.parsed is Some {
            choose|d: Decision| #[trigger]
                said(*decide, entry.0.id@, entry.0.parsed->0, d) && hit == allows_by(d, rule_id@)
        } else {
            Decision::Prompt
        };
        if hit {
            let id = entries[i].0.id.clone();
            proof {
                lemma_waiting_is(before, i as int);
                lemma_without_present(before, i as int);
            }
            queue.resolve(id.as_str(), &answer);
            ids.push(id);
            proof {
                assert(texts(ids@) =~= known.push(id@));
                assert(queue.pending() =~= kept + all.skip(done + 1));
            }
        } else {
            i += 1;
            proof {
                kept = kept.push(all[done as int]);
                assert(queue.pending() =~= kept + all.skip(done + 1));
            }
        }
        proof {
            let now = all.take(done + 1);
            let past = answers;
            answers = answers.push(d);
            assert(now.drop_last() =~= all.take(done as int));
            assert(now.last() == entry);
            assert(answers.drop_last() =~= past);
            assert(said_all(*decide, now, answers)) by {
                assert forall|k: int| 0 <= k < now.len() && (#[trigger] now[k]).0.parsed is Some implies said(
                    *decide,
                    now[k].0.id@,
                    now[k].0.parsed->0,
                    answers[k],
                ) by {
                    if k < done {
                        assert(now[k] == all.take(done as int)[k]);
                        assert(answers[k] == past[k]);
                    }
                }
            }
        }
        done += 1;
    }
    proof {
        assert(all.take(done as int) =~= all);
        assert(queue.pending() =~= kept);
        law_a_rule_only_approves(answers, rule_id@, all, recent);
        assert(texts(ids@).len() == ids@.len());
        assert forall|k: int| 0 <= k < ids@.len() && k < queue.recent().len() implies (
        #[trigger] queue.recent()[k]).decision == WireDecision::Allow
            && queue.recent()[k].summary.id@ == ids@[ids@.len() - 1 - k]@ by {
            assert(texts(ids@)[ids@.len() - 1 - k] == ids@[ids@.len() - 1 - k]@);
        }
    }
    AddedRule { id: rule_id.to_owned(), auto_approved_ids: ids }
}

/// Whether the request at place `i` goes on waiting.
pub open spec fn still_waits(
    answers: Seq<Decision>,
    rule_id: Seq<char>,
    pending: Seq<(PromptSummary, String)>,
    i: int,
) -> bool {
    uncovered(answers, rule_id, pending).contains(pending[i])
}

/// Whether the rule covers the request at place `j`, and its id is this.
spec fn approved_at(
    answers: Seq<Decision>,
    rule_id: Seq<char>,
    pending: Seq<(PromptSummary, String)>,
    j: int,
    id: Seq<char>,
) -> bool {
    0 <= j < pending.len() && covered(answers[j], rule_id, pending[j]) && pending[j].0.id@ == id
}

/// Whether the rule does not cover the request at place `j`, which is this.
spec fn kept_at(
    answers: Seq<Decision>,
    rule_id: Seq<char>,
    pending: Seq<(PromptSummary, String)>,
    j: int,
    entry: (PromptSummary, String),
) -> bool {
    0 <= j < pending.len() && !covered(answers[j], rule_id, pending[j]) && pending[j] == entry
}

/// After a rule was added a request waits exactly where the rule does not cover
/// it, and each either still waits or was approved.
pub proof fn law_no_covered_request_waits(
    answers: Seq<Decision>,
    rule_id: Seq<char>,
    pending: Seq<(PromptSummary, String)>,
    i: int,
)
    requires
        answers.len() == pending.len(),
        distinct_ids(pending),
        0 <= i < pending.len(),
    ensures
        still_waits(answers, rule_id, pending, i) <==> !covered(answers[i], rule_id, pending[i]),
        covered_ids(answers, rule_id, pending).contains(pending[i].0.id@) <==> covered(
            answers[i],
            rule_id,
            pending[i],
        ),
        uncovered(answers, rule_id, pending).len() + covered_ids(answers, rule_id, pending).len()
            == pending.len(),
{
    lemma_lists_split(answers, rule_id, pending);
    lemma_uncovered_holds(answers, rule_id, pending, i);
    let rest = uncovered(answers, rule_id, pending);
    let ids = covered_ids(answers, rule_id, pending);
    if rest.contains(pending[i]) {
        let k = choose|k: int| 0 <= k < rest.len() && rest[k] == pending[i];
        lemma_kept_from(answers, rule_id, pending, k);
        let j = choose|j: int| kept_at(answers, rule_id, pending, j, rest[k]);
        lemma_one_place(pending, i, j);
    }
    if ids.contains(pending[i].0.id@) {
        let k = choose|k: int| 0 <= k < ids.len() && ids[k] == pending[i].0.id@;
        lemma_approved_from(answers, rule_id, pending, k);
        let j = choose|j: int| approved_at(answers, rule_id, pending, j, ids[k]);
        lemma_one_place(pending, i, j);
    }
}

proof fn lemma_one_place(pending: Seq<(PromptSummary, String)>, i: int, j: int)
    requires
        distinct_ids(pending),
        0 <= i < pending.len(),
        0 <= j < pending.len(),
        pending[i].0.id@ == pending[j].0.id@,
    ensures
        i == j,
{
    if i < j {
        assert(pending[i].0.id@ != pending[j].0.id@);
    } else if j < i {
        assert(pending[j].0.id@ != pending[i].0.id@);
    }
}

proof fn lemma_lists_split(
    answers: Seq<Decision>,
    rule_id: Seq<char>,
    pending: Seq<(PromptSummary, String)>,
)
    requires
        answers.len() == pending.len(),
    ensures
        uncovered(answers, rule_id, pending).len() + covered_ids(answers, rule_id, pending).len()
            == pending.len(),
    decreases pending.len(),
{
    if pending.len() > 0 {
        lemma_lists_split(answers.drop_last(), rule_id, pending.drop_last());
    }
}

proof fn lemma_kept_from(
    answers: Seq<Decision>,
    rule_id: Seq<char>,
    pending: Seq<(PromptSummary, String)>,
    k: int,
)
    requires
        answers.len() == pending.len(),
        0 <= k < uncovered(answers, rule_id, pending).len(),
    ensures
        exists|j: int|
            kept_at(answers, rule_id, pending, j, uncovered(answers, rule_id, pending)[k]),
    decreases pending.len(),
{
    let a = answers.drop_last();
    let p = pending.drop_last();
    let rest = uncovered(answers, rule_id, pending);
    if k < uncovered(a, rule_id, p).len() {
        assert(rest[k] == uncovered(a, rule_id, p)[k]);
        lemma_kept_from(a, rule_id, p, k);
        let j = choose|j: int| kept_at(a, rule_id, p, j, rest[k]);
        assert(kept_at(answers, rule_id, pending, j, rest[k]));
    } else {
        assert(kept_at(answers, rule_id, pending, pending.len() - 1, rest[k]));
    }
}

proof fn lemma_approved_from(
    answers: Seq<Decision>,
    rule_id: Seq<char>,
    pending: Seq<(PromptSummary, String)>,
    k: int,
)
    requires
        answers.len() == pending.len(),
        0 <= k < covered_ids(answers, rule_id, pending).len(),
    ensures
        exists|j: int|
            approved_at(answers, rule_id, pending, j, covered_ids(answers, rule_id, pending)[k]),
    decreases pending.len(),
{
    let a = answers.drop_last();
    let p = pending.drop_last();
    let ids = covered_ids(answers, rule_id, pending);
    if k < covered_ids(a, rule_id, p).len() {
        assert(ids[k] == covered_ids(a, rule_id, p)[k]);
        lemma_approved_from(a, rule_id, p, k);
        let j = choose|j: int| approved_at(a, rule_id, p, j, ids[k]);
        assert(approved_at(answers, rule_id, pending, j, ids[k]));
    } else {
        assert(approved_at(answers, rule_id, pending, pending.len() - 1, ids[k]));
    }
}

/// Every request of the queue is in one of the two lists.
proof fn lemma_uncovered_holds(
    answers: Seq<Decision>,
    rule_id: Seq<char>,
    pending: Seq<(PromptSummary, String)>,
    i: int,
)
    requires
        answers.len() == pending.len(),
        0 <= i < pending.len(),
    ensures
        !covered(answers[i], rule_id, pending[i]) ==> uncovered(answers, rule_id, pending).contains(
            pending[i],
        ),
        covered(answers[i], rule_id, pending[i]) ==> covered_ids(answers, rule_id, pending).contains(
            pending[i].0.id@,
        ),
    decreases pending.len(),
{
    let a = answers.drop_last();
    let p = pending.drop_last();
    let rest = uncovered(a, rule_id, p);
    let ids = covered_ids(a, rule_id, p);
    if i < p.len() {
        lemma_uncovered_holds(a, rule_id, p, i);
        if covered(answers[i], rule_id, pending[i]) {
            let k = choose|k: int| 0 <= k < ids.len() && ids[k] == pending[i].0.id@;
            assert(covered_ids(answers, rule_id, pending)[k] == pending[i].0.id@);
        } else {
            let k = choose|k: int| 0 <= k < rest.len() && rest[k] == pending[i];
            assert(uncovered(answers, rule_id, pending)[k] == pending[i]);
        }
    } else if covered(answers[i], rule_id, pending[i]) {
        assert(covered_ids(answers, rule_id, pending)[ids.len() as int] == pending[i].0.id@);
    } else {
        assert(uncovered(answers, rule_id, pending)[rest.len() as int] == pending[i]);
    }
}

/// The request that `entry` of the history was made from waited in `pending`,
/// and is shown there as it was.
pub open spec fn comes_from(entry: ResolvedEntry, pending: Seq<(PromptSummary, String)>) -> bool {
    exists|j: int|
        0 <= j < pending.len() && (#[trigger] pending[j]).0 == entry.summary && pending[j].1
            == entry.rendered
}

/// Approving by a rule never denies. After a rule was added the history begins
/// with the requests that it approved, the last of them first and as many as
/// there is room for, and each is allowed there; behind them stands what was in
/// the history before.
pub proof fn law_a_rule_only_approves(
    answers: Seq<Decision>,
    rule_id: Seq<char>,
    pending: Seq<(PromptSummary, String)>,
    recent: Seq<ResolvedEntry>,
)
    requires
        answers.len() == pending.len(),
        recent.len() <= RESOLVED_CAP,
    ensures
        ({
            let after = history_after(answers, rule_id, pending, recent);
            let ids = covered_ids(answers, rule_id, pending);
            let n = ids.len();
            &&& after.len() == if n + recent.len() < RESOLVED_CAP {
                n + recent.len()
            } else {
                RESOLVED_CAP as nat
            }
            &&& forall|i: int|
                0 <= i < n && i < after.len() ==> {
                    &&& (#[trigger] after[i]).decision == WireDecision::Allow
                    &&& after[i].summary.id@ == ids[n - 1 - i]
                    &&& after[i].rule_id is None
                    &&& after[i].rule_scope is None
                    &&& comes_from(after[i], pending)
                }
            &&& forall|i: int| n <= i < after.len() ==> #[trigger] after[i] == recent[i - n]
        }),
    decreases pending.len(),
{
    if pending.len() > 0 {
        let a = answers.drop_last();
        let p = pending.drop_last();
        law_a_rule_only_approves(a, rule_id, p, recent);
        let before = history_after(a, rule_id, p, recent);
        let fewer = covered_ids(a, rule_id, p);
        let after = history_after(answers, rule_id, pending, recent);
        let ids = covered_ids(answers, rule_id, pending);
        let n = ids.len();
        assert forall|e: ResolvedEntry| #[trigger] comes_from(e, p) implies comes_from(e, pending) by {
            let j = choose|j: int|
                0 <= j < p.len() && (#[trigger] p[j]).0 == e.summary && p[j].1 == e.rendered;
            assert(pending[j] == p[j]);
        }
        if n > fewer.len() {
            assert(pending[pending.len() - 1].0 == after[0].summary);
            assert(comes_from(after[0], pending));
            assert forall|i: int| 0 <= i < n && i < after.len() implies {
                &&& (#[trigger] after[i]).decision == WireDecision::Allow
                &&& after[i].summary.id@ == ids[n - 1 - i]
                &&& after[i].rule_id is None
                &&& after[i].rule_scope is None
                &&& comes_from(after[i], pending)
            } by {
                if i > 0 {
                    assert(after[i] == before[i - 1]);
                    assert(ids[n - 1 - i] == fewer[fewer.len() - 1 - (i - 1)]);
                }
            }
            assert forall|i: int| n <= i < after.len() implies #[trigger] after[i] == recent[i - n] by {
                assert(after[i] == before[i - 1]);
            }
        }
    }
}

/// A rule approves exactly the requests that were parsed and that the rules now
/// allow by this very rule; every other one goes on waiting as it was.
pub proof fn law_a_rule_approves_what_it_allows(
    answers: Seq<Decision>,
    rule_id: Seq<char>,
    pending: Seq<(PromptSummary, String)>,
    i: int,
)
    requires
        answers.len() == pending.len(),
        distinct_ids(pending),
        0 <= i < pending.len(),
    ensures
        covered_ids(answers, rule_id, pending).contains(pending[i].0.id@) <==> pending[i].0.parsed is Some
            && answers[i] is Allow && answers[i]->Allow_rule_id@ == rule_id,
        uncovered(answers, rule_id, pending).contains(pending[i]) <==> pending[i].0.parsed is None
            || !(answers[i] is Allow) || answers[i]->Allow_rule_id@ != rule_id,
        forall|e: (PromptSummary, String)| #[trigger]
            uncovered(answers, rule_id, pending).contains(e) ==> pending.contains(e),
{
    law_no_covered_request_waits(answers, rule_id, pending, i);
    let rest = uncovered(answers, rule_id, pending);
    assert forall|e: (PromptSummary, String)| #[trigger] rest.contains(e) implies pending.contains(e) by {
        let k = choose|k: int| 0 <= k < rest.len() && rest[k] == e;
        lemma_kept_from(answers, rule_id, pending, k);
        let j = choose|j: int| kept_at(answers, rule_id, pending, j, rest[k]);
        assert(pending[j] == e);
    }
}

/// Suggestions are made from a request of this id that was parsed, and never
/// from one that was denied. One that waits comes before the history, and where
/// neither has such a request there is none.
pub proof fn law_no_suggestion_from_a_denial(
    pending: Seq<(PromptSummary, String)>,
    recent: Seq<ResolvedEntry>,
    id: Seq<char>,
)
    ensures
        match source(pending, recent, id) {
            Some(s) => s.id@ == id && s.parsed is Some && ((exists|i: int|
                0 <= i < pending.len() && (#[trigger] pending[i]).0 == s) || (exists|j: int|
                0 <= j < recent.len() && (#[trigger] recent[j]).summary == s && !(
                recent[j].decision is Deny))),
            None => {
                &&& forall|i: int|
                    0 <= i < pending.len() ==> (#[trigger] pending[i]).0.id@ != id
                        || pending[i].0.parsed is None
                &&& forall|j: int|
                    0 <= j < recent.len() ==> (#[trigger] recent[j]).summary.id@ != id
                        || recent[j].summary.parsed is None || recent[j].decision is Deny
            },
        },
        (exists|i: int|
            0 <= i < pending.len() && (#[trigger] pending[i]).0.id@ == id && pending[i].0.parsed is Some)
            ==> exists|i: int|
            0 <= i < pending.len() && source(pending, recent, id) == Some((#[trigger] pending[i]).0),
{
    if exists|i: int|
        0 <= i < pending.len() && (#[trigger] pending[i]).0.id@ == id && pending[i].0.parsed is Some {
        let i = choose|i: int|
            0 <= i < pending.len() && (#[trigger] pending[i]).0.id@ == id && pending[i].0.parsed is Some;
        assert(is_pending_source(pending[i], id));
    }
    if !(exists|i: int| 0 <= i < pending.len() && #[trigger] is_pending_source(pending[i], id)) {
        assert forall|i: int| 0 <= i < pending.len() implies (#[trigger] pending[i]).0.id@ != id
            || pending[i].0.parsed is None by {
            assert(!is_pending_source(pending[i], id));
        }
    }
    lemma_recent_source(recent, id);
}

proof fn lemma_recent_source(recent: Seq<ResolvedEntry>, id: Seq<char>)
    ensures
        match recent_source(recent, id) {
            Some(s) => s.id@ == id && s.parsed is Some && exists|j: int|
                0 <= j < recent.len() && (#[trigger] recent[j]).summary == s && !(recent[j].decision is Deny),
            None => forall|j: int|
                0 <= j < recent.len() ==> (#[trigger] recent[j]).summary.id@ != id
                    || recent[j].summary.parsed is None || recent[j].decision is Deny,
        },
    decreases recent.len(),
{
    if recent.len() > 0 && !is_source(recent[0], id) {
        let rest = recent.drop_first();
        lemma_recent_source(rest, id);
        match recent_source(rest, id) {
            Some(s) => {
                let j = choose|j: int|
                    0 <= j < rest.len() && (#[trigger] rest[j]).summary == s && !(rest[j].decision is Deny);
                assert(recent[j + 1] == rest[j]);
            },
            None => {
                assert forall|j: int| 0 <= j < recent.len() implies (#[trigger] recent[j]).summary.id@ != id
                    || recent[j].summary.parsed is None || recent[j].decision is Deny by {
                    if j > 0 {
                        assert(rest[j - 1] == recent[j]);
                    }
                }
            },
        }
    } else if recent.len() > 0 {
        assert(recent[0].summary == recent_source(recent, id)->0);
    }
}

/// A rule is written only for the user, to the file the daemon was started with
/// or else to the user's own, and it is removed from the same file. It keeps the
/// id it was given.
pub proof fn law_rule_goes_to_one_file(
    scope: WireScope,
    rule_id: &str,
    derived_id: &str,
    given: &Option<String>,
    user: &Option<String>,
    added: Result<RulePlan, AddError>,
    removed: Result<String, AddError>,
)
    requires
        call_ensures(plan_rule, (scope, rule_id, derived_id, given, user), added),
        call_ensures(plan_remove, (scope, given, user), removed),
    ensures
        added is Ok <==> removed is Ok,
        added is Ok <==> scope == WireScope::User && (*given is Some || *user is Some),
        added is Ok ==> added->Ok_0.target@ == removed->Ok_0@,
        added is Ok && *given is Some ==> added->Ok_0.target@ == (*given)->0@,
        added is Ok && *given is None ==> added->Ok_0.target@ == (*user)->0@,
        added is Ok && rule_id@.len() > 0 ==> added->Ok_0.id@ == rule_id@,
        added is Ok && rule_id@.len() == 0 ==> added->Ok_0.id@ == derived_id@,
        scope == WireScope::Project ==> added == Err::<RulePlan, AddError>(
            AddError::UnsupportedScope(WireScope::Project),
        ),
        scope == WireScope::User && added is Err ==> added->Err_0 == AddError::NoUserHome,
{
}

/// A host is added only for the user, to the user's own file.
pub proof fn law_host_goes_to_the_user(scope: WireScope, user: &Option<String>, r: Result<String, AddError>)
    requires
        call_ensures(plan_host, (scope, user), r),
    ensures
        r is Ok <==> scope == WireScope::User && *user is Some,
        r is Ok ==> r->Ok_0@ == (*user)->0@,
        r is Err && scope == WireScope::User ==> r->Err_0 == AddError::NoUserHome,
        r is Err && scope == WireScope::Project ==> r->Err_0 == AddError::UnsupportedScope(
            WireScope::Project,
        ),
{
}

/// The answer to a request that a new rule approved allows it and names the rule.
pub proof fn law_approval_names_the_rule(rule_id: &str, r: PendingDecision)
    requires
        call_ensures(approval_by_rule, (rule_id,), r),
    ensures
        r.decision == WireDecision::Allow,
        r.reason@.subrange(35, 35 + rule_id@.len() as int) == rule_id@,
        r.reason@.len() == 36 + rule_id@.len(),
{
    reveal_strlit("auto-approved by newly added rule `");
    reveal_strlit("`");
    assert(r.reason@.subrange(35, 35 + rule_id@.len() as int) =~= rule_id@);
}

/// What went wrong stands at the end of the message.
pub proof fn law_message_says_why(e: AddError)
    ensures
        e matches AddError::Allowlist(why) ==> why@.is_suffix_of(e.text()),
        e matches AddError::KnownHosts(why) ==> why@.is_suffix_of(e.text()),
{
    let text = e.text();
    match e {
        AddError::Allowlist(why) => {
            assert(why@ =~= text.subrange(text.len() - why@.len(), text.len() as int));
        },
        AddError::KnownHosts(why) => {
            assert(why@ =~= text.subrange(text.len() - why@.len(), text.len() as int));
        },
        _ => {},
    }
}

/// After a rule was added no request that it covers waits, each stands in the
/// history as allowed, as far as there is room, and no entry that was added there
/// is a denial.
pub proof fn law_added_rule_never_denies<D: Fn(&str, &ParsedCommand) -> Decision>(
    queue: &mut PendingQueue,
    rule_id: &str,
    decide: &D,
    r: AddedRule,
    i: int,
)
    requires
        old(queue).wf(),
        call_ensures(approve_covered::<D>, (queue, rule_id, decide), r),
        0 <= i < final(queue).recent().len(),
    ensures
        i < r.auto_approved_ids@.len() ==> final(queue).recent()[i].decision == WireDecision::Allow
            && final(queue).recent()[i].summary.id@
            == r.auto_approved_ids@[r.auto_approved_ids@.len() - 1 - i]@ && comes_from(
            final(queue).recent()[i],
            old(queue).pending(),
        ),
        i >= r.auto_approved_ids@.len() ==> final(queue).recent()[i] == old(queue).recent()[i - r.auto_approved_ids@.len()],
        final(queue).pending().len() + r.auto_approved_ids@.len() == old(queue).pending().len(),
        final(queue).recent()[i].decision == WireDecision::Deny ==> old(queue).recent().contains(
            final(queue).recent()[i],
        ),
{
    let pending = old(queue).pending();
    let recent = old(queue).recent();
    let answers = choose|answers: Seq<Decision>| #[trigger]
        said_all(*decide, pending, answers) && final(queue).pending() == uncovered(
            answers,
            rule_id@,
            pending,
        ) && texts(r.auto_approved_ids@) == covered_ids(answers, rule_id@, pending)
            && final(queue).recent() == history_after(answers, rule_id@, pending, recent);
    law_a_rule_only_approves(answers, rule_id@, pending, recent);
    lemma_lists_split(answers, rule_id@, pending);
    let n = r.auto_approved_ids@.len() as int;
    assert(texts(r.auto_approved_ids@).len() == n);
    if i < n {
        assert(texts(r.auto_approved_ids@)[n - 1 - i] == r.auto_approved_ids@[n - 1 - i]@);
    } else {
        assert(recent[i - n] == final(queue).recent()[i]);
    }
}

/// After a rule was added the rules have been asked about each request that
/// waited with a parsed command, and a request was approved exactly where they
/// allow it by this rule; what they answer otherwise leaves it waiting.
pub proof fn law_added_rule_approves_what_it_allows<D: Fn(&str, &ParsedCommand) -> Decision>(
    queue: &mut PendingQueue,
    rule_id: &str,
    decide: &D,
    r: AddedRule,
    i: int,
)
    requires
        old(queue).wf(),
        call_ensures(approve_covered::<D>, (queue, rule_id, decide), r),
        0 <= i < old(queue).pending().len(),
    ensures
        r.id@ == rule_id@,
        old(queue).pending()[i].0.parsed is None ==> final(queue).pending().contains(
            old(queue).pending()[i],
        ),
        old(queue).pending()[i].0.parsed is Some ==> exists|id: &str, p: &ParsedCommand, d: Decision|
            #[trigger] call_ensures(*decide, (id, p), d) && id@ == old(queue).pending()[i].0.id@ && *p
                == old(queue).pending()[i].0.parsed->0 && if d is Allow && d->Allow_rule_id@ == rule_id@ {
                !final(queue).pending().contains(old(queue).pending()[i]) && texts(
                    r.auto_approved_ids@,
                ).contains(old(queue).pending()[i].0.id@)
            } else {
                final(queue).pending().contains(old(queue).pending()[i]) && !texts(
                    r.auto_approved_ids@,
                ).contains(old(queue).pending()[i].0.id@)
            },
{
    let pending = old(queue).pending();
    let recent = old(queue).recent();
    let answers = choose|answers: Seq<Decision>| #[trigger]
        said_all(*decide, pending, answers) && final(queue).pending() == uncovered(
            answers,
            rule_id@,
            pending,
        ) && texts(r.auto_approved_ids@) == covered_ids(answers, rule_id@, pending)
            && final(queue).recent() == history_after(answers, rule_id@, pending, recent);
    law_a_rule_approves_what_it_allows(answers, rule_id@, pending, i);
    if pending[i].0.parsed is Some {
        assert(said(*decide, pending[i].0.id@, pending[i].0.parsed->0, answers[i]));
        let (id, p) = choose|id: &str, p: &ParsedCommand|
            id@ == pending[i].0.id@ && *p == pending[i].0.parsed->0 && #[trigger] call_ensures(
                *decide,
                (id, p),
                answers[i],
            );
        assert(call_ensures(*decide, (id, p), answers[i]));
    }
}

} // verus!
