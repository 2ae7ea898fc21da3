//! The queue of requests that wait for a human, and the ring of those that
//! were decided lately.
//!
//! A connection worker that needs a decision submits its request and waits. A
//! surface (notification, popover, window, admin socket) resolves it by its
//! id. What is resolved goes to the front of a bounded history. The queue
//! itself holds no thread and no lock: it says of each operation whether the
//! observers are to be told, and the process around it does the waking.
use crate::audit::AuditEntry;
use crate::command::{ParsedCommand, RiskSignal, RuleScope, SignalKind, WireDecision};
use crate::policy::{
    flag_answers, host_flags, law_flag_is_an_answer, law_flags_follow_the_list, HostAnswers, HostLookups,
};
use vstd::prelude::*;
use vstd::string::*;

verus! {

/// The most resolved requests that are kept.
pub const RESOLVED_CAP: usize = 20;

/// Why a request is denied that still waits when the daemon stops.
pub const SHUTDOWN_REASON: &'static str = "daemon shutting down";

/// One request as the surfaces show it.
#[derive(Debug, Clone, PartialEq, Eq)]
pub struct PromptSummary {
    /// The id of the request.
    pub id: String,
    /// The name of its parser, such as `curl`.
    pub command: String,
    /// The verb to show, such as `GET`, or nothing.
    pub primary_verb: String,
    /// The target to show, mostly a URL.
    pub primary_target: String,
    /// Whether the caller asked for a prompt whatever the rules say.
    pub force_prompt: bool,
    pub signals: Vec<RiskSignal>,
    /// The parsed command. A summary without one shows its verb and target.
    pub parsed: Option<ParsedCommand>,
    /// For each effect of the command whether it is a request to a host that
    /// is known.
    pub host_known: Vec<bool>,
    /// The terminal session that the request came from, if it has one.
    pub peer_sid: Option<i32>,
}

/// A request that was decided, with what its card showed.
#[derive(Debug, Clone, PartialEq, Eq)]
pub struct ResolvedEntry {
    pub summary: PromptSummary,
    pub rendered: String,
    pub decision: WireDecision,
    /// The rule that decided, where a rule did.
    pub rule_id: Option<String>,
    /// The layer of that rule.
    pub rule_scope: Option<RuleScope>,
}

/// `e` is the entry of the history that the line `entry` of the audit log
/// stands for.
pub open spec fn restores(entry: AuditEntry, e: ResolvedEntry) -> bool {
    &&& e.summary.id == entry.id
    &&& e.summary.command == entry.command
    &&& e.summary.primary_verb == entry.primary_verb
    &&& e.summary.primary_target == entry.primary_target
    &&& e.summary.force_prompt == entry.force_prompt
    &&& e.summary.signals == entry.signals
    &&& e.summary.parsed == entry.parsed
    &&& e.summary.host_known == entry.host_known
    &&& e.summary.peer_sid == entry.peer_sid
    &&& e.rendered == entry.rendered
    &&& e.decision == entry.decision
    &&& e.rule_id == entry.rule_id
    &&& e.rule_scope == entry.rule_scope
}

impl ResolvedEntry {
    /// The entry of the history for a line of the audit log, where the line
    /// carries what a card needs: a rendered detail and a parsed command.
    pub fn try_from_audit(entry: AuditEntry) -> (r: Option<ResolvedEntry>)
        ensures
            r is Some <==> entry.rendered@.len() > 0 && entry.parsed is Some,
            r matches Some(e) ==> restores(entry, e),
    {
        if entry.rendered.as_str().is_empty() || entry.parsed.is_none() {
            return None;
        }
        Some(
            ResolvedEntry {
                summary: PromptSummary {
                    id: entry.id,
                    command: entry.command,
                    primary_verb: entry.primary_verb,
                    primary_target: entry.primary_target,
                    force_prompt: entry.force_prompt,
                    signals: entry.signals,
                    parsed: entry.parsed,
                    host_known: entry.host_known,
                    peer_sid: entry.peer_sid,
                },
                rendered: entry.rendered,
                decision: entry.decision,
                rule_id: entry.rule_id,
                rule_scope: entry.rule_scope,
            },
        )
    }
}

/// The answer of a surface, with a reason for humans.
#[derive(Debug, Clone, PartialEq, Eq)]
pub struct PendingDecision {
    pub decision: WireDecision,
    pub reason: String,
}

impl PendingDecision {
    pub fn allow(reason: &str) -> (r: PendingDecision)
        ensures
            r.decision == WireDecision::Allow,
            r.reason@ == reason@,
    {
        PendingDecision { decision: WireDecision::Allow, reason: reason.to_owned() }
    }

    pub fn deny(reason: &str) -> (r: PendingDecision)
        ensures
            r.decision == WireDecision::Deny,
            r.reason@ == reason@,
    {
        PendingDecision { decision: WireDecision::Deny, reason: reason.to_owned() }
    }
}

/// What the queue tells the notifier of a submission.
#[derive(Debug, Clone, Copy, PartialEq, Eq, Structural)]
pub struct NotifyHint {
    /// Whether the queue was empty before. Only such a request raises a
    /// banner: the others of a burst are seen where the first one leads.
    pub was_empty_before: bool,
}

impl Default for NotifyHint {
    fn default() -> (r: NotifyHint)
        ensures
            !r.was_empty_before,
    {
        NotifyHint { was_empty_before: false }
    }
}

/// Whether a request with this id waits.
pub open spec fn waits(pending: Seq<(PromptSummary, String)>, id: Seq<char>) -> bool {
    exists|i: int| 0 <= i < pending.len() && (#[trigger] pending[i]).0.id@ == id
}

/// The request that waits under this id.
pub open spec fn waiting(pending: Seq<(PromptSummary, String)>, id: Seq<char>) -> (
    PromptSummary,
    String,
) {
    pending[choose|i: int| 0 <= i < pending.len() && (#[trigger] pending[i]).0.id@ == id]
}

/// The one request of a queue that has the id.
pub proof fn lemma_waiting_is(pending: Seq<(PromptSummary, String)>, i: int)
    requires
        distinct_ids(pending),
        0 <= i < pending.len(),
    ensures
        waits(pending, pending[i].0.id@),
        waiting(pending, pending[i].0.id@) == pending[i],
{
    let id = pending[i].0.id@;
    let k = choose|k: int| 0 <= k < pending.len() && (#[trigger] pending[k]).0.id@ == id;
    if k < i {
        assert(pending[k].0.id@ != pending[i].0.id@);
    } else if i < k {
        assert(pending[i].0.id@ != pending[k].0.id@);
    }
}

/// The requests that wait, without the one of this id.
pub open spec fn without(pending: Seq<(PromptSummary, String)>, id: Seq<char>) -> Seq<
    (PromptSummary, String),
>
    decreases pending.len(),
{
    if pending.len() == 0 {
        Seq::empty()
    } else {
        let rest = without(pending.drop_last(), id);
        if pending.last().0.id@ == id {
            rest
        } else {
            rest.push(pending.last())
        }
    }
}

/// Whether no two requests have the same id.
pub open spec fn distinct_ids(pending: Seq<(PromptSummary, String)>) -> bool {
    forall|i: int, j: int|
        0 <= i < j < pending.len() ==> (#[trigger] pending[i]).0.id@ != (#[trigger] pending[j]).0.id@
}

/// The history with `entry` in front, without what is over the cap.
pub open spec fn recorded(recent: Seq<ResolvedEntry>, entry: ResolvedEntry) -> Seq<ResolvedEntry> {
    let all = seq![entry] + recent;
    if all.len() > RESOLVED_CAP {
        all.take(RESOLVED_CAP as int)
    } else {
        all
    }
}

/// The history with older entries behind it, as many as the cap has room for.
pub open spec fn warmed(recent: Seq<ResolvedEntry>, older: Seq<ResolvedEntry>) -> Seq<
    ResolvedEntry,
> {
    let all = recent + older;
    if all.len() > RESOLVED_CAP {
        all.take(RESOLVED_CAP as int)
    } else {
        all
    }
}

/// The signals that do not speak of unknown hosts.
pub open spec fn lasting(signals: Seq<RiskSignal>) -> Seq<RiskSignal>
    decreases signals.len(),
{
    if signals.len() == 0 {
        Seq::empty()
    } else {
        let rest = lasting(signals.drop_last());
        if signals.last().kind == SignalKind::UnknownHost {
            rest
        } else {
            rest.push(signals.last())
        }
    }
}

/// `new` is the summary `old_` with its host signals and host flags derived
/// anew, by the answers that were given; nothing else changes. A summary
/// without a parsed command stays as it is.
pub open spec fn refreshed<
    K: Fn(&str) -> bool,
    L: Fn(&str) -> bool,
    C: Fn(&str, &ParsedCommand) -> Vec<RiskSignal>,
>(hosts: HostLookups<K, L, C>, old_: PromptSummary, new: PromptSummary) -> bool {
    if old_.parsed is None {
        new == old_
    } else {
        &&& new.id == old_.id
        &&& new.command == old_.command
        &&& new.primary_verb == old_.primary_verb
        &&& new.primary_target == old_.primary_target
        &&& new.force_prompt == old_.force_prompt
        &&& new.parsed == old_.parsed
        &&& new.peer_sid == old_.peer_sid
        &&& exists|found: Seq<RiskSignal>| #[trigger]
            hosts.checked(old_.id@, old_.parsed->0, found) && new.signals@ == lasting(
                old_.signals@,
            ) + found
        &&& hosts.flags_told(old_.parsed->0.effects@, new.host_known@)
    }
}

/// The requests that wait and those that were resolved lately, newest first.
#[derive(Debug)]
pub struct PendingQueue {
    entries: Vec<(PromptSummary, String)>,
    resolved: Vec<ResolvedEntry>,
}

proof fn lemma_without_absent(pending: Seq<(PromptSummary, String)>, id: Seq<char>)
    requires
        !waits(pending, id),
    ensures
        without(pending, id) == pending,
    decreases pending.len(),
{
    if pending.len() > 0 {
        let front = pending.drop_last();
        assert(pending[pending.len() - 1].0.id@ != id);
        assert(!waits(front, id)) by {
            assert forall|i: int| 0 <= i < front.len() implies (#[trigger] front[i]).0.id@ != id by {
                assert(pending[i].0.id@ != id);
            }
        }
        lemma_without_absent(front, id);
        assert(without(pending, id) =~= pending);
    } else {
        assert(without(pending, id) =~= pending);
    }
}

pub proof fn lemma_without_present(pending: Seq<(PromptSummary, String)>, i: int)
    requires
        distinct_ids(pending),
        0 <= i < pending.len(),
    ensures
        without(pending, pending[i].0.id@) == pending.remove(i),
    decreases pending.len(),
{
    let id = pending[i].0.id@;
    let front = pending.drop_last();
    assert(distinct_ids(front)) by {
        assert forall|a: int, b: int| 0 <= a < b < front.len() implies (#[trigger] front[a]).0.id@ != (
        #[trigger] front[b]).0.id@ by {
            assert(pending[a].0.id@ != pending[b].0.id@);
        }
    }
    if i == pending.len() - 1 {
        assert(!waits(front, id)) by {
            assert forall|k: int| 0 <= k < front.len() implies (#[trigger] front[k]).0.id@ != id by {
                assert(pending[k].0.id@ != pending[i].0.id@);
            }
        }
        lemma_without_absent(front, id);
        assert(pending.remove(i) =~= front);
    } else {
        assert(front[i] == pending[i]);
        lemma_without_present(front, i);
        assert(pending[pending.len() - 1].0.id@ != id);
        assert(pending.remove(i) =~= front.remove(i).push(pending.last()));
    }
}

/// Removing a request leaves the others, each as it was and in its order, and
/// takes it away.
pub proof fn lemma_without(pending: Seq<(PromptSummary, String)>, id: Seq<char>)
    requires
        distinct_ids(pending),
    ensures
        distinct_ids(without(pending, id)),
        !waits(without(pending, id), id),
        without(pending, id).len() == (if waits(pending, id) {
            pending.len() - 1
        } else {
            pending.len() as int
        }),
        forall|other: Seq<char>| other != id ==> (#[trigger] waits(without(pending, id), other)
            <==> waits(pending, other)),
{
    let rest = without(pending, id);
    if waits(pending, id) {
        let i = choose|i: int| 0 <= i < pending.len() && (#[trigger] pending[i]).0.id@ == id;
        lemma_without_present(pending, i);
        assert(rest == pending.remove(i));
        assert forall|a: int, b: int| 0 <= a < b < rest.len() implies (#[trigger] rest[a]).0.id@ != (
        #[trigger] rest[b]).0.id@ by {
            let x = if a < i {
                a
            } else {
                a + 1
            };
            let y = if b < i {
                b
            } else {
                b + 1
            };
            assert(rest[a] == pending[x] && rest[b] == pending[y]);
            assert(pending[x].0.id@ != pending[y].0.id@);
        }
        assert forall|k: int| 0 <= k < rest.len() implies (#[trigger] rest[k]).0.id@ != id by {
            if k < i {
                assert(rest[k] == pending[k]);
                assert(pending[k].0.id@ != pending[i].0.id@);
            } else {
                assert(rest[k] == pending[k + 1]);
                assert(pending[i].0.id@ != pending[k + 1].0.id@);
            }
        }
        assert forall|other: Seq<char>| other != id implies (#[trigger] waits(rest, other) <==> waits(
            pending,
            other,
        )) by {
            if waits(rest, other) {
                let k = choose|k: int| 0 <= k < rest.len() && (#[trigger] rest[k]).0.id@ == other;
                let x = if k < i {
                    k
                } else {
                    k + 1
                };
                assert(rest[k] == pending[x]);
                assert(pending[x].0.id@ == other);
            }
            if waits(pending, other) {
                let x = choose|x: int| 0 <= x < pending.len() && (#[trigger] pending[x]).0.id@ == other;
                let k = if x < i {
                    x
                } else {
                    x - 1
                };
                assert(rest[k] == pending[x]);
                assert(rest[k].0.id@ == other);
            }
        }
    } else {
        lemma_without_absent(pending, id);
    }
}

/// Takes the signals of unknown hosts out of a list.
fn keep_lasting(signals: &Vec<RiskSignal>) -> (r: Vec<RiskSignal>)
    ensures
        r@ == lasting(signals@),
{
    let mut out: Vec<RiskSignal> = Vec::new();
    let mut i: usize = 0;
    assert(signals@.take(0) =~= Seq::empty());
    while i < signals.len()
        invariant
            i <= signals.len(),
            out@ == lasting(signals@.take(i as int)),
        decreases signals.len() - i,
    {
        proof {
            let next = signals@.take(i + 1);
            assert(next.drop_last() =~= signals@.take(i as int));
            assert(next.last() == signals@[i as int]);
        }
        if signals[i].kind != SignalKind::UnknownHost {
            out.push(signals[i].clone());
        }
        i += 1;
    }
    assert(signals@.take(i as int) =~= signals@);
    out
}

/// Derives the host signals and host flags of a summary anew.
pub fn refresh_summary<
    K: Fn(&str) -> bool,
    L: Fn(&str) -> bool,
    C: Fn(&str, &ParsedCommand) -> Vec<RiskSignal>,
>(summary: &mut PromptSummary, hosts: &HostLookups<K, L, C>)
    requires
        hosts.ready(),
    ensures
        refreshed(*hosts, *old(summary), *final(summary)),
        final(summary).id == old(summary).id,
        forall|i: int|
            0 <= i < old(summary).signals@.len() && (#[trigger] old(summary).signals@[i]).kind
                != SignalKind::UnknownHost ==> final(summary).signals@.contains(
                old(summary).signals@[i],
            ),
{
    let ghost before = *summary;
    if let Some(parsed) = &summary.parsed {
        let mut signals = keep_lasting(&summary.signals);
        let check = &hosts.check;
        let mut found = check(summary.id.as_str(), parsed);
        assert(hosts.checked(summary.id@, *parsed, found@));
        let known = host_flags(&parsed.effects, hosts);
        signals.append(&mut found);
        summary.signals = signals;
        summary.host_known = known;
    }
    proof {
        if before.parsed is Some {
            law_refresh_drops_only_host_warnings(*hosts, before, *summary);
        }
    }
}

impl PendingQueue {
    /// The requests that wait, each with its rendered detail.
    pub closed spec fn pending(&self) -> Seq<(PromptSummary, String)> {
        self.entries@
    }

    /// The requests resolved lately, newest first.
    pub closed spec fn recent(&self) -> Seq<ResolvedEntry> {
        self.resolved@
    }

    /// The whole of the queue.
    pub open spec fn state(&self) -> QueueState {
        QueueState { pending: self.pending(), recent: self.recent() }
    }

    /// No two requests wait under one id, and the history keeps to its cap.
    pub open spec fn wf(&self) -> bool {
        &&& distinct_ids(self.pending())
        &&& self.recent().len() <= RESOLVED_CAP
    }

    /// An empty queue.
    pub fn new() -> (r: PendingQueue)
        ensures
            r.wf(),
            r.pending().len() == 0,
            r.recent().len() == 0,
    {
        PendingQueue { entries: Vec::new(), resolved: Vec::new() }
    }

    /// Where the request of this id stands.
    fn position(&self, id: &str) -> (r: Option<usize>)
        ensures
            r is Some <==> waits(self.pending(), id@),
            r matches Some(i) ==> i < self.pending().len() && self.pending()[i as int].0.id@ == id@,
    {
        let wanted = id.to_owned();
        let mut i: usize = 0;
        while i < self.entries.len()
            invariant
                i <= self.entries.len(),
                wanted@ == id@,
                forall|k: int| 0 <= k < i ==> (#[trigger] self.entries@[k]).0.id@ != id@,
            decreases self.entries.len() - i,
        {
            if self.entries[i].0.id == wanted {
                assert(self.pending()[i as int].0.id@ == id@);
                return Some(i);
            }
            i += 1;
        }
        None
    }

    /// Submits a request without a rendered detail.
    pub fn submit(&mut self, summary: PromptSummary) -> (hint: NotifyHint)
        requires
            old(self).wf(),
        ensures
            final(self).wf(),
            hint.was_empty_before == (old(self).pending().len() == 0),
            final(self).pending().len() > 0,
            final(self).pending().drop_last() == without(old(self).pending(), summary.id@),
            final(self).pending().last().0 == summary,
            final(self).pending().last().1@.len() == 0,
            final(self).recent() == old(self).recent(),
            steps_to(
                (QueueStep::Submit { summary, rendered: final(self).pending().last().1 }),
                old(self).state(),
                final(self).state(),
            ),
    {
        let hint = self.submit_with_render(summary, String::new());
        assert(self.pending().drop_last() =~= without(old(self).pending(), summary.id@));
        hint
    }

    /// Submits a request: it waits under its id, in place of one that waited
    /// under the same id before. The observers are to be told.
    pub fn submit_with_render(&mut self, summary: PromptSummary, rendered: String) -> (hint: NotifyHint)
        requires
            old(self).wf(),
        ensures
            final(self).wf(),
            hint.was_empty_before == (old(self).pending().len() == 0),
            final(self).pending() == without(old(self).pending(), summary.id@).push(
                (summary, rendered),
            ),
            final(self).recent() == old(self).recent(),
            steps_to(
                (QueueStep::Submit { summary, rendered }),
                old(self).state(),
                final(self).state(),
            ),
    {
        let ghost before = self.pending();
        proof {
            lemma_without(before, summary.id@);
        }
        let hint = NotifyHint { was_empty_before: self.entries.len() == 0 };
        if let Some(i) = self.position(summary.id.as_str()) {
            proof {
                lemma_without_present(before, i as int);
            }
            self.entries.remove(i);
        } else {
            proof {
                lemma_without_absent(before, summary.id@);
            }
        }
        let ghost rest = self.pending();
        let ghost id = summary.id@;
        self.entries.push((summary, rendered));
        proof {
            let now = self.pending();
            assert forall|a: int, b: int| 0 <= a < b < now.len() implies (#[trigger] now[a]).0.id@ != (
            #[trigger] now[b]).0.id@ by {
                assert(now[a] == rest[a]);
                if b < rest.len() {
                    assert(now[b] == rest[b]);
                } else {
                    assert(!waits(rest, id));
                    assert(rest[a].0.id@ != id);
                }
            }
        }
        hint
    }

    /// Puts an entry at the front of the history.
    fn record(&mut self, entry: ResolvedEntry)
        requires
            old(self).wf(),
        ensures
            final(self).wf(),
            final(self).pending() == old(self).pending(),
            final(self).recent() == recorded(old(self).recent(), entry),
    {
        let ghost before = self.recent();
        self.resolved.insert(0, entry);
        assert(self.resolved@ =~= seq![entry] + before);
        if self.resolved.len() > RESOLVED_CAP {
            self.resolved.truncate(RESOLVED_CAP);
        }
        assert(self.resolved@ =~= recorded(before, entry));
    }

    /// Resolves the request of this id: it waits no more, and goes to the front
    /// of the history. Says whether a request waited under the id; the
    /// observers are to be told where one did.
    pub fn resolve(&mut self, id: &str, decision: &PendingDecision) -> (hit: bool)
        requires
            old(self).wf(),
        ensures
            final(self).wf(),
            hit == waits(old(self).pending(), id@),
            final(self).pending() == without(old(self).pending(), id@),
            !hit ==> final(self).recent() == old(self).recent(),
            hit ==> final(self).recent() == recorded(
                old(self).recent(),
                ResolvedEntry {
                    summary: waiting(old(self).pending(), id@).0,
                    rendered: waiting(old(self).pending(), id@).1,
                    decision: decision.decision,
                    rule_id: None,
                    rule_scope: None,
                },
            ),
            steps_to(
                (QueueStep::Resolve { id: id@, decision: decision.decision }),
                old(self).state(),
                final(self).state(),
            ),
    {
        let ghost before = self.pending();
        proof {
            lemma_without(before, id@);
        }
        match self.position(id) {
            Some(i) => {
                proof {
                    lemma_without_present(before, i as int);
                    let k = choose|k: int| 0 <= k < before.len() && (#[trigger] before[k]).0.id@ == id@;
                    assert(k == i) by {
                        if k < i {
                            assert(before[k].0.id@ != before[i as int].0.id@);
                        } else if i < k {
                            assert(before[i as int].0.id@ != before[k].0.id@);
                        }
                    }
                }
                let (summary, rendered) = self.entries.remove(i);
                self.record(
                    ResolvedEntry {
                        summary,
                        rendered,
                        decision: decision.decision,
                        rule_id: None,
                        rule_scope: None,
                    },
                );
                true
            },
            None => {
                proof {
                    lemma_without_absent(before, id@);
                }
                false
            },
        }
    }

    /// Puts a request into the history that a rule decided and that never
    /// waited. The observers are to be told.
    pub fn record_auto(
        &mut self,
        summary: PromptSummary,
        rendered: String,
        decision: WireDecision,
        rule_id: Option<String>,
        rule_scope: Option<RuleScope>,
    )
        requires
            old(self).wf(),
        ensures
            final(self).wf(),
            final(self).pending() == old(self).pending(),
            final(self).recent() == recorded(
                old(self).recent(),
                (ResolvedEntry { summary, rendered, decision, rule_id, rule_scope }),
            ),
            steps_to(
                QueueStep::RecordAuto(
                    (ResolvedEntry { summary, rendered, decision, rule_id, rule_scope }),
                ),
                old(self).state(),
                final(self).state(),
            ),
    {
        self.record(ResolvedEntry { summary, rendered, decision, rule_id, rule_scope });
    }

    /// Fills the history from older entries, newest first, as far as the cap
    /// allows. Says whether any was added; the observers are to be told where
    /// one was.
    pub fn warm_resolved(&mut self, older: Vec<ResolvedEntry>) -> (added: bool)
        requires
            old(self).wf(),
        ensures
            final(self).wf(),
            final(self).pending() == old(self).pending(),
            final(self).recent() == warmed(old(self).recent(), older@),
            added == (final(self).recent().len() > old(self).recent().len()),
            steps_to(QueueStep::WarmResolved(older@), old(self).state(), final(self).state()),
    {
        let ghost before = self.recent();
        let room: usize = RESOLVED_CAP - self.resolved.len();
        let added = room > 0 && older.len() > 0;
        let mut rest = older;
        self.resolved.append(&mut rest);
        assert(self.resolved@ =~= before + older@);
        if self.resolved.len() > RESOLVED_CAP {
            self.resolved.truncate(RESOLVED_CAP);
        }
        assert(self.resolved@ =~= warmed(before, older@));
        added
    }

    /// Drops every request that waits, and the history. Says whether any
    /// waited; the observers are to be told where one did.
    pub fn cancel_all(&mut self) -> (had_pending: bool)
        ensures
            final(self).wf(),
            final(self).pending().len() == 0,
            final(self).recent().len() == 0,
            had_pending == (old(self).pending().len() > 0),
            steps_to(QueueStep::CancelAll, old(self).state(), final(self).state()),
    {
        let had = self.entries.len() > 0;
        self.entries.clear();
        self.resolved.clear();
        had
    }

    /// How many requests wait.
    pub fn len(&self) -> (r: usize)
        ensures
            r == self.pending().len(),
    {
        self.entries.len()
    }

    pub fn is_empty(&self) -> (r: bool)
        ensures
            r == (self.pending().len() == 0),
    {
        self.entries.len() == 0
    }

    /// The summaries of the requests that wait.
    pub fn pending_summaries(&self) -> (r: Vec<&PromptSummary>)
        ensures
            r.len() == self.pending().len(),
            forall|i: int| 0 <= i < r.len() ==> *(#[trigger] r@[i]) == self.pending()[i].0,
    {
        let mut out: Vec<&PromptSummary> = Vec::new();
        let mut i: usize = 0;
        while i < self.entries.len()
            invariant
                i <= self.entries.len(),
                out.len() == i,
                forall|k: int| 0 <= k < i ==> *(#[trigger] out@[k]) == self.entries@[k].0,
            decreases self.entries.len() - i,
        {
            out.push(&self.entries[i].0);
            i += 1;
        }
        out
    }

    /// The requests that wait, each with its rendered detail.
    pub fn pending_entries(&self) -> (r: &Vec<(PromptSummary, String)>)
        ensures
            r@ == self.pending(),
    {
        &self.entries
    }

    /// The requests resolved lately, newest first.
    pub fn resolved_entries(&self) -> (r: &Vec<ResolvedEntry>)
        ensures
            r@ == self.recent(),
    {
        &self.resolved
    }

    /// Both lists, as they are at one moment.
    pub fn all_entries(&self) -> (r: (&Vec<(PromptSummary, String)>, &Vec<ResolvedEntry>))
        ensures
            r.0@ == self.pending(),
            r.1@ == self.recent(),
    {
        (&self.entries, &self.resolved)
    }

    /// Derives the host signals and host flags of every request anew, of those
    /// that wait and of those in the history. Says whether there was any; the
    /// observers are to be told where there was.
    pub fn refresh_with<
        K: Fn(&str) -> bool,
        L: Fn(&str) -> bool,
        C: Fn(&str, &ParsedCommand) -> Vec<RiskSignal>,
    >(&mut self, hosts: &HostLookups<K, L, C>) -> (any: bool)
        requires
            old(self).wf(),
            hosts.ready(),
        ensures
            final(self).wf(),
            any == (old(self).pending().len() > 0 || old(self).recent().len() > 0),
            final(self).pending().len() == old(self).pending().len(),
            final(self).recent().len() == old(self).recent().len(),
            forall|i: int|
                0 <= i < old(self).pending().len() ==> refreshed(
                    *hosts,
                    old(self).pending()[i].0,
                    (#[trigger] final(self).pending()[i]).0,
                ) && final(self).pending()[i].1 == old(self).pending()[i].1,
            forall|i: int|
                0 <= i < old(self).recent().len() ==> refreshed(
                    *hosts,
                    old(self).recent()[i].summary,
                    (#[trigger] final(self).recent()[i]).summary,
                ) && (final(self).recent()[i] == ResolvedEntry {
                    summary: final(self).recent()[i].summary,
                    ..old(self).recent()[i]
                }),
            stamps(final(self).recent()) == stamps(old(self).recent()),
            steps_to(QueueStep::RefreshWith, old(self).state(), final(self).state()),
    {
        let any = self.entries.len() > 0 || self.resolved.len() > 0;
        let ghost before = self.entries@;
        let ghost history = self.resolved@;
        let mut i: usize = 0;
        while i < self.entries.len()
            invariant
                hosts.ready(),
                i <= self.entries.len(),
                self.entries@.len() == before.len(),
                self.resolved@ == history,
                distinct_ids(before),
                forall|k: int| 0 <= k < before.len() ==> (#[trigger] self.entries@[k]).0.id == before[k].0.id,
                forall|k: int| i <= k < before.len() ==> (#[trigger] self.entries@[k]) == before[k],
                forall|k: int|
                    0 <= k < i ==> refreshed(*hosts, before[k].0, (#[trigger] self.entries@[k]).0)
                        && self.entries@[k].1 == before[k].1,
            decreases self.entries.len() - i,
        {
            refresh_summary(&mut self.entries[i].0, hosts);
            i += 1;
        }
        let mut j: usize = 0;
        while j < self.resolved.len()
            invariant
                hosts.ready(),
                j <= self.resolved.len(),
                self.entries@.len() == before.len(),
                self.resolved@.len() == history.len(),
                forall|k: int| 0 <= k < before.len() ==> (#[trigger] self.entries@[k]).0.id == before[k].0.id,
                forall|k: int|
                    0 <= k < before.len() ==> refreshed(
                        *hosts,
                        before[k].0,
                        (#[trigger] self.entries@[k]).0,
                    ) && self.entries@[k].1 == before[k].1,
                forall|k: int| j <= k < history.len() ==> (#[trigger] self.resolved@[k]) == history[k],
                forall|k: int|
                    0 <= k < j ==> refreshed(
                        *hosts,
                        history[k].summary,
                        (#[trigger] self.resolved@[k]).summary,
                    ) && (self.resolved@[k] == ResolvedEntry {
                        summary: self.resolved@[k].summary,
                        ..history[k]
                    }),
            decreases self.resolved.len() - j,
        {
            refresh_summary(&mut self.resolved[j].summary, hosts);
            j += 1;
        }
        proof {
            let now = self.pending();
            assert forall|a: int, b: int| 0 <= a < b < now.len() implies (#[trigger] now[a]).0.id@ != (
            #[trigger] now[b]).0.id@ by {
                assert(self.entries@[a].0.id == before[a].0.id);
                assert(self.entries@[b].0.id == before[b].0.id);
                assert(before[a].0.id@ != before[b].0.id@);
            }
            assert(stamps(self.recent()) =~= stamps(history));
        }
        any
    }
}

/// A request that is submitted waits under its id, as it was submitted.
pub proof fn law_submitted_waits(
    pending: Seq<(PromptSummary, String)>,
    summary: PromptSummary,
    rendered: String,
)
    requires
        distinct_ids(pending),
    ensures
        waits(without(pending, summary.id@).push((summary, rendered)), summary.id@),
        waiting(without(pending, summary.id@).push((summary, rendered)), summary.id@) == (
            summary,
            rendered,
        ),
{
    let rest = without(pending, summary.id@);
    let now = rest.push((summary, rendered));
    lemma_without(pending, summary.id@);
    assert(now[rest.len() as int].0.id@ == summary.id@);
    let k = choose|k: int| 0 <= k < now.len() && (#[trigger] now[k]).0.id@ == summary.id@;
    if k < rest.len() {
        assert(rest[k].0.id@ == summary.id@);
    }
}

/// A request is resolved at most once: after it was, none waits under its id,
/// and every other request waits that waited before.
pub proof fn law_resolved_once(pending: Seq<(PromptSummary, String)>, id: Seq<char>)
    requires
        distinct_ids(pending),
    ensures
        !waits(without(pending, id), id),
        without(without(pending, id), id) == without(pending, id),
        forall|other: Seq<char>| other != id ==> (#[trigger] waits(without(pending, id), other)
            <==> waits(pending, other)),
{
    lemma_without(pending, id);
    lemma_without_absent(without(pending, id), id);
}

/// Submitting a request and resolving it leaves the others that waited.
pub proof fn law_submit_then_resolve(
    pending: Seq<(PromptSummary, String)>,
    summary: PromptSummary,
    rendered: String,
)
    requires
        distinct_ids(pending),
    ensures
        without(without(pending, summary.id@).push((summary, rendered)), summary.id@) == without(
            pending,
            summary.id@,
        ),
{
    let rest = without(pending, summary.id@);
    let now = rest.push((summary, rendered));
    lemma_without(pending, summary.id@);
    lemma_without_absent(rest, summary.id@);
    assert(now.drop_last() =~= rest);
}

/// The history is newest first: the entry recorded last stands in front, those
/// before it move back by one, and only what is over the cap is lost.
pub proof fn law_history_is_newest_first(recent: Seq<ResolvedEntry>, entry: ResolvedEntry)
    requires
        recent.len() <= RESOLVED_CAP,
    ensures
        recorded(recent, entry)[0] == entry,
        recorded(recent, entry).len() == (if recent.len() < RESOLVED_CAP {
            recent.len() + 1
        } else {
            RESOLVED_CAP as nat
        }),
        forall|i: int|
            1 <= i < recorded(recent, entry).len() ==> (#[trigger] recorded(recent, entry)[i])
                == recent[i - 1],
{
}

proof fn lemma_lasting_add(x: Seq<RiskSignal>, y: Seq<RiskSignal>)
    requires
        forall|i: int| 0 <= i < y.len() ==> (#[trigger] y[i]).kind == SignalKind::UnknownHost,
    ensures
        lasting(x + y) == lasting(x),
    decreases y.len(),
{
    if y.len() == 0 {
        assert(x + y =~= x);
    } else {
        assert((x + y).drop_last() =~= x + y.drop_last());
        assert((x + y).last() == y[y.len() - 1]);
        lemma_lasting_add(x, y.drop_last());
    }
}

proof fn lemma_lasting_lasting(x: Seq<RiskSignal>)
    ensures
        lasting(lasting(x)) == lasting(x),
    decreases x.len(),
{
    if x.len() > 0 {
        lemma_lasting_lasting(x.drop_last());
        if x.last().kind != SignalKind::UnknownHost {
            let l = lasting(x.drop_last());
            assert(l.push(x.last()).drop_last() =~= l);
        }
    }
}

/// The known-hosts list gives signals of unknown hosts and no others.
pub open spec fn warns_only_of_hosts<C: Fn(&str, &ParsedCommand) -> Vec<RiskSignal>>(check: C) -> bool {
    forall|id: &str, p: &ParsedCommand, r: Vec<RiskSignal>, i: int|
        #![trigger call_ensures(check, (id, p), r), r@[i]]
        call_ensures(check, (id, p), r) && 0 <= i < r@.len() ==> r@[i].kind
            == SignalKind::UnknownHost
}

/// A refresh keeps the signals that do not speak of unknown hosts, whatever the
/// list says.
pub proof fn law_refresh_keeps_other_signals<
    K: Fn(&str) -> bool,
    L: Fn(&str) -> bool,
    C: Fn(&str, &ParsedCommand) -> Vec<RiskSignal>,
>(hosts: HostLookups<K, L, C>, old_: PromptSummary, new: PromptSummary)
    requires
        refreshed(hosts, old_, new),
        warns_only_of_hosts(hosts.check),
    ensures
        lasting(new.signals@) == lasting(old_.signals@),
{
    if old_.parsed is Some {
        let found = choose|found: Seq<RiskSignal>| #[trigger]
            hosts.checked(old_.id@, old_.parsed->0, found) && new.signals@ == lasting(old_.signals@)
                + found;
        let (id, p, r) = choose|i: &str, p: &ParsedCommand, r: Vec<RiskSignal>|
            i@ == old_.id@ && *p == old_.parsed->0 && r@ == found && #[trigger] call_ensures(
                hosts.check,
                (i, p),
                r,
            );
        assert forall|i: int| 0 <= i < found.len() implies (#[trigger] found[i]).kind
            == SignalKind::UnknownHost by {
            assert(call_ensures(hosts.check, (id, p), r));
            assert(r@[i].kind == SignalKind::UnknownHost);
        }
        lemma_lasting_add(lasting(old_.signals@), found);
        lemma_lasting_lasting(old_.signals@);
    }
}

/// A second refresh changes nothing while the known-hosts list stays as it is.
pub proof fn law_refresh_is_idempotent<
    K: Fn(&str) -> bool,
    L: Fn(&str) -> bool,
    C: Fn(&str, &ParsedCommand) -> Vec<RiskSignal>,
>(
    hosts: HostLookups<K, L, C>,
    a: HostAnswers,
    old_: PromptSummary,
    new: PromptSummary,
    again: PromptSummary,
)
    requires
        hosts.give(a),
        refreshed(hosts, old_, new),
        refreshed(hosts, new, again),
        warns_only_of_hosts(hosts.check),
    ensures
        again.signals@ == new.signals@,
        again.host_known@ == new.host_known@,
{
    if old_.parsed is Some {
        law_refresh_keeps_other_signals(hosts, old_, new);
        law_flags_follow_the_list(hosts, a, old_.parsed->0.effects@, new.host_known@);
        law_flags_follow_the_list(hosts, a, old_.parsed->0.effects@, again.host_known@);
    }
}

/// A queue at one moment.
pub struct QueueState {
    pub pending: Seq<(PromptSummary, String)>,
    pub recent: Seq<ResolvedEntry>,
}

/// One operation on a queue.
pub enum QueueStep {
    Submit { summary: PromptSummary, rendered: String },
    Resolve { id: Seq<char>, decision: WireDecision },
    RecordAuto(ResolvedEntry),
    WarmResolved(Seq<ResolvedEntry>),
    RefreshWith,
    CancelAll,
}

/// What an entry of the history is, apart from what a refresh derives anew.
pub struct Stamp {
    pub id: String,
    pub rendered: String,
    pub decision: WireDecision,
    pub rule_id: Option<String>,
    pub rule_scope: Option<RuleScope>,
}

pub open spec fn stamp_of(entry: ResolvedEntry) -> Stamp {
    Stamp {
        id: entry.summary.id,
        rendered: entry.rendered,
        decision: entry.decision,
        rule_id: entry.rule_id,
        rule_scope: entry.rule_scope,
    }
}

pub open spec fn stamps(entries: Seq<ResolvedEntry>) -> Seq<Stamp> {
    entries.map_values(|e: ResolvedEntry| stamp_of(e))
}

/// The entry that resolving the request of this id records.
pub open spec fn resolution(
    pending: Seq<(PromptSummary, String)>,
    id: Seq<char>,
    decision: WireDecision,
) -> ResolvedEntry {
    ResolvedEntry {
        summary: waiting(pending, id).0,
        rendered: waiting(pending, id).1,
        decision,
        rule_id: None,
        rule_scope: None,
    }
}

/// The operation takes the queue from `before` to `after`.
pub open spec fn steps_to(step: QueueStep, before: QueueState, after: QueueState) -> bool {
    match step {
        QueueStep::Submit { summary, rendered } => {
            &&& after.pending == without(before.pending, summary.id@).push((summary, rendered))
            &&& after.recent == before.recent
        },
        QueueStep::Resolve { id, decision } => {
            &&& after.pending == without(before.pending, id)
            &&& after.recent == (if waits(before.pending, id) {
                recorded(before.recent, resolution(before.pending, id, decision))
            } else {
                before.recent
            })
        },
        QueueStep::RecordAuto(entry) => {
            &&& after.pending == before.pending
            &&& after.recent == recorded(before.recent, entry)
        },
        QueueStep::WarmResolved(older) => {
            &&& after.pending == before.pending
            &&& after.recent == warmed(before.recent, older)
        },
        QueueStep::RefreshWith => {
            &&& after.pending.len() == before.pending.len()
            &&& stamps(after.recent) == stamps(before.recent)
        },
        QueueStep::CancelAll => after.pending.len() == 0 && after.recent.len() == 0,
    }
}

/// The operations take a new queue through these states.
pub open spec fn runs(steps: Seq<QueueStep>, states: Seq<QueueState>) -> bool {
    &&& states.len() == steps.len() + 1
    &&& states[0].pending.len() == 0
    &&& states[0].recent.len() == 0
    &&& forall|i: int|
        0 <= i < steps.len() ==> steps_to(#[trigger] steps[i], states[i], states[i + 1])
}

/// Everything that the first `n` operations brought into the history since it
/// was last emptied: what was resolved or recorded, newest first, and behind it
/// what was filled in from the log.
pub open spec fn brought(steps: Seq<QueueStep>, states: Seq<QueueState>, n: nat) -> Seq<Stamp>
    decreases n,
{
    if n == 0 {
        Seq::empty()
    } else {
        let before = brought(steps, states, (n - 1) as nat);
        match steps[n - 1] {
            QueueStep::Submit { .. } => before,
            QueueStep::Resolve { id, decision } => if waits(states[n - 1].pending, id) {
                seq![stamp_of(resolution(states[n - 1].pending, id, decision))] + before
            } else {
                before
            },
            QueueStep::RecordAuto(entry) => seq![stamp_of(entry)] + before,
            QueueStep::WarmResolved(older) => before + stamps(older),
            QueueStep::RefreshWith => before,
            QueueStep::CancelAll => Seq::empty(),
        }
    }
}

/// The first entries, as many as the cap allows.
pub open spec fn within_cap(all: Seq<Stamp>) -> Seq<Stamp> {
    if all.len() > RESOLVED_CAP {
        all.take(RESOLVED_CAP as int)
    } else {
        all
    }
}

/// Over any sequence of operations the history keeps to its cap, and holds the
/// front of everything that was brought into it: it is newest first, and what
/// was lost is the oldest.
pub proof fn law_history_over_any_operations(steps: Seq<QueueStep>, states: Seq<QueueState>, n: nat)
    requires
        runs(steps, states),
        n <= steps.len(),
    ensures
        states[n as int].recent.len() <= RESOLVED_CAP,
        stamps(states[n as int].recent) == within_cap(brought(steps, states, n)),
    decreases n,
{
    if n == 0 {
        assert(stamps(states[0].recent) =~= within_cap(brought(steps, states, 0)));
    } else {
        let m = (n - 1) as nat;
        law_history_over_any_operations(steps, states, m);
        assert(steps_to(steps[m as int], states[m as int], states[n as int]));
        let before = states[m as int];
        let after = states[n as int];
        let all = brought(steps, states, m);
        assert(stamps(after.recent).len() == after.recent.len());
        assert(stamps(before.recent).len() == before.recent.len());
        match steps[m as int] {
            QueueStep::Submit { .. } => {},
            QueueStep::Resolve { id, decision } => {
                if waits(before.pending, id) {
                    lemma_recorded_stamps(
                        before.recent,
                        resolution(before.pending, id, decision),
                        all,
                    );
                }
            },
            QueueStep::RecordAuto(entry) => {
                lemma_recorded_stamps(before.recent, entry, all);
            },
            QueueStep::WarmResolved(older) => {
                lemma_warmed_stamps(before.recent, older, all);
            },
            QueueStep::RefreshWith => {},
            QueueStep::CancelAll => {
                assert(stamps(after.recent) =~= within_cap(Seq::empty()));
            },
        }
    }
}

proof fn lemma_warmed_stamps(
    recent: Seq<ResolvedEntry>,
    older: Seq<ResolvedEntry>,
    all: Seq<Stamp>,
)
    requires
        stamps(recent) == within_cap(all),
        recent.len() <= RESOLVED_CAP,
    ensures
        stamps(warmed(recent, older)) == within_cap(all + stamps(older)),
{
    assert(stamps(recent).len() == recent.len());
    assert(stamps(older).len() == older.len());
    let now = stamps(warmed(recent, older));
    let want = within_cap(all + stamps(older));
    assert(now.len() == want.len());
    assert forall|i: int| 0 <= i < now.len() implies now[i] == want[i] by {
        if i < recent.len() {
            assert(warmed(recent, older)[i] == recent[i]);
            assert(stamps(recent)[i] == stamp_of(recent[i]));
            assert(within_cap(all)[i] == all[i]);
        } else {
            assert(warmed(recent, older)[i] == older[i - recent.len()]);
            assert(all.len() == recent.len());
            assert(stamps(older)[i - recent.len()] == stamp_of(older[i - recent.len()]));
        }
    }
    assert(now =~= want);
}

proof fn lemma_recorded_stamps(recent: Seq<ResolvedEntry>, entry: ResolvedEntry, all: Seq<Stamp>)
    requires
        stamps(recent) == within_cap(all),
    ensures
        stamps(recorded(recent, entry)) == within_cap(seq![stamp_of(entry)] + all),
{
    assert(stamps(recent).len() == recent.len());
    let now = stamps(recorded(recent, entry));
    let want = within_cap(seq![stamp_of(entry)] + all);
    assert(now.len() == want.len());
    assert forall|i: int| 0 <= i < now.len() implies now[i] == want[i] by {
        if i > 0 {
            assert(recorded(recent, entry)[i] == recent[i - 1]);
            assert(stamps(recent)[i - 1] == stamp_of(recent[i - 1]));
            assert(within_cap(all)[i - 1] == all[i - 1]);
        }
    }
    assert(now =~= want);
}

/// The places `from` of the list, each behind the one before, are exactly those
/// whose signal is of another kind than an unknown host.
pub open spec fn other_places(signals: Seq<RiskSignal>, from: Seq<int>) -> bool {
    &&& forall|k: int| 0 <= k < from.len() ==> 0 <= #[trigger] from[k] < signals.len()
    &&& forall|j: int, k: int| 0 <= j < k < from.len() ==> #[trigger] from[j] < #[trigger] from[k]
    &&& forall|k: int|
        0 <= k < from.len() ==> signals[#[trigger] from[k]].kind != SignalKind::UnknownHost
    &&& forall|i: int|
        0 <= i < signals.len() && (#[trigger] signals[i]).kind != SignalKind::UnknownHost
            ==> from.contains(i)
}

/// The signals of the list that stand at the places `from`.
pub open spec fn taken(signals: Seq<RiskSignal>, from: Seq<int>) -> Seq<RiskSignal> {
    Seq::new(from.len(), |k: int| signals[from[k]])
}

proof fn lemma_lasting_places(signals: Seq<RiskSignal>) -> (from: Seq<int>)
    ensures
        other_places(signals, from),
        lasting(signals) == taken(signals, from),
    decreases signals.len(),
{
    if signals.len() == 0 {
        let from = Seq::<int>::empty();
        assert(lasting(signals) =~= taken(signals, from));
        from
    } else {
        let before = signals.drop_last();
        let last = signals.len() - 1;
        let fewer = lemma_lasting_places(before);
        let from = if signals.last().kind == SignalKind::UnknownHost {
            fewer
        } else {
            fewer.push(last)
        };
        assert forall|i: int|
            0 <= i < signals.len() && (#[trigger] signals[i]).kind
                != SignalKind::UnknownHost implies from.contains(i) by {
            if i < last {
                assert(before[i] == signals[i]);
                assert(fewer.contains(i));
                let k = choose|k: int| 0 <= k < fewer.len() && fewer[k] == i;
                assert(from[k] == i);
            } else {
                assert(from[from.len() - 1] == i);
            }
        }
        assert forall|k: int| 0 <= k < from.len() implies signals[#[trigger] from[k]].kind
            != SignalKind::UnknownHost by {
            if k < fewer.len() {
                assert(before[fewer[k]] == signals[fewer[k]]);
            }
        }
        assert forall|j: int, k: int| 0 <= j < k < from.len() implies #[trigger] from[j]
            < #[trigger] from[k] by {
            assert(from[j] == fewer[j]);
            if k < fewer.len() {
                assert(from[k] == fewer[k]);
            }
        }
        assert(lasting(signals) =~= taken(signals, from)) by {
            assert forall|k: int| 0 <= k < fewer.len() implies taken(before, fewer)[k]
                == #[trigger] taken(signals, from)[k] by {
                assert(from[k] == fewer[k]);
                assert(before[fewer[k]] == signals[fewer[k]]);
            }
        }
        from
    }
}

/// A refresh drops no signal but warnings of unknown hosts. The signals of every
/// other kind stand in the new list, as many as there were and in their order,
/// whatever their severity, and behind them what the known-hosts list now says
/// of the command.
pub proof fn law_refresh_drops_only_host_warnings<
    K: Fn(&str) -> bool,
    L: Fn(&str) -> bool,
    C: Fn(&str, &ParsedCommand) -> Vec<RiskSignal>,
>(hosts: HostLookups<K, L, C>, old_: PromptSummary, new: PromptSummary) -> (from: Seq<int>)
    requires
        refreshed(hosts, old_, new),
        old_.parsed is Some,
    ensures
        other_places(old_.signals@, from),
        from.len() <= new.signals@.len(),
        forall|k: int|
            0 <= k < from.len() ==> #[trigger] new.signals@[k] == old_.signals@[from[k]],
        forall|i: int|
            0 <= i < old_.signals@.len() && (#[trigger] old_.signals@[i]).kind
                != SignalKind::UnknownHost ==> new.signals@.contains(old_.signals@[i]),
        exists|id: &str, p: &ParsedCommand, found: Vec<RiskSignal>|
            id@ == old_.id@ && *p == old_.parsed->0 && #[trigger] call_ensures(
                hosts.check,
                (id, p),
                found,
            ) && new.signals@.skip(from.len() as int) == found@,
        new.parsed == old_.parsed,
        new.id == old_.id,
        new.host_known@.len() == old_.parsed->0.effects@.len(),
{
    let added = choose|found: Seq<RiskSignal>| #[trigger]
        hosts.checked(old_.id@, old_.parsed->0, found) && new.signals@ == lasting(old_.signals@)
            + found;
    let (id, p, found) = choose|i: &str, p: &ParsedCommand, r: Vec<RiskSignal>|
        i@ == old_.id@ && *p == old_.parsed->0 && r@ == added && #[trigger] call_ensures(
            hosts.check,
            (i, p),
            r,
        );
    let from = lemma_lasting_places(old_.signals@);
    assert(call_ensures(hosts.check, (id, p), found));
    assert(new.signals@.skip(from.len() as int) =~= found@);
    assert forall|k: int| 0 <= k < from.len() implies #[trigger] new.signals@[k]
        == old_.signals@[from[k]] by {
        assert(new.signals@[k] == taken(old_.signals@, from)[k]);
    }
    assert forall|i: int|
        0 <= i < old_.signals@.len() && (#[trigger] old_.signals@[i]).kind
            != SignalKind::UnknownHost implies new.signals@.contains(old_.signals@[i]) by {
        assert(from.contains(i));
        let k = choose|k: int| 0 <= k < from.len() && from[k] == i;
        assert(new.signals@[k] == old_.signals@[i]);
    }
    from
}

/// A request that is taken out of the queue by its id is the only one that goes:
/// every other one stays, in its order, and none comes in.
pub proof fn law_only_the_resolved_leaves(pending: Seq<(PromptSummary, String)>, i: int)
    requires
        distinct_ids(pending),
        0 <= i < pending.len(),
    ensures
        without(pending, pending[i].0.id@).len() == pending.len() - 1,
        forall|k: int|
            0 <= k < i ==> #[trigger] without(pending, pending[i].0.id@)[k] == pending[k],
        forall|k: int|
            i <= k < pending.len() - 1 ==> #[trigger] without(pending, pending[i].0.id@)[k]
                == pending[k + 1],
{
    lemma_without_present(pending, i);
}

/// A resolved request is the newest of the history, with the decision that was
/// made and what its card showed, and the history behind it moves by one place;
/// it never holds more than the cap.
pub proof fn law_resolved_is_newest(recent: Seq<ResolvedEntry>, entry: ResolvedEntry)
    requires
        recent.len() <= RESOLVED_CAP,
    ensures
        recorded(recent, entry)[0] == entry,
        recorded(recent, entry).len() == if recent.len() == RESOLVED_CAP {
            recent.len()
        } else {
            recent.len() + 1
        },
        forall|k: int|
            1 <= k < recorded(recent, entry).len() ==> #[trigger] recorded(recent, entry)[k]
                == recent[k - 1],
        RESOLVED_CAP == 20,
{
}

/// Warming the history from the log leaves what is there in front, and puts the
/// older entries behind it in their order, until the history is full.
pub proof fn law_warming_adds_behind(recent: Seq<ResolvedEntry>, older: Seq<ResolvedEntry>)
    requires
        recent.len() <= RESOLVED_CAP,
    ensures
        warmed(recent, older).len() == if recent.len() + older.len() < RESOLVED_CAP {
            recent.len() + older.len()
        } else {
            RESOLVED_CAP as nat
        },
        forall|k: int| 0 <= k < recent.len() ==> #[trigger] warmed(recent, older)[k] == recent[k],
        forall|k: int|
            recent.len() <= k < warmed(recent, older).len() ==> #[trigger] warmed(recent, older)[k]
                == older[k - recent.len()],
{
}

/// Resolving a request that waits takes it out of the queue and puts it in front
/// of the history with the decision that was made, shown as it was; every other
/// request goes on waiting. Resolving one that does not wait changes nothing.
pub proof fn law_resolving_records_the_decision(
    before: QueueState,
    after: QueueState,
    id: Seq<char>,
    decision: WireDecision,
    i: int,
)
    requires
        steps_to((QueueStep::Resolve { id, decision }), before, after),
        distinct_ids(before.pending),
        before.recent.len() <= RESOLVED_CAP,
    ensures
        (forall|k: int| 0 <= k < before.pending.len() ==> (#[trigger] before.pending[k]).0.id@ != id)
            ==> after.recent == before.recent && after.pending == before.pending,
        0 <= i < before.pending.len() && before.pending[i].0.id@ == id ==> {
            &&& after.recent.len() > 0
            &&& after.recent[0].decision == decision
            &&& after.recent[0].summary == before.pending[i].0
            &&& after.recent[0].rendered == before.pending[i].1
            &&& after.recent[0].rule_id is None
            &&& after.recent.skip(1) == before.recent.take(after.recent.len() - 1)
            &&& after.pending == before.pending.take(i) + before.pending.skip(i + 1)
        },
{
    if forall|k: int| 0 <= k < before.pending.len() ==> (#[trigger] before.pending[k]).0.id@ != id {
        lemma_without_absent(before.pending, id);
    }
    if 0 <= i < before.pending.len() && before.pending[i].0.id@ == id {
        lemma_waiting_is(before.pending, i);
        lemma_without_present(before.pending, i);
        let entry = resolution(before.pending, id, decision);
        law_resolved_is_newest(before.recent, entry);
        assert(after.recent.skip(1) =~= before.recent.take(after.recent.len() - 1));
        assert(after.pending =~= before.pending.take(i) + before.pending.skip(i + 1));
    }
}

/// A request that is submitted waits at the end of the queue, as it was given. A
/// request of the same id that waited before it is replaced, every other one goes
/// on waiting, and the history stays as it is.
pub proof fn law_submitting_queues_at_the_end(
    before: QueueState,
    after: QueueState,
    summary: PromptSummary,
    rendered: String,
    i: int,
)
    requires
        steps_to((QueueStep::Submit { summary, rendered }), before, after),
        distinct_ids(before.pending),
    ensures
        after.recent == before.recent,
        after.pending.len() > 0,
        after.pending.last() == (summary, rendered),
        (forall|k: int|
            0 <= k < before.pending.len() ==> (#[trigger] before.pending[k]).0.id@ != summary.id@)
            ==> after.pending == before.pending.push((summary, rendered)),
        0 <= i < before.pending.len() && before.pending[i].0.id@ == summary.id@ ==> after.pending == (
        before.pending.take(i) + before.pending.skip(i + 1)).push((summary, rendered)),
{
    if forall|k: int|
        0 <= k < before.pending.len() ==> (#[trigger] before.pending[k]).0.id@ != summary.id@ {
        lemma_without_absent(before.pending, summary.id@);
    }
    if 0 <= i < before.pending.len() && before.pending[i].0.id@ == summary.id@ {
        lemma_without_present(before.pending, i);
        assert(before.pending.remove(i) =~= before.pending.take(i) + before.pending.skip(i + 1));
    }
}

/// What a rule decided goes in front of the history as it was recorded, and
/// nothing that waits is touched; the same holds of what is filled in from the
/// log, which goes behind.
pub proof fn law_recording_leaves_the_queue(
    before: QueueState,
    after: QueueState,
    entry: ResolvedEntry,
    older: Seq<ResolvedEntry>,
)
    requires
        before.recent.len() <= RESOLVED_CAP,
    ensures
        steps_to(QueueStep::RecordAuto(entry), before, after) ==> after.pending == before.pending
            && after.recent.len() > 0 && after.recent[0] == entry && after.recent.skip(1)
            == before.recent.take(after.recent.len() - 1),
        steps_to(QueueStep::WarmResolved(older), before, after) ==> after.pending == before.pending
            && after.recent.take(before.recent.len() as int) == before.recent && after.recent.skip(
            before.recent.len() as int,
        ) == older.take(after.recent.len() - before.recent.len()),
        steps_to(QueueStep::CancelAll, before, after) ==> after.pending.len() + after.recent.len() == 0,
{
    if steps_to(QueueStep::RecordAuto(entry), before, after) {
        law_resolved_is_newest(before.recent, entry);
        assert(after.recent.skip(1) =~= before.recent.take(after.recent.len() - 1));
    }
    if steps_to(QueueStep::WarmResolved(older), before, after) {
        law_warming_adds_behind(before.recent, older);
        let n = before.recent.len() as int;
        assert(after.recent.take(n) =~= before.recent);
        assert(after.recent.skip(n) =~= older.take(after.recent.len() - n));
    }
}

/// Resolving a request makes the decision that was given the newest of the
/// history and lets no other request go. A second one of the same id finds
/// nothing.
pub proof fn law_resolve_does_what_was_decided(
    queue: &mut PendingQueue,
    id: &str,
    decision: &PendingDecision,
    hit: bool,
    i: int,
)
    requires
        old(queue).wf(),
        call_ensures(PendingQueue::resolve, (queue, id, decision), hit),
    ensures
        0 <= i < old(queue).pending().len() && old(queue).pending()[i].0.id@ == id@ ==> {
            &&& hit
            &&& final(queue).recent().len() > 0
            &&& final(queue).recent()[0].decision == decision.decision
            &&& final(queue).recent()[0].summary == old(queue).pending()[i].0
            &&& final(queue).recent()[0].rendered == old(queue).pending()[i].1
            &&& final(queue).pending() == old(queue).pending().take(i) + old(queue).pending().skip(
                i + 1,
            )
        },
        hit <==> exists|k: int|
            0 <= k < old(queue).pending().len() && (#[trigger] old(queue).pending()[k]).0.id@ == id@,
        !hit ==> final(queue).pending() == old(queue).pending() && final(queue).recent() == old(queue).recent(),
        forall|k: int|
            0 <= k < final(queue).pending().len() ==> (#[trigger] final(queue).pending()[k]).0.id@ != id@,
{
    law_resolving_records_the_decision(
        old(queue).state(),
        final(queue).state(),
        id@,
        decision.decision,
        i,
    );
    lemma_without(old(queue).pending(), id@);
}

/// A request that is submitted is the last of the queue, with its detail, and the
/// surfaces are told that the queue was empty exactly where it was.
pub proof fn law_submit_queues_the_request(
    queue: &mut PendingQueue,
    summary: PromptSummary,
    rendered: String,
    hint: NotifyHint,
)
    requires
        old(queue).wf(),
        call_ensures(PendingQueue::submit_with_render, (queue, summary, rendered), hint),
    ensures
        final(queue).pending().len() > 0,
        final(queue).pending().last() == (summary, rendered),
        final(queue).recent() == old(queue).recent(),
        hint.was_empty_before <==> old(queue).pending().len() == 0,
        (forall|k: int|
            0 <= k < old(queue).pending().len() ==> (#[trigger] old(queue).pending()[k]).0.id@
                != summary.id@) ==> final(queue).pending() == old(queue).pending().push(
            (summary, rendered),
        ),
        forall|k: int|
            0 <= k < old(queue).pending().len() && (#[trigger] old(queue).pending()[k]).0.id@
                != summary.id@ ==> final(queue).pending().contains(old(queue).pending()[k]),
{
    let before = old(queue).pending();
    let after = final(queue).pending();
    law_submitting_queues_at_the_end(
        old(queue).state(),
        final(queue).state(),
        summary,
        rendered,
        0,
    );
    assert forall|k: int|
        0 <= k < before.len() && (#[trigger] before[k]).0.id@ != summary.id@ implies after.contains(
        before[k],
    ) by {
        if exists|i: int| 0 <= i < before.len() && (#[trigger] before[i]).0.id@ == summary.id@ {
            let i = choose|i: int| 0 <= i < before.len() && (#[trigger] before[i]).0.id@ == summary.id@;
            law_submitting_queues_at_the_end(
                old(queue).state(),
                final(queue).state(),
                summary,
                rendered,
                i,
            );
            if k < i {
                assert(after[k] == before[k]);
            } else {
                assert(after[k - 1] == before[k]);
            }
        } else {
            assert(after[k] == before[k]);
        }
    }
}

/// What a rule decided without a human stands in front of the history under that
/// decision and that rule, and nothing that waits is touched.
pub proof fn law_automatic_decision_is_recorded(
    queue: &mut PendingQueue,
    summary: PromptSummary,
    rendered: String,
    decision: WireDecision,
    rule_id: Option<String>,
    rule_scope: Option<RuleScope>,
)
    requires
        old(queue).wf(),
        call_ensures(
            PendingQueue::record_auto,
            (queue, summary, rendered, decision, rule_id, rule_scope),
            (),
        ),
    ensures
        final(queue).pending() == old(queue).pending(),
        final(queue).recent().len() > 0,
        final(queue).recent()[0].summary == summary,
        final(queue).recent()[0].rendered == rendered,
        final(queue).recent()[0].decision == decision,
        final(queue).recent()[0].rule_id == rule_id,
        final(queue).recent()[0].rule_scope == rule_scope,
        final(queue).recent().skip(1) == old(queue).recent().take(final(queue).recent().len() - 1),
{
    let entry = ResolvedEntry { summary, rendered, decision, rule_id, rule_scope };
    law_recording_leaves_the_queue(
        old(queue).state(),
        final(queue).state(),
        entry,
        Seq::empty(),
    );
}

/// What the history is warmed with stands behind what was in it, in the order
/// given, and nothing that waits is touched.
pub proof fn law_warm_history_keeps_the_order(queue: &mut PendingQueue, older: Vec<ResolvedEntry>, added: bool)
    requires
        old(queue).wf(),
        call_ensures(PendingQueue::warm_resolved, (queue, older), added),
    ensures
        final(queue).pending() == old(queue).pending(),
        final(queue).recent().take(old(queue).recent().len() as int) == old(queue).recent(),
        final(queue).recent().skip(old(queue).recent().len() as int) == older@.take(
            final(queue).recent().len() - old(queue).recent().len(),
        ),
        final(queue).recent().len() < RESOLVED_CAP ==> final(queue).recent().len() == old(queue).recent().len() + older@.len(),
        added <==> final(queue).recent().len() > old(queue).recent().len(),
{
    law_recording_leaves_the_queue(
        old(queue).state(),
        final(queue).state(),
        arbitrary(),
        older@,
    );
    law_warming_adds_behind(old(queue).recent(), older@);
}

/// A refresh of the whole queue changes neither who waits nor what was decided:
/// each request and each entry of the history keeps its place, its id, its
/// decision and every signal that is no warning of an unknown host.
pub proof fn law_refresh_keeps_what_was_decided<
    K: Fn(&str) -> bool,
    L: Fn(&str) -> bool,
    C: Fn(&str, &ParsedCommand) -> Vec<RiskSignal>,
>(queue: &mut PendingQueue, hosts: &HostLookups<K, L, C>, any: bool, i: int, k: int)
    requires
        old(queue).wf(),
        call_ensures(PendingQueue::refresh_with::<K, L, C>, (queue, hosts), any),
    ensures
        final(queue).pending().len() == old(queue).pending().len(),
        final(queue).recent().len() == old(queue).recent().len(),
        0 <= i < old(queue).pending().len() ==> final(queue).pending()[i].0.id == old(queue).pending()[i].0.id && final(queue).pending()[i].0.parsed == old(queue).pending()[i].0.parsed
            && final(queue).pending()[i].1 == old(queue).pending()[i].1,
        0 <= i < old(queue).pending().len() && 0 <= k < old(queue).pending()[i].0.signals@.len() && old(queue).pending()[i].0.signals@[k].kind != SignalKind::UnknownHost ==> final(queue).pending()[i].0.signals@.contains(old(queue).pending()[i].0.signals@[k]),
        0 <= i < old(queue).recent().len() ==> final(queue).recent()[i].decision == old(queue).recent()[i].decision && final(queue).recent()[i].summary.id == old(queue).recent()[i].summary.id && final(queue).recent()[i].rule_id == old(queue).recent()[i].rule_id,
        0 <= i < old(queue).recent().len() && 0 <= k < old(queue).recent()[i].summary.signals@.len()
            && old(queue).recent()[i].summary.signals@[k].kind != SignalKind::UnknownHost ==> final(queue).recent()[i].summary.signals@.contains(old(queue).recent()[i].summary.signals@[k]),
{
    if 0 <= i < old(queue).pending().len() {
        let x = old(queue).pending()[i].0;
        let y = final(queue).pending()[i].0;
        assert(refreshed(*hosts, x, y));
        if x.parsed is Some {
            law_refresh_drops_only_host_warnings(*hosts, x, y);
        }
        if 0 <= k < x.signals@.len() && x.parsed is None {
            assert(y.signals@.contains(x.signals@[k]));
        }
    }
    if 0 <= i < old(queue).recent().len() {
        let x = old(queue).recent()[i].summary;
        let y = final(queue).recent()[i].summary;
        assert(refreshed(*hosts, x, y));
        if x.parsed is Some {
            law_refresh_drops_only_host_warnings(*hosts, x, y);
        }
        if 0 <= k < x.signals@.len() && x.parsed is None {
            assert(y.signals@.contains(x.signals@[k]));
        }
    }
}

/// Stopping lets go of everything that waits.
pub proof fn law_nothing_waits_after_stopping(queue: &mut PendingQueue, had_pending: bool)
    requires
        call_ensures(PendingQueue::cancel_all, (queue,), had_pending),
    ensures
        final(queue).pending().len() == 0,
        had_pending <==> old(queue).pending().len() > 0,
{
}

/// A refresh sets each flag of a request anew, by what the known-hosts list now
/// answers about the host of that effect.
pub proof fn law_refresh_asks_about_every_host<
    K: Fn(&str) -> bool,
    L: Fn(&str) -> bool,
    C: Fn(&str, &ParsedCommand) -> Vec<RiskSignal>,
>(hosts: HostLookups<K, L, C>, old_: PromptSummary, new: PromptSummary, i: int)
    requires
        refreshed(hosts, old_, new),
        old_.parsed is Some,
        0 <= i < old_.parsed->0.effects@.len(),
    ensures
        new.host_known@.len() == old_.parsed->0.effects@.len(),
        flag_answers(hosts, old_.parsed->0.effects@[i], new.host_known@[i]),
        new.command == old_.command,
        new.primary_verb == old_.primary_verb,
        new.primary_target == old_.primary_target,
        new.force_prompt == old_.force_prompt,
        new.peer_sid == old_.peer_sid,
{
    law_flag_is_an_answer(hosts, old_.parsed->0.effects@, new.host_known@, i);
}

} // verus!
