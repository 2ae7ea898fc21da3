//! The approval popover of macOS.
use crate::autostart::{AutostartError, AutostartStatus};
use crate::cards::card::{bare_url, host_text, http_shown, http_view, summary_rows, UrlShown, UrlView};
use crate::cards::picker::{show_trust_host, warns_of_host};
use crate::cards::pills::{pill_views, pills_for, pills_shown, PillShown, PillSpec, Tone};
use crate::cards::resolved::{
    attribution_of, attribution_shown, AttributionShown, Outcome, RuleAttribution,
};
use crate::cards::rows::{
    bare, bare_rows, effect_rows, others_of, others_upto, row_asked, row_views, rows_asked, rows_of,
    unopened, unopened_rows, BodyContent, BodyShown, EffectRow, EffectRows, FileShown, RowShown,
};
use crate::cards::spans::{
    parse_ansi_spans, span_views, spans, strip_ansi, stripped, AnsiColor, AnsiSpan, SpanStyle, SpanView,
};
use crate::cards::url::{
    fallback_line, fallback_text, host_trust, same_ignoring_case, trust_class, unbracketed, HostTrust,
    MethodTone,
};
use crate::command::{Effect, HttpRequest, RuleScope, SignalKind, WireDecision};
use crate::outside::{no_answers, Answers, Lookups};
use crate::pending::{PendingDecision, PromptSummary, ResolvedEntry};
use crate::runloop::layout::{items, list_items, ListItem};
use crate::runloop::window::Disclosure;
use crate::text::{
    decimal, decimal_text, digits_value, law_decimal_reads_back, same_text, texts,
};
use vstd::prelude::*;
use vstd::string::*;

verus! {

/// Why a request was decided from the popover.
pub const REASON_POPOVER_APPROVE: &'static str = "approved via popover";

pub const REASON_POPOVER_REJECT: &'static str = "rejected via popover";

/// What the popover shows where there is no card at all.
pub const NO_REQUESTS: &'static str = "No pending requests.";

/// The label of a request that was asked for whatever the rules say, and its
/// tooltip.
pub const DRY_RUN_LABEL: &'static str = "dry run";

pub const DRY_RUN_TOOLTIP: &'static str = "vet --dry-run: the agent asked for confirmation even though policy would auto-allow";

/// One card of the popover.
#[derive(Debug, PartialEq, Eq)]
pub struct PopoverCard {
    /// The id of the request.
    pub id: String,
    pub title: String,
    /// How the request came out, on a card of the history. Such a card has a
    /// dimmed title and an icon.
    pub outcome: Option<Outcome>,
    pub url: UrlView,
    pub dry_run: bool,
    pub pills: Vec<PillSpec>,
    /// The rows that are in view.
    pub inline: Vec<EffectRow>,
    /// The rows behind a disclosure.
    pub details: Vec<EffectRow>,
    /// The rule that allowed the request, behind a disclosure.
    pub attribution: Option<RuleAttribution>,
    /// The raw detail, behind a disclosure.
    pub raw: Vec<AnsiSpan>,
    /// The same text without styles, for the clipboard.
    pub plain: String,
    /// Whether the pickers are offered.
    pub show_pickers: bool,
    /// Whether the picker for hosts is among them.
    pub show_trust_host: bool,
}

/// What a [`PopoverCard`] holds.
#[verifier::ext_equal]
pub struct PopoverShown {
    pub id: Seq<char>,
    pub title: Seq<char>,
    pub outcome: Option<Outcome>,
    pub url: UrlShown,
    pub dry_run: bool,
    pub pills: Seq<PillShown>,
    pub inline: Seq<RowShown>,
    pub details: Seq<RowShown>,
    pub attribution: Option<AttributionShown>,
    pub spans: Seq<SpanView>,
    pub plain: Seq<char>,
    pub show_pickers: bool,
    pub show_trust_host: bool,
}

impl View for PopoverCard {
    type V = PopoverShown;

    open spec fn view(&self) -> PopoverShown {
        PopoverShown {
            id: self.id@,
            title: self.title@,
            outcome: self.outcome,
            url: self.url@,
            dry_run: self.dry_run,
            pills: pill_views(self.pills@),
            inline: row_views(self.inline@),
            details: row_views(self.details@),
            attribution: match self.attribution {
                Some(x) => Some(x@),
                None => None,
            },
            spans: span_views(self.raw@),
            plain: self.plain@,
            show_pickers: self.show_pickers,
            show_trust_host: self.show_trust_host,
        }
    }
}

/// What a list of cards holds.
pub open spec fn popover_views(v: Seq<PopoverCard>) -> Seq<PopoverShown> {
    v.map_values(|c: PopoverCard| c@)
}

/// A card apart from the answers of the disk.
pub open spec fn unopened_popover(card: PopoverShown) -> PopoverShown {
    PopoverShown {
        inline: unopened_rows(card.inline),
        details: unopened_rows(card.details),
        ..card
    }
}

/// A card apart from everything that was asked of the outside.
pub open spec fn bare_popover(card: PopoverShown) -> PopoverShown {
    PopoverShown {
        url: bare_url(card.url),
        inline: bare_rows(card.inline),
        details: bare_rows(card.details),
        ..card
    }
}

/// Whether each file of the card can be opened is what the disk said of it.
pub open spec fn popover_asked<E: Fn(&str) -> bool>(on_disk: E, card: PopoverShown) -> bool {
    rows_asked(on_disk, card.inline) && rows_asked(on_disk, card.details)
}

/// The place of the first request among the effects from `i` on, if there is
/// one.
pub open spec fn first_request_at(effects: Seq<Effect>, i: int) -> Option<int>
    decreases effects.len() - i,
{
    if i < 0 || i >= effects.len() {
        None
    } else if effects[i] is HttpRequest {
        Some(i)
    } else {
        first_request_at(effects, i + 1)
    }
}

/// The first request of a summary and its place among the effects.
pub open spec fn first_request(summary: PromptSummary) -> Option<(HttpRequest, int)> {
    match summary.parsed {
        Some(parsed) => match first_request_at(parsed.effects@, 0) {
            Some(i) => Some((parsed.effects@[i]->HttpRequest_0, i)),
            None => None,
        },
        None => None,
    }
}

/// The first request of a summary and its place among the effects.
pub fn first_http_request(summary: &PromptSummary) -> (r: Option<(&HttpRequest, usize)>)
    ensures
        (match r {
            Some(p) => Some((*p.0, p.1 as int)),
            None => None,
        }) == first_request(*summary),
{
    match &summary.parsed {
        Some(parsed) => {
            let mut i: usize = 0;
            while i < parsed.effects.len()
                invariant
                    i <= parsed.effects.len(),
                    summary.parsed == Some(*parsed),
                    first_request_at(parsed.effects@, 0) == first_request_at(
                        parsed.effects@,
                        i as int,
                    ),
                decreases parsed.effects.len() - i,
            {
                if let Effect::HttpRequest(req) = &parsed.effects[i] {
                    return Some((req, i));
                }
                i += 1;
            }
            None
        },
        None => None,
    }
}

/// The URL row of a card: that of the first request, or a line of verb and
/// target.
pub open spec fn popover_url(a: Answers, summary: PromptSummary) -> UrlShown {
    match first_request(summary) {
        Some((req, i)) => UrlShown::Http(
            http_shown(
                a,
                req,
                trust_class(
                    a.loopback,
                    host_text(req),
                    i < summary.host_known@.len() && summary.host_known@[i],
                ),
            ),
        ),
        None => UrlShown::Fallback(
            fallback_line(a.clean, ""@, summary.primary_verb@, summary.primary_target@),
        ),
    }
}

/// The card of a request, with its outcome where it was decided, apart from the
/// answers of the disk. What was decided shows only its files, and the other rows behind a disclosure; what
/// was denied offers no picker.
pub open spec fn popover_shown(
    a: Answers,
    summary: PromptSummary,
    rendered: Seq<char>,
    outcome: Option<WireDecision>,
    attribution: Option<AttributionShown>,
) -> PopoverShown {
    let rows = summary_rows(a, summary);
    PopoverShown {
        id: summary.id@,
        title: summary.command@,
        outcome: match outcome {
            Some(decision) => Some(Outcome::of(decision)),
            None => None,
        },
        url: popover_url(a, summary),
        dry_run: summary.force_prompt,
        pills: pills_shown(summary.signals@),
        inline: if outcome is Some {
            rows.file_inputs
        } else {
            rows.file_inputs + rows.others
        },
        details: if outcome is Some {
            rows.others
        } else {
            Seq::empty()
        },
        attribution,
        spans: spans(rendered),
        plain: stripped(rendered),
        show_pickers: outcome is None || outcome->0.allows(),
        show_trust_host: (outcome is None || outcome->0.allows()) && warns_of_host(
            summary.signals@,
        ),
    }
}

fn url_of<S: Fn(&str) -> String, L: Fn(&str) -> bool, E: Fn(&str) -> bool>(
    summary: &PromptSummary,
    ask: &Lookups<S, L, E>,
) -> (r: UrlView)
    requires
        ask.ready(),
    ensures
        forall|a: Answers| #[trigger] ask.give(a) ==> r@ == popover_url(a, *summary),
        bare_url(r@) == bare_url(popover_url(no_answers(), *summary)),
{
    match first_http_request(summary) {
        Some((req, i)) => {
            let known = i < summary.host_known.len() && summary.host_known[i];
            let host = match &req.url.host {
                Some(host) => host.as_str(),
                None => "",
            };
            let trust = host_trust(host, known, &ask.loopback_ip);
            UrlView::Http(http_view(req, trust, ask))
        },
        None => UrlView::Fallback(
            fallback_text(
                "",
                summary.primary_verb.as_str(),
                summary.primary_target.as_str(),
                &ask.sanitize,
            ),
        ),
    }
}

/// Lowers one request into a card of the popover.
pub fn build_card<S: Fn(&str) -> String, L: Fn(&str) -> bool, E: Fn(&str) -> bool>(
    summary: &PromptSummary,
    rendered: &str,
    outcome: Option<WireDecision>,
    attribution: Option<RuleAttribution>,
    ask: &Lookups<S, L, E>,
) -> (r: PopoverCard)
    requires
        ask.ready(),
    ensures
        forall|a: Answers| #[trigger]
            ask.give(a) ==> unopened_popover(r@) == popover_shown(
                a,
                *summary,
                rendered@,
                outcome,
                match attribution {
                    Some(x) => Some(x@),
                    None => None,
                },
            ),
        bare_popover(r@) == bare_popover(
            popover_shown(
                no_answers(),
                *summary,
                rendered@,
                outcome,
                match attribution {
                    Some(x) => Some(x@),
                    None => None,
                },
            ),
        ),
        popover_asked(ask.on_disk, r@),
{
    let rows = match &summary.parsed {
        Some(parsed) => effect_rows(parsed, ask),
        None => EffectRows::default(),
    };
    let ghost shown = rows@;
    let (inline, details) = match outcome {
        Some(_) => (rows.file_inputs, rows.others),
        None => (rows.flattened(), Vec::new()),
    };
    let show_pickers = match outcome {
        Some(decision) => decision.is_allow(),
        None => true,
    };
    let card = PopoverCard {
        id: summary.id.clone(),
        title: summary.command.clone(),
        outcome: match outcome {
            Some(decision) => Some(Outcome::from_decision(decision)),
            None => None,
        },
        url: url_of(summary, ask),
        dry_run: summary.force_prompt,
        pills: pills_for(&summary.signals),
        inline,
        details,
        attribution,
        raw: parse_ansi_spans(rendered),
        plain: strip_ansi(rendered),
        show_pickers,
        show_trust_host: show_pickers && show_trust_host(&summary.signals),
    };
    proof {
        assert forall|a: Answers| #[trigger] ask.give(a) implies unopened(shown) == summary_rows(
            a,
            *summary,
        ) by {
            assert(unopened(shown) =~= summary_rows(a, *summary));
        }
        assert(bare(shown) =~= bare(summary_rows(no_answers(), *summary)));
        if outcome is None {
            assert(row_views(card.details@) =~= Seq::empty());
            assert(unopened_rows(row_views(card.details@)) =~= Seq::empty());
            assert(bare_rows(row_views(card.details@)) =~= Seq::empty());
            assert(bare_rows(Seq::<RowShown>::empty()) =~= Seq::empty());
            assert(bare_rows(shown.file_inputs + shown.others) =~= bare_rows(shown.file_inputs)
                + bare_rows(shown.others));
            let want = summary_rows(no_answers(), *summary);
            assert(bare_rows(want.file_inputs + want.others) =~= bare_rows(want.file_inputs)
                + bare_rows(want.others));
            assert(unopened_rows(shown.file_inputs + shown.others) =~= unopened_rows(
                shown.file_inputs,
            ) + unopened_rows(shown.others));
            assert forall|i: int| 0 <= i < row_views(card.inline@).len() implies row_asked(
                ask.on_disk,
                #[trigger] row_views(card.inline@)[i],
            ) by {
                if i < shown.file_inputs.len() {
                    assert(row_views(card.inline@)[i] == shown.file_inputs[i]);
                } else {
                    assert(row_views(card.inline@)[i] == shown.others[i - shown.file_inputs.len()]);
                }
            }
        }
    }
    card
}

/// The rule that a card of the history names: only where the request was
/// allowed for good.
pub open spec fn popover_attribution(entry: ResolvedEntry) -> Option<AttributionShown> {
    if entry.decision == WireDecision::Allow {
        attribution_shown(entry)
    } else {
        None
    }
}

/// The cards of the popover, apart from the answers of the disk: the requests
/// that wait, then the history.
pub open spec fn popover_cards(
    a: Answers,
    entries: Seq<(PromptSummary, String)>,
    resolved: Seq<ResolvedEntry>,
) -> Seq<PopoverShown> {
    entries.map_values(|e: (PromptSummary, String)| popover_shown(a, e.0, e.1@, None, None))
        + resolved.map_values(
        |e: ResolvedEntry|
            popover_shown(
                a,
                e.summary,
                e.rendered@,
                Some(e.decision),
                popover_attribution(e),
            ),
    )
}

/// The place of the request that is to be scrolled to, if it waits.
pub open spec fn focused_at(entries: Seq<(PromptSummary, String)>, id: Option<Seq<char>>) -> Option<
    int,
>
    decreases entries.len(),
{
    if id is None || entries.len() == 0 {
        None
    } else if entries.last().0.id@ == id->0 {
        Some(entries.len() - 1)
    } else {
        focused_at(entries.drop_last(), id)
    }
}

/// The file that a row offers to open: one that is read, or sent as a body,
/// and exists.
pub open spec fn row_file(row: RowShown) -> Seq<Seq<char>> {
    match row {
        RowShown::FileRead(file) => if file.can_open {
            seq![file.path]
        } else {
            Seq::empty()
        },
        RowShown::Body { content: BodyShown::FromFile(file), .. } => if file.can_open {
            seq![file.path]
        } else {
            Seq::empty()
        },
        _ => Seq::empty(),
    }
}

/// The files that rows offer to open.
pub open spec fn row_files(rows: Seq<RowShown>) -> Seq<Seq<char>>
    decreases rows.len(),
{
    if rows.len() == 0 {
        Seq::empty()
    } else {
        row_files(rows.drop_last()) + row_file(rows.last())
    }
}

/// The files that cards offer to open, from top to bottom.
pub open spec fn card_files(cards: Seq<PopoverShown>) -> Seq<Seq<char>>
    decreases cards.len(),
{
    if cards.len() == 0 {
        Seq::empty()
    } else {
        card_files(cards.drop_last()) + row_files(cards.last().inline) + row_files(
            cards.last().details,
        )
    }
}

/// What the popover shows, and what the tags of its buttons stand for. A card's
/// buttons have its place as their tag; the buttons that open files are counted
/// on their own.
#[derive(Debug, PartialEq, Eq)]
pub struct PopoverView {
    pub items: Vec<ListItem>,
    /// The cards: the first `pending` of them wait, the others are the history.
    pub cards: Vec<PopoverCard>,
    pub pending: usize,
    /// The card to scroll to.
    pub focused: Option<usize>,
    /// The files that can be opened.
    pub file_paths: Vec<String>,
}

fn add_files(rows: &Vec<EffectRow>, out: &mut Vec<String>)
    ensures
        texts(final(out)@) == texts(old(out)@) + row_files(row_views(rows@)),
{
    let ghost before = texts(out@);
    let ghost all = row_views(rows@);
    let mut i: usize = 0;
    assert(all.take(0) =~= Seq::empty());
    assert(texts(out@) =~= before + row_files(all.take(0)));
    while i < rows.len()
        invariant
            i <= rows.len(),
            all == row_views(rows@),
            texts(out@) == before + row_files(all.take(i as int)),
        decreases rows.len() - i,
    {
        let ghost held = out@;
        proof {
            assert(all.take(i + 1).drop_last() =~= all.take(i as int));
            assert(all.take(i + 1).last() == rows@[i as int]@);
        }
        match &rows[i] {
            EffectRow::FileRead(file) => {
                if file.can_open {
                    out.push(file.path.clone());
                    assert(texts(out@) =~= texts(held) + seq![file.path@]);
                }
            },
            EffectRow::Body { content: BodyContent::FromFile(file), .. } => {
                if file.can_open {
                    out.push(file.path.clone());
                    assert(texts(out@) =~= texts(held) + seq![file.path@]);
                }
            },
            _ => {},
        }
        assert(texts(out@) =~= texts(held) + row_file(rows@[i as int]@));
        i += 1;
        assert(texts(out@) =~= before + row_files(all.take(i as int)));
    }
    assert(all.take(i as int) =~= all);
}

/// What the popover shows for the queue, scrolled to the request `focused_id`
/// where that is given and waits.
pub fn refresh<S: Fn(&str) -> String, L: Fn(&str) -> bool, E: Fn(&str) -> bool>(
    entries: &Vec<(PromptSummary, String)>,
    resolved: &Vec<ResolvedEntry>,
    focused_id: Option<&str>,
    ask: &Lookups<S, L, E>,
) -> (r: PopoverView)
    requires
        ask.ready(),
    ensures
        r.items@ == items(false, entries@.len(), resolved@.len()),
        r.pending == entries.len(),
        r.cards.len() == entries.len() + resolved.len(),
        forall|a: Answers| #[trigger]
            ask.give(a) ==> popover_views(r.cards@).map_values(|c: PopoverShown| unopened_popover(c))
                == popover_cards(a, entries@, resolved@),
        forall|i: int|
            0 <= i < r.cards.len() ==> bare_popover((#[trigger] r.cards@[i])@) == bare_popover(
                popover_cards(no_answers(), entries@, resolved@)[i],
            ),
        forall|i: int|
            0 <= i < r.cards.len() ==> popover_asked(ask.on_disk, (#[trigger] r.cards@[i])@),
        (match r.focused {
            Some(i) => Some(i as int),
            None => None,
        }) == focused_at(
            entries@,
            match focused_id {
                Some(id) => Some(id@),
                None => None,
            },
        ),
        texts(r.file_paths@) == card_files(popover_views(r.cards@)),
{
    let ghost wanted = match focused_id {
        Some(id) => Some(id@),
        None => None,
    };
    let mut cards: Vec<PopoverCard> = Vec::new();
    let mut focused: Option<usize> = None;
    let mut i: usize = 0;
    while i < entries.len()
        invariant
            i <= entries.len(),
            ask.ready(),
            cards.len() == i,
            forall|k: int|
                0 <= k < i ==> bare_popover((#[trigger] cards@[k])@) == bare_popover(
                    popover_cards(no_answers(), entries@, resolved@)[k],
                ),
            forall|k: int| 0 <= k < i ==> popover_asked(ask.on_disk, (#[trigger] cards@[k])@),
            forall|a: Answers| #[trigger]
                ask.give(a) ==> (forall|k: int|
                    0 <= k < i ==> unopened_popover((#[trigger] cards@[k])@) == popover_shown(
                        a,
                        entries@[k].0,
                        entries@[k].1@,
                        None,
                        None,
                    )),
            wanted == (match focused_id {
                Some(id) => Some(id@),
                None => None,
            }),
            (match focused {
                Some(at) => Some(at as int),
                None => None,
            }) == focused_at(entries@.take(i as int), wanted),
        decreases entries.len() - i,
    {
        let entry = &entries[i];
        cards.push(build_card(&entry.0, entry.1.as_str(), None, None, ask));
        if let Some(id) = focused_id {
            if same_text(id, entry.0.id.as_str()) {
                focused = Some(i);
            }
        }
        proof {
            assert(entries@.take(i + 1).drop_last() =~= entries@.take(i as int));
            assert(entries@.take(i + 1).last() == entries@[i as int]);
        }
        i += 1;
    }
    assert(entries@.take(i as int) =~= entries@);
    let mut j: usize = 0;
    while j < resolved.len()
        invariant
            j <= resolved.len(),
            ask.ready(),
            cards.len() == entries.len() + j,
            forall|k: int|
                0 <= k < cards.len() ==> bare_popover((#[trigger] cards@[k])@) == bare_popover(
                    popover_cards(no_answers(), entries@, resolved@)[k],
                ),
            forall|k: int|
                0 <= k < cards.len() ==> popover_asked(ask.on_disk, (#[trigger] cards@[k])@),
            forall|a: Answers| #[trigger]
                ask.give(a) ==> (forall|k: int|
                    0 <= k < entries.len() ==> unopened_popover((#[trigger] cards@[k])@)
                        == popover_shown(
                        a,
                        entries@[k].0,
                        entries@[k].1@,
                        None,
                        None,
                    )),
            forall|a: Answers| #[trigger]
                ask.give(a) ==> (forall|k: int|
                    entries.len() <= k < cards.len() ==> unopened_popover((#[trigger] cards@[k])@)
                        == popover_shown(
                        a,
                        resolved@[k - entries.len()].summary,
                        resolved@[k - entries.len()].rendered@,
                        Some(resolved@[k - entries.len()].decision),
                        popover_attribution(resolved@[k - entries.len()]),
                    )),
        decreases resolved.len() - j,
    {
        let entry = &resolved[j];
        let attribution = if entry.decision == WireDecision::Allow {
            attribution_of(entry)
        } else {
            None
        };
        cards.push(
            build_card(
                &entry.summary,
                entry.rendered.as_str(),
                Some(entry.decision),
                attribution,
                ask,
            ),
        );
        j += 1;
    }
    proof {
        assert forall|a: Answers| #[trigger] ask.give(a) implies popover_views(cards@).map_values(
            |c: PopoverShown| unopened_popover(c),
        ) == popover_cards(a, entries@, resolved@) by {
            assert(popover_views(cards@).map_values(|c: PopoverShown| unopened_popover(c))
                =~= popover_cards(a, entries@, resolved@));
        }
    }
    let mut file_paths: Vec<String> = Vec::new();
    let ghost shown = popover_views(cards@);
    let mut c: usize = 0;
    assert(shown.take(0) =~= Seq::empty());
    assert(texts(file_paths@) =~= card_files(shown.take(0)));
    while c < cards.len()
        invariant
            c <= cards.len(),
            shown == popover_views(cards@),
            texts(file_paths@) == card_files(shown.take(c as int)),
        decreases cards.len() - c,
    {
        add_files(&cards[c].inline, &mut file_paths);
        add_files(&cards[c].details, &mut file_paths);
        c += 1;
        proof {
            assert(shown.take(c as int).drop_last() =~= shown.take(c - 1));
            assert(shown.take(c as int).last() == cards@[c - 1]@);
        }
    }
    assert(shown.take(c as int) =~= shown);
    PopoverView {
        items: list_items(false, entries.len(), resolved.len()),
        cards,
        pending: entries.len(),
        focused,
        file_paths,
    }
}

/// What a decision from the popover is.
pub fn popover_decision(allow: bool) -> (r: PendingDecision)
    ensures
        allow ==> r.decision == WireDecision::Allow && r.reason@ == REASON_POPOVER_APPROVE@,
        !allow ==> r.decision == WireDecision::Deny && r.reason@ == REASON_POPOVER_REJECT@,
{
    if allow {
        PendingDecision::allow(REASON_POPOVER_APPROVE)
    } else {
        PendingDecision::deny(REASON_POPOVER_REJECT)
    }
}

/// The title of a disclosure that is closed, or open.
pub open spec fn disclosure_title(kind: Disclosure, hidden: bool) -> Seq<char> {
    match (kind, hidden) {
        (Disclosure::Raw, true) => "▸ Show raw"@,
        (Disclosure::Raw, false) => "▾ Hide raw"@,
        (Disclosure::Details, true) => "▸ Details"@,
        (Disclosure::Details, false) => "▾ Hide details"@,
        (Disclosure::Reason, true) => "▸ See approval reason"@,
        (Disclosure::Reason, false) => "▾ Hide approval reason"@,
    }
}

/// The title of a disclosure that is closed, or open.
pub fn title_of(kind: Disclosure, hidden: bool) -> (r: &'static str)
    ensures
        r@ == disclosure_title(kind, hidden),
{
    match (kind, hidden) {
        (Disclosure::Raw, true) => "▸ Show raw",
        (Disclosure::Raw, false) => "▾ Hide raw",
        (Disclosure::Details, true) => "▸ Details",
        (Disclosure::Details, false) => "▾ Hide details",
        (Disclosure::Reason, true) => "▸ See approval reason",
        (Disclosure::Reason, false) => "▾ Hide approval reason",
    }
}

impl PopoverView {
    /// The tag is that of a card.
    pub open spec fn has(&self, tag: int) -> bool {
        0 <= tag < self.cards@.len()
    }

    fn card_at(&self, tag: i64) -> (r: Option<&PopoverCard>)
        ensures
            r is Some <==> self.has(tag as int),
            r matches Some(card) ==> *card == self.cards@[tag as int],
    {
        if 0 <= tag && (tag as u64) < self.cards.len() as u64 {
            Some(&self.cards[tag as usize])
        } else {
            None
        }
    }

    /// The request that the buttons to approve and reject with this tag are for,
    /// or none where no request that waits has the tag.
    pub fn pending_for_tag(&self, tag: i64) -> (r: Option<&str>)
        requires
            self.pending <= self.cards@.len(),
        ensures
            r is Some <==> 0 <= tag < self.pending,
            r matches Some(id) ==> id@ == self.cards@[tag as int].id@,
    {
        if 0 <= tag && (tag as u64) < self.pending as u64 {
            Some(self.cards[tag as usize].id.as_str())
        } else {
            None
        }
    }

    /// The request that the picker buttons with this tag are for: none on a card
    /// that was denied.
    pub fn id_for_tag(&self, tag: i64) -> (r: Option<&str>)
        ensures
            r is Some <==> self.has(tag as int) && self.cards@[tag as int].show_pickers,
            r matches Some(id) ==> id@ == self.cards@[tag as int].id@,
    {
        match self.card_at(tag) {
            Some(card) => if card.show_pickers {
                Some(card.id.as_str())
            } else {
                None
            },
            None => None,
        }
    }

    /// What the copy button with this tag copies.
    pub fn raw_for_tag(&self, tag: i64) -> (r: Option<&str>)
        ensures
            r is Some <==> self.has(tag as int),
            r matches Some(text) ==> text@ == self.cards@[tag as int].plain@,
    {
        match self.card_at(tag) {
            Some(card) => Some(card.plain.as_str()),
            None => None,
        }
    }

    /// The title that the toggle with this tag gets once its part is hidden or
    /// shown, or none where the card has no such part.
    pub fn toggle_for_tag(&self, kind: Disclosure, tag: i64, hide: bool) -> (r: Option<&'static str>)
        ensures
            r is Some <==> self.has(tag as int) && (match kind {
                Disclosure::Raw => true,
                Disclosure::Details => self.cards@[tag as int].details@.len() > 0,
                Disclosure::Reason => self.cards@[tag as int].attribution is Some,
            }),
            r matches Some(title) ==> title@ == disclosure_title(kind, hide),
    {
        match self.card_at(tag) {
            Some(card) => {
                let there = match kind {
                    Disclosure::Raw => true,
                    Disclosure::Details => card.details.len() > 0,
                    Disclosure::Reason => card.attribution.is_some(),
                };
                if there {
                    Some(title_of(kind, hide))
                } else {
                    None
                }
            },
            None => None,
        }
    }

    /// The rule that the button with this tag revokes.
    pub fn revoke_for_tag(&self, tag: i64) -> (r: Option<(&str, &RuleScope)>)
        ensures
            r is Some <==> self.has(tag as int) && self.cards@[tag as int].attribution is Some,
            r matches Some(rule) ==> rule.0@ == self.cards@[tag as int].attribution->0.rule_id@
                && *rule.1 == self.cards@[tag as int].attribution->0.scope,
    {
        match self.card_at(tag) {
            Some(card) => match &card.attribution {
                Some(x) => Some((x.rule_id.as_str(), &x.scope)),
                None => None,
            },
            None => None,
        }
    }

    /// The file that the button with this tag opens.
    pub fn file_for_tag(&self, tag: i64) -> (r: Option<&str>)
        ensures
            r is Some <==> 0 <= tag < self.file_paths@.len(),
            r matches Some(path) ==> path@ == self.file_paths@[tag as int]@,
    {
        if 0 <= tag && (tag as u64) < self.file_paths.len() as u64 {
            Some(self.file_paths[tag as usize].as_str())
        } else {
            None
        }
    }
}

/// Approve and reject stand only on the card of a request that waits, and a
/// picker never on one that was denied.
pub proof fn law_only_what_waits_can_be_decided(
    a: Answers,
    entries: Seq<(PromptSummary, String)>,
    resolved: Seq<ResolvedEntry>,
    i: int,
)
    requires
        0 <= i < entries.len() + resolved.len(),
    ensures
        popover_cards(a, entries, resolved)[i].outcome is None <==> i < entries.len(),
        popover_cards(a, entries, resolved)[i].outcome == Some(Outcome::Denied)
            ==> !popover_cards(a, entries, resolved)[i].show_pickers,
{
}

/// The badge beside the icon in the menu bar: nothing where no request waits.
pub fn badge_title(count: usize) -> (r: String)
    ensures
        r@ == (if count == 0 {
            ""@
        } else {
            " "@ + decimal(count as nat)
        }),
{
    if count == 0 {
        "".to_owned()
    } else {
        let mut out = " ".to_owned();
        let number = decimal_text(count as u64);
        out.append(number.as_str());
        out
    }
}

/// The state of the checkbox "Start at login".
#[derive(Debug, Clone, Copy, PartialEq, Eq, Structural)]
pub struct Checkbox {
    pub on: bool,
    /// Whether it can be pressed.
    pub enabled: bool,
}

/// The state of the checkbox "Start at login" for what the system says.
pub fn autostart_checkbox(status: AutostartStatus) -> (r: Checkbox)
    ensures
        r.on == status.is_on(),
        r.enabled == (status != AutostartStatus::Unsupported),
{
    Checkbox { on: status.is_enabled(), enabled: status != AutostartStatus::Unsupported }
}

/// What becomes of the checkbox after a change of the setting.
#[derive(Debug, Clone, Copy, PartialEq, Eq, Structural)]
pub enum CheckboxAfter {
    /// It shows what was asked for.
    Shows(bool),
    /// It goes back to what the system says.
    Reread,
}

/// What becomes of the checkbox once the wish `enabled` was stored and, where
/// that went well, applied: it never claims what the system has refused.
pub fn apply_autostart_change(
    enabled: bool,
    stored: &Result<(), String>,
    applied: &Result<(), AutostartError>,
) -> (r: CheckboxAfter)
    ensures
        r == (if stored is Ok && applied is Ok {
            CheckboxAfter::Shows(enabled)
        } else {
            CheckboxAfter::Reread
        }),
{
    match (stored, applied) {
        (Ok(_), Ok(_)) => CheckboxAfter::Shows(enabled),
        _ => CheckboxAfter::Reread,
    }
}

/// The colours of the system, which follow its appearance.
#[derive(Debug, Clone, Copy, PartialEq, Eq, Structural)]
pub enum SystemColor {
    Text,
    SecondaryLabel,
    Red,
    Orange,
    Yellow,
    Green,
    Teal,
    Blue,
    Purple,
}

/// The colour of a styled run. A run without a colour gets that of text, so
/// that it stays readable.
pub fn ns_color_for(style: SpanStyle) -> (r: SystemColor)
    ensures
        r == (match style.color {
            None => SystemColor::Text,
            Some(AnsiColor::Red) => SystemColor::Red,
            Some(AnsiColor::Green) => SystemColor::Green,
            Some(AnsiColor::Yellow) => SystemColor::Yellow,
            Some(AnsiColor::Magenta) => SystemColor::Purple,
            Some(AnsiColor::Cyan) => if style.dim {
                SystemColor::SecondaryLabel
            } else {
                SystemColor::Teal
            },
            Some(AnsiColor::BrightBlack) => SystemColor::SecondaryLabel,
            Some(AnsiColor::BrightBlue) => SystemColor::Blue,
        }),
{
    match style.color {
        None => SystemColor::Text,
        Some(AnsiColor::Red) => SystemColor::Red,
        Some(AnsiColor::Green) => SystemColor::Green,
        Some(AnsiColor::Yellow) => SystemColor::Yellow,
        Some(AnsiColor::Magenta) => SystemColor::Purple,
        Some(AnsiColor::Cyan) => if style.dim {
            SystemColor::SecondaryLabel
        } else {
            SystemColor::Teal
        },
        Some(AnsiColor::BrightBlack) => SystemColor::SecondaryLabel,
        Some(AnsiColor::BrightBlue) => SystemColor::Blue,
    }
}

/// The colour of a method.
pub fn method_color(tone: MethodTone) -> (r: SystemColor)
    ensures
        r == (match tone {
            MethodTone::Read => SystemColor::Green,
            MethodTone::Write => SystemColor::Yellow,
            MethodTone::Destructive => SystemColor::Red,
            MethodTone::Other => SystemColor::Purple,
        }),
{
    match tone {
        MethodTone::Read => SystemColor::Green,
        MethodTone::Write => SystemColor::Yellow,
        MethodTone::Destructive => SystemColor::Red,
        MethodTone::Other => SystemColor::Purple,
    }
}

/// The colour of a host.
pub fn host_color(trust: HostTrust) -> (r: SystemColor)
    ensures
        r == (match trust {
            HostTrust::Loopback => SystemColor::Teal,
            HostTrust::Known => SystemColor::Green,
            HostTrust::Unknown => SystemColor::Orange,
        }),
{
    match trust {
        HostTrust::Loopback => SystemColor::Teal,
        HostTrust::Known => SystemColor::Green,
        HostTrust::Unknown => SystemColor::Orange,
    }
}

/// The colour of a pill.
pub fn pill_color(tone: Tone) -> (r: SystemColor)
    ensures
        r == (match tone {
            Tone::Danger => SystemColor::Red,
            Tone::Warn => SystemColor::Orange,
            Tone::Positive => SystemColor::Green,
        }),
{
    match tone {
        Tone::Danger => SystemColor::Red,
        Tone::Warn => SystemColor::Orange,
        Tone::Positive => SystemColor::Green,
    }
}

/// The icon of an outcome: its symbol, its description and its colour.
pub fn outcome_icon(outcome: Outcome) -> (r: (&'static str, &'static str, SystemColor))
    ensures
        outcome == Outcome::Allowed ==> r.0@ == "checkmark.circle.fill"@ && r.1@ == "Allowed"@ && r.2
            == SystemColor::Green,
        outcome == Outcome::Denied ==> r.0@ == "xmark.circle.fill"@ && r.1@ == "Denied"@ && r.2
            == SystemColor::Red,
{
    match outcome {
        Outcome::Allowed => ("checkmark.circle.fill", "Allowed", SystemColor::Green),
        Outcome::Denied => ("xmark.circle.fill", "Denied", SystemColor::Red),
    }
}

/// The title of the section that a row stands in.
pub fn popover_section(row: &EffectRow) -> (r: &'static str)
    ensures
        r@ == (match *row {
            EffectRow::Headers(_) => "headers"@,
            EffectRow::Body { .. } => "body"@,
            EffectRow::Auth { .. } => "auth"@,
            EffectRow::FileRead(_) => "read"@,
            EffectRow::FileWrite(_) => "write"@,
            EffectRow::ProcessSpawn(_) => "spawn"@,
        }),
{
    match row {
        EffectRow::Headers(_) => "headers",
        EffectRow::Body { .. } => "body",
        EffectRow::Auth { .. } => "auth",
        EffectRow::FileRead(_) => "read",
        EffectRow::FileWrite(_) => "write",
        EffectRow::ProcessSpawn(_) => "spawn",
    }
}

proof fn lemma_first_request(effects: Seq<Effect>, i: int)
    requires
        0 <= i <= effects.len(),
    ensures
        match first_request_at(effects, i) {
            Some(k) => i <= k < effects.len() && effects[k] is HttpRequest && forall|j: int|
                i <= j < k ==> !((#[trigger] effects[j]) is HttpRequest),
            None => forall|j: int| i <= j < effects.len() ==> !((#[trigger] effects[j]) is HttpRequest),
        },
    decreases effects.len() - i,
{
    if i < effects.len() && !(effects[i] is HttpRequest) {
        lemma_first_request(effects, i + 1);
    }
}

/// A card of the popover is of the request it was made from. No row is lost on
/// it: those in view and those behind the disclosure are all the rows, and on a
/// card that waits all are in view. The pickers are on it unless the request was
/// denied.
pub proof fn law_popover_card_is_of_its_request(
    a: Answers,
    summary: PromptSummary,
    rendered: Seq<char>,
    outcome: Option<WireDecision>,
    attribution: Option<AttributionShown>,
)
    ensures
        ({
            let card = popover_shown(a, summary, rendered, outcome, attribution);
            let denied = outcome == Some(WireDecision::Deny);
            &&& card.id == summary.id@
            &&& card.title == summary.command@
            &&& card.dry_run <==> summary.force_prompt
            &&& card.outcome is None <==> outcome is None
            &&& card.outcome == Some(Outcome::Denied) <==> denied
            &&& card.show_pickers <==> !denied
            &&& card.show_trust_host <==> !denied && exists|i: int|
                0 <= i < summary.signals@.len() && (#[trigger] summary.signals@[i]).kind
                    == SignalKind::UnknownHost
            &&& outcome is None ==> card.details.len() == 0
            &&& summary.parsed is Some ==> card.inline + card.details == rows_of(
                a,
                summary.parsed->0,
            ).file_inputs + rows_of(a, summary.parsed->0).others
            &&& summary.parsed is None ==> card.inline.len() + card.details.len() == 0
            &&& forall|k: int|
                0 <= k < card.details.len() ==> !((#[trigger] card.details[k]) is FileRead)
            &&& card.attribution == attribution
            &&& card.pills == pills_shown(summary.signals@)
            &&& card.plain == stripped(rendered)
            &&& card.spans == spans(rendered)
        }),
{
    let card = popover_shown(a, summary, rendered, outcome, attribution);
    if let Some(parsed) = summary.parsed {
        let rows = rows_of(a, parsed);
        assert(card.inline + card.details =~= rows.file_inputs + rows.others);
        lemma_no_reads(a, parsed.effects@, parsed.effects@.len());
    }
}

proof fn lemma_no_reads(a: Answers, effects: Seq<Effect>, n: nat)
    requires
        n <= effects.len(),
    ensures
        forall|k: int|
            0 <= k < others_upto(a, effects, n).len() ==> !((#[trigger] others_upto(a, effects, n)[k]) is FileRead),
    decreases n,
{
    if n > 0 {
        let before = others_upto(a, effects, (n - 1) as nat);
        let own = others_of(a, effects[n - 1]);
        lemma_no_reads(a, effects, (n - 1) as nat);
        assert forall|k: int| 0 <= k < (before + own).len() implies !((#[trigger] (before + own)[k]) is FileRead) by {
            if k < before.len() {
                assert((before + own)[k] == before[k]);
            } else {
                assert((before + own)[k] == own[k - before.len()]);
            }
        }
    }
}

/// The URL row of a card is that of the first request among its effects, and it
/// shows the host as known only where the flag of that effect says so.
pub proof fn law_popover_shows_the_first_request(a: Answers, summary: PromptSummary, k: int)
    requires
        summary.parsed is Some,
        0 <= k < summary.parsed->0.effects@.len(),
        summary.parsed->0.effects@[k] is HttpRequest,
        forall|j: int| 0 <= j < k ==> !((#[trigger] summary.parsed->0.effects@[j]) is HttpRequest),
    ensures
        ({
            let req = summary.parsed->0.effects@[k]->HttpRequest_0;
            let url = popover_url(a, summary);
            &&& url is Http
            &&& url->Http_0.method == (a.clean)(req.method.name())
            &&& req.url.host matches Some(host) ==> {
                let local = same_ignoring_case(host@, "localhost"@) || (a.loopback)(unbracketed(host@));
                &&& url->Http_0.host == (a.clean)(host@)
                &&& url->Http_0.trust == HostTrust::Loopback <==> local
                &&& !local ==> (url->Http_0.trust == HostTrust::Known <==> k < summary.host_known@.len()
                    && summary.host_known@[k])
            }
        }),
{
    let effects = summary.parsed->0.effects@;
    lemma_first_request(effects, 0);
    let i = first_request_at(effects, 0)->0;
    if i < k {
        assert(!(effects[i] is HttpRequest));
    }
    assert(i == k);
}

/// The popover has a card for each request that waits, in their order, and behind
/// them one for each entry of the history, in its order.
pub proof fn law_popover_has_every_card(
    a: Answers,
    entries: Seq<(PromptSummary, String)>,
    resolved: Seq<ResolvedEntry>,
)
    ensures
        popover_cards(a, entries, resolved).len() == entries.len() + resolved.len(),
        forall|i: int|
            0 <= i < entries.len() ==> (#[trigger] popover_cards(a, entries, resolved)[i]).id
                == entries[i].0.id@ && popover_cards(a, entries, resolved)[i].outcome is None,
        forall|i: int|
            entries.len() <= i < entries.len() + resolved.len() ==> {
                let entry = resolved[i - entries.len()];
                let card = #[trigger] popover_cards(a, entries, resolved)[i];
                &&& card.id == entry.summary.id@
                &&& card.outcome == Some(Outcome::Denied) <==> entry.decision == WireDecision::Deny
                &&& card.outcome is Some
                &&& card.attribution is Some <==> entry.decision == WireDecision::Allow
                    && entry.rule_id is Some && entry.rule_scope is Some
                &&& card.attribution is Some ==> card.attribution->0.rule_id == entry.rule_id->0@
            },
{
}

/// The card that is scrolled to is that of the request asked for, and where none
/// of those that wait has that id there is none.
pub proof fn law_focus_is_on_the_request(entries: Seq<(PromptSummary, String)>, id: Seq<char>)
    ensures
        focused_at(entries, None) is None,
        match focused_at(entries, Some(id)) {
            Some(i) => 0 <= i < entries.len() && entries[i].0.id@ == id,
            None => forall|i: int| 0 <= i < entries.len() ==> (#[trigger] entries[i]).0.id@ != id,
        },
    decreases entries.len(),
{
    if entries.len() > 0 && entries.last().0.id@ != id {
        let front = entries.drop_last();
        law_focus_is_on_the_request(front, id);
        match focused_at(front, Some(id)) {
            Some(i) => {
                assert(front[i] == entries[i]);
            },
            None => {
                assert forall|i: int| 0 <= i < entries.len() implies (#[trigger] entries[i]).0.id@ != id by {
                    if i < front.len() {
                        assert(front[i] == entries[i]);
                    }
                }
            },
        }
    }
}

/// The file of a row that reads one, or sends one as its body.
pub open spec fn input_file(row: RowShown) -> Option<FileShown> {
    match row {
        RowShown::FileRead(file) => Some(file),
        RowShown::Body { content: BodyShown::FromFile(file), .. } => Some(file),
        _ => None,
    }
}

/// The files that can be opened from the rows are those that are read or sent and
/// that are there, in the order of their rows, each row once.
pub proof fn law_files_there_can_be_opened(rows: Seq<RowShown>)
    ensures
        ({
            let there = rows.filter(
                |r: RowShown| input_file(r) is Some && input_file(r)->0.can_open,
            );
            &&& row_files(rows).len() == there.len()
            &&& forall|k: int|
                0 <= k < there.len() ==> #[trigger] row_files(rows)[k] == input_file(there[k])->0.path
        }),
    decreases rows.len(),
{
    reveal(Seq::filter);
    let such = |r: RowShown| input_file(r) is Some && input_file(r)->0.can_open;
    if rows.len() > 0 {
        let front = rows.drop_last();
        law_files_there_can_be_opened(front);
        let before = front.filter(such);
        let there = rows.filter(such);
        assert forall|k: int| 0 <= k < there.len() implies #[trigger] row_files(rows)[k] == input_file(
            there[k],
        )->0.path by {
            if k < before.len() {
                assert(there[k] == before[k]);
                assert(row_files(rows)[k] == row_files(front)[k]);
            }
        }
    }
}

/// The files of a card are among those of the popover, whichever card it is.
pub proof fn law_files_of_every_card(cards: Seq<PopoverShown>, i: int, path: Seq<char>)
    requires
        0 <= i < cards.len(),
        row_files(cards[i].inline).contains(path) || row_files(cards[i].details).contains(path),
    ensures
        card_files(cards).contains(path),
    decreases cards.len(),
{
    let before = card_files(cards.drop_last());
    let inline = row_files(cards.last().inline);
    let details = row_files(cards.last().details);
    let all = before + inline + details;
    if i < cards.len() - 1 {
        assert(cards.drop_last()[i] == cards[i]);
        law_files_of_every_card(cards.drop_last(), i, path);
        let k = choose|k: int| 0 <= k < before.len() && before[k] == path;
        assert(all[k] == path);
    } else if inline.contains(path) {
        let k = choose|k: int| 0 <= k < inline.len() && inline[k] == path;
        assert(all[before.len() + k] == path);
    } else {
        let k = choose|k: int| 0 <= k < details.len() && details[k] == path;
        assert(all[before.len() + inline.len() + k] == path);
    }
}

/// The approve button allows and the reject button denies.
pub proof fn law_popover_button_decides_as_it_says(allow: bool, r: PendingDecision)
    requires
        call_ensures(popover_decision, (allow,), r),
    ensures
        allow <==> r.decision == WireDecision::Allow,
        !allow <==> r.decision == WireDecision::Deny,
{
}

/// A button is about the card that it stands on: a decision only about one that
/// waits, a rule only about one that offers the pickers, and a revocation only
/// about one that names its rule.
pub proof fn law_buttons_are_about_their_card(
    view: &PopoverView,
    tag: i64,
    waiting: Option<&str>,
    picked: Option<&str>,
    rule: Option<(&str, &RuleScope)>,
    file: Option<&str>,
)
    requires
        view.pending <= view.cards@.len(),
        call_ensures(PopoverView::pending_for_tag, (view, tag), waiting),
        call_ensures(PopoverView::id_for_tag, (view, tag), picked),
        call_ensures(PopoverView::revoke_for_tag, (view, tag), rule),
        call_ensures(PopoverView::file_for_tag, (view, tag), file),
    ensures
        tag < 0 || tag >= view.cards@.len() ==> waiting is None && picked is None && rule is None,
        0 <= tag < view.pending ==> waiting is Some && waiting->0@ == view.cards@[tag as int].id@,
        tag >= view.pending ==> waiting is None,
        0 <= tag < view.cards@.len() ==> (picked is Some <==> view.cards@[tag as int].show_pickers),
        picked is Some ==> picked->0@ == view.cards@[tag as int].id@,
        0 <= tag < view.cards@.len() ==> (rule is Some <==> view.cards@[tag as int].attribution is Some),
        rule is Some ==> (rule->0).0@ == view.cards@[tag as int].attribution->0.rule_id@,
        0 <= tag < view.file_paths@.len() ==> file is Some && file->0@ == view.file_paths@[tag as int]@,
{
}

/// Red is for what destroys, for danger and for a denial, and for nothing else; a
/// host is green only where it is known.
pub proof fn law_red_is_for_danger(
    method: MethodTone,
    verb: SystemColor,
    tone: Tone,
    pill: SystemColor,
    trust: HostTrust,
    host: SystemColor,
    outcome: Outcome,
    icon: (&'static str, &'static str, SystemColor),
)
    requires
        call_ensures(method_color, (method,), verb),
        call_ensures(pill_color, (tone,), pill),
        call_ensures(host_color, (trust,), host),
        call_ensures(outcome_icon, (outcome,), icon),
    ensures
        verb == SystemColor::Red <==> method == MethodTone::Destructive,
        verb == SystemColor::Green <==> method == MethodTone::Read,
        pill == SystemColor::Red <==> tone == Tone::Danger,
        pill == SystemColor::Green <==> tone == Tone::Positive,
        host == SystemColor::Green <==> trust == HostTrust::Known,
        host == SystemColor::Orange <==> trust == HostTrust::Unknown,
        icon.2 == SystemColor::Red <==> outcome == Outcome::Denied,
        icon.2 == SystemColor::Green <==> outcome == Outcome::Allowed,
{
}

/// A disclosure that is closed shows an arrow to the side, one that is open an
/// arrow down, and the titles of two kinds differ.
pub proof fn law_title_says_whether_it_is_open(kind: Disclosure, other: Disclosure, hidden: bool)
    ensures
        disclosure_title(kind, hidden).len() > 0,
        disclosure_title(kind, hidden)[0] == '▸' <==> hidden,
        disclosure_title(kind, hidden)[0] == '▾' <==> !hidden,
        kind != other ==> disclosure_title(kind, hidden) != disclosure_title(other, hidden),
{
    reveal_strlit("▸ Show raw");
    reveal_strlit("▾ Hide raw");
    reveal_strlit("▸ Details");
    reveal_strlit("▾ Hide details");
    reveal_strlit("▸ See approval reason");
    reveal_strlit("▾ Hide approval reason");
    assert("▸ Show raw"@.len() == 10 && "▸ Details"@.len() == 9 && "▸ See approval reason"@.len() == 21);
    assert("▾ Hide raw"@.len() == 10 && "▾ Hide details"@.len() == 14 && "▾ Hide approval reason"@.len()
        == 22);
}

/// The badge shows how many requests wait, and nothing where none does.
pub proof fn law_badge_counts_what_waits(count: usize, r: String)
    requires
        call_ensures(badge_title, (count,), r),
    ensures
        count == 0 <==> r@.len() == 0,
        count > 0 ==> r@[0] == ' ' && digits_value(r@.skip(1)) == count,
{
    reveal_strlit("");
    reveal_strlit(" ");
    law_decimal_reads_back(count as nat);
    if count > 0 {
        assert(r@.skip(1) =~= decimal(count as nat));
    }
}

/// The checkbox shows what was asked for only where it was both stored and
/// carried out, and else what the system says.
pub proof fn law_checkbox_shows_what_holds(
    enabled: bool,
    stored: &Result<(), String>,
    applied: &Result<(), AutostartError>,
    r: CheckboxAfter,
)
    requires
        call_ensures(apply_autostart_change, (enabled, stored, applied), r),
    ensures
        r is Shows <==> *stored is Ok && *applied is Ok,
        r matches CheckboxAfter::Shows(on) ==> on == enabled,
{
}

/// A card without a request shows its target in place of the URL, at the end of
/// the line.
pub proof fn law_popover_without_a_request_shows_the_target(a: Answers, summary: PromptSummary)
    requires
        summary.parsed matches Some(parsed) ==> forall|i: int|
            0 <= i < parsed.effects@.len() ==> !((#[trigger] parsed.effects@[i]) is HttpRequest),
    ensures
        popover_url(a, summary) is Fallback,
        (a.clean)(summary.primary_target@).is_suffix_of(popover_url(a, summary)->Fallback_0),
{
    if let Some(parsed) = summary.parsed {
        lemma_first_request(parsed.effects@, 0);
    }
    let text = popover_url(a, summary)->Fallback_0;
    let target = (a.clean)(summary.primary_target@);
    assert(target =~= text.subrange(text.len() - target.len(), text.len() as int));
}

} // verus!
