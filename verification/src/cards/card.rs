//! One request, lowered to the texts and tones that a surface paints.
use crate::cards::picker::{show_trust_host, warns_of_host};
use crate::cards::pills::{pill_views, pills_for, pills_shown, PillShown, PillSpec};
use crate::cards::rows::{
    asked, authenticates, bare, copy_rows, effect_rows, how_many, law_one_row_each, lemma_both_lists,
    row_views, rows_of, unopened, EffectRow, EffectRows, RowShown, RowsShown,
};
use crate::cards::spans::{parse_ansi_spans, span_views, spans, strip_ansi, stripped, AnsiSpan, SpanView};
use crate::cards::url::{
    fallback_line, fallback_text, has_real_path, host_trust, is_quiet_port, method_tone, path_query,
    same_ignoring_case, tail_of, tail_text, tone_of, trust_class, trust_told, unbracketed, visible_port,
    HostTrust, MethodTone, PathQuery, TailShown,
};
use crate::command::{Effect, HttpRequest, SignalKind};
use crate::outside::{no_answers, Answers, Lookups};
use crate::pending::PromptSummary;
use crate::text::{in_order, lemma_order_total, lemma_order_transitive, not_after};
use vstd::prelude::*;
use vstd::string::*;

verus! {

/// The tokens of the URL row.
#[derive(Debug, Clone, PartialEq, Eq)]
pub struct HttpUrlView {
    pub method: String,
    pub method_tone: MethodTone,
    /// The scheme with its separator, such as `https://`.
    pub scheme: String,
    pub host: String,
    pub trust: HostTrust,
    /// The port, where it is worth showing.
    pub port: Option<u16>,
    pub tail: PathQuery,
}

/// The URL row, or the line that stands in for it on a card without an HTTP
/// request.
#[derive(Debug, Clone, PartialEq, Eq)]
pub enum UrlView {
    Http(HttpUrlView),
    Fallback(String),
}

/// The raw detail of a request.
#[derive(Debug, Clone, PartialEq, Eq)]
pub struct RawView {
    /// Styled runs, for painting.
    pub spans: Vec<AnsiSpan>,
    /// The same text without styles, for the clipboard.
    pub plain: String,
}

/// One request, lowered for painting.
#[derive(Debug, Clone, PartialEq, Eq)]
pub struct CardView {
    /// The id of the request.
    pub id: String,
    pub title: String,
    /// Whether the caller asked for a prompt whatever the rules say.
    pub dry_run: bool,
    pub url: UrlView,
    /// The pills, most urgent first.
    pub pills: Vec<PillSpec>,
    pub rows: EffectRows,
    pub raw: RawView,
    /// The trust class of the primary host.
    pub trust: HostTrust,
    /// Whether the "Trust host…" button belongs on the card.
    pub show_trust_host: bool,
}

/// What a [`HttpUrlView`] holds.
#[verifier::ext_equal]
pub struct HttpShown {
    pub method: Seq<char>,
    pub method_tone: MethodTone,
    pub scheme: Seq<char>,
    pub host: Seq<char>,
    pub trust: HostTrust,
    pub port: Option<u16>,
    pub tail: TailShown,
}

/// What a [`UrlView`] holds.
#[verifier::ext_equal]
pub enum UrlShown {
    Http(HttpShown),
    Fallback(Seq<char>),
}

/// What a [`CardView`] holds.
#[verifier::ext_equal]
pub struct CardShown {
    pub id: Seq<char>,
    pub title: Seq<char>,
    pub dry_run: bool,
    pub url: UrlShown,
    pub pills: Seq<PillShown>,
    pub rows: RowsShown,
    pub spans: Seq<SpanView>,
    pub plain: Seq<char>,
    pub trust: HostTrust,
    pub show_trust_host: bool,
}

impl View for HttpUrlView {
    type V = HttpShown;

    open spec fn view(&self) -> HttpShown {
        HttpShown {
            method: self.method@,
            method_tone: self.method_tone,
            scheme: self.scheme@,
            host: self.host@,
            trust: self.trust,
            port: self.port,
            tail: self.tail@,
        }
    }
}

impl View for UrlView {
    type V = UrlShown;

    open spec fn view(&self) -> UrlShown {
        match self {
            UrlView::Http(http) => UrlShown::Http(http@),
            UrlView::Fallback(text) => UrlShown::Fallback(text@),
        }
    }
}

impl View for CardView {
    type V = CardShown;

    open spec fn view(&self) -> CardShown {
        CardShown {
            id: self.id@,
            title: self.title@,
            dry_run: self.dry_run,
            url: self.url@,
            pills: pill_views(self.pills@),
            rows: self.rows@,
            spans: span_views(self.raw.spans@),
            plain: self.raw.plain@,
            trust: self.trust,
            show_trust_host: self.show_trust_host,
        }
    }
}

/// What a list of cards holds.
pub open spec fn card_views(v: Seq<CardView>) -> Seq<CardShown> {
    v.map_values(|c: CardView| c@)
}

/// A URL row apart from everything that was asked of the outside.
pub open spec fn bare_url(url: UrlShown) -> UrlShown {
    match url {
        UrlShown::Http(h) => UrlShown::Http(
            HttpShown {
                method: Seq::empty(),
                scheme: Seq::empty(),
                host: Seq::empty(),
                trust: HostTrust::Unknown,
                tail: TailShown { text: Seq::empty(), has_path: h.tail.has_path },
                ..h
            },
        ),
        UrlShown::Fallback(_) => UrlShown::Fallback(Seq::empty()),
    }
}

/// A card apart from everything that was asked of the outside.
pub open spec fn bare_card(card: CardShown) -> CardShown {
    CardShown {
        title: Seq::empty(),
        url: bare_url(card.url),
        rows: bare(card.rows),
        trust: HostTrust::Unknown,
        ..card
    }
}

/// Cards apart from everything that was asked of the outside.
pub open spec fn bare_cards(cards: Seq<CardShown>) -> Seq<CardShown> {
    cards.map_values(|c: CardShown| bare_card(c))
}

/// A card apart from the answers of the disk.
pub open spec fn unopened_card(card: CardShown) -> CardShown {
    CardShown { rows: unopened(card.rows), ..card }
}

/// Cards apart from the answers of the disk.
pub open spec fn unopened_cards(cards: Seq<CardShown>) -> Seq<CardShown> {
    cards.map_values(|c: CardShown| unopened_card(c))
}

/// The request that is the first effect of a summary's command, if it is one.
pub open spec fn primary_request(summary: PromptSummary) -> Option<HttpRequest> {
    match summary.parsed {
        Some(parsed) => if parsed.effects@.len() > 0 {
            match parsed.effects@[0] {
                Effect::HttpRequest(req) => Some(req),
                _ => None,
            }
        } else {
            None
        },
        None => None,
    }
}

/// The trust class of the primary host: unknown where there is none, which
/// overstates the risk and does not understate it.
pub open spec fn trust_shown(a: Answers, summary: PromptSummary) -> HostTrust {
    match primary_request(summary) {
        Some(req) => match req.url.host {
            Some(host) => trust_class(
                a.loopback,
                host@,
                summary.host_known@.len() > 0 && summary.host_known@[0],
            ),
            None => HostTrust::Unknown,
        },
        None => HostTrust::Unknown,
    }
}

/// The tokens of the URL row of a request.
pub open spec fn http_shown(a: Answers, req: HttpRequest, trust: HostTrust) -> HttpShown {
    HttpShown {
        method: (a.clean)(req.method.name()),
        method_tone: tone_of(req.method),
        scheme: (a.clean)(req.url.scheme@) + "://"@,
        host: (a.clean)(host_text(req)),
        trust,
        port: if req.url.port is Some && !is_quiet_port(req.url.port->0) {
            req.url.port
        } else {
            None
        },
        tail: tail_of(a.clean, req.url),
    }
}

/// The host of a request, or nothing.
pub open spec fn host_text(req: HttpRequest) -> Seq<char> {
    match req.url.host {
        Some(host) => host@,
        None => ""@,
    }
}

/// The URL row of a summary.
pub open spec fn url_shown(a: Answers, summary: PromptSummary, trust: HostTrust) -> UrlShown {
    match primary_request(summary) {
        Some(req) => UrlShown::Http(http_shown(a, req, trust)),
        None => UrlShown::Fallback(
            fallback_line(
                a.clean,
                summary.command@,
                summary.primary_verb@,
                summary.primary_target@,
            ),
        ),
    }
}

/// The rows of a summary, apart from the answers of the disk: none where it has
/// no parsed command.
pub open spec fn summary_rows(a: Answers, summary: PromptSummary) -> RowsShown {
    match summary.parsed {
        Some(parsed) => rows_of(a, parsed),
        None => RowsShown { file_inputs: Seq::empty(), others: Seq::empty() },
    }
}

/// The card of a summary with the detail `rendered`, apart from the answers of
/// the disk.
pub open spec fn card_shown(a: Answers, summary: PromptSummary, rendered: Seq<char>) -> CardShown {
    let trust = trust_shown(a, summary);
    CardShown {
        id: summary.id@,
        title: (a.clean)(summary.command@),
        dry_run: summary.force_prompt,
        url: url_shown(a, summary, trust),
        pills: pills_shown(summary.signals@),
        rows: summary_rows(a, summary),
        spans: spans(rendered),
        plain: stripped(rendered),
        trust,
        show_trust_host: warns_of_host(summary.signals@),
    }
}

impl CardView {
    /// Every row, file inputs first.
    pub fn all_rows(&self) -> (r: Vec<EffectRow>)
        ensures
            row_views(r@) == self@.rows.file_inputs + self@.rows.others,
    {
        let rows = EffectRows {
            file_inputs: copy_rows(&self.rows.file_inputs),
            others: copy_rows(&self.rows.others),
        };
        rows.flattened()
    }
}

fn primary(summary: &PromptSummary) -> (r: Option<&HttpRequest>)
    ensures
        r is Some <==> primary_request(*summary) is Some,
        r matches Some(req) ==> *req == primary_request(*summary)->0,
{
    match &summary.parsed {
        Some(parsed) => {
            if parsed.effects.len() == 0 {
                return None;
            }
            match &parsed.effects[0] {
                Effect::HttpRequest(req) => Some(req),
                _ => None,
            }
        },
        None => None,
    }
}

/// The trust class of the primary host, from the answer that was computed when
/// the request came in.
pub fn trust_of<S: Fn(&str) -> String, L: Fn(&str) -> bool, E: Fn(&str) -> bool>(
    summary: &PromptSummary,
    ask: &Lookups<S, L, E>,
) -> (r: HostTrust)
    requires
        ask.ready(),
    ensures
        forall|a: Answers| #[trigger] ask.give(a) ==> r == trust_shown(a, *summary),
        match primary_request(*summary) {
            Some(req) => match req.url.host {
                Some(host) => trust_told(
                    ask.loopback_ip,
                    host@,
                    summary.host_known@.len() > 0 && summary.host_known@[0],
                    r,
                ),
                None => r == HostTrust::Unknown,
            },
            None => r == HostTrust::Unknown,
        },
{
    match primary(summary) {
        Some(req) => match &req.url.host {
            Some(host) => {
                let known = summary.host_known.len() > 0 && summary.host_known[0];
                host_trust(host.as_str(), known, &ask.loopback_ip)
            },
            None => HostTrust::Unknown,
        },
        None => HostTrust::Unknown,
    }
}

/// The tokens of the URL row of a request. Every token that comes from the
/// command line is made safe to paint.
pub fn http_view<S: Fn(&str) -> String, L: Fn(&str) -> bool, E: Fn(&str) -> bool>(
    req: &HttpRequest,
    trust: HostTrust,
    ask: &Lookups<S, L, E>,
) -> (r: HttpUrlView)
    requires
        ask.ready(),
    ensures
        forall|a: Answers| #[trigger] ask.give(a) ==> r@ == http_shown(a, *req, trust),
        bare_url(UrlShown::Http(r@)) == bare_url(
            UrlShown::Http(http_shown(no_answers(), *req, trust)),
        ),
{
    let sanitize = &ask.sanitize;
    let mut scheme = sanitize(req.url.scheme.as_str());
    scheme.append("://");
    let host = match &req.url.host {
        Some(host) => sanitize(host.as_str()),
        None => sanitize(""),
    };
    HttpUrlView {
        method: sanitize(req.method.as_str()),
        method_tone: method_tone(&req.method),
        scheme,
        host,
        trust,
        port: visible_port(&req.url),
        tail: path_query(&req.url, &ask.sanitize),
    }
}

/// The URL row of a summary, or the line that stands in for it.
pub fn url_view<S: Fn(&str) -> String, L: Fn(&str) -> bool, E: Fn(&str) -> bool>(
    summary: &PromptSummary,
    trust: HostTrust,
    ask: &Lookups<S, L, E>,
) -> (r: UrlView)
    requires
        ask.ready(),
    ensures
        forall|a: Answers| #[trigger] ask.give(a) ==> r@ == url_shown(a, *summary, trust),
        bare_url(r@) == bare_url(url_shown(no_answers(), *summary, trust)),
{
    match primary(summary) {
        Some(req) => UrlView::Http(http_view(req, trust, ask)),
        None => UrlView::Fallback(
            fallback_text(
                summary.command.as_str(),
                summary.primary_verb.as_str(),
                summary.primary_target.as_str(),
                &ask.sanitize,
            ),
        ),
    }
}

/// Lowers one summary with its rendered detail into a card.
pub fn card_view<S: Fn(&str) -> String, L: Fn(&str) -> bool, E: Fn(&str) -> bool>(
    summary: &PromptSummary,
    rendered: &str,
    ask: &Lookups<S, L, E>,
) -> (r: CardView)
    requires
        ask.ready(),
    ensures
        forall|a: Answers| #[trigger]
            ask.give(a) ==> unopened_card(r@) == card_shown(a, *summary, rendered@),
        bare_card(r@) == bare_card(card_shown(no_answers(), *summary, rendered@)),
        asked(ask.on_disk, r@.rows),
{
    let sanitize = &ask.sanitize;
    let title = sanitize(summary.command.as_str());
    let trust = trust_of(summary, ask);
    let rows = match &summary.parsed {
        Some(parsed) => effect_rows(parsed, ask),
        None => EffectRows::default(),
    };
    let card = CardView {
        id: summary.id.clone(),
        title,
        dry_run: summary.force_prompt,
        url: url_view(summary, trust, ask),
        pills: pills_for(&summary.signals),
        rows,
        raw: RawView { spans: parse_ansi_spans(rendered), plain: strip_ansi(rendered) },
        trust,
        show_trust_host: show_trust_host(&summary.signals),
    };
    proof {
        assert forall|a: Answers| #[trigger] ask.give(a) implies unopened_card(card@) == card_shown(
            a,
            *summary,
            rendered@,
        ) by {
            assert(unopened(card@.rows) =~= summary_rows(a, *summary));
        }
        let a = no_answers();
        assert(bare(card@.rows) =~= bare(summary_rows(a, *summary)));
        assert(bare_url(card@.url) == bare_url(url_shown(a, *summary, trust_shown(a, *summary))));
    }
    card
}

/// `cards` in the order of their ids, with `card` put behind those that do not
/// come after it.
pub open spec fn placed(cards: Seq<CardShown>, card: CardShown) -> Seq<CardShown>
    decreases cards.len(),
{
    if cards.len() == 0 || not_after(cards.last().id, card.id) {
        cards.push(card)
    } else {
        placed(cards.drop_last(), card).push(cards.last())
    }
}

/// `cards` in the order of their ids, those of one id in the order given.
pub open spec fn by_id(cards: Seq<CardShown>) -> Seq<CardShown>
    decreases cards.len(),
{
    if cards.len() == 0 {
        cards
    } else {
        placed(by_id(cards.drop_last()), cards.last())
    }
}

/// The cards of the requests that wait, in the order given.
pub open spec fn cards_shown(a: Answers, pending: Seq<(PromptSummary, String)>) -> Seq<CardShown> {
    pending.map_values(|e: (PromptSummary, String)| card_shown(a, e.0, e.1@))
}

proof fn lemma_placed_at(cards: Seq<CardShown>, card: CardShown, k: int)
    requires
        0 <= k <= cards.len(),
        k > 0 ==> not_after(cards[k - 1].id, card.id),
        forall|i: int| k <= i < cards.len() ==> !not_after((#[trigger] cards[i]).id, card.id),
    ensures
        placed(cards, card) == cards.insert(k, card),
    decreases cards.len(),
{
    if k == cards.len() {
        assert(cards.insert(k, card) =~= cards.push(card));
    } else {
        let front = cards.drop_last();
        assert(!not_after(cards[cards.len() - 1].id, card.id));
        assert(k > 0 ==> front[k - 1] == cards[k - 1]);
        lemma_placed_at(front, card, k);
        assert(cards.insert(k, card) =~= front.insert(k, card).push(cards.last()));
    }
}

proof fn lemma_placed_ordered(cards: Seq<CardShown>, card: CardShown)
    requires
        forall|i: int, j: int|
            0 <= i <= j < cards.len() ==> not_after((#[trigger] cards[i]).id, (#[trigger] cards[j]).id),
    ensures
        forall|i: int, j: int|
            0 <= i <= j < placed(cards, card).len() ==> not_after(
                (#[trigger] placed(cards, card)[i]).id,
                (#[trigger] placed(cards, card)[j]).id,
            ),
        placed(cards, card).to_multiset() =~= cards.to_multiset().insert(card),
        forall|i: int|
            0 <= i < placed(cards, card).len() ==> (#[trigger] placed(cards, card)[i]) == card
                || cards.contains(placed(cards, card)[i]),
    decreases cards.len(),
{
    broadcast use vstd::seq_lib::group_to_multiset_ensures;

    let all = placed(cards, card);
    if cards.len() == 0 || not_after(cards.last().id, card.id) {
        lemma_order_total(card.id, card.id);
        assert forall|i: int, j: int| 0 <= i <= j < all.len() implies not_after(
            (#[trigger] all[i]).id,
            (#[trigger] all[j]).id,
        ) by {
            if j < cards.len() {
                assert(all[i] == cards[i] && all[j] == cards[j]);
            } else if i < cards.len() {
                assert(all[i] == cards[i]);
                assert(not_after(cards[i].id, cards[cards.len() - 1].id));
                lemma_order_transitive(cards[i].id, cards.last().id, card.id);
            }
        }
        assert forall|i: int| 0 <= i < all.len() implies (#[trigger] all[i]) == card || cards.contains(
            all[i],
        ) by {
            if i < cards.len() {
                assert(all[i] == cards[i]);
            }
        }
    } else {
        let front = cards.drop_last();
        let last = cards.last();
        assert forall|i: int, j: int| 0 <= i <= j < front.len() implies not_after(
            (#[trigger] front[i]).id,
            (#[trigger] front[j]).id,
        ) by {
            assert(front[i] == cards[i] && front[j] == cards[j]);
        }
        lemma_placed_ordered(front, card);
        let head = placed(front, card);
        lemma_order_total(card.id, last.id);
        lemma_order_total(last.id, last.id);
        assert forall|i: int, j: int| 0 <= i <= j < all.len() implies not_after(
            (#[trigger] all[i]).id,
            (#[trigger] all[j]).id,
        ) by {
            if j < head.len() {
                assert(all[i] == head[i] && all[j] == head[j]);
            } else if i < head.len() {
                assert(all[i] == head[i]);
                if head[i] != card {
                    assert(front.contains(head[i]));
                    let k = choose|k: int| 0 <= k < front.len() && front[k] == head[i];
                    assert(front[k] == cards[k]);
                    assert(not_after(cards[k].id, cards[cards.len() - 1].id));
                }
            }
        }
        assert(cards =~= front.push(last));
        assert forall|i: int| 0 <= i < all.len() implies (#[trigger] all[i]) == card || cards.contains(
            all[i],
        ) by {
            if i < head.len() {
                assert(all[i] == head[i]);
                if head[i] != card {
                    let k = choose|k: int| 0 <= k < front.len() && front[k] == head[i];
                    assert(cards[k] == head[i]);
                }
            } else {
                assert(cards[cards.len() - 1] == last);
            }
        }
    }
}

/// The cards of a snapshot are those of the requests that wait, each once, and
/// stand in the order of their ids: oldest first, as ids grow with time.
pub proof fn law_snapshot_is_ordered(cards: Seq<CardShown>)
    ensures
        forall|i: int, j: int|
            0 <= i <= j < by_id(cards).len() ==> not_after(
                (#[trigger] by_id(cards)[i]).id,
                (#[trigger] by_id(cards)[j]).id,
            ),
        by_id(cards).to_multiset() =~= cards.to_multiset(),
    decreases cards.len(),
{
    broadcast use vstd::seq_lib::group_to_multiset_ensures;

    if cards.len() > 0 {
        law_snapshot_is_ordered(cards.drop_last());
        lemma_placed_ordered(by_id(cards.drop_last()), cards.last());
        assert(cards =~= cards.drop_last().push(cards.last()));
    }
}

/// The cards of the requests that wait, in the order of their ids.
///
/// Ids grow with time, so the request that has been waiting longest comes
/// first.
pub fn snapshot<S: Fn(&str) -> String, L: Fn(&str) -> bool, E: Fn(&str) -> bool>(
    pending: &Vec<(PromptSummary, String)>,
    ask: &Lookups<S, L, E>,
) -> (r: Vec<CardView>)
    requires
        ask.ready(),
    ensures
        r.len() == pending.len(),
        forall|a: Answers| #[trigger]
            ask.give(a) ==> unopened_cards(card_views(r@)) == by_id(cards_shown(a, pending@)),
        bare_cards(card_views(r@)) == by_id(bare_cards(cards_shown(no_answers(), pending@))),
        forall|i: int| 0 <= i < r.len() ==> asked(ask.on_disk, (#[trigger] r@[i])@.rows),
{
    let mut out: Vec<CardView> = Vec::new();
    let mut i: usize = 0;
    let ghost plain = bare_cards(cards_shown(no_answers(), pending@));
    proof {
        assert forall|a: Answers| #[trigger] ask.give(a) implies unopened_cards(card_views(out@))
            == by_id(cards_shown(a, pending@).take(0)) by {
            assert(unopened_cards(card_views(out@)) =~= by_id(cards_shown(a, pending@).take(0)));
        }
        assert(bare_cards(card_views(out@)) =~= by_id(plain.take(0)));
    }
    while i < pending.len()
        invariant
            i <= pending.len(),
            ask.ready(),
            out.len() == i,
            forall|a: Answers| #[trigger]
                ask.give(a) ==> unopened_cards(card_views(out@)) == by_id(
                    cards_shown(a, pending@).take(i as int),
                ),
            plain == bare_cards(cards_shown(no_answers(), pending@)),
            bare_cards(card_views(out@)) == by_id(plain.take(i as int)),
            forall|k: int| 0 <= k < i ==> asked(ask.on_disk, (#[trigger] out@[k])@.rows),
        decreases pending.len() - i,
    {
        let card = card_view(&pending[i].0, pending[i].1.as_str(), ask);
        let mut at: usize = out.len();
        while at > 0 && !in_order(out[at - 1].id.as_str(), card.id.as_str())
            invariant
                at <= out.len(),
                forall|k: int| at <= k < out.len() ==> !not_after((#[trigger] out@[k]).id@, card.id@),
            decreases at,
        {
            at -= 1;
        }
        let ghost before = unopened_cards(card_views(out@));
        let ghost shown = unopened_card(card@);
        let ghost held = out@;
        proof {
            assert forall|k: int| at <= k < before.len() implies !not_after(
                (#[trigger] before[k]).id,
                shown.id,
            ) by {
                assert(before[k].id == out@[k].id@);
            }
            if at > 0 {
                assert(before[at - 1].id == out@[at - 1].id@);
            }
            lemma_placed_at(before, shown, at as int);
            let bared = bare_cards(card_views(out@));
            assert forall|k: int| at <= k < bared.len() implies !not_after(
                (#[trigger] bared[k]).id,
                card@.id,
            ) by {
                assert(bared[k].id == out@[k].id@);
            }
            if at > 0 {
                assert(bared[at - 1].id == out@[at - 1].id@);
            }
            lemma_placed_at(bared, bare_card(card@), at as int);
            assert(plain.take(i + 1).drop_last() =~= plain.take(i as int));
            assert(plain.take(i + 1).last() == bare_card(card@));
        }
        out.insert(at, card);
        proof {
            assert(unopened_cards(card_views(out@)) =~= before.insert(at as int, shown));
            assert(bare_cards(card_views(out@)) =~= bare_cards(card_views(held)).insert(
                at as int,
                bare_card(card@),
            ));
            assert forall|k: int| 0 <= k < out@.len() implies asked(
                ask.on_disk,
                (#[trigger] out@[k])@.rows,
            ) by {
                if k < at {
                    assert(out@[k] == held[k]);
                } else if k > at {
                    assert(out@[k] == held[k - 1]);
                }
            }
            assert forall|a: Answers| #[trigger] ask.give(a) implies unopened_cards(card_views(out@))
                == by_id(cards_shown(a, pending@).take(i + 1)) by {
                let all = cards_shown(a, pending@);
                assert(all.take(i + 1).drop_last() =~= all.take(i as int));
                assert(all.take(i + 1).last() == shown);
            }
        }
        i += 1;
    }
    proof {
        assert forall|a: Answers| #[trigger] ask.give(a) implies unopened_cards(card_views(out@))
            == by_id(cards_shown(a, pending@)) by {
            assert(cards_shown(a, pending@).take(i as int) =~= cards_shown(a, pending@));
        }
        assert(plain.take(i as int) =~= plain);
    }
    out
}

/// A card is of the request it was made from: it has its id, its command as the
/// title, says whether a prompt was asked for, and offers to trust the host
/// exactly where a signal warns of an unknown one. Its pills are those of the
/// signals, its rows those of the command, and its raw view is the whole detail.
pub proof fn law_card_is_of_its_request(a: Answers, summary: PromptSummary, rendered: Seq<char>)
    ensures
        ({
            let card = card_shown(a, summary, rendered);
            &&& card.id == summary.id@
            &&& card.title == (a.clean)(summary.command@)
            &&& card.dry_run <==> summary.force_prompt
            &&& card.show_trust_host <==> exists|i: int|
                0 <= i < summary.signals@.len() && (#[trigger] summary.signals@[i]).kind
                    == SignalKind::UnknownHost
            &&& card.url is Http <==> summary.parsed is Some && summary.parsed->0.effects@.len() > 0
                && summary.parsed->0.effects@[0] is HttpRequest
            &&& card.url matches UrlShown::Http(http) ==> http.trust == card.trust
            &&& card.pills == pills_shown(summary.signals@)
            &&& card.plain == stripped(rendered)
            &&& card.spans == spans(rendered)
            &&& summary.parsed matches Some(parsed) ==> card.rows == rows_of(a, parsed)
            &&& summary.parsed is None ==> card.rows.file_inputs.len() + card.rows.others.len() == 0
        }),
{
}

/// A host is shown as known only where the known-hosts list says so of the first
/// effect, and as the machine itself only where it is named `localhost` or is an
/// address that loops back. A card without a request, or without a host, is never
/// shown as trusted.
pub proof fn law_trust_is_not_overstated(a: Answers, summary: PromptSummary, rendered: Seq<char>)
    ensures
        ({
            let card = card_shown(a, summary, rendered);
            let hosted = summary.parsed is Some && summary.parsed->0.effects@.len() > 0
                && summary.parsed->0.effects@[0] is HttpRequest
                && summary.parsed->0.effects@[0]->HttpRequest_0.url.host is Some;
            let host = summary.parsed->0.effects@[0]->HttpRequest_0.url.host->0@;
            let local = same_ignoring_case(host, "localhost"@) || (a.loopback)(unbracketed(host));
            let known = summary.host_known@.len() > 0 && summary.host_known@[0];
            &&& !hosted ==> card.trust == HostTrust::Unknown
            &&& hosted ==> (card.trust == HostTrust::Loopback <==> local)
            &&& hosted && !local ==> (card.trust == HostTrust::Known <==> known)
        }),
{
}

/// The URL row of a request shows where it goes: the method, the scheme, the host
/// and the path, each made safe to paint, and the port unless it is one of the
/// common ones.
pub proof fn law_url_row_shows_the_target(a: Answers, summary: PromptSummary, rendered: Seq<char>) -> (
    tail: Seq<char>)
    requires
        summary.parsed is Some,
        summary.parsed->0.effects@.len() > 0,
        summary.parsed->0.effects@[0] is HttpRequest,
    ensures
        ({
            let row = card_shown(a, summary, rendered).url->Http_0;
            let req = summary.parsed->0.effects@[0]->HttpRequest_0;
            let path = req.url.path@;
            &&& row.method == (a.clean)(req.method.name())
            &&& row.scheme.len() == (a.clean)(req.url.scheme@).len() + 3
            &&& (a.clean)(req.url.scheme@).is_prefix_of(row.scheme)
            &&& req.url.host matches Some(host) ==> row.host == (a.clean)(host@)
            &&& row.port is Some ==> row.port == req.url.port
            &&& req.url.port matches Some(port) ==> (row.port is None <==> port == 80 || port == 443
                || port == 8080 || port == 8443)
            &&& row.tail.text == (a.clean)(tail)
            &&& match req.url.query {
                None => tail == path,
                Some(q) => {
                    &&& q@.is_suffix_of(tail)
                    &&& tail.len() > q@.len()
                    &&& tail[tail.len() - q@.len() - 1] == '?'
                    &&& tail.len() == q@.len() + 1 || (path.is_prefix_of(tail) && tail.len()
                        == path.len() + 1 + q@.len())
                    &&& tail.len() == q@.len() + 1 ==> path.len() == 0 || path == seq!['/']
                },
            }
            &&& row.tail.has_path <==> path.len() > 0 && path != seq!['/']
        }),
{
    let req = summary.parsed->0.effects@[0]->HttpRequest_0;
    let path = req.url.path@;
    let tail = tail_text(req.url);
    reveal_strlit("/");
    reveal_strlit("?");
    reveal_strlit("://");
    assert("/"@ =~= seq!['/']);
    let row = card_shown(a, summary, rendered).url->Http_0;
    let scheme = (a.clean)(req.url.scheme@);
    assert(scheme =~= row.scheme.subrange(0, scheme.len() as int));
    if let Some(q) = req.url.query {
        assert(q@ =~= tail.subrange(tail.len() - q@.len(), tail.len() as int));
        if has_real_path(req.url) {
            assert(path =~= tail.subrange(0, path.len() as int));
        }
    }
    tail
}

/// A card without a request still names its command and its target, the command
/// in front and the target at the end, and the verb where there is one.
pub proof fn law_fallback_row_shows_the_target(a: Answers, summary: PromptSummary, rendered: Seq<char>)
    requires
        summary.parsed is None || summary.parsed->0.effects@.len() == 0 || !(
        summary.parsed->0.effects@[0] is HttpRequest),
    ensures
        ({
            let text = card_shown(a, summary, rendered).url->Fallback_0;
            let command = (a.clean)(summary.command@);
            let verb = (a.clean)(summary.primary_verb@);
            let target = (a.clean)(summary.primary_target@);
            &&& command.is_prefix_of(text)
            &&& target.is_suffix_of(text)
            &&& summary.primary_verb@.len() == 0 ==> text.len() == command.len() + 2 + target.len()
            &&& summary.primary_verb@.len() > 0 ==> {
                &&& text.len() == command.len() + 2 + verb.len() + 1 + target.len()
                &&& text.subrange(
                    command.len() as int + 2,
                    command.len() as int + 2 + verb.len(),
                ) == verb
            }
        }),
{
    reveal_strlit("  ");
    reveal_strlit(" ");
    let text = card_shown(a, summary, rendered).url->Fallback_0;
    let command = (a.clean)(summary.command@);
    let verb = (a.clean)(summary.primary_verb@);
    let target = (a.clean)(summary.primary_target@);
    assert(command =~= text.subrange(0, command.len() as int));
    assert(target =~= text.subrange(text.len() - target.len(), text.len() as int));
    if summary.primary_verb@.len() > 0 {
        let at = command.len() as int + 2;
        assert(text.subrange(at, at + verb.len()) =~= verb);
    }
}

/// Every request that waits has its card in the snapshot, and no card is there
/// twice.
pub proof fn law_every_request_has_a_card(a: Answers, pending: Seq<(PromptSummary, String)>, i: int)
    requires
        0 <= i < pending.len(),
    ensures
        by_id(cards_shown(a, pending)).len() == pending.len(),
        exists|k: int|
            0 <= k < pending.len() && (#[trigger] by_id(cards_shown(a, pending))[k]).id
                == pending[i].0.id@ && by_id(cards_shown(a, pending))[k].dry_run
                == pending[i].0.force_prompt && by_id(cards_shown(a, pending))[k].title == (a.clean)(
                pending[i].0.command@,
            ) && by_id(cards_shown(a, pending))[k].plain == stripped(pending[i].1@),
{
    let cards = cards_shown(a, pending);
    let sorted = by_id(cards);
    law_snapshot_is_ordered(cards);
    cards.to_multiset_ensures();
    sorted.to_multiset_ensures();
    assert(cards.contains(cards[i]));
    assert(cards.to_multiset().count(cards[i]) > 0);
    assert(sorted.contains(cards[i]));
    let k = choose|k: int| 0 <= k < sorted.len() && sorted[k] == cards[i];
    assert(sorted[k].id == pending[i].0.id@);
}

/// The card of a request shows all of it, whatever the outside answers: its id,
/// every pill of its signals, the whole detail, a row for each auth, header set,
/// body, file and process, and the button to trust the host where it is unknown.
pub proof fn law_card_shows_all_of_the_request<
    S: Fn(&str) -> String,
    L: Fn(&str) -> bool,
    E: Fn(&str) -> bool,
>(summary: &PromptSummary, rendered: &str, ask: &Lookups<S, L, E>, r: CardView)
    requires
        call_ensures(card_view::<S, L, E>, (summary, rendered, ask), r),
    ensures
        r.id@ == summary.id@,
        r.dry_run <==> summary.force_prompt,
        pill_views(r.pills@) == pills_shown(summary.signals@),
        r.raw.plain@ == stripped(rendered@),
        span_views(r.raw.spans@) == spans(rendered@),
        r.show_trust_host <==> exists|i: int|
            0 <= i < summary.signals@.len() && (#[trigger] summary.signals@[i]).kind
                == SignalKind::UnknownHost,
        r.url is Http <==> summary.parsed is Some && summary.parsed->0.effects@.len() > 0
            && summary.parsed->0.effects@[0] is HttpRequest,
        summary.parsed matches Some(parsed) ==> bare(r.rows@) == bare(rows_of(no_answers(), parsed)),
        summary.parsed matches Some(parsed) ==> how_many(
            r.rows.file_inputs@,
            |row: EffectRow| row is Auth,
        ) + how_many(r.rows.others@, |row: EffectRow| row is Auth) == how_many(
            parsed.effects@,
            |e: Effect| authenticates(e),
        ),
        summary.parsed is None ==> r.rows@.file_inputs.len() + r.rows@.others.len() == 0,
{
    let card = card_shown(no_answers(), *summary, rendered@);
    let a = no_answers();
    assert(bare_card(r@) == bare_card(card));
    law_card_is_of_its_request(a, *summary, rendered@);
    assert(bare_card(r@).rows == bare_card(card).rows);
    if let Some(parsed) = summary.parsed {
        law_one_row_each(a, parsed);
        lemma_both_lists(
            r.rows,
            rows_of(a, parsed),
            |row: EffectRow| row is Auth,
            |row: RowShown| row is Auth,
        );
    } else {
        assert(bare(r@.rows).file_inputs.len() == r@.rows.file_inputs.len());
        assert(bare(r@.rows).others.len() == r@.rows.others.len());
        assert(bare(card.rows).file_inputs.len() == 0);
        assert(bare(card.rows).others.len() == 0);
    }
    assert(bare_url(r@.url) is Http <==> r.url is Http);
    assert(bare_url(card.url) is Http <==> card.url is Http);
}

} // verus!
