//! The approval window of Linux.
use crate::autostart::AutostartError;
use crate::cards::card::CardView;
use crate::cards::markup::{
    escape_markup, escaped, law_escape_concatenates, law_escaped_text_is_inert,
    law_escaped_text_reads_back, read_markup, stands_at,
};
use crate::cards::picker::PickerKind;
use crate::cards::pills::Tone;
use crate::cards::resolved::{Outcome, ResolvedCardView};
use crate::cards::rows::{BodyContent, BodyShown, EffectRow, FilePath, FileShown, RowShown};
use crate::cards::spans::{
    law_stripped_is_what_spans_show, span_texts, span_views, spans, stripped, AnsiColor, AnsiSpan, SpanStyle,
    SpanView,
};
use crate::cards::url::{HostTrust, MethodTone};
use crate::command::WireDecision;
use crate::pending::PendingDecision;
use crate::runloop::pickers::{Toast, ToastShown};
use crate::text::{concat, lemma_concat_push, same_text, texts};
use vstd::prelude::*;
use vstd::string::*;

verus! {

/// Why a request was decided from the window. Each surface has reasons of its
/// own, so that the audit log tells them apart.
pub const REASON_APPROVED: &'static str = "approved via window";

pub const REASON_REJECTED: &'static str = "rejected via window";

pub const EMPTY_TITLE: &'static str = "No pending approvals";

pub const EMPTY_BODY: &'static str = "Requests that need a decision will appear here. You can also approve from the tray menu, a notification, or `vet daemon approve`.";

pub const RECENT_TITLE: &'static str = "Recent";

pub const NO_PENDING: &'static str = "No pending approvals.";

/// What the buttons of a card do.
#[derive(Debug, Clone, Copy, PartialEq, Eq, Structural)]
pub enum CardAction {
    Approve,
    Reject,
}

impl CardAction {
    /// The decision that a press of the button stands for.
    pub fn decision(self) -> (r: PendingDecision)
        ensures
            self == CardAction::Approve ==> r.decision == WireDecision::Allow && r.reason@
                == REASON_APPROVED@,
            self == CardAction::Reject ==> r.decision == WireDecision::Deny && r.reason@
                == REASON_REJECTED@,
    {
        match self {
            CardAction::Approve => PendingDecision::allow(REASON_APPROVED),
            CardAction::Reject => PendingDecision::deny(REASON_REJECTED),
        }
    }
}

/// A part of a card that can be opened.
#[derive(Debug, Clone, Copy, PartialEq, Eq, Structural)]
pub enum Disclosure {
    /// The raw detail.
    Raw,
    /// The rows, on a resolved card.
    Details,
    /// The rule that allowed a request.
    Reason,
}

/// Whether the part is open on the card.
pub open spec fn opened(open: Seq<(Disclosure, String)>, kind: Disclosure, id: Seq<char>) -> bool {
    exists|i: int| 0 <= i < open.len() && (#[trigger] open[i]).0 == kind && open[i].1@ == id
}

/// Whether no part is listed twice.
pub open spec fn listed_once(open: Seq<(Disclosure, String)>) -> bool {
    forall|i: int, j: int|
        0 <= i < j < open.len() ==> (#[trigger] open[i]).0 != (#[trigger] open[j]).0 || open[i].1@
            != open[j].1@
}

/// Which parts of which cards are open. It is kept apart from what is drawn,
/// which is built anew on every change; a part that is not listed is closed.
#[derive(Debug)]
pub struct ExpandedState {
    open: Vec<(Disclosure, String)>,
}

/// Whether the list names the card.
pub open spec fn names(ids: Seq<&str>, id: Seq<char>) -> bool {
    exists|i: int| 0 <= i < ids.len() && (#[trigger] ids[i])@ == id
}

fn is_named(ids: &Vec<&str>, id: &str) -> (r: bool)
    ensures
        r == names(ids@, id@),
{
    let mut i: usize = 0;
    while i < ids.len()
        invariant
            i <= ids.len(),
            forall|k: int| 0 <= k < i ==> (#[trigger] ids@[k])@ != id@,
        decreases ids.len() - i,
    {
        if same_text(ids[i], id) {
            assert(ids@[i as int]@ == id@);
            return true;
        }
        i += 1;
    }
    false
}

impl ExpandedState {
    /// What is open.
    pub closed spec fn parts(&self) -> Seq<(Disclosure, String)> {
        self.open@
    }

    pub open spec fn wf(&self) -> bool {
        listed_once(self.parts())
    }

    pub fn new() -> (r: ExpandedState)
        ensures
            r.wf(),
            r.parts().len() == 0,
    {
        ExpandedState { open: Vec::new() }
    }

    pub fn is_open(&self, kind: Disclosure, id: &str) -> (r: bool)
        ensures
            r == opened(self.parts(), kind, id@),
    {
        let mut i: usize = 0;
        while i < self.open.len()
            invariant
                i <= self.open.len(),
                forall|k: int|
                    0 <= k < i ==> (#[trigger] self.open@[k]).0 != kind || self.open@[k].1@ != id@,
            decreases self.open.len() - i,
        {
            if self.open[i].0 == kind && same_text(self.open[i].1.as_str(), id) {
                assert(self.parts()[i as int].0 == kind);
                return true;
            }
            i += 1;
        }
        false
    }

    /// Opens or closes a part of a card, and leaves every other as it is.
    pub fn set_open(&mut self, kind: Disclosure, id: &str, open: bool)
        requires
            old(self).wf(),
        ensures
            final(self).wf(),
            opened(final(self).parts(), kind, id@) == open,
            forall|k: Disclosure, x: Seq<char>|
                k != kind || x != id@ ==> (#[trigger] opened(final(self).parts(), k, x) <==> opened(
                    old(self).parts(),
                    k,
                    x,
                )),
    {
        let ghost before = self.open@;
        let mut at: usize = 0;
        while at < self.open.len() && !(self.open[at].0 == kind && same_text(
            self.open[at].1.as_str(),
            id,
        ))
            invariant
                at <= self.open.len(),
                self.open@ == before,
                forall|k: int|
                    0 <= k < at ==> (#[trigger] self.open@[k]).0 != kind || self.open@[k].1@ != id@,
            decreases self.open.len() - at,
        {
            at += 1;
        }
        if at < self.open.len() {
            assert(before[at as int].0 == kind && before[at as int].1@ == id@);
            if !open {
                self.open.remove(at);
                proof {
                    let now = self.open@;
                    assert(now == before.remove(at as int));
                    assert forall|i: int, j: int| 0 <= i < j < now.len() implies (#[trigger] now[i]).0 != (
                    #[trigger] now[j]).0 || now[i].1@ != now[j].1@ by {
                        let x = if i < at {
                            i
                        } else {
                            i + 1
                        };
                        let y = if j < at {
                            j
                        } else {
                            j + 1
                        };
                        assert(now[i] == before[x] && now[j] == before[y]);
                    }
                    assert forall|k: Disclosure, x: Seq<char>| k != kind || x != id@ implies (
                    #[trigger] opened(now, k, x) <==> opened(before, k, x)) by {
                        if opened(now, k, x) {
                            let i = choose|i: int|
                                0 <= i < now.len() && (#[trigger] now[i]).0 == k && now[i].1@ == x;
                            let j = if i < at {
                                i
                            } else {
                                i + 1
                            };
                            assert(before[j] == now[i]);
                        }
                        if opened(before, k, x) {
                            let j = choose|j: int|
                                0 <= j < before.len() && (#[trigger] before[j]).0 == k && before[j].1@ == x;
                            let i = if j < at {
                                j
                            } else {
                                j - 1
                            };
                            assert(now[i] == before[j]);
                        }
                    }
                    if opened(now, kind, id@) {
                        let i = choose|i: int|
                            0 <= i < now.len() && (#[trigger] now[i]).0 == kind && now[i].1@ == id@;
                        if i < at {
                            assert(before[i] == now[i]);
                        } else {
                            assert(before[i + 1] == now[i]);
                            assert(before[at as int].0 != before[i + 1].0 || before[at as int].1@
                                != before[i + 1].1@);
                        }
                    }
                }
            }
        } else if open {
            self.open.push((kind, id.to_owned()));
            proof {
                let now = self.open@;
                assert(now[before.len() as int].0 == kind && now[before.len() as int].1@ == id@);
                assert forall|k: Disclosure, x: Seq<char>| k != kind || x != id@ implies (
                #[trigger] opened(now, k, x) <==> opened(before, k, x)) by {
                    if opened(now, k, x) {
                        let i = choose|i: int|
                            0 <= i < now.len() && (#[trigger] now[i]).0 == k && now[i].1@ == x;
                        assert(before[i] == now[i]);
                    }
                    if opened(before, k, x) {
                        let j = choose|j: int|
                            0 <= j < before.len() && (#[trigger] before[j]).0 == k && before[j].1@ == x;
                        assert(now[j] == before[j]);
                    }
                }
                assert forall|i: int, j: int| 0 <= i < j < now.len() implies (#[trigger] now[i]).0 != (
                #[trigger] now[j]).0 || now[i].1@ != now[j].1@ by {
                    assert(now[i] == before[i]);
                    if j < before.len() {
                        assert(now[j] == before[j]);
                    }
                }
            }
        }
    }

    /// Forgets the cards that are not shown any more. Both sections count:
    /// `live_ids` names the cards of either.
    pub fn retain_live(&mut self, live_ids: &Vec<&str>)
        requires
            old(self).wf(),
        ensures
            final(self).wf(),
            forall|k: Disclosure, x: Seq<char>| #[trigger]
                opened(final(self).parts(), k, x) <==> opened(old(self).parts(), k, x) && names(
                    live_ids@,
                    x,
                ),
    {
        let ghost before = self.open@;
        let mut out: Vec<(Disclosure, String)> = Vec::new();
        let mut i: usize = 0;
        while i < self.open.len()
            invariant
                i <= self.open.len(),
                self.open@ == before,
                listed_once(before),
                listed_once(out@),
                forall|j: int| 0 <= j < out@.len() ==> before.take(i as int).contains(#[trigger] out@[j]),
                forall|k: Disclosure, x: Seq<char>| #[trigger]
                    opened(out@, k, x) <==> opened(before.take(i as int), k, x) && names(live_ids@, x),
            decreases self.open.len() - i,
        {
            let ghost kept = out@;
            let ghost done = before.take(i as int);
            let ghost now = before.take(i + 1);
            let ghost last = before[i as int];
            proof {
                assert forall|k: Disclosure, x: Seq<char>| #[trigger] opened(now, k, x) <==> opened(
                    done,
                    k,
                    x,
                ) || (last.0 == k && last.1@ == x) by {
                    if opened(done, k, x) {
                        let j = choose|j: int|
                            0 <= j < done.len() && (#[trigger] done[j]).0 == k && done[j].1@ == x;
                        assert(now[j] == done[j]);
                    }
                    if last.0 == k && last.1@ == x {
                        assert(now[i as int].0 == k);
                    }
                    if opened(now, k, x) {
                        let j = choose|j: int|
                            0 <= j < now.len() && (#[trigger] now[j]).0 == k && now[j].1@ == x;
                        if j < i {
                            assert(done[j] == now[j]);
                        }
                    }
                }
            }
            if is_named(live_ids, self.open[i].1.as_str()) {
                out.push((self.open[i].0, self.open[i].1.clone()));
                proof {
                    assert(out@[kept.len() as int] == last);
                    assert forall|k: Disclosure, x: Seq<char>| #[trigger] opened(out@, k, x) <==> opened(
                        kept,
                        k,
                        x,
                    ) || (last.0 == k && last.1@ == x) by {
                        if opened(kept, k, x) {
                            let j = choose|j: int|
                                0 <= j < kept.len() && (#[trigger] kept[j]).0 == k && kept[j].1@ == x;
                            assert(out@[j] == kept[j]);
                        }
                        if opened(out@, k, x) {
                            let j = choose|j: int|
                                0 <= j < out@.len() && (#[trigger] out@[j]).0 == k && out@[j].1@ == x;
                            if j < kept.len() {
                                assert(kept[j] == out@[j]);
                            }
                        }
                    }
                    assert forall|a: int, b: int| 0 <= a < b < out@.len() implies (#[trigger] out@[a]).0
                        != (#[trigger] out@[b]).0 || out@[a].1@ != out@[b].1@ by {
                        assert(out@[a] == kept[a]);
                        if b < kept.len() {
                            assert(out@[b] == kept[b]);
                        } else {
                            let j = choose|j: int| 0 <= j < done.len() && done[j] == kept[a];
                            assert(before[j] == kept[a]);
                            assert(before[j].0 != before[i as int].0 || before[j].1@
                                != before[i as int].1@);
                        }
                    }
                }
            }
            proof {
                assert forall|j: int| 0 <= j < out@.len() implies now.contains(#[trigger] out@[j]) by {
                    if j < kept.len() {
                        assert(out@[j] == kept[j]);
                        let k = choose|k: int| 0 <= k < done.len() && done[k] == kept[j];
                        assert(now[k] == kept[j]);
                    } else {
                        assert(now[i as int] == last);
                    }
                }
            }
            i += 1;
        }
        assert(before.take(i as int) =~= before);
        self.open = out;
    }
}

/// The ids of all cards that are shown, those of the requests that wait first.
pub fn live_ids<'a>(pending: &'a Vec<CardView>, resolved: &'a Vec<ResolvedCardView>) -> (r: Vec<&'a str>)
    ensures
        r.len() == pending.len() + resolved.len(),
        forall|i: int| 0 <= i < pending.len() ==> (#[trigger] r@[i])@ == pending@[i].id@,
        forall|i: int|
            pending.len() <= i < r.len() ==> (#[trigger] r@[i])@ == resolved@[i - pending.len()].card.id@,
{
    let mut out: Vec<&'a str> = Vec::new();
    let mut i: usize = 0;
    while i < pending.len()
        invariant
            i <= pending.len(),
            out.len() == i,
            forall|k: int| 0 <= k < i ==> (#[trigger] out@[k])@ == pending@[k].id@,
        decreases pending.len() - i,
    {
        out.push(pending[i].id.as_str());
        i += 1;
    }
    let mut j: usize = 0;
    while j < resolved.len()
        invariant
            j <= resolved.len(),
            out.len() == pending.len() + j,
            forall|k: int| 0 <= k < pending.len() ==> (#[trigger] out@[k])@ == pending@[k].id@,
            forall|k: int|
                pending.len() <= k < out.len() ==> (#[trigger] out@[k])@ == resolved@[k
                    - pending.len()].card.id@,
        decreases resolved.len() - j,
    {
        out.push(resolved[j].card.id.as_str());
        j += 1;
    }
    out
}

/// The colours of the raw detail.
#[derive(Debug, Clone, Copy, PartialEq, Eq)]
pub struct MarkupPalette {
    pub red: &'static str,
    pub green: &'static str,
    pub yellow: &'static str,
    pub magenta: &'static str,
    pub cyan: &'static str,
    pub blue: &'static str,
    /// For bright black, and for dimmed cyan.
    pub dim: &'static str,
}

/// The palette that reads on a light ground, or on a dark one.
pub fn palette(dark: bool) -> (r: MarkupPalette)
    ensures
        dark ==> r.red@ == "#f66151"@ && r.green@ == "#57e389"@ && r.yellow@ == "#f8e45c"@ && r.magenta@
            == "#dc8add"@ && r.cyan@ == "#33d1c9"@ && r.blue@ == "#62a0ea"@ && r.dim@ == "#9a9996"@,
        !dark ==> r.red@ == "#c01c28"@ && r.green@ == "#26794f"@ && r.yellow@ == "#a35a00"@
            && r.magenta@ == "#7a2f8f"@ && r.cyan@ == "#00707a"@ && r.blue@ == "#1a5fb4"@ && r.dim@
            == "#5e5c64"@,
        palette_fits(r),
{
    proof {
        reveal_strlit("#f66151");
        reveal_strlit("#57e389");
        reveal_strlit("#f8e45c");
        reveal_strlit("#dc8add");
        reveal_strlit("#33d1c9");
        reveal_strlit("#62a0ea");
        reveal_strlit("#9a9996");
        reveal_strlit("#c01c28");
        reveal_strlit("#26794f");
        reveal_strlit("#a35a00");
        reveal_strlit("#7a2f8f");
        reveal_strlit("#00707a");
        reveal_strlit("#1a5fb4");
        reveal_strlit("#5e5c64");
    }
    if dark {
        MarkupPalette {
            red: "#f66151",
            green: "#57e389",
            yellow: "#f8e45c",
            magenta: "#dc8add",
            cyan: "#33d1c9",
            blue: "#62a0ea",
            dim: "#9a9996",
        }
    } else {
        MarkupPalette {
            red: "#c01c28",
            green: "#26794f",
            yellow: "#a35a00",
            magenta: "#7a2f8f",
            cyan: "#00707a",
            blue: "#1a5fb4",
            dim: "#5e5c64",
        }
    }
}

/// The colour of a style: the dim one for dimmed cyan and for bright black.
pub open spec fn colour_of(style: SpanStyle, palette: MarkupPalette) -> Option<Seq<char>> {
    match style.color {
        None => None,
        Some(AnsiColor::Cyan) => Some(
            if style.dim {
                palette.dim@
            } else {
                palette.cyan@
            },
        ),
        Some(AnsiColor::Red) => Some(palette.red@),
        Some(AnsiColor::Green) => Some(palette.green@),
        Some(AnsiColor::Yellow) => Some(palette.yellow@),
        Some(AnsiColor::Magenta) => Some(palette.magenta@),
        Some(AnsiColor::BrightBlack) => Some(palette.dim@),
        Some(AnsiColor::BrightBlue) => Some(palette.blue@),
    }
}

fn span_colour(style: SpanStyle, palette: MarkupPalette) -> (r: Option<&'static str>)
    ensures
        (match r {
            Some(c) => Some(c@),
            None => None,
        }) == colour_of(style, palette),
{
    match style.color {
        None => None,
        Some(AnsiColor::Cyan) => {
            if style.dim {
                Some(palette.dim)
            } else {
                Some(palette.cyan)
            }
        },
        Some(AnsiColor::Red) => Some(palette.red),
        Some(AnsiColor::Green) => Some(palette.green),
        Some(AnsiColor::Yellow) => Some(palette.yellow),
        Some(AnsiColor::Magenta) => Some(palette.magenta),
        Some(AnsiColor::BrightBlack) => Some(palette.dim),
        Some(AnsiColor::BrightBlue) => Some(palette.blue),
    }
}

/// The attributes of the tag round a span of this style.
pub open spec fn tag_attributes(style: SpanStyle, palette: MarkupPalette) -> Seq<char> {
    (match colour_of(style, palette) {
        Some(c) => " foreground=\""@ + c + "\""@,
        None => Seq::empty(),
    }) + (if style.bold {
        " weight=\"bold\""@
    } else {
        Seq::empty()
    }) + (if style.underline {
        " underline=\"single\""@
    } else {
        Seq::empty()
    })
}

/// The markup of one span: its text escaped, in a tag where the style asks for
/// one.
pub open spec fn span_markup(span: SpanView, palette: MarkupPalette) -> Seq<char> {
    let attributes = tag_attributes(span.style, palette);
    if attributes.len() == 0 {
        escaped(span.text)
    } else {
        "<span"@ + attributes + ">"@ + escaped(span.text) + "</span>"@
    }
}

/// The markup of spans.
pub open spec fn markup_of(spans: Seq<SpanView>, palette: MarkupPalette) -> Seq<char>
    decreases spans.len(),
{
    if spans.len() == 0 {
        Seq::empty()
    } else {
        markup_of(spans.drop_last(), palette) + span_markup(spans.last(), palette)
    }
}

fn attributes_of(style: SpanStyle, palette: MarkupPalette) -> (r: String)
    ensures
        r@ == tag_attributes(style, palette),
{
    let mut attrs = String::new();
    if let Some(colour) = span_colour(style, palette) {
        attrs.append(" foreground=\"");
        attrs.append(colour);
        attrs.append("\"");
    }
    if style.bold {
        attrs.append(" weight=\"bold\"");
    }
    if style.underline {
        attrs.append(" underline=\"single\"");
    }
    assert(attrs@ =~= tag_attributes(style, palette));
    attrs
}

/// The markup of the raw detail. Every text is escaped before it goes into a
/// tag, so that no command line can bring markup of its own.
pub fn spans_to_markup(spans: &Vec<AnsiSpan>, palette: MarkupPalette) -> (r: String)
    ensures
        r@ == markup_of(span_views(spans@), palette),
{
    let mut out = String::new();
    let mut i: usize = 0;
    let ghost all = span_views(spans@);
    assert(all.take(0) =~= Seq::empty());
    while i < spans.len()
        invariant
            i <= spans.len(),
            all == span_views(spans@),
            out@ == markup_of(all.take(i as int), palette),
        decreases spans.len() - i,
    {
        let ghost before = out@;
        let text = escape_markup(spans[i].text.as_str());
        let attrs = attributes_of(spans[i].style, palette);
        if attrs.as_str().is_empty() {
            out.append(text.as_str());
        } else {
            out.append("<span");
            out.append(attrs.as_str());
            out.append(">");
            out.append(text.as_str());
            out.append("</span>");
        }
        proof {
            let now = all.take(i + 1);
            assert(now.drop_last() =~= all.take(i as int));
            assert(now.last() == spans@[i as int]@);
            assert(out@ =~= before + span_markup(now.last(), palette));
        }
        i += 1;
    }
    assert(all.take(i as int) =~= all);
    out
}

/// What is left of markup without its tags, and whether its end is within a tag.
pub open spec fn untagged(t: Seq<char>) -> (Seq<char>, bool)
    decreases t.len(),
{
    if t.len() == 0 {
        (Seq::empty(), false)
    } else {
        let (text, inside) = untagged(t.drop_last());
        if inside {
            (text, t.last() != '>')
        } else if t.last() == '<' {
            (text, true)
        } else {
            (text.push(t.last()), false)
        }
    }
}

/// A name of a colour that can stand in a tag.
pub open spec fn fits_in_tag(s: Seq<char>) -> bool {
    forall|i: int| 0 <= i < s.len() ==> #[trigger] s[i] != '>'
}

/// Every colour of the palette can stand in a tag.
pub open spec fn palette_fits(palette: MarkupPalette) -> bool {
    &&& fits_in_tag(palette.red@)
    &&& fits_in_tag(palette.green@)
    &&& fits_in_tag(palette.yellow@)
    &&& fits_in_tag(palette.magenta@)
    &&& fits_in_tag(palette.cyan@)
    &&& fits_in_tag(palette.blue@)
    &&& fits_in_tag(palette.dim@)
}

proof fn lemma_untagged_plain(a: Seq<char>, b: Seq<char>)
    requires
        !untagged(a).1,
        forall|i: int| 0 <= i < b.len() ==> #[trigger] b[i] != '<',
    ensures
        untagged(a + b) == (untagged(a).0 + b, false),
    decreases b.len(),
{
    if b.len() == 0 {
        assert(a + b =~= a);
        assert(untagged(a).0 + b =~= untagged(a).0);
    } else {
        assert((a + b).drop_last() =~= a + b.drop_last());
        assert forall|i: int| 0 <= i < b.drop_last().len() implies #[trigger] b.drop_last()[i] != '<' by {
            assert(b[i] != '<');
        }
        lemma_untagged_plain(a, b.drop_last());
        assert(untagged(a).0 + b.drop_last().push(b.last()) =~= (untagged(a).0 + b.drop_last()).push(
            b.last(),
        ));
        assert(b.drop_last().push(b.last()) =~= b);
    }
}

proof fn lemma_untagged_inside(a: Seq<char>, b: Seq<char>)
    requires
        untagged(a).1,
        fits_in_tag(b),
    ensures
        untagged(a + b) == (untagged(a).0, true),
    decreases b.len(),
{
    if b.len() == 0 {
        assert(a + b =~= a);
    } else {
        assert((a + b).drop_last() =~= a + b.drop_last());
        assert forall|i: int| 0 <= i < b.drop_last().len() implies #[trigger] b.drop_last()[i] != '>' by {
            assert(b[i] != '>');
        }
        lemma_untagged_inside(a, b.drop_last());
        assert((a + b).last() == b.last());
    }
}

proof fn lemma_untagged_tag(a: Seq<char>, body: Seq<char>)
    requires
        !untagged(a).1,
        fits_in_tag(body),
    ensures
        untagged(a + (seq!['<'] + body + seq!['>'])) == (untagged(a).0, false),
{
    let open = a.push('<');
    assert(open.drop_last() =~= a);
    lemma_untagged_inside(open, body);
    let all = a + (seq!['<'] + body + seq!['>']);
    assert(all.drop_last() =~= open + body);
    assert(all.last() == '>');
}

proof fn lemma_attributes_fit(style: SpanStyle, palette: MarkupPalette)
    requires
        palette_fits(palette),
    ensures
        fits_in_tag("span"@ + tag_attributes(style, palette)),
{
    reveal_strlit("span");
    reveal_strlit(" foreground=\"");
    reveal_strlit("\"");
    reveal_strlit(" weight=\"bold\"");
    reveal_strlit(" underline=\"single\"");
    assert(fits_in_tag("span"@));
    assert(fits_in_tag(" foreground=\""@));
    assert(fits_in_tag("\""@));
    assert(fits_in_tag(" weight=\"bold\""@));
    assert(fits_in_tag(" underline=\"single\""@));
}

proof fn lemma_untagged_span(a: Seq<char>, span: SpanView, palette: MarkupPalette)
    requires
        !untagged(a).1,
        palette_fits(palette),
    ensures
        untagged(a + span_markup(span, palette)) == (untagged(a).0 + escaped(span.text), false),
{
    let text = escaped(span.text);
    assert forall|i: int| 0 <= i < text.len() implies #[trigger] text[i] != '<' by {
        law_escaped_text_is_inert(span.text, i);
    }
    let attributes = tag_attributes(span.style, palette);
    if attributes.len() == 0 {
        lemma_untagged_plain(a, text);
    } else {
        lemma_attributes_fit(span.style, palette);
        reveal_strlit("span");
        reveal_strlit("<span");
        reveal_strlit(">");
        reveal_strlit("</span>");
        reveal_strlit("/span");
        let open = seq!['<'] + ("span"@ + attributes) + seq!['>'];
        let close = seq!['<'] + "/span"@ + seq!['>'];
        lemma_untagged_tag(a, "span"@ + attributes);
        lemma_untagged_plain(a + open, text);
        assert(fits_in_tag("/span"@));
        lemma_untagged_tag(a + open + text, "/span"@);
        assert("<span"@ =~= seq!['<'] + "span"@);
        assert("</span>"@ =~= close);
        assert(a + span_markup(span, palette) =~= a + open + text + close);
    }
}

/// The markup of spans, without its tags, is the text of the spans, escaped: no
/// text can bring a tag of its own.
pub proof fn law_tags_come_from_styles_alone(spans: Seq<SpanView>, palette: MarkupPalette)
    requires
        palette_fits(palette),
    ensures
        untagged(markup_of(spans, palette)) == (escaped(concat(span_texts(spans))), false),
    decreases spans.len(),
{
    if spans.len() > 0 {
        let front = spans.drop_last();
        law_tags_come_from_styles_alone(front, palette);
        lemma_untagged_span(markup_of(front, palette), spans.last(), palette);
        assert(span_texts(spans) =~= span_texts(front).push(spans.last().text));
        lemma_concat_push(span_texts(front), spans.last().text);
        law_escape_concatenates(concat(span_texts(front)), spans.last().text);
    } else {
        assert(span_texts(spans) =~= Seq::empty());
    }
}

/// What the window shows of a raw detail is its text, as it would be copied.
pub proof fn law_window_shows_the_raw_text(detail: Seq<char>, palette: MarkupPalette)
    requires
        palette_fits(palette),
    ensures
        read_markup(untagged(markup_of(spans(detail), palette)).0, 0) == stripped(detail),
{
    law_tags_come_from_styles_alone(spans(detail), palette);
    law_stripped_is_what_spans_show(detail);
    law_escaped_text_reads_back(concat(span_texts(spans(detail))));
}

/// Whether there is a display to open a window on, from the values of
/// `$WAYLAND_DISPLAY` and `$DISPLAY`.
pub fn display_available(wayland: &Option<String>, x11: &Option<String>) -> (r: bool)
    ensures
        r == ((wayland is Some && wayland->0@.len() > 0) || (x11 is Some && x11->0@.len() > 0)),
{
    if let Some(v) = wayland {
        if !v.as_str().is_empty() {
            return true;
        }
    }
    if let Some(v) = x11 {
        return !v.as_str().is_empty();
    }
    false
}

/// The style class of a method.
pub fn method_class(tone: MethodTone) -> (r: &'static str)
    ensures
        r@ == (match tone {
            MethodTone::Read => "read"@,
            MethodTone::Write => "write"@,
            MethodTone::Destructive => "destructive"@,
            MethodTone::Other => "other"@,
        }),
{
    match tone {
        MethodTone::Read => "read",
        MethodTone::Write => "write",
        MethodTone::Destructive => "destructive",
        MethodTone::Other => "other",
    }
}

/// The style class of a host. The machine itself is neutral: that is no risk,
/// and no merit either.
pub fn host_class(trust: HostTrust) -> (r: &'static str)
    ensures
        r@ == (match trust {
            HostTrust::Loopback => "neutral"@,
            HostTrust::Known => "positive"@,
            HostTrust::Unknown => "warn"@,
        }),
{
    match trust {
        HostTrust::Loopback => "neutral",
        HostTrust::Known => "positive",
        HostTrust::Unknown => "warn",
    }
}

/// The style class of a pill.
pub fn pill_class(tone: Tone) -> (r: &'static str)
    ensures
        r@ == (match tone {
            Tone::Danger => "danger"@,
            Tone::Warn => "warn"@,
            Tone::Positive => "positive"@,
        }),
{
    match tone {
        Tone::Danger => "danger",
        Tone::Warn => "warn",
        Tone::Positive => "positive",
    }
}

/// The style class of an outcome.
pub fn outcome_class(outcome: Outcome) -> (r: &'static str)
    ensures
        r@ == (match outcome {
            Outcome::Allowed => "positive"@,
            Outcome::Denied => "danger"@,
        }),
{
    match outcome {
        Outcome::Allowed => "positive",
        Outcome::Denied => "danger",
    }
}

/// The title of the section that a row stands in.
pub open spec fn section_name(row: EffectRow) -> Seq<char> {
    match row {
        EffectRow::Headers(_) => "headers"@,
        EffectRow::Body { .. } => "body"@,
        EffectRow::Auth { .. } => "auth"@,
        EffectRow::FileRead(_) => "reads"@,
        EffectRow::FileWrite(_) => "writes"@,
        EffectRow::ProcessSpawn(_) => "spawns"@,
    }
}

fn section_title(row: &EffectRow) -> (r: &'static str)
    ensures
        r@ == section_name(*row),
{
    match row {
        EffectRow::Headers(_) => "headers",
        EffectRow::Body { .. } => "body",
        EffectRow::Auth { .. } => "auth",
        EffectRow::FileRead(_) => "reads",
        EffectRow::FileWrite(_) => "writes",
        EffectRow::ProcessSpawn(_) => "spawns",
    }
}

/// One line of a section, and its style class where it has one.
#[derive(Debug, PartialEq, Eq)]
pub struct SectionLine {
    pub text: String,
    pub class: Option<&'static str>,
}

/// What a [`SectionLine`] holds.
#[verifier::ext_equal]
pub struct LineShown {
    pub text: Seq<char>,
    pub class: Option<Seq<char>>,
}

impl View for SectionLine {
    type V = LineShown;

    open spec fn view(&self) -> LineShown {
        LineShown {
            text: self.text@,
            class: match self.class {
                Some(c) => Some(c@),
                None => None,
            },
        }
    }
}

/// What a list of lines holds.
pub open spec fn line_views(v: Seq<SectionLine>) -> Seq<LineShown> {
    v.map_values(|l: SectionLine| l@)
}

/// A row as a titled section of lines. The button to open a file stands behind
/// the last line.
#[derive(Debug, PartialEq, Eq)]
pub struct Section {
    pub title: &'static str,
    pub lines: Vec<SectionLine>,
    /// The file that can be opened.
    pub open: Option<String>,
}

/// Lines of one style.
pub open spec fn lines_in(all: Seq<Seq<char>>, class: Option<Seq<char>>) -> Seq<LineShown> {
    all.map_values(|text: Seq<char>| LineShown { text, class })
}

/// The lines of a row. An identity that is not in clear reads as good news, one
/// in clear is dimmed; no colour of alarm for either.
pub open spec fn row_lines(row: RowShown) -> Seq<LineShown> {
    match row {
        RowShown::Headers(names) => lines_in(names, Some("accent"@)),
        RowShown::Body { meta, content } => seq![LineShown { text: meta, class: Some("dim-label"@) }]
            + (match content {
            BodyShown::Inline(text) => lines_in(seq![text], None),
            BodyShown::FromFile(file) => lines_in(seq![file.display], None),
            BodyShown::Form(fields) => lines_in(fields, None),
        }),
        RowShown::Auth { text, redacted } => lines_in(
            seq![text],
            Some(
                if redacted {
                    "success"@
                } else {
                    "dim-label"@
                },
            ),
        ),
        RowShown::FileRead(file) => lines_in(seq![file.display], None),
        RowShown::FileWrite(file) => lines_in(seq![file.display], None),
        RowShown::ProcessSpawn(command) => lines_in(seq![command], None),
    }
}

/// The file that a row offers to open: one that exists.
pub open spec fn row_opens(row: RowShown) -> Option<Seq<char>> {
    match row {
        RowShown::Body { content: BodyShown::FromFile(file), .. } => file_opens(file),
        RowShown::FileRead(file) => file_opens(file),
        RowShown::FileWrite(file) => file_opens(file),
        _ => None,
    }
}

/// The path of a file, where it can be opened.
pub open spec fn file_opens(file: FileShown) -> Option<Seq<char>> {
    if file.can_open {
        Some(file.path)
    } else {
        None
    }
}

fn add_lines(all: &Vec<String>, class: Option<&'static str>, out: &mut Vec<SectionLine>)
    ensures
        line_views(final(out)@) == line_views(old(out)@) + lines_in(
            texts(all@),
            match class {
                Some(c) => Some(c@),
                None => None,
            },
        ),
{
    let ghost before = line_views(out@);
    let ghost shown = lines_in(
        texts(all@),
        match class {
            Some(c) => Some(c@),
            None => None,
        },
    );
    let mut i: usize = 0;
    assert(line_views(out@) =~= before + shown.take(0));
    while i < all.len()
        invariant
            i <= all.len(),
            shown == lines_in(
                texts(all@),
                match class {
                    Some(c) => Some(c@),
                    None => None,
                },
            ),
            line_views(out@) == before + shown.take(i as int),
        decreases all.len() - i,
    {
        let ghost held = line_views(out@);
        out.push(SectionLine { text: all[i].clone(), class });
        assert(line_views(out@) =~= held.push(shown[i as int]));
        i += 1;
        assert(line_views(out@) =~= before + shown.take(i as int));
    }
    assert(shown.take(i as int) =~= shown);
}

fn add_line(text: &str, class: Option<&'static str>, out: &mut Vec<SectionLine>)
    ensures
        line_views(final(out)@) == line_views(old(out)@) + lines_in(
            seq![text@],
            match class {
                Some(c) => Some(c@),
                None => None,
            },
        ),
{
    let ghost before = out@;
    out.push(SectionLine { text: text.to_owned(), class });
    assert(line_views(out@) =~= line_views(before) + lines_in(
        seq![text@],
        match class {
            Some(c) => Some(c@),
            None => None,
        },
    ));
}

fn opens(file: &FilePath) -> (r: Option<String>)
    ensures
        (match r {
            Some(p) => Some(p@),
            None => None,
        }) == file_opens(file@),
{
    if file.can_open {
        Some(file.path.clone())
    } else {
        None
    }
}

/// Lowers a row into a section of the window.
pub fn effect_row(row: &EffectRow) -> (r: Section)
    ensures
        r.title@ == section_name(*row),
        line_views(r.lines@) == row_lines(row@),
        (match r.open {
            Some(p) => Some(p@),
            None => None,
        }) == row_opens(row@),
{
    let mut lines: Vec<SectionLine> = Vec::new();
    let mut open: Option<String> = None;
    assert(line_views(lines@) =~= Seq::empty());
    match row {
        EffectRow::Headers(names) => {
            add_lines(names, Some("accent"), &mut lines);
        },
        EffectRow::Body { meta, content } => {
            add_line(meta.as_str(), Some("dim-label"), &mut lines);
            match content {
                BodyContent::Inline(text) => {
                    add_line(text.as_str(), None, &mut lines);
                },
                BodyContent::FromFile(file) => {
                    add_line(file.display.as_str(), None, &mut lines);
                    open = opens(file);
                },
                BodyContent::Form(fields) => {
                    add_lines(fields, None, &mut lines);
                },
            }
        },
        EffectRow::Auth { text, redacted } => {
            let class = if *redacted {
                "success"
            } else {
                "dim-label"
            };
            add_line(text.as_str(), Some(class), &mut lines);
        },
        EffectRow::FileRead(file) => {
            add_line(file.display.as_str(), None, &mut lines);
            open = opens(file);
        },
        EffectRow::FileWrite(file) => {
            add_line(file.display.as_str(), None, &mut lines);
            open = opens(file);
        },
        EffectRow::ProcessSpawn(command) => {
            add_line(command.as_str(), None, &mut lines);
        },
    }
    assert(line_views(lines@) =~= row_lines(row@));
    Section { title: section_title(row), lines, open }
}

/// Why the window does not open.
#[derive(Debug, PartialEq, Eq)]
pub enum GlibError {
    /// There is no display. The daemon goes on without a window.
    NoDisplay,
    /// Another daemon serves this session. The daemon does not start.
    AlreadyRunning(String),
}

/// Whether the window opens. The name is asked for before it is claimed: to
/// claim it would take it from the daemon that has it.
pub fn may_open(toolkit_ready: bool, name_taken: bool) -> (r: Result<(), GlibError>)
    ensures
        !toolkit_ready ==> r == Err::<(), GlibError>(GlibError::NoDisplay),
        toolkit_ready && name_taken ==> (r matches Err(GlibError::AlreadyRunning(why)) && why@
            == "`dev.vetter.daemon` is already owned on the session bus"@),
        toolkit_ready && !name_taken ==> r is Ok,
{
    if !toolkit_ready {
        return Err(GlibError::NoDisplay);
    }
    if name_taken {
        return Err(
            GlibError::AlreadyRunning(
                "`dev.vetter.daemon` is already owned on the session bus".to_owned(),
            ),
        );
    }
    Ok(())
}

/// What the window says after a change of the setting: nothing where it went
/// well. `applied` counts only where the wish was stored.
pub fn autostart_toast(stored: &Result<(), String>, applied: &Result<(), AutostartError>) -> (r: Option<
    Toast,
>)
    ensures
        match (*stored, *applied) {
            (Err(e), _) => r matches Some(t) && t@ == (ToastShown {
                text: "Could not save the autostart setting: "@ + e@,
                error: true,
            }),
            (Ok(_), Err(e)) => r matches Some(t) && t@ == (ToastShown {
                text: "Could not update the autostart entry: "@ + e.text(),
                error: true,
            }),
            (Ok(_), Ok(_)) => r is None,
        },
{
    match stored {
        Err(e) => {
            let mut text = "Could not save the autostart setting: ".to_owned();
            text.append(e.as_str());
            Some(Toast { text, error: true })
        },
        Ok(_) => match applied {
            Err(e) => {
                let mut text = "Could not update the autostart entry: ".to_owned();
                let why = e.message();
                text.append(why.as_str());
                Some(Toast { text, error: true })
            },
            Ok(_) => None,
        },
    }
}

/// What the window says after a change of the sound setting: nothing where it
/// went well.
pub fn sound_toast(stored: &Result<(), String>) -> (r: Option<Toast>)
    ensures
        match *stored {
            Err(e) => r matches Some(t) && t@ == (ToastShown {
                text: "Could not save the sound setting: "@ + e@,
                error: true,
            }),
            Ok(_) => r is None,
        },
{
    match stored {
        Err(e) => {
            let mut text = "Could not save the sound setting: ".to_owned();
            text.append(e.as_str());
            Some(Toast { text, error: true })
        },
        Ok(_) => None,
    }
}

/// What the window is asked to show.
#[derive(Debug, Clone, PartialEq, Eq)]
pub struct ShowRequest {
    /// The card to scroll to.
    pub card_id: Option<String>,
    /// The token that lets the window come to the front.
    pub token: Option<String>,
    /// The picker to open on that card.
    pub picker: Option<PickerKind>,
}

impl Default for ShowRequest {
    fn default() -> (r: ShowRequest)
        ensures
            r.card_id is None,
            r.token is None,
            r.picker is None,
    {
        ShowRequest { card_id: None, token: None, picker: None }
    }
}

/// The request to show one card.
pub fn request_show_card(card_id: String) -> (r: ShowRequest)
    ensures
        r.card_id == Some(card_id),
        r.token is None,
        r.picker is None,
{
    ShowRequest { card_id: Some(card_id), token: None, picker: None }
}

/// The picker to open once the window shows: one that was asked for together
/// with a card, since a picker speaks of one request.
pub fn picker_to_open(request: &ShowRequest) -> (r: Option<(PickerKind, String)>)
    ensures
        match (request.picker, request.card_id) {
            (Some(kind), Some(id)) => r matches Some(p) && p.0 == kind && p.1@ == id@,
            _ => r is None,
        },
{
    match (request.picker, &request.card_id) {
        (Some(kind), Some(id)) => Some((kind, id.clone())),
        _ => None,
    }
}

/// A style that changes nothing gets no tag, and any other one gets an attribute
/// for each thing that it changes: a colour, a weight, a line.
pub proof fn law_tag_says_the_style(style: SpanStyle, palette: MarkupPalette)
    ensures
        ({
            let tag = tag_attributes(style, palette);
            &&& tag.len() == 0 <==> style.color is None && !style.bold && !style.underline
            &&& style.bold ==> exists|i: int|
                0 <= i && #[trigger] stands_at(tag, i, " weight=\"bold\""@)
            &&& style.underline ==> exists|i: int|
                0 <= i && #[trigger] stands_at(tag, i, " underline=\"single\""@)
            &&& colour_of(style, palette) matches Some(c) ==> stands_at(
                tag,
                0,
                " foreground=\""@ + c + "\""@,
            )
            &&& colour_of(style, palette) is Some <==> style.color is Some
        }),
{
    reveal_strlit(" weight=\"bold\"");
    reveal_strlit(" underline=\"single\"");
    reveal_strlit(" foreground=\"");
    let tag = tag_attributes(style, palette);
    let colour = match colour_of(style, palette) {
        Some(c) => " foreground=\""@ + c + "\""@,
        None => Seq::empty(),
    };
    let bold = " weight=\"bold\""@;
    let line = " underline=\"single\""@;
    let n = colour.len() as int;
    assert(tag.subrange(0, n) =~= colour);
    if style.bold {
        assert(tag.subrange(n, n + bold.len()) =~= bold);
        assert(stands_at(tag, n, bold));
    }
    if style.underline {
        let m = tag.len() - line.len();
        assert(tag.subrange(m, m + line.len()) =~= line);
        assert(stands_at(tag, m, line));
    }
}

/// Each colour has its own entry of the palette. Bright black is the dim one, and
/// so is cyan where it is dimmed.
pub proof fn law_colour_is_of_the_palette(style: SpanStyle, palette: MarkupPalette)
    ensures
        style.color == Some(AnsiColor::Red) ==> colour_of(style, palette) == Some(palette.red@),
        style.color == Some(AnsiColor::Green) ==> colour_of(style, palette) == Some(palette.green@),
        style.color == Some(AnsiColor::Yellow) ==> colour_of(style, palette) == Some(palette.yellow@),
        style.color == Some(AnsiColor::Magenta) ==> colour_of(style, palette) == Some(
            palette.magenta@,
        ),
        style.color == Some(AnsiColor::BrightBlue) ==> colour_of(style, palette) == Some(palette.blue@),
        style.color == Some(AnsiColor::BrightBlack) || (style.color == Some(AnsiColor::Cyan)
            && style.dim) ==> colour_of(style, palette) == Some(palette.dim@),
        style.color == Some(AnsiColor::Cyan) && !style.dim ==> colour_of(style, palette) == Some(
            palette.cyan@,
        ),
{
}

/// A row shows every text it has: each header name, the summary of a body and
/// behind it the text, the file or each field, and of any other row its text. An
/// auth row reads as good exactly where a secret was withheld.
pub proof fn law_row_shows_every_text(row: RowShown)
    ensures
        row matches RowShown::Headers(names) ==> row_lines(row).len() == names.len() && forall|i: int|
            0 <= i < names.len() ==> (#[trigger] row_lines(row)[i]).text == names[i],
        row matches RowShown::Body { meta, content } ==> row_lines(row)[0].text == meta && (match content {
            BodyShown::Inline(text) => row_lines(row).len() == 2 && row_lines(row)[1].text == text,
            BodyShown::FromFile(file) => row_lines(row).len() == 2 && row_lines(row)[1].text
                == file.display,
            BodyShown::Form(fields) => row_lines(row).len() == fields.len() + 1 && forall|i: int|
                1 <= i <= fields.len() ==> (#[trigger] row_lines(row)[i]).text == fields[i - 1],
        }),
        row matches RowShown::Auth { text, redacted } ==> row_lines(row).len() == 1 && row_lines(
            row,
        )[0].text == text && (row_lines(row)[0].class == Some("success"@) <==> redacted),
        row matches RowShown::FileRead(file) ==> row_lines(row).len() == 1 && row_lines(row)[0].text
            == file.display,
        row matches RowShown::FileWrite(file) ==> row_lines(row).len() == 1 && row_lines(row)[0].text
            == file.display,
        row matches RowShown::ProcessSpawn(command) ==> row_lines(row).len() == 1 && row_lines(
            row,
        )[0].text == command,
{
    reveal_strlit("success");
    reveal_strlit("dim-label");
    assert("success"@.len() != "dim-label"@.len());
}

/// A row offers to open its own file, exactly where the file is there.
pub proof fn law_row_opens_its_file(row: RowShown)
    ensures
        row matches RowShown::FileRead(file) ==> (row_opens(row) is Some <==> file.can_open),
        row matches RowShown::FileWrite(file) ==> (row_opens(row) is Some <==> file.can_open),
        row matches RowShown::Body { content: BodyShown::FromFile(file), .. } ==> (row_opens(
            row,
        ) is Some <==> file.can_open),
        row matches RowShown::FileRead(file) ==> row_opens(row) is Some ==> row_opens(row)->0
            == file.path,
        row matches RowShown::FileWrite(file) ==> row_opens(row) is Some ==> row_opens(row)->0
            == file.path,
        row matches RowShown::Body { content: BodyShown::FromFile(file), .. } ==> row_opens(
            row,
        ) is Some ==> row_opens(row)->0 == file.path,
        row is Headers || row is Auth || row is ProcessSpawn ==> row_opens(row) is None,
{
}

/// The approve button of a card allows and the reject button denies.
pub proof fn law_card_button_decides_as_it_says(action: CardAction, r: PendingDecision)
    requires
        call_ensures(CardAction::decision, (action,), r),
    ensures
        action == CardAction::Approve <==> r.decision == WireDecision::Allow,
        action == CardAction::Reject <==> r.decision == WireDecision::Deny,
{
}

/// A part of a card that was opened stays open until it is closed, and opening or
/// closing one part changes no other.
pub proof fn law_opening_changes_one_part(
    state: &mut ExpandedState,
    kind: Disclosure,
    id: &str,
    open: bool,
    other: Disclosure,
    other_id: Seq<char>,
)
    requires
        old(state).wf(),
        call_ensures(ExpandedState::set_open, (state, kind, id, open), ()),
    ensures
        opened(final(state).parts(), kind, id@) <==> open,
        other != kind || other_id != id@ ==> (opened(final(state).parts(), other, other_id) <==> opened(
            old(state).parts(),
            other,
            other_id,
        )),
{
}

/// The parts of cards that are gone are forgotten, and those of the others stay as
/// they were.
pub proof fn law_only_live_parts_stay_open(
    state: &mut ExpandedState,
    live: &Vec<&str>,
    kind: Disclosure,
    id: Seq<char>,
)
    requires
        old(state).wf(),
        call_ensures(ExpandedState::retain_live, (state, live), ()),
    ensures
        opened(final(state).parts(), kind, id) <==> opened(old(state).parts(), kind, id) && exists|i: int|
            0 <= i < live@.len() && (#[trigger] live@[i])@ == id,
{
}

/// A picker is opened only where both the picker and its card are asked for, and
/// then on that card.
pub proof fn law_picker_opens_on_its_card(request: &ShowRequest, r: Option<(PickerKind, String)>)
    requires
        call_ensures(picker_to_open, (request,), r),
    ensures
        r is Some <==> request.picker is Some && request.card_id is Some,
        r is Some ==> (r->0).0 == request.picker->0 && (r->0).1@ == request.card_id->0@,
{
}

} // verus!
