//! Risk signals to pills: tone, label, tooltip and order.
//!
//! A pill is the small tinted chip that a surface paints for a risk signal.
//! What it says and how urgent it reads is decided here, and so is its place in
//! the row: the most urgent pills come first.
use crate::command::{BadgeSeverity, RiskSignal, SignalKind};
use vstd::prelude::*;
use vstd::string::*;

verus! {

/// How urgent a pill reads.
#[derive(Debug, Clone, Copy, PartialEq, Eq, Structural)]
pub enum Tone {
    Danger,
    Warn,
    /// Only for an auth header: credentials that were kept off the screen are
    /// a good sign.
    Positive,
}

/// Everything a surface needs to paint one pill.
#[derive(Debug, Clone, PartialEq, Eq)]
pub struct PillSpec {
    pub tone: Tone,
    pub label: String,
    /// The label, and the detail of the signal where it has one.
    pub tooltip: String,
}

/// What a [`PillSpec`] holds.
#[verifier::ext_equal]
pub struct PillShown {
    pub tone: Tone,
    pub label: Seq<char>,
    pub tooltip: Seq<char>,
}

impl View for PillSpec {
    type V = PillShown;

    open spec fn view(&self) -> PillShown {
        PillShown { tone: self.tone, label: self.label@, tooltip: self.tooltip@ }
    }
}

/// What a list of pills holds.
pub open spec fn pill_views(v: Seq<PillSpec>) -> Seq<PillShown> {
    v.map_values(|p: PillSpec| p@)
}

pub open spec fn tone_for(kind: SignalKind, severity: BadgeSeverity) -> Option<Tone> {
    if kind == SignalKind::AuthHeader {
        Some(Tone::Positive)
    } else {
        match severity {
            BadgeSeverity::Danger => Some(Tone::Danger),
            BadgeSeverity::Warn => Some(Tone::Warn),
            BadgeSeverity::Info => None,
        }
    }
}

/// The tone of a signal of this kind and severity, or none where it gets no
/// pill.
pub fn signal_tone(kind: SignalKind, severity: BadgeSeverity) -> (r: Option<Tone>)
    ensures
        r == tone_for(kind, severity),
{
    if kind == SignalKind::AuthHeader {
        return Some(Tone::Positive);
    }
    match severity {
        BadgeSeverity::Danger => Some(Tone::Danger),
        BadgeSeverity::Warn => Some(Tone::Warn),
        BadgeSeverity::Info => None,
    }
}

/// The place of a tone in the row.
pub open spec fn tone_rank(tone: Tone) -> u8 {
    match tone {
        Tone::Danger => 0,
        Tone::Warn => 1,
        Tone::Positive => 2,
    }
}

/// The place of a signal in the row. One without a pill goes last.
pub open spec fn priority_for(kind: SignalKind, severity: BadgeSeverity) -> u8 {
    match tone_for(kind, severity) {
        Some(tone) => tone_rank(tone),
        None => 3,
    }
}

/// The place of a signal in the row: a lower number stands further left. It is
/// taken from the tone, so that the two cannot disagree.
pub fn signal_priority(kind: SignalKind, severity: BadgeSeverity) -> (r: u8)
    ensures
        r == priority_for(kind, severity),
{
    match signal_tone(kind, severity) {
        Some(Tone::Danger) => 0,
        Some(Tone::Warn) => 1,
        Some(Tone::Positive) => 2,
        None => 3,
    }
}

/// The hover text of a pill.
pub open spec fn pill_tooltip(label: Seq<char>, detail: Seq<char>) -> Seq<char> {
    if detail.len() == 0 {
        label
    } else {
        label + ": "@ + detail
    }
}

/// The pill of a signal, for a signal that gets one.
pub open spec fn pill_of(signal: RiskSignal) -> PillShown {
    PillShown {
        tone: tone_for(signal.kind, signal.severity)->0,
        label: signal.label@,
        tooltip: pill_tooltip(signal.label@, signal.detail@),
    }
}

/// The pill of a signal. A signal of the lowest severity gets none: it stays
/// in the raw body.
pub fn signal_pill(signal: &RiskSignal) -> (r: Option<PillSpec>)
    ensures
        r is Some <==> tone_for(signal.kind, signal.severity) is Some,
        r matches Some(pill) ==> pill@ == pill_of(*signal),
{
    match signal_tone(signal.kind, signal.severity) {
        None => None,
        Some(tone) => {
            let mut tooltip = signal.label.clone();
            if !signal.detail.as_str().is_empty() {
                tooltip.append(": ");
                tooltip.append(signal.detail.as_str());
            }
            Some(PillSpec { tone, label: signal.label.clone(), tooltip })
        },
    }
}

/// Whether no signal before position `i` has the kind of the one there.
pub open spec fn first_of_kind(signals: Seq<RiskSignal>, i: int) -> bool {
    forall|j: int| 0 <= j < i ==> (#[trigger] signals[j]).kind != signals[i].kind
}

/// The pills of tone `tone` among the first `n` signals: one for each kind,
/// that of its first signal, in the order of the signals.
pub open spec fn pills_of_tone(signals: Seq<RiskSignal>, tone: Tone, n: nat) -> Seq<PillShown>
    decreases n,
{
    if n == 0 {
        Seq::empty()
    } else {
        let before = pills_of_tone(signals, tone, (n - 1) as nat);
        let s = signals[n - 1];
        if first_of_kind(signals, n - 1) && tone_for(s.kind, s.severity) == Some(tone) {
            before.push(pill_of(s))
        } else {
            before
        }
    }
}

/// The pills of a card: one for each kind of signal that gets one, the most
/// urgent tone first, and in the order of the signals within a tone.
pub open spec fn pills_shown(signals: Seq<RiskSignal>) -> Seq<PillShown> {
    pills_of_tone(signals, Tone::Danger, signals.len()) + pills_of_tone(
        signals,
        Tone::Warn,
        signals.len(),
    ) + pills_of_tone(signals, Tone::Positive, signals.len())
}

/// Adds the pills of one tone.
fn add_pills(out: &mut Vec<PillSpec>, signals: &Vec<RiskSignal>, tone: Tone)
    ensures
        pill_views(final(out)@) == pill_views(old(out)@) + pills_of_tone(
            signals@,
            tone,
            signals@.len(),
        ),
{
    let ghost before = pill_views(out@);
    let mut i: usize = 0;
    assert(before + pills_of_tone(signals@, tone, 0) =~= before);
    while i < signals.len()
        invariant
            i <= signals.len(),
            pill_views(out@) == before + pills_of_tone(signals@, tone, i as nat),
        decreases signals.len() - i,
    {
        let ghost so_far = pill_views(out@);
        let mut first = true;
        let mut j: usize = 0;
        while j < i
            invariant
                j <= i < signals.len(),
                first == (forall|k: int|
                    0 <= k < j ==> (#[trigger] signals@[k]).kind != signals@[i as int].kind),
            decreases i - j,
        {
            if signals[j].kind == signals[i].kind {
                first = false;
                assert(signals@[j as int].kind == signals@[i as int].kind);
            }
            j += 1;
        }
        assert(first == first_of_kind(signals@, i as int));
        if first {
            if let Some(pill) = signal_pill(&signals[i]) {
                if pill.tone == tone {
                    out.push(pill);
                    assert(pill_views(out@) =~= so_far.push(pill_of(signals@[i as int])));
                }
            }
        }
        i += 1;
        assert(pill_views(out@) =~= before + pills_of_tone(signals@, tone, i as nat));
    }
}

/// The pills of a card.
pub fn pills_for(signals: &Vec<RiskSignal>) -> (r: Vec<PillSpec>)
    ensures
        pill_views(r@) == pills_shown(signals@),
{
    let mut out: Vec<PillSpec> = Vec::new();
    assert(pill_views(out@) =~= Seq::empty());
    add_pills(&mut out, signals, Tone::Danger);
    add_pills(&mut out, signals, Tone::Warn);
    add_pills(&mut out, signals, Tone::Positive);
    assert(pill_views(out@) =~= pills_shown(signals@));
    out
}

proof fn lemma_tone_of_pills(signals: Seq<RiskSignal>, tone: Tone, n: nat)
    requires
        n <= signals.len(),
    ensures
        forall|i: int|
            0 <= i < pills_of_tone(signals, tone, n).len() ==> (#[trigger] pills_of_tone(
                signals,
                tone,
                n,
            )[i]).tone == tone,
    decreases n,
{
    if n > 0 {
        lemma_tone_of_pills(signals, tone, (n - 1) as nat);
    }
}

/// The pills of a card stand in the order of urgency.
pub proof fn law_most_urgent_pill_first(signals: Seq<RiskSignal>, i: int, j: int)
    requires
        0 <= i <= j < pills_shown(signals).len(),
    ensures
        tone_rank(pills_shown(signals)[i].tone) <= tone_rank(pills_shown(signals)[j].tone),
{
    let n = signals.len();
    lemma_tone_of_pills(signals, Tone::Danger, n);
    lemma_tone_of_pills(signals, Tone::Warn, n);
    lemma_tone_of_pills(signals, Tone::Positive, n);
    let d = pills_of_tone(signals, Tone::Danger, n);
    let w = pills_of_tone(signals, Tone::Warn, n);
    let p = pills_of_tone(signals, Tone::Positive, n);
    let all = d + w + p;
    assert(forall|k: int| 0 <= k < d.len() ==> all[k] == d[k]);
    assert(forall|k: int| 0 <= k < w.len() ==> all[d.len() + k] == w[k]);
    assert(forall|k: int| 0 <= k < p.len() ==> all[d.len() + w.len() + k] == p[k]);
    assert(i < d.len() ==> all[i] == d[i]);
    assert(d.len() <= i < d.len() + w.len() ==> all[i] == w[i - d.len()]);
    assert(i >= d.len() + w.len() ==> all[i] == p[i - d.len() - w.len()]);
    assert(j < d.len() ==> all[j] == d[j]);
    assert(d.len() <= j < d.len() + w.len() ==> all[j] == w[j - d.len()]);
    assert(j >= d.len() + w.len() ==> all[j] == p[j - d.len() - w.len()]);
}

/// Where in the row a signal lands follows from its tone, whatever its kind:
/// of two signals the one with the more urgent tone has the lower priority
/// number, and one without a pill comes after all that have one.
pub proof fn law_priority_follows_tone(
    kind: SignalKind,
    severity: BadgeSeverity,
    other_kind: SignalKind,
    other_severity: BadgeSeverity,
)
    ensures
        tone_for(kind, severity) is Some && tone_for(other_kind, other_severity) is Some ==> (
        priority_for(kind, severity) < priority_for(other_kind, other_severity) <==> tone_rank(
            tone_for(kind, severity)->0,
        ) < tone_rank(tone_for(other_kind, other_severity)->0)),
        tone_for(kind, severity) is Some && tone_for(other_kind, other_severity) is None
            ==> priority_for(kind, severity) < priority_for(other_kind, other_severity),
{
}

/// Whether the signal at place `i` gets the pill of its kind: it is the first of
/// its kind, and it is urgent or an auth header.
pub open spec fn earns_pill(signals: Seq<RiskSignal>, i: int) -> bool {
    &&& 0 <= i < signals.len()
    &&& signals[i].kind == SignalKind::AuthHeader || signals[i].severity == BadgeSeverity::Danger
        || signals[i].severity == BadgeSeverity::Warn
    &&& forall|j: int| 0 <= j < signals.len() && (#[trigger] signals[j]).kind == signals[i].kind ==> i <= j
}

/// Whether the pill says what the signal says: the label, and in the tooltip the
/// label and behind it the detail. Credentials read as a good sign, anything
/// else by its severity.
pub open spec fn pill_says(pill: PillShown, signal: RiskSignal) -> bool {
    let label = signal.label@;
    let detail = signal.detail@;
    &&& pill.label == label
    &&& label.is_prefix_of(pill.tooltip)
    &&& detail.is_suffix_of(pill.tooltip)
    &&& pill.tooltip.len() == label.len() + (if detail.len() > 0 {
        detail.len() + 2
    } else {
        0
    })
    &&& pill.tone == Tone::Positive <==> signal.kind == SignalKind::AuthHeader
    &&& signal.kind != SignalKind::AuthHeader ==> (pill.tone == Tone::Danger <==> signal.severity
        == BadgeSeverity::Danger)
}

proof fn lemma_pill_says(signal: RiskSignal)
    requires
        tone_for(signal.kind, signal.severity) is Some,
    ensures
        pill_says(pill_of(signal), signal),
{
    reveal_strlit(": ");
    let tip = pill_of(signal).tooltip;
    let label = signal.label@;
    let detail = signal.detail@;
    assert(label =~= tip.subrange(0, label.len() as int));
    if detail.len() == 0 {
        assert(detail =~= tip.subrange(tip.len() as int, tip.len() as int));
    } else {
        assert(detail =~= tip.subrange(tip.len() - detail.len(), tip.len() as int));
    }
}

/// The places of the signals whose pills have this tone, in their order.
spec fn toned_places(signals: Seq<RiskSignal>, tone: Tone, n: nat, from: Seq<int>) -> bool {
    &&& from.len() == pills_of_tone(signals, tone, n).len()
    &&& forall|k: int|
        0 <= k < from.len() ==> {
            &&& 0 <= #[trigger] from[k] < n
            &&& earns_pill(signals, from[k])
            &&& pill_says(pills_of_tone(signals, tone, n)[k], signals[from[k]])
            &&& pills_of_tone(signals, tone, n)[k].tone == tone
        }
    &&& forall|j: int, k: int| 0 <= j < k < from.len() ==> #[trigger] from[j] < #[trigger] from[k]
    &&& forall|i: int|
        0 <= i < n && #[trigger] earns_pill(signals, i) && tone_for(
            signals[i].kind,
            signals[i].severity,
        ) == Some(tone) ==> from.contains(i)
}

proof fn lemma_toned_places(signals: Seq<RiskSignal>, tone: Tone, n: nat) -> (from: Seq<int>)
    requires
        n <= signals.len(),
    ensures
        toned_places(signals, tone, n, from),
    decreases n,
{
    if n == 0 {
        Seq::empty()
    } else {
        let m = (n - 1) as nat;
        let s = signals[m as int];
        let before = pills_of_tone(signals, tone, m);
        let fewer = lemma_toned_places(signals, tone, m);
        let hit = first_of_kind(signals, m as int) && tone_for(s.kind, s.severity) == Some(tone);
        let from = if hit {
            fewer.push(m as int)
        } else {
            fewer
        };
        if hit {
            lemma_pill_says(s);
            assert forall|j: int|
                0 <= j < signals.len() && (#[trigger] signals[j]).kind == s.kind implies m <= j by {
                if j < m {
                    assert(signals[j].kind != s.kind);
                }
            }
            assert(earns_pill(signals, m as int));
        }
        assert forall|k: int| 0 <= k < from.len() implies {
            &&& 0 <= #[trigger] from[k] < n
            &&& earns_pill(signals, from[k])
            &&& pill_says(pills_of_tone(signals, tone, n)[k], signals[from[k]])
            &&& pills_of_tone(signals, tone, n)[k].tone == tone
        } by {
            if k < fewer.len() {
                assert(from[k] == fewer[k]);
                assert(pills_of_tone(signals, tone, n)[k] == before[k]);
            }
        }
        assert forall|j: int, k: int| 0 <= j < k < from.len() implies #[trigger] from[j]
            < #[trigger] from[k] by {
            assert(from[j] == fewer[j]);
            if k < fewer.len() {
                assert(from[k] == fewer[k]);
            }
        }
        assert forall|i: int|
            0 <= i < n && #[trigger] earns_pill(signals, i) && tone_for(
                signals[i].kind,
                signals[i].severity,
            ) == Some(tone) implies from.contains(i) by {
            if i < m {
                assert(fewer.contains(i));
                let k = choose|k: int| 0 <= k < fewer.len() && fewer[k] == i;
                assert(from[k] == i);
            } else {
                assert(first_of_kind(signals, m as int)) by {
                    assert forall|j: int| 0 <= j < m implies (#[trigger] signals[j]).kind != s.kind by {}
                }
                assert(from[from.len() - 1] == i);
            }
        }
        from
    }
}

/// Each kind of signal that is urgent, and each auth header, has exactly one
/// pill, made from the first signal of that kind, and no pill comes from anything
/// else. Pills of one tone stand in the order of their signals.
pub proof fn law_one_pill_for_each_kind(signals: Seq<RiskSignal>) -> (from: Seq<int>)
    ensures
        from.len() == pills_shown(signals).len(),
        from.no_duplicates(),
        forall|k: int|
            0 <= k < from.len() ==> earns_pill(signals, #[trigger] from[k]) && pill_says(
                pills_shown(signals)[k],
                signals[from[k]],
            ),
        forall|i: int| #[trigger] earns_pill(signals, i) ==> from.contains(i),
        forall|j: int, k: int|
            0 <= j < k < from.len() && pills_shown(signals)[j].tone == pills_shown(signals)[k].tone
                ==> #[trigger] from[j] < #[trigger] from[k],
{
    let n = signals.len();
    let d = lemma_toned_places(signals, Tone::Danger, n);
    let w = lemma_toned_places(signals, Tone::Warn, n);
    let p = lemma_toned_places(signals, Tone::Positive, n);
    let from = d + w + p;
    let all = pills_shown(signals);
    let dl = d.len() as int;
    let wl = dl + w.len();
    assert forall|k: int| 0 <= k < from.len() implies earns_pill(signals, #[trigger] from[k])
        && pill_says(all[k], signals[from[k]]) && all[k].tone == (if k < dl {
        Tone::Danger
    } else if k < wl {
        Tone::Warn
    } else {
        Tone::Positive
    }) by {
        if k < dl {
            assert(from[k] == d[k]);
            assert(all[k] == pills_of_tone(signals, Tone::Danger, n)[k]);
        } else if k < wl {
            assert(from[k] == w[k - dl]);
            assert(all[k] == pills_of_tone(signals, Tone::Warn, n)[k - dl]);
        } else {
            assert(from[k] == p[k - wl]);
            assert(all[k] == pills_of_tone(signals, Tone::Positive, n)[k - wl]);
        }
    }
    assert forall|j: int, k: int|
        0 <= j < k < from.len() && all[j].tone == all[k].tone implies #[trigger] from[j]
        < #[trigger] from[k] by {
        assert(earns_pill(signals, from[j]) && earns_pill(signals, from[k]));
        if k < dl {
            assert(d[j] < d[k]);
        } else if k < wl {
            assert(w[j - dl] < w[k - dl]);
        } else {
            assert(p[j - wl] < p[k - wl]);
        }
    }
    assert forall|j: int, k: int| 0 <= j < k < from.len() implies from[j] != from[k] by {
        if from[j] == from[k] {
            assert(pill_says(all[j], signals[from[j]]) && pill_says(all[k], signals[from[k]]));
            assert(all[j].tone == all[k].tone);
        }
    }
    assert(from.no_duplicates());
    assert forall|i: int| #[trigger] earns_pill(signals, i) implies from.contains(i) by {
        let t = tone_for(signals[i].kind, signals[i].severity);
        if t == Some(Tone::Danger) {
            let k = choose|k: int| 0 <= k < d.len() && d[k] == i;
            assert(from[k] == i);
        } else if t == Some(Tone::Warn) {
            let k = choose|k: int| 0 <= k < w.len() && w[k] == i;
            assert(from[dl + k] == i);
        } else {
            let k = choose|k: int| 0 <= k < p.len() && p[k] == i;
            assert(from[wl + k] == i);
        }
    }
    from
}

} // verus!
