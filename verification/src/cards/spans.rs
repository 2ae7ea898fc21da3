//! ANSI SGR escapes to styled spans, for the raw detail body of a card.
//!
//! A detail string arrives with each styled run wrapped in SGR escapes:
//! `ESC [ parameters m`, the parameters being decimal codes with `;` between
//! them. The codes with a meaning here are `0` reset, `1` bold, `2` dim,
//! `4` underline and the foreground colours `31`, `32`, `33`, `35`, `36`, `90`
//! and `94`. Any other code changes nothing, so a wider palette degrades to
//! unstyled text. Text that is no such escape is kept as it stands, a lone
//! `ESC` and an escape that is malformed or never ends among it.
use crate::text::{chars_of, concat, digits_value, is_digit, lemma_concat_push, split_on};
use vstd::prelude::*;
use vstd::string::*;

verus! {

/// The foreground colours that the writer of detail strings asks for.
#[derive(Debug, Clone, Copy, PartialEq, Eq, Structural)]
pub enum AnsiColor {
    Red,
    Green,
    Yellow,
    Magenta,
    Cyan,
    BrightBlack,
    BrightBlue,
}

/// The style in force over a run of text.
#[derive(Debug, Clone, Copy, PartialEq, Eq, Structural)]
pub struct SpanStyle {
    pub color: Option<AnsiColor>,
    pub bold: bool,
    pub dim: bool,
    pub underline: bool,
}

/// One run of text under a single style.
#[derive(Debug, Clone, PartialEq, Eq)]
pub struct AnsiSpan {
    pub text: String,
    pub style: SpanStyle,
}

/// What an [`AnsiSpan`] holds.
pub struct SpanView {
    pub text: Seq<char>,
    pub style: SpanStyle,
}

impl View for AnsiSpan {
    type V = SpanView;

    open spec fn view(&self) -> SpanView {
        SpanView { text: self.text@, style: self.style }
    }
}

/// The style before any escape and after a reset.
pub open spec fn plain_style() -> SpanStyle {
    SpanStyle { color: None, bold: false, dim: false, underline: false }
}

impl Default for SpanStyle {
    fn default() -> (r: SpanStyle)
        ensures
            r == plain_style(),
    {
        SpanStyle { color: None, bold: false, dim: false, underline: false }
    }
}

/// The style after the code `code`.
pub open spec fn sgr(style: SpanStyle, code: nat) -> SpanStyle {
    if code == 0 {
        plain_style()
    } else if code == 1 {
        SpanStyle { bold: true, ..style }
    } else if code == 2 {
        SpanStyle { dim: true, ..style }
    } else if code == 4 {
        SpanStyle { underline: true, ..style }
    } else if code == 31 {
        SpanStyle { color: Some(AnsiColor::Red), ..style }
    } else if code == 32 {
        SpanStyle { color: Some(AnsiColor::Green), ..style }
    } else if code == 33 {
        SpanStyle { color: Some(AnsiColor::Yellow), ..style }
    } else if code == 35 {
        SpanStyle { color: Some(AnsiColor::Magenta), ..style }
    } else if code == 36 {
        SpanStyle { color: Some(AnsiColor::Cyan), ..style }
    } else if code == 90 {
        SpanStyle { color: Some(AnsiColor::BrightBlack), ..style }
    } else if code == 94 {
        SpanStyle { color: Some(AnsiColor::BrightBlue), ..style }
    } else {
        style
    }
}

/// The style after the codes of a parameter string. A code left out counts as
/// a reset.
pub open spec fn sgr_all(style: SpanStyle, codes: Seq<Seq<char>>) -> SpanStyle
    decreases codes.len(),
{
    if codes.len() == 0 {
        style
    } else {
        sgr(sgr_all(style, codes.drop_last()), digits_value(codes.last()))
    }
}

/// Whether `c` may stand among the parameters of an escape.
pub open spec fn is_param(c: char) -> bool {
    c == ';' || is_digit(c)
}

/// How many parameter characters stand in `s` from position `i` on.
pub open spec fn param_run(s: Seq<char>, i: int) -> nat
    decreases s.len() - i,
{
    if 0 <= i < s.len() && is_param(s[i]) {
        1 + param_run(s, i + 1)
    } else {
        0
    }
}

/// Where the parameters of an escape that opens at `i` end.
pub open spec fn sgr_close(s: Seq<char>, i: int) -> int {
    i + 2 + param_run(s, i + 2)
}

/// Whether a complete SGR escape stands at position `i`.
pub open spec fn is_sgr(s: Seq<char>, i: int) -> bool {
    &&& 0 <= i < s.len() - 1
    &&& s[i] == '\x1b'
    &&& s[i + 1] == '['
    &&& sgr_close(s, i) < s.len()
    &&& s[sgr_close(s, i)] == 'm'
}

/// The parameter string of the escape at `i`.
pub open spec fn sgr_params(s: Seq<char>, i: int) -> Seq<char> {
    s.subrange(i + 2, sgr_close(s, i))
}

/// A run as a list of spans: none where the run is empty.
pub open spec fn run_span(text: Seq<char>, style: SpanStyle) -> Seq<SpanView> {
    if text.len() == 0 {
        Seq::empty()
    } else {
        seq![SpanView { text, style }]
    }
}

/// The spans of `s` from position `i` on, `run` being the text read since the
/// last escape and `style` the style in force.
pub open spec fn spans_from(s: Seq<char>, i: int, style: SpanStyle, run: Seq<char>) -> Seq<SpanView>
    decreases s.len() - i,
{
    if i < 0 || i >= s.len() {
        run_span(run, style)
    } else if is_sgr(s, i) {
        run_span(run, style) + spans_from(
            s,
            sgr_close(s, i) + 1,
            sgr_all(style, split_on(sgr_params(s, i), ';')),
            Seq::empty(),
        )
    } else {
        spans_from(s, i + 1, style, run.push(s[i]))
    }
}

/// The spans of a detail string.
pub open spec fn spans(s: Seq<char>) -> Seq<SpanView> {
    spans_from(s, 0, plain_style(), Seq::empty())
}

/// The text of `s` from position `i` on without its escapes.
pub open spec fn stripped_from(s: Seq<char>, i: int) -> Seq<char>
    decreases s.len() - i,
{
    if i < 0 || i >= s.len() {
        Seq::empty()
    } else if is_sgr(s, i) {
        stripped_from(s, sgr_close(s, i) + 1)
    } else {
        seq![s[i]] + stripped_from(s, i + 1)
    }
}

/// A detail string without its escapes.
pub open spec fn stripped(s: Seq<char>) -> Seq<char> {
    stripped_from(s, 0)
}

/// The texts of spans.
pub open spec fn span_texts(v: Seq<SpanView>) -> Seq<Seq<char>> {
    v.map_values(|x: SpanView| x.text)
}

/// What a list of spans holds.
pub open spec fn span_views(v: Seq<AnsiSpan>) -> Seq<SpanView> {
    v.map_values(|x: AnsiSpan| x@)
}

fn apply_sgr(style: &mut SpanStyle, code: u32)
    ensures
        *final(style) == sgr(*old(style), code as nat),
{
    match code {
        0 => {
            *style = SpanStyle::default();
        },
        1 => {
            style.bold = true;
        },
        2 => {
            style.dim = true;
        },
        4 => {
            style.underline = true;
        },
        31 => {
            style.color = Some(AnsiColor::Red);
        },
        32 => {
            style.color = Some(AnsiColor::Green);
        },
        33 => {
            style.color = Some(AnsiColor::Yellow);
        },
        35 => {
            style.color = Some(AnsiColor::Magenta);
        },
        36 => {
            style.color = Some(AnsiColor::Cyan);
        },
        90 => {
            style.color = Some(AnsiColor::BrightBlack);
        },
        94 => {
            style.color = Some(AnsiColor::BrightBlue);
        },
        _ => {},
    }
}

/// Applies the parameters that stand in `s` from `lo` up to `hi`.
fn apply_params(style: &mut SpanStyle, s: &Vec<char>, lo: usize, hi: usize)
    requires
        lo <= hi <= s.len(),
        forall|k: int| lo <= k < hi ==> is_param(#[trigger] s@[k]),
    ensures
        *final(style) == sgr_all(*old(style), split_on(s@.subrange(lo as int, hi as int), ';')),
{
    let ghost before = *style;
    let mut code: u32 = 0;
    let mut i: usize = lo;
    proof {
        assert(s@.subrange(lo as int, lo as int) =~= Seq::<char>::empty());
    }
    while i < hi
        invariant
            lo <= i <= hi <= s.len(),
            forall|k: int| lo <= k < hi ==> is_param(#[trigger] s@[k]),
            ({
                let codes = split_on(s@.subrange(lo as int, i as int), ';');
                &&& codes.len() >= 1
                &&& *style == sgr_all(before, codes.drop_last())
                &&& code == digits_value(codes.last()) || (code > 1000 && digits_value(codes.last())
                    > 1000)
            }),
        decreases hi - i,
    {
        let ghost done = s@.subrange(lo as int, i as int);
        let ghost codes = split_on(done, ';');
        let c = s[i];
        proof {
            assert(s@.subrange(lo as int, i + 1) =~= done.push(c));
            assert(done.push(c).drop_last() =~= done);
        }
        if c == ';' {
            apply_sgr(style, code);
            code = 0;
            proof {
                assert(codes.push(Seq::empty()).drop_last() =~= codes);
                assert(digits_value(Seq::<char>::empty()) == 0);
            }
        } else {
            proof {
                assert(is_param(s@[i as int]));
                let next = codes.drop_last().push(codes.last().push(c));
                assert(next.drop_last() =~= codes.drop_last());
                assert(codes.last().push(c).drop_last() =~= codes.last());
            }
            if code <= 1000 {
                let d: u32 = c as u32 - 48;
                code = code * 10 + d;
            }
        }
        i += 1;
    }
    apply_sgr(style, code);
}

/// The spans of a detail string: its text without the escapes, cut where an
/// escape stands, each piece under the style that the escapes before it leave.
pub fn parse_ansi_spans(text: &str) -> (r: Vec<AnsiSpan>)
    ensures
        span_views(r@) == spans(text@),
{
    let s = chars_of(text);
    let mut out: Vec<AnsiSpan> = Vec::new();
    let mut style = SpanStyle::default();
    let mut run = String::new();
    let mut i: usize = 0;
    while i < s.len()
        invariant
            i <= s.len(),
            s@ == text@,
            span_views(out@) + spans_from(s@, i as int, style, run@) == spans(text@),
        decreases s.len() - i,
    {
        let ghost shown = span_views(out@);
        let ghost pending = run_span(run@, style);
        let mut close: usize = i;
        let mut complete = false;
        if i + 1 < s.len() && s[i] == '\x1b' && s[i + 1] == '[' {
            close = i + 2;
            while close < s.len() && (s[close] == ';' || (s[close] >= '0' && s[close] <= '9'))
                invariant
                    i + 2 <= close <= s.len(),
                    sgr_close(s@, i as int) == close + param_run(s@, close as int),
                    forall|k: int| i + 2 <= k < close ==> is_param(#[trigger] s@[k]),
                decreases s.len() - close,
            {
                close += 1;
            }
            complete = close < s.len() && s[close] == 'm';
        }
        assert(complete == is_sgr(s@, i as int));
        if complete {
            if !run.as_str().is_empty() {
                let mut done = String::new();
                std::mem::swap(&mut done, &mut run);
                out.push(AnsiSpan { text: done, style });
                assert(span_views(out@) =~= span_views(out@.drop_last()).push(out@.last()@));
            }
            assert(span_views(out@) =~= shown + pending);
            assert(run@ =~= Seq::empty());
            apply_params(&mut style, &s, i + 2, close);
            i = close + 1;
            proof {
                let rest = spans_from(s@, i as int, style, run@);
                assert(shown + (pending + rest) =~= shown + pending + rest);
            }
        } else {
            run.push(s[i]);
            i += 1;
        }
    }
    if !run.as_str().is_empty() {
        out.push(AnsiSpan { text: run, style });
        assert(span_views(out@) =~= span_views(out@.drop_last()).push(out@.last()@));
    }
    out
}

proof fn lemma_strip_spans(s: Seq<char>, i: int, style: SpanStyle, run: Seq<char>)
    requires
        0 <= i <= s.len(),
    ensures
        concat(span_texts(spans_from(s, i, style, run))) == run + stripped_from(s, i),
    decreases s.len() - i,
{
    let v = spans_from(s, i, style, run);
    reveal_with_fuel(concat, 2);
    if i >= s.len() {
        if run.len() == 0 {
            assert(span_texts(v) =~= Seq::empty());
        } else {
            assert(span_texts(v) =~= seq![run]);
            assert(seq![run].drop_last() =~= Seq::empty());
            assert(concat(seq![run]) =~= run);
        }
        assert(run + stripped_from(s, i) =~= run);
    } else if is_sgr(s, i) {
        let next = sgr_all(style, split_on(sgr_params(s, i), ';'));
        let rest = spans_from(s, sgr_close(s, i) + 1, next, Seq::empty());
        lemma_strip_spans(s, sgr_close(s, i) + 1, next, Seq::empty());
        assert(Seq::<char>::empty() + stripped_from(s, sgr_close(s, i) + 1) =~= stripped_from(
            s,
            sgr_close(s, i) + 1,
        ));
        if run.len() == 0 {
            assert(v =~= rest);
            assert(run + stripped_from(s, i) =~= stripped_from(s, i));
        } else {
            lemma_concat_front(run, span_texts(rest));
            assert(span_texts(v) =~= seq![run] + span_texts(rest));
        }
    } else {
        lemma_strip_spans(s, i + 1, style, run.push(s[i]));
        assert(run.push(s[i]) + stripped_from(s, i + 1) =~= run + stripped_from(s, i));
    }
}

proof fn lemma_concat_front(first: Seq<char>, rest: Seq<Seq<char>>)
    ensures
        concat(seq![first] + rest) == first + concat(rest),
    decreases rest.len(),
{
    let all = seq![first] + rest;
    if rest.len() == 0 {
        assert(all.drop_last() =~= Seq::empty());
        assert(concat(all) =~= first + concat(rest)) by {
            reveal_with_fuel(concat, 2);
        }
    } else {
        assert(all.drop_last() =~= seq![first] + rest.drop_last());
        lemma_concat_front(first, rest.drop_last());
        assert(concat(all) =~= first + concat(rest));
    }
}

/// Stripping a detail string gives the texts of its spans one after the other:
/// what is copied is what is painted.
pub proof fn law_stripped_is_what_spans_show(s: Seq<char>)
    ensures
        stripped(s) == concat(span_texts(spans(s))),
{
    lemma_strip_spans(s, 0, plain_style(), Seq::empty());
    assert(Seq::<char>::empty() + stripped_from(s, 0) =~= stripped_from(s, 0));
}

proof fn lemma_spans_not_empty(s: Seq<char>, i: int, style: SpanStyle, run: Seq<char>)
    ensures
        forall|k: int|
            0 <= k < spans_from(s, i, style, run).len() ==> (#[trigger] spans_from(
                s,
                i,
                style,
                run,
            )[k]).text.len() > 0,
    decreases s.len() - i,
{
    if i < 0 || i >= s.len() {
    } else if is_sgr(s, i) {
        lemma_spans_not_empty(
            s,
            sgr_close(s, i) + 1,
            sgr_all(style, split_on(sgr_params(s, i), ';')),
            Seq::empty(),
        );
    } else {
        lemma_spans_not_empty(s, i + 1, style, run.push(s[i]));
    }
}

/// No span of a detail string is empty.
pub proof fn law_no_empty_span(s: Seq<char>, k: int)
    requires
        0 <= k < spans(s).len(),
    ensures
        spans(s)[k].text.len() > 0,
{
    lemma_spans_not_empty(s, 0, plain_style(), Seq::empty());
}

proof fn lemma_plain_from(s: Seq<char>, i: int, run: Seq<char>)
    requires
        0 <= i <= s.len(),
        forall|k: int| 0 <= k < s.len() ==> !#[trigger] is_sgr(s, k),
    ensures
        spans_from(s, i, plain_style(), run) == run_span(run + s.skip(i), plain_style()),
        stripped_from(s, i) == s.skip(i),
    decreases s.len() - i,
{
    if i < s.len() {
        lemma_plain_from(s, i + 1, run.push(s[i]));
        assert(run.push(s[i]) + s.skip(i + 1) =~= run + s.skip(i));
        assert(seq![s[i]] + s.skip(i + 1) =~= s.skip(i));
    } else {
        assert(run + s.skip(i) =~= run);
        assert(s.skip(i) =~= Seq::empty());
    }
}

/// Text without a complete escape is one span in the plain style, and
/// stripping leaves it as it is: a malformed or unended escape is kept.
pub proof fn law_other_text_is_kept(s: Seq<char>)
    requires
        forall|k: int| 0 <= k < s.len() ==> !#[trigger] is_sgr(s, k),
    ensures
        spans(s) == run_span(s, plain_style()),
        stripped(s) == s,
{
    lemma_plain_from(s, 0, Seq::empty());
    assert(Seq::<char>::empty() + s.skip(0) =~= s);
    assert(s.skip(0) =~= s);
}

/// A detail string without its escapes: the text that its spans show.
pub fn strip_ansi(text: &str) -> (r: String)
    ensures
        r@ == stripped(text@),
{
    let spans = parse_ansi_spans(text);
    let mut out = String::new();
    let mut i: usize = 0;
    while i < spans.len()
        invariant
            i <= spans.len(),
            out@ == concat(span_texts(span_views(spans@)).take(i as int)),
        decreases spans.len() - i,
    {
        out.append(spans[i].text.as_str());
        proof {
            let t = span_texts(span_views(spans@));
            assert(t.take(i + 1) =~= t.take(i as int).push(t[i as int]));
            lemma_concat_push(t.take(i as int), t[i as int]);
        }
        i += 1;
    }
    proof {
        let t = span_texts(span_views(spans@));
        assert(t.take(i as int) =~= t);
        law_stripped_is_what_spans_show(text@);
    }
    out
}

/// What a code does to a style: `0` takes everything off, `1`, `2` and `4` each
/// put one thing on, a code of a colour changes the colour alone, and any other
/// code changes nothing.
pub proof fn law_code_changes_one_thing(style: SpanStyle, code: nat)
    ensures
        ({
            let after = sgr(style, code);
            let coloured = 31 <= code <= 33 || 35 <= code <= 36 || code == 90 || code == 94;
            &&& after.bold <==> code != 0 && (style.bold || code == 1)
            &&& after.dim <==> code != 0 && (style.dim || code == 2)
            &&& after.underline <==> code != 0 && (style.underline || code == 4)
            &&& code == 0 ==> after.color is None
            &&& code != 0 && !coloured ==> after.color == style.color
            &&& coloured ==> after.color is Some
            &&& code == 31 ==> after.color == Some(AnsiColor::Red)
            &&& code == 32 ==> after.color == Some(AnsiColor::Green)
            &&& code == 33 ==> after.color == Some(AnsiColor::Yellow)
            &&& code == 35 ==> after.color == Some(AnsiColor::Magenta)
            &&& code == 36 ==> after.color == Some(AnsiColor::Cyan)
            &&& code == 90 ==> after.color == Some(AnsiColor::BrightBlack)
            &&& code == 94 ==> after.color == Some(AnsiColor::BrightBlue)
        }),
{
}

/// Whether what `code` puts on is on after these codes: it was put on, or on
/// before, and no reset came behind.
pub open spec fn left_on(codes: Seq<Seq<char>>, code: nat, was: bool) -> bool {
    ||| exists|i: int|
        0 <= i < codes.len() && digits_value(#[trigger] codes[i]) == code && forall|j: int|
            i < j < codes.len() ==> digits_value(#[trigger] codes[j]) != 0
    ||| was && forall|j: int| 0 <= j < codes.len() ==> digits_value(#[trigger] codes[j]) != 0
}

proof fn lemma_left_on(codes: Seq<Seq<char>>, code: nat, was: bool)
    requires
        codes.len() > 0,
        code != 0,
    ensures
        left_on(codes, code, was) <==> digits_value(codes.last()) != 0 && (left_on(
            codes.drop_last(),
            code,
            was,
        ) || digits_value(codes.last()) == code),
{
    let front = codes.drop_last();
    let n = front.len() as int;
    assert(codes[n] == codes.last());
    if left_on(codes, code, was) {
        if exists|i: int|
            0 <= i < codes.len() && digits_value(#[trigger] codes[i]) == code && forall|j: int|
                i < j < codes.len() ==> digits_value(#[trigger] codes[j]) != 0 {
            let i = choose|i: int|
                0 <= i < codes.len() && digits_value(#[trigger] codes[i]) == code && forall|j: int|
                    i < j < codes.len() ==> digits_value(#[trigger] codes[j]) != 0;
            if i < n {
                assert(front[i] == codes[i]);
                assert forall|j: int| i < j < front.len() implies digits_value(#[trigger] front[j])
                    != 0 by {
                    assert(front[j] == codes[j]);
                }
                assert(digits_value(codes[n]) != 0);
            }
        } else {
            assert forall|j: int| 0 <= j < front.len() implies digits_value(#[trigger] front[j]) != 0 by {
                assert(front[j] == codes[j]);
            }
            assert(digits_value(codes[n]) != 0);
        }
    }
    if digits_value(codes.last()) != 0 && left_on(front, code, was) {
        if exists|i: int|
            0 <= i < front.len() && digits_value(#[trigger] front[i]) == code && forall|j: int|
                i < j < front.len() ==> digits_value(#[trigger] front[j]) != 0 {
            let i = choose|i: int|
                0 <= i < front.len() && digits_value(#[trigger] front[i]) == code && forall|j: int|
                    i < j < front.len() ==> digits_value(#[trigger] front[j]) != 0;
            assert(digits_value(codes[i]) == code);
            assert forall|j: int| i < j < codes.len() implies digits_value(#[trigger] codes[j]) != 0 by {
                if j < n {
                    assert(front[j] == codes[j]);
                }
            }
        } else {
            assert forall|j: int| 0 <= j < codes.len() implies digits_value(#[trigger] codes[j]) != 0 by {
                if j < n {
                    assert(front[j] == codes[j]);
                }
            }
        }
    }
    if digits_value(codes.last()) == code {
        assert(digits_value(codes[n]) == code);
    }
}

/// Of an escape every code counts, in its order: a thing is on after it exactly
/// where some code put it on, or it was on before, and no reset came behind.
pub proof fn law_every_code_counts(style: SpanStyle, codes: Seq<Seq<char>>)
    ensures
        sgr_all(style, codes).bold <==> left_on(codes, 1, style.bold),
        sgr_all(style, codes).dim <==> left_on(codes, 2, style.dim),
        sgr_all(style, codes).underline <==> left_on(codes, 4, style.underline),
    decreases codes.len(),
{
    if codes.len() > 0 {
        law_every_code_counts(style, codes.drop_last());
        lemma_left_on(codes, 1, style.bold);
        lemma_left_on(codes, 2, style.dim);
        lemma_left_on(codes, 4, style.underline);
    }
}

/// Whether an escape opens at `i` and closes at `close`: an escape character, a
/// bracket, digits and semicolons, and an `m`.
pub open spec fn escape_between(s: Seq<char>, i: int, close: int) -> bool {
    &&& 0 <= i
    &&& i + 2 <= close < s.len()
    &&& s[i] == '\x1b'
    &&& s[i + 1] == '['
    &&& s[close] == 'm'
    &&& forall|k: int| i + 2 <= k < close ==> #[trigger] s[k] == ';' || '0' <= s[k] <= '9'
}

proof fn lemma_param_run(s: Seq<char>, i: int)
    requires
        0 <= i,
    ensures
        i <= s.len() ==> i + param_run(s, i) <= s.len(),
        forall|k: int| i <= k < i + param_run(s, i) ==> #[trigger] s[k] == ';' || '0' <= s[k] <= '9',
        i + param_run(s, i) < s.len() ==> !is_param(s[i + param_run(s, i)]),
    decreases s.len() - i,
{
    if i < s.len() && is_param(s[i]) {
        lemma_param_run(s, i + 1);
    }
}

/// What is taken for an escape is one, and every one is taken: the text from `i`
/// to `close` is an escape exactly where the reader sees one and ends it there.
pub proof fn law_escapes_are_recognised(s: Seq<char>, i: int, close: int)
    ensures
        escape_between(s, i, close) <==> is_sgr(s, i) && sgr_close(s, i) == close,
{
    if 0 <= i {
        lemma_param_run(s, i + 2);
        let end = sgr_close(s, i);
        if escape_between(s, i, close) {
            if close < end {
                assert(s[close] == ';' || '0' <= s[close] <= '9');
            }
            if end < close {
                assert(s[end] == ';' || '0' <= s[end] <= '9');
                assert(is_param(s[end]));
            }
        }
        if is_sgr(s, i) && end == close {
            assert(escape_between(s, i, close));
        }
    }
}

proof fn lemma_spans_shift(x: Seq<char>, y: Seq<char>, i: int, style: SpanStyle, run: Seq<char>)
    requires
        0 <= i,
    ensures
        spans_from(x + y, x.len() + i, style, run) == spans_from(y, i, style, run),
    decreases y.len() - i,
{
    let t = x + y;
    let at = x.len() + i;
    if i < y.len() {
        lemma_sgr_shift(x, y, i);
        if is_sgr(y, i) {
            let close = sgr_close(y, i);
            lemma_param_run(y, i + 2);
            assert(sgr_params(t, at) =~= sgr_params(y, i));
            lemma_spans_shift(
                x,
                y,
                close + 1,
                sgr_all(style, split_on(sgr_params(y, i), ';')),
                Seq::empty(),
            );
        } else {
            lemma_spans_shift(x, y, i + 1, style, run.push(y[i]));
        }
    }
}

proof fn lemma_sgr_shift(x: Seq<char>, y: Seq<char>, i: int)
    requires
        0 <= i < y.len(),
    ensures
        is_sgr(x + y, x.len() + i) == is_sgr(y, i),
        is_sgr(y, i) ==> sgr_close(x + y, x.len() + i) == x.len() + sgr_close(y, i),
{
    lemma_run_shift(x, y, i + 2);
}

proof fn lemma_run_shift(x: Seq<char>, y: Seq<char>, i: int)
    requires
        0 <= i,
    ensures
        param_run(x + y, x.len() + i) == param_run(y, i),
    decreases y.len() - i,
{
    if i < y.len() && is_param(y[i]) {
        lemma_run_shift(x, y, i + 1);
    }
}

proof fn lemma_plain_run(s: Seq<char>, i: int, n: int, style: SpanStyle, run: Seq<char>)
    requires
        0 <= i <= n <= s.len(),
        forall|k: int| i <= k < n ==> #[trigger] s[k] != '\x1b',
    ensures
        spans_from(s, i, style, run) == spans_from(s, n, style, run + s.subrange(i, n)),
    decreases n - i,
{
    if i < n {
        lemma_plain_run(s, i + 1, n, style, run.push(s[i]));
        assert(run.push(s[i]) + s.subrange(i + 1, n) =~= run + s.subrange(i, n));
    } else {
        assert(run + s.subrange(i, n) =~= run);
    }
}

/// Text between escapes is one span, under the style that was in force, and what
/// an escape changes holds from there on: `text` without an escape character,
/// an escape with the parameters `params`, and `rest`.
pub proof fn law_escape_styles_what_follows(text: Seq<char>, params: Seq<char>, rest: Seq<char>, style: SpanStyle)
    requires
        !text.contains('\x1b'),
        forall|k: int| 0 <= k < params.len() ==> #[trigger] params[k] == ';' || '0' <= params[k] <= '9',
    ensures
        ({
            let escape = seq!['\x1b', '['] + params + seq!['m'];
            spans_from(text + (escape + rest), 0, style, Seq::empty()) == (if text.len() == 0 {
                Seq::empty()
            } else {
                seq![SpanView { text, style }]
            }) + spans_from(rest, 0, sgr_all(style, split_on(params, ';')), Seq::empty())
        }),
{
    let escape = seq!['\x1b', '['] + params + seq!['m'];
    let s = text + (escape + rest);
    let n = text.len() as int;
    let close = n + 2 + params.len();
    let none = Seq::<char>::empty();
    assert forall|k: int| 0 <= k < n implies #[trigger] s[k] != '\x1b' by {
        assert(text[k] == s[k]);
        assert(text.contains(text[k]));
    }
    lemma_plain_run(s, 0, n, style, none);
    assert(none + s.subrange(0, n) =~= text);
    assert forall|k: int| n + 2 <= k < close implies #[trigger] s[k] == ';' || '0' <= s[k] <= '9' by {
        assert(s[k] == params[k - n - 2]);
    }
    assert(escape_between(s, n, close));
    law_escapes_are_recognised(s, n, close);
    assert(sgr_params(s, n) =~= params);
    let after = sgr_all(style, split_on(params, ';'));
    assert(s =~= (text + escape) + rest);
    lemma_spans_shift(text + escape, rest, 0, after, none);
}

/// The codes of an escape count one after the other: those of two parts work as
/// the first part and then the second, and one code alone is that code.
pub proof fn law_codes_count_one_after_the_other(style: SpanStyle, a: Seq<Seq<char>>, b: Seq<Seq<char>>)
    ensures
        sgr_all(style, a + b) == sgr_all(sgr_all(style, a), b),
        a.len() == 1 ==> sgr_all(style, a) == sgr(style, digits_value(a[0])),
        a.len() == 0 ==> sgr_all(style, a) == style,
    decreases b.len(),
{
    if b.len() == 0 {
        assert(a + b =~= a);
    } else {
        law_codes_count_one_after_the_other(style, a, b.drop_last());
        assert((a + b).drop_last() =~= a + b.drop_last());
        assert((a + b).last() == b.last());
    }
    if a.len() == 1 {
        assert(a.drop_last() =~= Seq::empty());
        assert(sgr_all(style, Seq::<Seq<char>>::empty()) == style);
    }
}

} // verus!
