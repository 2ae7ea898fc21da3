//! The audit log: one line for each decision, and the way back from the lines
//! at its end to the history of a fresh daemon.
//!
//! A log file is a run of lines, each the JSON of one entry. The history is
//! read from its end: a window of the file is taken, the lines in it that
//! carry a card are parsed, and the window is doubled while they are too few.
//! Reading the file and parsing a line is done outside; [`tail_start`],
//! [`ui_lines`], [`tail_take`] and [`tail_next`] say what to read, which lines
//! to parse, and when it is enough.
use crate::command::{ParsedCommand, RiskSignal, RuleScope, WireDecision};
use vstd::prelude::*;
use vstd::string::*;

verus! {

/// One line of the audit log.
#[derive(Debug, Clone, PartialEq, Eq)]
pub struct AuditEntry {
    pub id: String,
    pub timestamp: String,
    pub command: String,
    pub argv: Vec<String>,
    pub decision: WireDecision,
    pub reason: String,
    /// The rule that decided, where a rule did.
    pub rule_id: Option<String>,
    /// The layer of that rule.
    pub rule_scope: Option<RuleScope>,
    pub force_prompt: bool,
    pub primary_verb: String,
    pub primary_target: String,
    pub signals: Vec<RiskSignal>,
    pub parsed: Option<ParsedCommand>,
    pub host_known: Vec<bool>,
    /// The rendered detail of the request's card, empty where it had none.
    pub rendered: String,
    pub peer_sid: Option<i32>,
}

/// The size of the first window in bytes. It holds about twenty lines with a
/// card.
pub const TAIL_WINDOW_START: u64 = 65536;

/// The byte that ends a line.
pub const LINE_FEED: u8 = 10;

/// The parts of `b` between its line feeds: one more than there are line feeds.
pub open spec fn byte_lines(b: Seq<u8>) -> Seq<Seq<u8>>
    decreases b.len(),
{
    if b.len() == 0 {
        seq![Seq::empty()]
    } else {
        let rest = byte_lines(b.drop_last());
        if b.last() == LINE_FEED {
            rest.push(Seq::empty())
        } else {
            rest.drop_last().push(rest.last().push(b.last()))
        }
    }
}

/// The text by which a line with a card is told: `"rendered":"`.
pub open spec fn card_mark() -> Seq<u8> {
    seq![34u8, 114, 101, 110, 100, 101, 114, 101, 100, 34, 58, 34]
}

/// Whether `piece` stands in `b` at position `i`.
pub open spec fn piece_at(b: Seq<u8>, i: int, piece: Seq<u8>) -> bool {
    0 <= i && i + piece.len() <= b.len() && b.subrange(i, i + piece.len()) == piece
}

/// Whether a line can carry a card.
pub open spec fn may_carry_card(line: Seq<u8>) -> bool {
    exists|i: int| #[trigger] piece_at(line, i, card_mark())
}

/// Of the first `n` lines those that can carry a card.
pub open spec fn card_lines(lines: Seq<Seq<u8>>, n: nat) -> Seq<Seq<u8>>
    decreases n,
{
    if n == 0 {
        Seq::empty()
    } else if may_carry_card(lines[n - 1]) {
        card_lines(lines, (n - 1) as nat).push(lines[n - 1])
    } else {
        card_lines(lines, (n - 1) as nat)
    }
}

/// The lines of a window that starts at `pos`: where it does not start with the
/// file its first part may be the end of a line, and is left out.
pub open spec fn window_lines(window: Seq<u8>, pos: u64) -> Seq<Seq<u8>> {
    let all = byte_lines(window);
    if pos > 0 {
        all.drop_first()
    } else {
        all
    }
}

/// What byte strings a list holds.
pub open spec fn byte_views(v: Seq<Vec<u8>>) -> Seq<Seq<u8>> {
    v.map_values(|b: Vec<u8>| b@)
}

/// What to do next for the history.
#[derive(Debug, Clone, Copy, PartialEq, Eq, Structural)]
pub enum TailStep {
    /// There is nothing to read.
    Done,
    /// Read `len` bytes from `pos` on.
    Read { pos: u64, len: u64 },
}

/// The step that reads the last `window` bytes of a file of `end` bytes.
pub open spec fn read_window(window: int, end: u64) -> TailStep {
    let len = if window < end {
        window as u64
    } else {
        end
    };
    TailStep::Read { pos: (end - len) as u64, len }
}

/// The first step for the newest `cap` entries of a file of `end` bytes: nothing
/// where none are wanted, or there are none.
pub open spec fn first_step(cap: usize, end: u64) -> TailStep {
    if cap == 0 || end == 0 {
        TailStep::Done
    } else {
        read_window(TAIL_WINDOW_START as int, end)
    }
}

/// The first step for `cap` entries from a log of `end` bytes.
pub fn tail_start(cap: usize, end: u64) -> (r: TailStep)
    ensures
        r == first_step(cap, end),
{
    if cap == 0 || end == 0 {
        return TailStep::Done;
    }
    let len: u64 = if TAIL_WINDOW_START < end {
        TAIL_WINDOW_START
    } else {
        end
    };
    TailStep::Read { pos: end - len, len }
}

/// The step after a window of `len` bytes that held too little: one twice as
/// large.
pub fn tail_next(len: u64, end: u64) -> (r: TailStep)
    requires
        len <= end,
    ensures
        r == read_window(2 * len, end),
{
    let window: u64 = if len > end - len {
        end
    } else {
        len + len
    };
    TailStep::Read { pos: end - window, len: window }
}

/// Whether a line can carry a card. It is asked before the line is parsed.
pub fn looks_like_ui_row(line: &Vec<u8>) -> (r: bool)
    ensures
        r == may_carry_card(line@),
{
    let mark: Vec<u8> = vec![34u8, 114, 101, 110, 100, 101, 114, 101, 100, 34, 58, 34];
    assert(mark@ =~= card_mark());
    let mut i: usize = 0;
    while line.len() >= mark.len() && i <= line.len() - mark.len()
        invariant
            mark@ == card_mark(),
            mark.len() == 12,
            i <= line.len(),
            forall|k: int| 0 <= k < i ==> !#[trigger] piece_at(line@, k, card_mark()),
        decreases line.len() - i,
    {
        let mut k: usize = 0;
        while k < mark.len() && line[i + k] == mark[k]
            invariant
                mark@ == card_mark(),
                mark.len() == 12,
                k <= mark.len(),
                i + mark.len() <= line.len(),
                forall|j: int| 0 <= j < k ==> line@[i + j] == #[trigger] mark@[j],
            decreases mark.len() - k,
        {
            k += 1;
        }
        if k == mark.len() {
            assert(line@.subrange(i as int, i + mark@.len()) =~= mark@);
            assert(piece_at(line@, i as int, card_mark()));
            return true;
        }
        assert(!piece_at(line@, i as int, card_mark())) by {
            if piece_at(line@, i as int, card_mark()) {
                assert(line@.subrange(i as int, i + mark@.len())[k as int] == line@[i + k]);
            }
        }
        i += 1;
    }
    assert forall|k: int| !#[trigger] piece_at(line@, k, card_mark()) by {
        if k >= i {
            assert(k + card_mark().len() > line@.len());
        }
    }
    false
}

/// The parts of a window between its line feeds.
fn split_lines(window: &Vec<u8>) -> (r: Vec<Vec<u8>>)
    ensures
        byte_views(r@) == byte_lines(window@),
        r.len() >= 1,
{
    let mut out: Vec<Vec<u8>> = Vec::new();
    let mut part: Vec<u8> = Vec::new();
    let mut i: usize = 0;
    proof {
        assert(window@.take(0) =~= Seq::<u8>::empty());
        assert(byte_views(out@).push(part@) =~= byte_lines(window@.take(0)));
    }
    while i < window.len()
        invariant
            i <= window.len(),
            byte_views(out@).push(part@) == byte_lines(window@.take(i as int)),
        decreases window.len() - i,
    {
        let ghost before = byte_views(out@);
        proof {
            assert(window@.take(i + 1).drop_last() =~= window@.take(i as int));
            assert(before.push(part@).drop_last() =~= before);
        }
        if window[i] == LINE_FEED {
            let ghost done = part@;
            out.push(part);
            part = Vec::new();
            assert(byte_views(out@) =~= before.push(done));
            assert(part@ =~= Seq::empty());
        } else {
            part.push(window[i]);
        }
        i += 1;
    }
    assert(window@.take(i as int) =~= window@);
    let ghost before = byte_views(out@);
    let ghost done = part@;
    out.push(part);
    assert(byte_views(out@) =~= before.push(done));
    out
}

/// The lines of a window that are to be parsed, oldest first.
pub fn ui_lines(window: &Vec<u8>, pos: u64) -> (r: Vec<Vec<u8>>)
    ensures
        byte_views(r@) == card_lines(window_lines(window@, pos), window_lines(window@, pos).len()),
{
    let mut parts = split_lines(window);
    let ghost all = byte_lines(window@);
    if pos > 0 {
        let ghost before = parts@;
        parts.remove(0);
        assert(byte_views(parts@) =~= all.drop_first());
    }
    let ghost lines = window_lines(window@, pos);
    assert(byte_views(parts@).len() == parts.len());
    let mut out: Vec<Vec<u8>> = Vec::new();
    let mut i: usize = 0;
    assert(byte_views(out@) =~= Seq::empty());
    while i < parts.len()
        invariant
            i <= parts.len(),
            lines == byte_views(parts@),
            lines.len() == parts.len(),
            byte_views(out@) == card_lines(lines, i as nat),
        decreases parts.len() - i,
    {
        let ghost before = byte_views(out@);
        assert(lines[i as int] == parts@[i as int]@);
        if looks_like_ui_row(&parts[i]) {
            let mut line: Vec<u8> = Vec::new();
            let mut k: usize = 0;
            while k < parts[i].len()
                invariant
                    i < parts.len(),
                    k <= parts@[i as int].len(),
                    line@ == parts@[i as int]@.take(k as int),
                decreases parts@[i as int].len() - k,
            {
                line.push(parts[i][k]);
                k += 1;
                assert(line@ =~= parts@[i as int]@.take(k as int));
            }
            assert(line@ =~= lines[i as int]);
            out.push(line);
            assert(byte_views(out@) =~= before.push(lines[i as int]));
        }
        i += 1;
    }
    out
}

/// The newest `cap` of the rows that carry a card, newest first.
pub open spec fn newest(rows: Seq<AuditEntry>, cap: nat) -> Seq<AuditEntry>
    decreases rows.len(),
{
    if rows.len() == 0 || cap == 0 {
        Seq::empty()
    } else if rows.last().rendered@.len() > 0 {
        seq![rows.last()] + newest(rows.drop_last(), (cap - 1) as nat)
    } else {
        newest(rows.drop_last(), cap)
    }
}

/// The newest `cap` of the parsed rows of a window that starts at `pos`, newest
/// first, or none where the window holds fewer and there is more to read.
pub fn tail_take(rows: Vec<AuditEntry>, cap: usize, pos: u64) -> (r: Option<Vec<AuditEntry>>)
    ensures
        r is Some <==> pos == 0 || newest(rows@, cap as nat).len() == cap,
        r matches Some(out) ==> out@ == newest(rows@, cap as nat),
{
    let mut rest = rows;
    let mut out: Vec<AuditEntry> = Vec::new();
    assert(out@ + newest(rest@, cap as nat) =~= newest(rows@, cap as nat));
    while out.len() < cap && rest.len() > 0
        invariant
            out.len() <= cap,
            out@ + newest(rest@, (cap - out.len()) as nat) == newest(rows@, cap as nat),
        decreases rest.len(),
    {
        let ghost before = out@;
        let ghost left = rest@;
        let ghost room = (cap - out.len()) as nat;
        if let Some(row) = rest.pop() {
            assert(row == left.last() && rest@ =~= left.drop_last());
            if !row.rendered.as_str().is_empty() {
                out.push(row);
                assert(before + (seq![row] + newest(rest@, (room - 1) as nat)) =~= out@ + newest(
                    rest@,
                    (room - 1) as nat,
                ));
            }
        }
    }
    assert(out@ + newest(rest@, (cap - out.len()) as nat) =~= out@);
    if pos == 0 || out.len() == cap {
        Some(out)
    } else {
        None
    }
}

/// The bytes that are appended to the log for an entry whose JSON is `json`.
pub fn log_line(json: Vec<u8>) -> (r: Vec<u8>)
    ensures
        r@ == json@.push(LINE_FEED),
{
    let mut line = json;
    line.push(LINE_FEED);
    line
}

/// Each further window is larger than the one before, up to the whole file, so
/// that the search for entries comes to an end.
pub proof fn law_windows_grow(len: u64, end: u64)
    requires
        0 < len < end,
    ensures
        read_window(2 * len, end) is Read,
        read_window(2 * len, end)->len > len,
        read_window(2 * len, end)->len <= end,
        read_window(2 * len, end)->pos == end - read_window(2 * len, end)->len,
{
}

proof fn lemma_lines_nonempty(b: Seq<u8>)
    ensures
        byte_lines(b).len() >= 1,
    decreases b.len(),
{
    if b.len() > 0 {
        lemma_lines_nonempty(b.drop_last());
    }
}

proof fn lemma_lines_concat(a: Seq<u8>, b: Seq<u8>)
    ensures
        byte_lines(a + b) == byte_lines(a).drop_last().push(
            byte_lines(a).last() + byte_lines(b).first(),
        ) + byte_lines(b).drop_first(),
    decreases b.len(),
{
    lemma_lines_nonempty(a);
    lemma_lines_nonempty(b);
    let la = byte_lines(a);
    if b.len() == 0 {
        assert(a + b =~= a);
        assert(la.last() + Seq::<u8>::empty() =~= la.last());
        assert(byte_lines(a + b) =~= la.drop_last().push(la.last() + byte_lines(b).first())
            + byte_lines(b).drop_first());
    } else {
        let b0 = b.drop_last();
        lemma_lines_nonempty(b0);
        assert((a + b).drop_last() =~= a + b0);
        lemma_lines_concat(a, b0);
        let lb0 = byte_lines(b0);
        let lb = byte_lines(b);
        let joined0 = la.drop_last().push(la.last() + lb0.first()) + lb0.drop_first();
        let joined = la.drop_last().push(la.last() + lb.first()) + lb.drop_first();
        if b.last() == LINE_FEED {
            assert(joined0.push(Seq::empty()) =~= joined);
        } else if lb0.len() == 1 {
            assert(joined0.last() == la.last() + lb0.first());
            assert((la.last() + lb0.first()).push(b.last()) =~= la.last() + lb0.first().push(b.last()));
            assert(joined0.drop_last().push(joined0.last().push(b.last())) =~= joined);
        } else {
            assert(joined0.last() == lb0.last());
            assert(joined0.drop_last().push(joined0.last().push(b.last())) =~= joined);
        }
    }
}

/// A window shows whole lines only: its lines are the last lines of the file,
/// as they stand there.
pub proof fn law_window_shows_whole_lines(file: Seq<u8>, pos: u64)
    requires
        0 < pos <= file.len(),
    ensures
        ({
            let lines = byte_lines(file);
            let shown = window_lines(file.skip(pos as int), pos);
            &&& shown.len() <= lines.len()
            &&& lines.skip(lines.len() - shown.len()) == shown
        }),
{
    let a = file.take(pos as int);
    let b = file.skip(pos as int);
    assert(file =~= a + b);
    lemma_lines_concat(a, b);
    lemma_lines_nonempty(a);
    lemma_lines_nonempty(b);
    let lines = byte_lines(file);
    let shown = byte_lines(b).drop_first();
    assert(lines.skip(lines.len() - shown.len()) =~= shown);
}

proof fn lemma_one_line(json: Seq<u8>)
    requires
        forall|i: int| 0 <= i < json.len() ==> #[trigger] json[i] != LINE_FEED,
    ensures
        byte_lines(json) == seq![json],
    decreases json.len(),
{
    if json.len() == 0 {
        assert(seq![Seq::<u8>::empty()] =~= seq![json]) by {
            assert(Seq::<u8>::empty() =~= json);
        }
    } else {
        let j0 = json.drop_last();
        assert forall|i: int| 0 <= i < j0.len() implies #[trigger] j0[i] != LINE_FEED by {
            assert(json[i] != LINE_FEED);
        }
        lemma_one_line(j0);
        assert(json[json.len() - 1] != LINE_FEED);
        assert(byte_lines(j0).last().push(json.last()) =~= json);
        assert(byte_lines(json) =~= seq![json]);
    }
}

/// An entry appended to a log of whole lines is one more line behind them, and
/// leaves a log of whole lines.
pub proof fn law_append_adds_one_line(log: Seq<u8>, json: Seq<u8>)
    requires
        log.len() == 0 || log.last() == LINE_FEED,
        forall|i: int| 0 <= i < json.len() ==> #[trigger] json[i] != LINE_FEED,
    ensures
        byte_lines(log + json.push(LINE_FEED)) == byte_lines(log).drop_last().push(json).push(
            Seq::empty(),
        ),
        (log + json.push(LINE_FEED)).last() == LINE_FEED,
{
    let line = json.push(LINE_FEED);
    assert(line.drop_last() =~= json);
    lemma_one_line(json);
    assert(byte_lines(line) =~= seq![json, Seq::empty()]);
    lemma_lines_nonempty(log);
    assert(byte_lines(log).last() =~= Seq::empty());
    lemma_lines_concat(log, line);
    assert(Seq::<u8>::empty() + json =~= json);
    assert(byte_lines(line).drop_first() =~= seq![Seq::<u8>::empty()]);
    assert(byte_lines(log + line) =~= byte_lines(log).drop_last().push(json).push(Seq::empty()));
}

/// The entries that the lines parse to, lines that do not parse left out.
pub open spec fn parsed_lines(
    parse: spec_fn(Seq<u8>) -> Option<AuditEntry>,
    lines: Seq<Seq<u8>>,
) -> Seq<AuditEntry>
    decreases lines.len(),
{
    if lines.len() == 0 {
        Seq::empty()
    } else {
        let rest = parsed_lines(parse, lines.drop_last());
        match parse(lines.last()) {
            Some(entry) => rest.push(entry),
            None => rest,
        }
    }
}

/// The entries that a window of the log gives: those of its lines that are to
/// be parsed.
pub open spec fn window_entries(
    parse: spec_fn(Seq<u8>) -> Option<AuditEntry>,
    window: Seq<u8>,
    pos: u64,
) -> Seq<AuditEntry> {
    let shown = window_lines(window, pos);
    parsed_lines(parse, card_lines(shown, shown.len()))
}

/// The log that holds these lines.
pub open spec fn log_of(lines: Seq<Seq<u8>>) -> Seq<u8>
    decreases lines.len(),
{
    if lines.len() == 0 {
        Seq::empty()
    } else {
        log_of(lines.drop_last()) + lines.last().push(LINE_FEED)
    }
}

/// Whether the mark of a card misses none of the lines: each that parses to an
/// entry with a card carries it.
pub open spec fn mark_misses_none(
    parse: spec_fn(Seq<u8>) -> Option<AuditEntry>,
    lines: Seq<Seq<u8>>,
) -> bool {
    forall|i: int|
        0 <= i < lines.len() && (parse(#[trigger] lines[i]) matches Some(e) && e.rendered@.len() > 0)
            ==> may_carry_card(lines[i])
}

/// Whether no line has a line feed within.
pub open spec fn whole_lines(lines: Seq<Seq<u8>>) -> bool {
    forall|i: int, k: int|
        0 <= i < lines.len() && 0 <= k < lines[i].len() ==> #[trigger] lines[i][k] != LINE_FEED
}

proof fn lemma_log_lines(lines: Seq<Seq<u8>>)
    requires
        whole_lines(lines),
    ensures
        byte_lines(log_of(lines)) == lines.push(Seq::empty()),
        log_of(lines).len() == 0 || log_of(lines).last() == LINE_FEED,
    decreases lines.len(),
{
    if lines.len() == 0 {
        assert(byte_lines(log_of(lines)) =~= lines.push(Seq::empty()));
    } else {
        let front = lines.drop_last();
        let json = lines.last();
        assert forall|i: int, k: int| 0 <= i < front.len() && 0 <= k < front[i].len() implies #[trigger] front[i][k]
            != LINE_FEED by {
            assert(lines[i][k] != LINE_FEED);
        }
        assert forall|k: int| 0 <= k < json.len() implies #[trigger] json[k] != LINE_FEED by {
            assert(lines[lines.len() - 1][k] != LINE_FEED);
        }
        lemma_log_lines(front);
        law_append_adds_one_line(log_of(front), json);
        assert(front.push(Seq::<u8>::empty()).drop_last() =~= front);
        assert(front.push(json) =~= lines);
    }
}

proof fn lemma_card_lines_of_front(lines: Seq<Seq<u8>>, n: nat)
    requires
        n < lines.len(),
    ensures
        card_lines(lines, n) == card_lines(lines.drop_last(), n),
    decreases n,
{
    if n > 0 {
        lemma_card_lines_of_front(lines, (n - 1) as nat);
    }
}

proof fn lemma_newest_skips(rows: Seq<AuditEntry>, row: AuditEntry, cap: nat)
    requires
        row.rendered@.len() == 0,
    ensures
        newest(rows.push(row), cap) == newest(rows, cap),
{
    assert(rows.push(row).drop_last() =~= rows);
}

proof fn lemma_mark_loses_nothing(
    parse: spec_fn(Seq<u8>) -> Option<AuditEntry>,
    lines: Seq<Seq<u8>>,
    cap: nat,
)
    requires
        mark_misses_none(parse, lines),
    ensures
        newest(parsed_lines(parse, card_lines(lines, lines.len())), cap) == newest(
            parsed_lines(parse, lines),
            cap,
        ),
    decreases lines.len(),
{
    if lines.len() > 0 {
        let front = lines.drop_last();
        let last = lines.last();
        lemma_card_lines_of_front(lines, front.len());
        let few = card_lines(front, front.len());
        let all = parsed_lines(parse, front);
        assert(mark_misses_none(parse, front)) by {
            assert forall|i: int|
                0 <= i < front.len() && (parse(#[trigger] front[i]) matches Some(e)
                    && e.rendered@.len() > 0) implies may_carry_card(front[i]) by {
                assert(front[i] == lines[i]);
            }
        }
        assert(lines[lines.len() - 1] == last);
        lemma_mark_loses_nothing(parse, front, cap);
        if may_carry_card(last) {
            assert(few.push(last).drop_last() =~= few);
            if let Some(e) = parse(last) {
                let x = parsed_lines(parse, few);
                assert(x.push(e).drop_last() =~= x);
                assert(all.push(e).drop_last() =~= all);
                if cap > 0 {
                    lemma_mark_loses_nothing(parse, front, (cap - 1) as nat);
                }
            }
        } else if let Some(e) = parse(last) {
            lemma_newest_skips(all, e, cap);
        }
    }
}

proof fn lemma_parsed_concat(
    parse: spec_fn(Seq<u8>) -> Option<AuditEntry>,
    a: Seq<Seq<u8>>,
    b: Seq<Seq<u8>>,
)
    ensures
        parsed_lines(parse, a + b) == parsed_lines(parse, a) + parsed_lines(parse, b),
    decreases b.len(),
{
    if b.len() == 0 {
        assert(a + b =~= a);
        assert(parsed_lines(parse, a) + parsed_lines(parse, b) =~= parsed_lines(parse, a));
    } else {
        assert((a + b).drop_last() =~= a + b.drop_last());
        lemma_parsed_concat(parse, a, b.drop_last());
        assert(parsed_lines(parse, a + b) =~= parsed_lines(parse, a) + parsed_lines(parse, b));
    }
}

proof fn lemma_enough_is_enough(a: Seq<AuditEntry>, b: Seq<AuditEntry>, cap: nat)
    requires
        newest(b, cap).len() == cap,
    ensures
        newest(a + b, cap) == newest(b, cap),
    decreases b.len(),
{
    if cap > 0 {
        assert(b.len() > 0);
        assert((a + b).drop_last() =~= a + b.drop_last());
        if b.last().rendered@.len() > 0 {
            lemma_enough_is_enough(a, b.drop_last(), (cap - 1) as nat);
        } else {
            lemma_enough_is_enough(a, b.drop_last(), cap);
        }
    }
}

/// What a window of the log shows are the last of its lines, and the empty end
/// behind them, which carries no card.
proof fn lemma_window_of_log(lines: Seq<Seq<u8>>, pos: u64)
    requires
        whole_lines(lines),
        pos <= log_of(lines).len(),
    ensures
        ({
            let shown = window_lines(log_of(lines).skip(pos as int), pos);
            exists|n: int|
                0 <= n <= lines.len() && (pos == 0 ==> n == 0) && #[trigger] card_lines(
                    lines.skip(n),
                    lines.skip(n).len(),
                ) == card_lines(shown, shown.len())
        }),
{
    let log = log_of(lines);
    let end = Seq::<u8>::empty();
    let shown = window_lines(log.skip(pos as int), pos);
    lemma_log_lines(lines);
    let all = lines.push(end);
    assert(!may_carry_card(end)) by {
        assert forall|i: int| !#[trigger] piece_at(end, i, card_mark()) by {
            assert(card_mark().len() == 12);
        }
    }
    let n: int = if pos == 0 {
        assert(log.skip(0) =~= log);
        0
    } else {
        law_window_shows_whole_lines(log, pos);
        all.len() - shown.len()
    };
    assert(shown =~= all.skip(n));
    if shown.len() > 0 {
        assert(shown.drop_last() =~= lines.skip(n));
        assert(shown.last() == end);
        lemma_card_lines_of_front(shown, (shown.len() - 1) as nat);
        assert(card_lines(lines.skip(n), lines.skip(n).len()) == card_lines(shown, shown.len()));
    } else {
        let none = lines.skip(lines.len() as int);
        assert(none.len() == 0);
        assert(card_lines(none, none.len()) == card_lines(shown, shown.len()));
    }
}

/// What is read back from the log are its newest entries with a card, newest
/// first, whatever windows were read: where a window gives an answer, it is that
/// of the whole log. Lines that do not parse are passed over.
pub proof fn law_tail_is_the_end_of_the_log(
    parse: spec_fn(Seq<u8>) -> Option<AuditEntry>,
    lines: Seq<Seq<u8>>,
    pos: u64,
    cap: nat,
)
    requires
        whole_lines(lines),
        mark_misses_none(parse, lines),
        pos <= log_of(lines).len(),
        pos == 0 || newest(
            window_entries(parse, log_of(lines).skip(pos as int), pos),
            cap,
        ).len() == cap,
    ensures
        newest(window_entries(parse, log_of(lines).skip(pos as int), pos), cap) == newest(
            parsed_lines(parse, lines),
            cap,
        ),
{
    let shown = window_lines(log_of(lines).skip(pos as int), pos);
    lemma_window_of_log(lines, pos);
    let n = choose|n: int|
        0 <= n <= lines.len() && (pos == 0 ==> n == 0) && #[trigger] card_lines(
            lines.skip(n),
            lines.skip(n).len(),
        ) == card_lines(shown, shown.len());
    let tail = lines.skip(n);
    assert(mark_misses_none(parse, tail)) by {
        assert forall|i: int|
            0 <= i < tail.len() && (parse(#[trigger] tail[i]) matches Some(e) && e.rendered@.len()
                > 0) implies may_carry_card(tail[i]) by {
            assert(tail[i] == lines[i + n]);
        }
    }
    lemma_mark_loses_nothing(parse, tail, cap);
    if pos == 0 {
        assert(tail =~= lines);
    } else {
        let front = lines.take(n);
        assert(lines =~= front + tail);
        lemma_parsed_concat(parse, front, tail);
        lemma_enough_is_enough(parsed_lines(parse, front), parsed_lines(parse, tail), cap);
    }
}

/// What comes back when the log is read by the steps of [`tail_start`] and
/// [`tail_next`], from `step` on, until [`tail_take`] gives an answer.
pub open spec fn read_back(
    parse: spec_fn(Seq<u8>) -> Option<AuditEntry>,
    log: Seq<u8>,
    cap: nat,
    step: TailStep,
) -> Seq<AuditEntry>
    decreases
        match step {
            TailStep::Read { len, .. } => log.len() - len,
            TailStep::Done => 0,
        },
{
    match step {
        TailStep::Done => Seq::empty(),
        TailStep::Read { pos, len } => {
            let taken = newest(window_entries(parse, log.skip(pos as int), pos), cap);
            if pos == 0 || taken.len() == cap || !(0 < len < log.len() <= u64::MAX) {
                taken
            } else {
                read_back(parse, log, cap, read_window(2 * len, log.len() as u64))
            }
        },
    }
}

proof fn lemma_read_back(
    parse: spec_fn(Seq<u8>) -> Option<AuditEntry>,
    lines: Seq<Seq<u8>>,
    cap: nat,
    window: int,
)
    requires
        whole_lines(lines),
        mark_misses_none(parse, lines),
        0 < log_of(lines).len() <= u64::MAX,
        0 < window,
    ensures
        read_back(parse, log_of(lines), cap, read_window(window, log_of(lines).len() as u64)) == newest(
            parsed_lines(parse, lines),
            cap,
        ),
    decreases
        (if window < log_of(lines).len() {
            log_of(lines).len() - window
        } else {
            0
        }),
{
    let log = log_of(lines);
    let end = log.len() as u64;
    let step = read_window(window, end);
    let pos = step->pos;
    let len = step->len;
    let taken = newest(window_entries(parse, log.skip(pos as int), pos), cap);
    if pos == 0 || taken.len() == cap {
        law_tail_is_the_end_of_the_log(parse, lines, pos, cap);
    } else {
        assert(0 < len < log.len());
        assert(len == window);
        lemma_read_back(parse, lines, cap, 2 * len);
    }
}

/// A piece of a log: an entry that was appended, or a line that came there in
/// another way.
pub enum LogPiece {
    Appended(AuditEntry),
    Stray(Seq<u8>),
}

/// The line of a piece, `write` giving the bytes of an entry.
pub open spec fn piece_line(write: spec_fn(AuditEntry) -> Seq<u8>, piece: LogPiece) -> Seq<u8> {
    match piece {
        LogPiece::Appended(entry) => write(entry),
        LogPiece::Stray(line) => line,
    }
}

/// The lines of the pieces.
pub open spec fn piece_lines(
    write: spec_fn(AuditEntry) -> Seq<u8>,
    pieces: Seq<LogPiece>,
) -> Seq<Seq<u8>> {
    pieces.map_values(|p: LogPiece| piece_line(write, p))
}

/// The entries that were appended, oldest first.
pub open spec fn appended(pieces: Seq<LogPiece>) -> Seq<AuditEntry>
    decreases pieces.len(),
{
    if pieces.len() == 0 {
        Seq::empty()
    } else {
        let rest = appended(pieces.drop_last());
        match pieces.last() {
            LogPiece::Appended(entry) => rest.push(entry),
            LogPiece::Stray(_) => rest,
        }
    }
}

/// Whether a piece can be told from its line: an entry is written as one line
/// that parses back to it, and carries the mark where it has a card; any other
/// line does not parse.
pub open spec fn reads_back(
    write: spec_fn(AuditEntry) -> Seq<u8>,
    parse: spec_fn(Seq<u8>) -> Option<AuditEntry>,
    piece: LogPiece,
) -> bool {
    &&& forall|k: int|
        0 <= k < piece_line(write, piece).len() ==> #[trigger] piece_line(write, piece)[k] != LINE_FEED
    &&& match piece {
        LogPiece::Appended(entry) => {
            &&& parse(write(entry)) == Some(entry)
            &&& entry.rendered@.len() > 0 ==> may_carry_card(write(entry))
        },
        LogPiece::Stray(line) => parse(line) is None,
    }
}

/// The entries that carry a card.
pub open spec fn with_card(entries: Seq<AuditEntry>) -> Seq<AuditEntry>
    decreases entries.len(),
{
    if entries.len() == 0 {
        Seq::empty()
    } else if entries.last().rendered@.len() > 0 {
        with_card(entries.drop_last()).push(entries.last())
    } else {
        with_card(entries.drop_last())
    }
}

proof fn lemma_newest_is_the_end(entries: Seq<AuditEntry>, cap: nat)
    ensures
        newest(entries, cap).len() == (if with_card(entries).len() < cap {
            with_card(entries).len()
        } else {
            cap
        }),
        forall|i: int|
            0 <= i < newest(entries, cap).len() ==> #[trigger] newest(entries, cap)[i] == with_card(
                entries,
            )[with_card(entries).len() - 1 - i],
    decreases entries.len(),
{
    if entries.len() > 0 && cap > 0 {
        let front = entries.drop_last();
        if entries.last().rendered@.len() > 0 {
            lemma_newest_is_the_end(front, (cap - 1) as nat);
            let all = newest(entries, cap);
            assert forall|i: int| 0 <= i < all.len() implies #[trigger] all[i] == with_card(entries)[
            with_card(entries).len() - 1 - i] by {
                if i > 0 {
                    assert(all[i] == newest(front, (cap - 1) as nat)[i - 1]);
                }
            }
        } else {
            lemma_newest_is_the_end(front, cap);
        }
    }
}

proof fn lemma_pieces_parse(
    write: spec_fn(AuditEntry) -> Seq<u8>,
    parse: spec_fn(Seq<u8>) -> Option<AuditEntry>,
    pieces: Seq<LogPiece>,
)
    requires
        forall|i: int| 0 <= i < pieces.len() ==> reads_back(write, parse, #[trigger] pieces[i]),
    ensures
        parsed_lines(parse, piece_lines(write, pieces)) == appended(pieces),
    decreases pieces.len(),
{
    if pieces.len() > 0 {
        let front = pieces.drop_last();
        assert forall|i: int| 0 <= i < front.len() implies reads_back(
            write,
            parse,
            #[trigger] front[i],
        ) by {
            assert(front[i] == pieces[i]);
        }
        lemma_pieces_parse(write, parse, front);
        assert(piece_lines(write, pieces).drop_last() =~= piece_lines(write, front));
        assert(reads_back(write, parse, pieces[pieces.len() - 1]));
    }
}

/// What was appended comes back: reading a log gives the last `cap` of the
/// entries appended to it that carry a card, or all where there are fewer,
/// newest first and each as it was appended. Lines that do not parse are passed
/// over, and neither the length of a line nor that of the log makes a
/// difference.
pub proof fn law_appended_entries_come_back(
    write: spec_fn(AuditEntry) -> Seq<u8>,
    parse: spec_fn(Seq<u8>) -> Option<AuditEntry>,
    pieces: Seq<LogPiece>,
    cap: usize,
)
    requires
        forall|i: int| 0 <= i < pieces.len() ==> reads_back(write, parse, #[trigger] pieces[i]),
        log_of(piece_lines(write, pieces)).len() <= u64::MAX,
    ensures
        ({
            let log = log_of(piece_lines(write, pieces));
            let back = read_back(parse, log, cap as nat, first_step(cap, log.len() as u64));
            let cards = with_card(appended(pieces));
            &&& back == newest(appended(pieces), cap as nat)
            &&& back.len() == (if cards.len() < cap {
                cards.len()
            } else {
                cap as nat
            })
            &&& forall|i: int|
                0 <= i < back.len() ==> #[trigger] back[i] == cards[cards.len() - 1 - i]
        }),
{
    let lines = piece_lines(write, pieces);
    let log = log_of(lines);
    lemma_pieces_parse(write, parse, pieces);
    lemma_newest_is_the_end(appended(pieces), cap as nat);
    assert forall|i: int, k: int| 0 <= i < lines.len() && 0 <= k < lines[i].len() implies #[trigger] lines[i][k]
        != LINE_FEED by {
        assert(reads_back(write, parse, pieces[i]));
        assert(lines[i] == piece_line(write, pieces[i]));
    }
    assert forall|i: int|
        0 <= i < lines.len() && (parse(#[trigger] lines[i]) matches Some(e) && e.rendered@.len()
            > 0) implies may_carry_card(lines[i]) by {
        assert(reads_back(write, parse, pieces[i]));
    }
    if cap == 0 {
        assert(newest(appended(pieces), 0) =~= Seq::empty());
    } else if log.len() == 0 {
        if lines.len() > 0 {
            assert(log == log_of(lines.drop_last()) + lines.last().push(LINE_FEED));
            assert(log.len() > 0);
        }
        assert(newest(parsed_lines(parse, lines), cap as nat) =~= Seq::empty());
    } else {
        lemma_read_back(parse, lines, cap as nat, TAIL_WINDOW_START as int);
    }
}

/// Of the rows read from the log the newest that carry a card are taken, the last
/// of them first, as many as are asked for and no other row among them.
pub proof fn law_newest_cards_are_taken(rows: Seq<AuditEntry>, cap: nat)
    ensures
        ({
            let cards = rows.filter(|e: AuditEntry| e.rendered@.len() > 0);
            let taken = newest(rows, cap);
            &&& taken.len() == if cards.len() < cap {
                cards.len()
            } else {
                cap
            }
            &&& forall|i: int| 0 <= i < taken.len() ==> #[trigger] taken[i] == cards[cards.len() - 1 - i]
        }),
    decreases rows.len(),
{
    reveal(Seq::filter);
    let such = |e: AuditEntry| e.rendered@.len() > 0;
    if rows.len() > 0 && cap > 0 {
        let front = rows.drop_last();
        let cards = rows.filter(such);
        let fewer = front.filter(such);
        if rows.last().rendered@.len() > 0 {
            law_newest_cards_are_taken(front, (cap - 1) as nat);
            let rest = newest(front, (cap - 1) as nat);
            let taken = newest(rows, cap);
            assert forall|i: int| 0 <= i < taken.len() implies #[trigger] taken[i] == cards[cards.len()
                - 1 - i] by {
                if i > 0 {
                    assert(taken[i] == rest[i - 1]);
                    assert(rest[i - 1] == fewer[fewer.len() - 1 - (i - 1)]);
                }
            }
        } else {
            law_newest_cards_are_taken(front, cap);
        }
    }
}

/// The lines of a window that are looked at are those that hold the start of a
/// rendered text, in their order and without one left out.
pub proof fn law_lines_with_a_card_are_kept(lines: Seq<Seq<u8>>)
    ensures
        card_lines(lines, lines.len()) == lines.filter(
            |l: Seq<u8>|
                exists|i: int|
                    0 <= i && i + 12 <= l.len() && #[trigger] l.subrange(i, i + 12) == seq![
                        '"' as u8,
                        'r' as u8,
                        'e' as u8,
                        'n' as u8,
                        'd' as u8,
                        'e' as u8,
                        'r' as u8,
                        'e' as u8,
                        'd' as u8,
                        '"' as u8,
                        ':' as u8,
                        '"' as u8,
                    ],
        ),
{
    lemma_card_lines_filter(lines, lines.len());
    assert(lines.take(lines.len() as int) =~= lines);
}

proof fn lemma_card_lines_filter(lines: Seq<Seq<u8>>, n: nat)
    requires
        n <= lines.len(),
    ensures
        card_lines(lines, n) == lines.take(n as int).filter(
            |l: Seq<u8>|
                exists|i: int|
                    0 <= i && i + 12 <= l.len() && #[trigger] l.subrange(i, i + 12) == seq![
                        '"' as u8,
                        'r' as u8,
                        'e' as u8,
                        'n' as u8,
                        'd' as u8,
                        'e' as u8,
                        'r' as u8,
                        'e' as u8,
                        'd' as u8,
                        '"' as u8,
                        ':' as u8,
                        '"' as u8,
                    ],
        ),
    decreases n,
{
    reveal(Seq::filter);
    let such = |l: Seq<u8>|
        exists|i: int|
            0 <= i && i + 12 <= l.len() && #[trigger] l.subrange(i, i + 12) == seq![
                '"' as u8,
                'r' as u8,
                'e' as u8,
                'n' as u8,
                'd' as u8,
                'e' as u8,
                'r' as u8,
                'e' as u8,
                'd' as u8,
                '"' as u8,
                ':' as u8,
                '"' as u8,
            ];
    let part = lines.take(n as int);
    if n == 0 {
        assert(card_lines(lines, n) =~= part.filter(such));
    } else {
        lemma_card_lines_filter(lines, (n - 1) as nat);
        assert(part.drop_last() =~= lines.take(n - 1));
        let l = lines[n - 1];
        assert(part.last() == l);
        assert(such(l) == may_carry_card(l)) by {
            let mark = card_mark();
            if may_carry_card(l) {
                let i = choose|i: int| #[trigger] piece_at(l, i, mark);
                assert(l.subrange(i, i + 12) == mark);
            }
            if such(l) {
                let i = choose|i: int|
                    0 <= i && i + 12 <= l.len() && #[trigger] l.subrange(i, i + 12) == seq![
                        '"' as u8,
                        'r' as u8,
                        'e' as u8,
                        'n' as u8,
                        'd' as u8,
                        'e' as u8,
                        'r' as u8,
                        'e' as u8,
                        'd' as u8,
                        '"' as u8,
                        ':' as u8,
                        '"' as u8,
                    ];
                assert(piece_at(l, i, mark));
            }
        }
    }
}

/// A window that is read lies at the end of the log and within it, and the log is
/// read unless nothing is asked for or nothing is there.
pub proof fn law_window_is_the_end_of_the_log(cap: usize, end: u64, len: u64)
    requires
        len <= end,
    ensures
        first_step(cap, end) is Done <==> cap == 0 || end == 0,
        first_step(cap, end) matches TailStep::Read { pos, len: n } ==> pos + n == end && 0 < n && (n
            == 65536 || pos == 0),
        read_window(2 * len, end) matches TailStep::Read { pos, len: n } ==> pos + n == end && (n == 2
            * len || pos == 0),
{
}

/// The rows taken from a window are given out once enough were found or the whole
/// log was read, and not before: those that carry a card, newest first.
pub proof fn law_tail_waits_for_enough(rows: Vec<AuditEntry>, cap: usize, pos: u64, r: Option<Vec<AuditEntry>>)
    requires
        call_ensures(tail_take, (rows, cap, pos), r),
    ensures
        ({
            let cards = rows@.filter(|e: AuditEntry| e.rendered@.len() > 0);
            &&& r is None <==> pos > 0 && cards.len() < cap
            &&& r matches Some(out) ==> out@.len() == (if cards.len() < cap {
                cards.len()
            } else {
                cap as nat
            }) && forall|i: int|
                0 <= i < out@.len() ==> #[trigger] out@[i] == cards[cards.len() - 1 - i]
        }),
{
    law_newest_cards_are_taken(rows@, cap as nat);
}

/// A line of the log is the entry and one line feed behind it.
pub proof fn law_log_line_ends_once(json: Vec<u8>, r: Vec<u8>)
    requires
        call_ensures(log_line, (json,), r),
    ensures
        r@.len() == json@.len() + 1,
        r@.last() == 10,
        r@.drop_last() == json@,
{
    assert(r@.drop_last() =~= json@);
}

} // verus!
