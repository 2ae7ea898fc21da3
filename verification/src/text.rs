//! Plain text: what the rest of the library reads and builds strings with.
//!
//! A string is modelled by its characters, a `Seq<char>`. Code that walks a
//! string takes its characters once with [`chars_of`] and indexes those.
use vstd::prelude::*;
use vstd::string::*;

verus! {

/// `String::push` appends the given character to the end of the string.
pub assume_specification[ String::push ](s: &mut String, c: char)
    ensures
        final(s)@ == old(s)@.push(c),
;

/// The contents of each string of a list.
pub open spec fn texts(v: Seq<String>) -> Seq<Seq<char>> {
    v.map_values(|s: String| s@)
}

pub open spec fn is_digit(c: char) -> bool {
    '0' <= c && c <= '9'
}

/// The number that a run of decimal digits stands for.
pub open spec fn digits_value(s: Seq<char>) -> nat
    decreases s.len(),
{
    if s.len() == 0 {
        0
    } else {
        10 * digits_value(s.drop_last()) + digit_value(s.last())
    }
}

pub open spec fn digit_value(c: char) -> nat {
    (c as int - '0' as int) as nat
}

pub open spec fn digit_char(d: nat) -> char {
    ('0' as int + d as int) as char
}

/// `n` in decimal, without leading zeros.
pub open spec fn decimal(n: nat) -> Seq<char>
    decreases n,
{
    if n < 10 {
        seq![digit_char(n)]
    } else {
        decimal(n / 10).push(digit_char(n % 10))
    }
}

/// The parts of `s` between the occurrences of `sep`: one more part than
/// there are occurrences.
pub open spec fn split_on(s: Seq<char>, sep: char) -> Seq<Seq<char>>
    decreases s.len(),
{
    if s.len() == 0 {
        seq![Seq::empty()]
    } else {
        let rest = split_on(s.drop_last(), sep);
        if s.last() == sep {
            rest.push(Seq::empty())
        } else {
            rest.drop_last().push(rest.last().push(s.last()))
        }
    }
}

/// The parts with `sep` between each two neighbours.
pub open spec fn join(parts: Seq<Seq<char>>, sep: Seq<char>) -> Seq<char>
    decreases parts.len(),
{
    if parts.len() == 0 {
        Seq::empty()
    } else if parts.len() == 1 {
        parts[0]
    } else {
        join(parts.drop_last(), sep) + sep + parts.last()
    }
}

/// The parts one after the other.
pub open spec fn concat(parts: Seq<Seq<char>>) -> Seq<char>
    decreases parts.len(),
{
    if parts.len() == 0 {
        Seq::empty()
    } else {
        concat(parts.drop_last()) + parts.last()
    }
}

pub proof fn lemma_split_on_nonempty(s: Seq<char>, sep: char)
    ensures
        split_on(s, sep).len() >= 1,
    decreases s.len(),
{
    if s.len() > 0 {
        lemma_split_on_nonempty(s.drop_last(), sep);
    }
}

pub proof fn lemma_concat_push(parts: Seq<Seq<char>>, last: Seq<char>)
    ensures
        concat(parts.push(last)) == concat(parts) + last,
{
    assert(parts.push(last).drop_last() =~= parts);
}

/// `s` without one carriage return at its end.
pub open spec fn strip_cr(s: Seq<char>) -> Seq<char> {
    if s.len() > 0 && s.last() == '\r' {
        s.drop_last()
    } else {
        s
    }
}

/// The lines of `s`. A line ends with a line feed, or with a carriage return
/// and a line feed; the last one may do without.
pub open spec fn lines(s: Seq<char>) -> Seq<Seq<char>> {
    let parts = split_on(s, '\n');
    let ended = parts.drop_last().map_values(|l: Seq<char>| strip_cr(l));
    if parts.last().len() == 0 {
        ended
    } else {
        ended.push(parts.last())
    }
}

/// Whether `c` has the Unicode property White_Space.
pub open spec fn is_whitespace(c: char) -> bool {
    let n = c as u32;
    ||| 0x9 <= n <= 0xd
    ||| n == 0x20
    ||| n == 0x85
    ||| n == 0xa0
    ||| n == 0x1680
    ||| 0x2000 <= n <= 0x200a
    ||| n == 0x2028
    ||| n == 0x2029
    ||| n == 0x202f
    ||| n == 0x205f
    ||| n == 0x3000
}

/// How many whitespace characters stand at the front of `s`.
pub open spec fn blank_front(s: Seq<char>) -> nat
    decreases s.len(),
{
    if s.len() > 0 && is_whitespace(s[0]) {
        1 + blank_front(s.drop_first())
    } else {
        0
    }
}

/// `s` without the whitespace at its end.
pub open spec fn trim_end(s: Seq<char>) -> Seq<char>
    decreases s.len(),
{
    if s.len() > 0 && is_whitespace(s.last()) {
        trim_end(s.drop_last())
    } else {
        s
    }
}

/// `s` without the whitespace at both ends.
pub open spec fn trim(s: Seq<char>) -> Seq<char> {
    trim_end(s.skip(blank_front(s) as int))
}

pub proof fn lemma_blank_front_bound(s: Seq<char>)
    ensures
        blank_front(s) <= s.len(),
    decreases s.len(),
{
    if s.len() > 0 {
        lemma_blank_front_bound(s.drop_first());
    }
}

/// Whether `c` is whitespace.
pub fn is_space(c: char) -> (r: bool)
    ensures
        r == is_whitespace(c),
{
    let n: u32 = c as u32;
    (n >= 0x9 && n <= 0xd) || n == 0x20 || n == 0x85 || n == 0xa0 || n == 0x1680 || (n >= 0x2000
        && n <= 0x200a) || n == 0x2028 || n == 0x2029 || n == 0x202f || n == 0x205f || n == 0x3000
}

/// `s` without the whitespace at both ends.
pub fn trimmed(s: &str) -> (r: String)
    ensures
        r@ == trim(s@),
{
    let v = chars_of(s);
    let mut lo: usize = 0;
    proof {
        assert(v@.skip(0) =~= v@);
        lemma_blank_front_bound(v@);
    }
    while lo < v.len() && is_space(v[lo])
        invariant
            lo <= v.len(),
            blank_front(v@) == lo + blank_front(v@.skip(lo as int)),
        decreases v.len() - lo,
    {
        proof {
            assert(v@.skip(lo as int).drop_first() =~= v@.skip(lo + 1));
        }
        lo += 1;
    }
    let mut hi: usize = v.len();
    proof {
        assert(v@.subrange(lo as int, hi as int) =~= v@.skip(lo as int));
    }
    while lo < hi && is_space(v[hi - 1])
        invariant
            lo <= hi <= v.len(),
            trim_end(v@.subrange(lo as int, hi as int)) == trim(v@),
        decreases hi,
    {
        proof {
            let cur = v@.subrange(lo as int, hi as int);
            assert(cur.last() == v@[hi - 1]);
            assert(cur.drop_last() =~= v@.subrange(lo as int, hi - 1));
        }
        hi -= 1;
    }
    proof {
        let cur = v@.subrange(lo as int, hi as int);
        if lo < hi {
            assert(cur.last() == v@[hi - 1]);
        }
    }
    text_between(&v, lo, hi)
}

/// The parts of `s` between the occurrences of `sep`.
pub fn split_text(s: &str, sep: char) -> (r: Vec<String>)
    ensures
        texts(r@) == split_on(s@, sep),
{
    let v = chars_of(s);
    let mut out: Vec<String> = Vec::new();
    let mut part = String::new();
    let mut i: usize = 0;
    proof {
        assert(v@.take(0) =~= Seq::<char>::empty());
        assert(texts(out@).push(part@) =~= split_on(v@.take(0), sep));
    }
    while i < v.len()
        invariant
            i <= v.len(),
            texts(out@).push(part@) == split_on(v@.take(i as int), sep),
        decreases v.len() - i,
    {
        let ghost before = texts(out@);
        proof {
            assert(v@.take(i + 1).drop_last() =~= v@.take(i as int));
            assert(before.push(part@).drop_last() =~= before);
        }
        if v[i] == sep {
            let ghost done = part@;
            out.push(part);
            part = String::new();
            assert(texts(out@) =~= before.push(done));
        } else {
            part.push(v[i]);
        }
        i += 1;
    }
    assert(v@.take(i as int) =~= s@);
    let ghost before = texts(out@);
    let ghost done = part@;
    out.push(part);
    assert(texts(out@) =~= before.push(done));
    out
}

/// The lines of `s`.
pub fn lines_of(s: &str) -> (r: Vec<String>)
    ensures
        texts(r@) == lines(s@),
{
    let parts = split_text(s, '\n');
    let ghost all = split_on(s@, '\n');
    proof {
        lemma_split_on_nonempty(s@, '\n');
        assert(texts(parts@).len() == parts.len());
    }
    let mut out: Vec<String> = Vec::new();
    let mut i: usize = 0;
    while i < parts.len() - 1
        invariant
            i <= parts.len() - 1,
            all == texts(parts@),
            all.len() == parts.len(),
            texts(out@) == all.take(i as int).map_values(|l: Seq<char>| strip_cr(l)),
        decreases parts.len() - i,
    {
        let ghost before = texts(out@);
        let line = chars_of(parts[i].as_str());
        assert(line@ == all[i as int]);
        let end: usize = if line.len() > 0 && line[line.len() - 1] == '\r' {
            line.len() - 1
        } else {
            line.len()
        };
        let text = text_between(&line, 0, end);
        assert(text@ =~= strip_cr(all[i as int]));
        let ghost stripped = text@;
        out.push(text);
        assert(texts(out@) =~= before.push(stripped));
        proof {
            let strip = |l: Seq<char>| strip_cr(l);
            assert(all.take(i + 1).map_values(strip) =~= all.take(i as int).map_values(strip).push(
                strip(all[i as int]),
            ));
        }
        i += 1;
    }
    assert(all.take(i as int) =~= all.drop_last());
    assert(all.last() == parts@[parts.len() - 1]@);
    let last = &parts[parts.len() - 1];
    if !last.as_str().is_empty() {
        let ghost before = texts(out@);
        out.push(last.clone());
        assert(texts(out@) =~= before.push(all.last()));
    }
    out
}

/// The characters of `s`, in order.
pub fn chars_of(s: &str) -> (r: Vec<char>)
    ensures
        r@ == s@,
{
    let mut out: Vec<char> = Vec::new();
    for c in it: s.chars()
        invariant
            it.seq() == s@,
            out@ == s@.take(it.index() as int),
    {
        out.push(c);
        assert(out@ =~= s@.take(it.index() + 1));
    }
    assert(out@ =~= s@);
    out
}

/// The string made of the characters from `lo` up to `hi`.
pub fn text_between(v: &Vec<char>, lo: usize, hi: usize) -> (r: String)
    requires
        lo <= hi <= v.len(),
    ensures
        r@ == v@.subrange(lo as int, hi as int),
{
    let mut out = String::new();
    let mut i: usize = lo;
    while i < hi
        invariant
            lo <= i <= hi <= v.len(),
            out@ == v@.subrange(lo as int, i as int),
        decreases hi - i,
    {
        out.push(v[i]);
        i += 1;
        assert(out@ =~= v@.subrange(lo as int, i as int));
    }
    out
}

/// Whether the two strings hold the same characters.
pub fn same_text(a: &str, b: &str) -> (r: bool)
    ensures
        r == (a@ == b@),
{
    a.to_owned() == b.to_owned()
}

/// Whether `a` does not come after `b` in the order of the characters, a text
/// coming before those that it is the front of.
pub open spec fn not_after(a: Seq<char>, b: Seq<char>) -> bool
    decreases a.len(),
{
    if a.len() == 0 {
        true
    } else if b.len() == 0 {
        false
    } else if a[0] == b[0] {
        not_after(a.drop_first(), b.drop_first())
    } else {
        a[0] < b[0]
    }
}

pub proof fn lemma_order_total(a: Seq<char>, b: Seq<char>)
    ensures
        not_after(a, b) || not_after(b, a),
        not_after(a, b) && not_after(b, a) ==> a == b,
    decreases a.len(),
{
    if a.len() > 0 && b.len() > 0 {
        if a[0] == b[0] {
            lemma_order_total(a.drop_first(), b.drop_first());
            if not_after(a, b) && not_after(b, a) {
                assert(a =~= seq![a[0]] + a.drop_first());
                assert(b =~= seq![b[0]] + b.drop_first());
            }
        }
    } else if a.len() == 0 && b.len() == 0 {
        assert(a =~= b);
    }
}

pub proof fn lemma_order_transitive(a: Seq<char>, b: Seq<char>, c: Seq<char>)
    requires
        not_after(a, b),
        not_after(b, c),
    ensures
        not_after(a, c),
    decreases a.len(),
{
    if a.len() > 0 && b.len() > 0 && c.len() > 0 && a[0] == b[0] && b[0] == c[0] {
        lemma_order_transitive(a.drop_first(), b.drop_first(), c.drop_first());
    }
}

/// Whether `a` does not come after `b`.
pub fn in_order(a: &str, b: &str) -> (r: bool)
    ensures
        r == not_after(a@, b@),
{
    let x = chars_of(a);
    let y = chars_of(b);
    let mut i: usize = 0;
    assert(x@.skip(0) =~= a@);
    assert(y@.skip(0) =~= b@);
    while i < x.len()
        invariant
            i <= x.len(),
            i <= y.len(),
            not_after(a@, b@) == not_after(x@.skip(i as int), y@.skip(i as int)),
        decreases x.len() - i,
    {
        if i >= y.len() {
            return false;
        }
        if x[i] != y[i] {
            return x[i] < y[i];
        }
        proof {
            assert(x@.skip(i as int).drop_first() =~= x@.skip(i + 1));
            assert(y@.skip(i as int).drop_first() =~= y@.skip(i + 1));
        }
        i += 1;
    }
    true
}

/// The character for a decimal digit.
pub fn digit_of(d: u8) -> (c: char)
    requires
        d < 10,
    ensures
        c == digit_char(d as nat),
{
    (48u8 + d) as char
}

/// `n` in decimal.
pub fn decimal_text(n: u64) -> (r: String)
    ensures
        r@ == decimal(n as nat),
    decreases n,
{
    if n < 10 {
        let mut out = String::new();
        out.push(digit_of(n as u8));
        assert(out@ =~= decimal(n as nat));
        out
    } else {
        let mut out = decimal_text(n / 10);
        out.push(digit_of((n % 10) as u8));
        out
    }
}

/// A number in decimal reads back: every character is a digit, the first is a
/// zero only in the number zero, and the digits stand for the number.
pub proof fn law_decimal_reads_back(n: nat)
    ensures
        decimal(n).len() > 0,
        forall|i: int| 0 <= i < decimal(n).len() ==> '0' <= #[trigger] decimal(n)[i] <= '9',
        decimal(n)[0] == '0' ==> n == 0,
        digits_value(decimal(n)) == n,
        decimal(n).last() as int - '0' as int == n % 10,
    decreases n,
{
    if n < 10 {
        assert(decimal(n).drop_last() =~= Seq::empty());
        assert(digits_value(Seq::<char>::empty()) == 0);
    } else {
        law_decimal_reads_back(n / 10);
        assert(decimal(n).drop_last() =~= decimal(n / 10));
        assert(decimal(n)[0] == decimal(n / 10)[0]);
        assert forall|i: int| 0 <= i < decimal(n).len() implies '0' <= #[trigger] decimal(n)[i] <= '9' by {
            if i < decimal(n / 10).len() {
                assert(decimal(n)[i] == decimal(n / 10)[i]);
            }
        }
    }
}

/// The parts that a text is split into, with the separator between them, are the
/// text, and no part holds the separator.
pub proof fn law_join_undoes_split(s: Seq<char>, sep: char)
    ensures
        split_on(s, sep).len() > 0,
        join(split_on(s, sep), seq![sep]) == s,
        forall|i: int| 0 <= i < split_on(s, sep).len() ==> !(#[trigger] split_on(s, sep)[i]).contains(sep),
    decreases s.len(),
{
    if s.len() == 0 {
        assert(join(split_on(s, sep), seq![sep]) =~= s);
    } else {
        let front = s.drop_last();
        let rest = split_on(front, sep);
        let parts = split_on(s, sep);
        law_join_undoes_split(front, sep);
        assert(s =~= front.push(s.last()));
        if s.last() == sep {
            assert(parts.drop_last() =~= rest);
            assert(join(parts, seq![sep]) =~= s);
            assert forall|i: int| 0 <= i < parts.len() implies !(#[trigger] parts[i]).contains(sep) by {
                if i < rest.len() {
                    assert(parts[i] == rest[i]);
                }
            }
        } else {
            assert(parts.drop_last() =~= rest.drop_last());
            assert(join(parts, seq![sep]) =~= s);
            assert forall|i: int| 0 <= i < parts.len() implies !(#[trigger] parts[i]).contains(sep) by {
                if i < rest.len() - 1 {
                    assert(parts[i] == rest[i]);
                } else {
                    let last = rest.last();
                    assert(!rest[rest.len() - 1].contains(sep));
                    if parts[i].contains(sep) {
                        let k = choose|k: int| 0 <= k < parts[i].len() && parts[i][k] == sep;
                        if k < last.len() {
                            assert(last[k] == sep);
                        }
                    }
                }
            }
        }
    }
}

proof fn lemma_split_on_add(x: Seq<char>, y: Seq<char>, sep: char)
    requires
        !y.contains(sep),
    ensures
        split_on(x.push(sep) + y, sep) == split_on(x, sep).push(y),
    decreases y.len(),
{
    let s = x.push(sep) + y;
    if y.len() == 0 {
        assert(y =~= Seq::empty());
        assert(s.drop_last() =~= x);
        assert(split_on(s, sep) =~= split_on(x, sep).push(y));
    } else {
        let before = y.drop_last();
        assert(!before.contains(sep)) by {
            if before.contains(sep) {
                let k = choose|k: int| 0 <= k < before.len() && before[k] == sep;
                assert(y[k] == sep);
            }
        }
        lemma_split_on_add(x, before, sep);
        assert(s.drop_last() =~= x.push(sep) + before);
        assert(y[y.len() - 1] == s.last());
        let rest = split_on(s.drop_last(), sep);
        assert(rest.drop_last() =~= split_on(x, sep));
        assert(before.push(s.last()) =~= y);
    }
}

proof fn lemma_split_on_none(y: Seq<char>, sep: char)
    requires
        !y.contains(sep),
    ensures
        split_on(y, sep) == seq![y],
    decreases y.len(),
{
    if y.len() == 0 {
        assert(y =~= Seq::empty());
        assert(split_on(y, sep) =~= seq![y]);
    } else {
        let before = y.drop_last();
        assert(!before.contains(sep)) by {
            if before.contains(sep) {
                let k = choose|k: int| 0 <= k < before.len() && before[k] == sep;
                assert(y[k] == sep);
            }
        }
        lemma_split_on_none(before, sep);
        assert(y[y.len() - 1] == y.last());
        assert(before.push(y.last()) =~= y);
        assert(split_on(y, sep) =~= seq![y]);
    }
}

/// Parts without the separator in them, put together with it between them, are
/// split into those parts again.
pub proof fn law_split_undoes_join(parts: Seq<Seq<char>>, sep: char)
    requires
        parts.len() > 0,
        forall|i: int| 0 <= i < parts.len() ==> !(#[trigger] parts[i]).contains(sep),
    ensures
        split_on(join(parts, seq![sep]), sep) == parts,
    decreases parts.len(),
{
    if parts.len() == 1 {
        lemma_split_on_none(parts[0], sep);
        assert(seq![parts[0]] =~= parts);
    } else {
        let front = parts.drop_last();
        assert forall|i: int| 0 <= i < front.len() implies !(#[trigger] front[i]).contains(sep) by {
            assert(front[i] == parts[i]);
        }
        law_split_undoes_join(front, sep);
        let x = join(front, seq![sep]);
        let y = parts.last();
        assert(!parts[parts.len() - 1].contains(sep));
        lemma_split_on_add(x, y, sep);
        assert(join(parts, seq![sep]) =~= x.push(sep) + y);
        assert(front.push(y) =~= parts);
    }
}

/// The lines of a text without carriage returns, with line feeds between them,
/// are the text, but for one line feed at its end.
pub proof fn law_lines_make_up_the_text(s: Seq<char>)
    requires
        !s.contains('\r'),
    ensures
        s == join(lines(s), seq!['\n']) || s == join(lines(s), seq!['\n']).push('\n'),
        forall|i: int| 0 <= i < lines(s).len() ==> !(#[trigger] lines(s)[i]).contains('\n'),
{
    law_join_undoes_split(s, '\n');
    let parts = split_on(s, '\n');
    lemma_no_returns(s);
    let ended = parts.drop_last().map_values(|l: Seq<char>| strip_cr(l));
    assert(ended =~= parts.drop_last()) by {
        assert forall|i: int| 0 <= i < ended.len() implies #[trigger] ended[i] == parts[i] by {
            if parts[i].len() > 0 && parts[i].last() == '\r' {
                assert(parts[i].contains('\r'));
            }
        }
    }
    if parts.last().len() == 0 {
        assert(lines(s) =~= parts.drop_last());
        if parts.len() == 1 {
            assert(s =~= join(lines(s), seq!['\n']));
        } else {
            assert(s =~= join(lines(s), seq!['\n']).push('\n'));
        }
        assert forall|i: int| 0 <= i < lines(s).len() implies !(#[trigger] lines(s)[i]).contains('\n') by {
            assert(lines(s)[i] == parts[i]);
        }
    } else {
        assert(lines(s) =~= parts);
    }
}

proof fn lemma_no_returns(s: Seq<char>)
    requires
        !s.contains('\r'),
    ensures
        forall|i: int|
            0 <= i < split_on(s, '\n').len() ==> !(#[trigger] split_on(s, '\n')[i]).contains('\r'),
    decreases s.len(),
{
    if s.len() > 0 {
        let front = s.drop_last();
        assert(!front.contains('\r')) by {
            if front.contains('\r') {
                let k = choose|k: int| 0 <= k < front.len() && front[k] == '\r';
                assert(s[k] == '\r');
            }
        }
        assert(s[s.len() - 1] == s.last());
        lemma_no_returns(front);
        lemma_split_on_nonempty(front, '\n');
        let rest = split_on(front, '\n');
        let parts = split_on(s, '\n');
        assert forall|i: int| 0 <= i < parts.len() implies !(#[trigger] parts[i]).contains('\r') by {
            if parts[i].contains('\r') {
                let k = choose|k: int| 0 <= k < parts[i].len() && parts[i][k] == '\r';
                if i < rest.len() {
                    assert(!rest[i].contains('\r'));
                    if k < rest[i].len() {
                        assert(rest[i][k] == '\r');
                    }
                }
            }
        }
    }
}

/// What is trimmed off a text is whitespace at its ends, all of it and nothing
/// else.
pub proof fn law_trim_takes_whitespace_alone(s: Seq<char>) -> (place: (int, int))
    ensures
        0 <= place.0 <= place.1 <= s.len(),
        trim(s) == s.subrange(place.0, place.1),
        forall|k: int| 0 <= k < place.0 ==> is_whitespace(#[trigger] s[k]),
        forall|k: int| place.1 <= k < s.len() ==> is_whitespace(#[trigger] s[k]),
        place.0 < place.1 ==> !is_whitespace(s[place.0]) && !is_whitespace(s[place.1 - 1]),
{
    let lo = blank_front(s) as int;
    lemma_blank_front_is(s);
    let rest = s.skip(lo);
    let n = lemma_trim_end_is(rest);
    let hi = lo + n;
    assert(trim(s) =~= s.subrange(lo, hi));
    assert forall|k: int| hi <= k < s.len() implies is_whitespace(#[trigger] s[k]) by {
        assert(rest[k - lo] == s[k]);
    }
    if lo < hi {
        assert(rest[n - 1] == s[hi - 1]);
    }
    (lo, hi)
}

proof fn lemma_blank_front_is(s: Seq<char>)
    ensures
        blank_front(s) <= s.len(),
        forall|k: int| 0 <= k < blank_front(s) ==> is_whitespace(#[trigger] s[k]),
        blank_front(s) < s.len() ==> !is_whitespace(s[blank_front(s) as int]),
    decreases s.len(),
{
    if s.len() > 0 && is_whitespace(s[0]) {
        let rest = s.drop_first();
        lemma_blank_front_is(rest);
        assert forall|k: int| 0 <= k < blank_front(s) implies is_whitespace(#[trigger] s[k]) by {
            if k > 0 {
                assert(rest[k - 1] == s[k]);
            }
        }
        if blank_front(s) < s.len() {
            assert(rest[blank_front(rest) as int] == s[blank_front(s) as int]);
        }
    }
}

proof fn lemma_trim_end_is(s: Seq<char>) -> (n: int)
    ensures
        0 <= n <= s.len(),
        trim_end(s) == s.take(n),
        forall|k: int| n <= k < s.len() ==> is_whitespace(#[trigger] s[k]),
        n > 0 ==> !is_whitespace(s[n - 1]),
    decreases s.len(),
{
    if s.len() > 0 && is_whitespace(s.last()) {
        let n = lemma_trim_end_is(s.drop_last());
        assert(s.drop_last().take(n) =~= s.take(n));
        assert forall|k: int| n <= k < s.len() implies is_whitespace(#[trigger] s[k]) by {
            if k < s.len() - 1 {
                assert(s.drop_last()[k] == s[k]);
            }
        }
        if n > 0 {
            assert(s.drop_last()[n - 1] == s[n - 1]);
        }
        n
    } else {
        assert(s.take(s.len() as int) =~= s);
        s.len() as int
    }
}

/// The order of texts goes by the first character in which they differ, and a
/// text comes before those that it is the front of.
pub proof fn law_order_by_first_difference(a: Seq<char>, b: Seq<char>, k: int)
    requires
        0 <= k <= a.len(),
        k <= b.len(),
        a.take(k) == b.take(k),
    ensures
        k == a.len() ==> not_after(a, b),
        k == b.len() && k < a.len() ==> !not_after(a, b),
        k < a.len() && k < b.len() && a[k] != b[k] ==> (not_after(a, b) <==> a[k] < b[k]),
    decreases k,
{
    if k > 0 {
        assert(a.take(k)[0] == a[0] && b.take(k)[0] == b[0]);
        let x = a.drop_first();
        let y = b.drop_first();
        assert(x.take(k - 1) =~= a.take(k).drop_first());
        assert(y.take(k - 1) =~= b.take(k).drop_first());
        law_order_by_first_difference(x, y, k - 1);
        if k < a.len() {
            assert(x[k - 1] == a[k]);
        }
        if k < b.len() {
            assert(y[k - 1] == b[k]);
        }
    }
}

/// What counts as whitespace is what Unicode does: the blanks of every width, tabs,
/// and whatever ends a line or a paragraph.
pub proof fn law_whitespace_is_that_of_unicode(c: char)
    ensures
        is_whitespace(c) <==> c == ' ' || c == '\t' || c == '\n' || c == '\r' || c == '\u{b}' || c
            == '\u{c}' || c == '\u{85}' || c == '\u{a0}' || c == '\u{1680}' || '\u{2000}' <= c
            <= '\u{200a}' || c == '\u{2028}' || c == '\u{2029}' || c == '\u{202f}' || c == '\u{205f}' || c
            == '\u{3000}',
{
}

/// Lines that end with a carriage return and a line feed are read without either.
pub proof fn law_both_line_ends_come_off(all: Seq<Seq<char>>)
    requires
        forall|i: int| 0 <= i < all.len() ==> !(#[trigger] all[i]).contains('\n'),
    ensures
        lines(
            join(all.map_values(|l: Seq<char>| l.push('\r')).push(Seq::empty()), seq!['\n']),
        ) == all,
{
    let ended = all.map_values(|l: Seq<char>| l.push('\r'));
    let parts = ended.push(Seq::empty());
    assert forall|i: int| 0 <= i < parts.len() implies !(#[trigger] parts[i]).contains('\n') by {
        if i < all.len() {
            assert(parts[i] == all[i].push('\r'));
            if parts[i].contains('\n') {
                let k = choose|k: int| 0 <= k < parts[i].len() && parts[i][k] == '\n';
                assert(all[i][k] == '\n');
                assert(all[i].contains('\n'));
            }
        }
    }
    law_split_undoes_join(parts, '\n');
    let s = join(parts, seq!['\n']);
    assert(parts.drop_last() =~= ended);
    assert(lines(s) =~= all) by {
        assert forall|i: int| 0 <= i < all.len() implies strip_cr(#[trigger] ended[i]) == all[i] by {
            assert(all[i].push('\r').drop_last() =~= all[i]);
        }
    }
}

} // verus!
