//! The URL row of a card: which tokens appear, and which trust class the host
//! falls into.
use crate::command::{HttpMethod, Url};
use crate::outside::{answers_all, cleaned, computes, decides, decides_all, told};
use crate::text::{chars_of, same_text, text_between};
use vstd::prelude::*;
use vstd::string::*;

verus! {

/// The semantic class of an HTTP method. A tone and not a colour: each surface
/// has a palette of its own.
#[derive(Debug, Clone, Copy, PartialEq, Eq, Structural)]
pub enum MethodTone {
    /// Safe, read-only verbs.
    Read,
    /// Verbs that change server state.
    Write,
    /// `DELETE`.
    Destructive,
    /// `CONNECT` and anything non-standard.
    Other,
}

pub open spec fn tone_of(method: HttpMethod) -> MethodTone {
    match method {
        HttpMethod::Get | HttpMethod::Head | HttpMethod::Options | HttpMethod::Trace => MethodTone::Read,
        HttpMethod::Post | HttpMethod::Put | HttpMethod::Patch => MethodTone::Write,
        HttpMethod::Delete => MethodTone::Destructive,
        HttpMethod::Connect | HttpMethod::Other(_) => MethodTone::Other,
    }
}

/// The display tone of `method`.
pub fn method_tone(method: &HttpMethod) -> (r: MethodTone)
    ensures
        r == tone_of(*method),
{
    match method {
        HttpMethod::Get | HttpMethod::Head | HttpMethod::Options | HttpMethod::Trace => MethodTone::Read,
        HttpMethod::Post | HttpMethod::Put | HttpMethod::Patch => MethodTone::Write,
        HttpMethod::Delete => MethodTone::Destructive,
        HttpMethod::Connect | HttpMethod::Other(_) => MethodTone::Other,
    }
}

/// Ports that are not worth showing: the standard ones, and the two that are
/// common in development stacks.
pub open spec fn is_quiet_port(port: u16) -> bool {
    port == 80 || port == 443 || port == 8080 || port == 8443
}

/// The port to show after the host: the one that the URL carries, unless it is
/// a quiet one.
pub fn visible_port(url: &Url) -> (r: Option<u16>)
    ensures
        r == (if url.port is Some && !is_quiet_port(url.port->0) {
            url.port
        } else {
            None
        }),
{
    match url.port {
        Some(p) => {
            if p == 80 || p == 443 || p == 8080 || p == 8443 {
                None
            } else {
                Some(p)
            }
        },
        None => None,
    }
}

/// The path and query of the URL row, made safe to paint.
#[derive(Debug, Clone, PartialEq, Eq)]
pub struct PathQuery {
    /// The text to paint, empty where the row is left out.
    pub text: String,
    /// Whether the URL has a path other than `/`.
    pub has_path: bool,
}

/// What a [`PathQuery`] holds.
pub struct TailShown {
    pub text: Seq<char>,
    pub has_path: bool,
}

impl View for PathQuery {
    type V = TailShown;

    open spec fn view(&self) -> TailShown {
        TailShown { text: self.text@, has_path: self.has_path }
    }
}

pub open spec fn has_real_path(url: Url) -> bool {
    url.path@.len() > 0 && url.path@ != "/"@
}

/// Path and query in one text. A bare `/` is kept where it is the whole target;
/// before a query it would be redundant.
pub open spec fn tail_text(url: Url) -> Seq<char> {
    match url.query {
        Some(q) => if has_real_path(url) {
            url.path@ + "?"@ + q@
        } else {
            "?"@ + q@
        },
        None => url.path@,
    }
}

/// The tail of the URL row for `url`, painted text being cleaned by `clean`.
pub open spec fn tail_of(clean: spec_fn(Seq<char>) -> Seq<char>, url: Url) -> TailShown {
    TailShown { text: clean(tail_text(url)), has_path: has_real_path(url) }
}

/// The path and query of `url` folded into the one tail that the row paints.
pub fn path_query<S: Fn(&str) -> String>(url: &Url, sanitize: &S) -> (r: PathQuery)
    requires
        answers_all(*sanitize),
    ensures
        forall|clean: spec_fn(Seq<char>) -> Seq<char>| #[trigger]
            computes(*sanitize, clean) ==> r@ == tail_of(clean, *url),
        cleaned(*sanitize, tail_text(*url), r.text@),
        r.has_path == has_real_path(*url),
{
    let has_path = !url.path.as_str().is_empty() && !same_text(url.path.as_str(), "/");
    let text = match &url.query {
        Some(q) => {
            let mut t = if has_path {
                let mut p = url.path.clone();
                p.append("?");
                p
            } else {
                "?".to_owned()
            };
            t.append(q.as_str());
            t
        },
        None => url.path.clone(),
    };
    PathQuery { text: sanitize(text.as_str()), has_path }
}

/// The trust class of a host. Loopback wins over known.
#[derive(Debug, Clone, Copy, PartialEq, Eq, Structural)]
pub enum HostTrust {
    /// `localhost` and loopback addresses.
    Loopback,
    Known,
    Unknown,
}

impl HostTrust {
    pub open spec fn explanation(self) -> Seq<char> {
        match self {
            HostTrust::Loopback => "loopback (trusted local)"@,
            HostTrust::Known => "known host (matched known-hosts list)"@,
            HostTrust::Unknown => "unknown host (not in known-hosts list)"@,
        }
    }

    /// Hover text that says why the pill has the colour it has.
    pub fn tooltip(&self) -> (r: &'static str)
        ensures
            r@ == self.explanation(),
    {
        match self {
            HostTrust::Loopback => "loopback (trusted local)",
            HostTrust::Known => "known host (matched known-hosts list)",
            HostTrust::Unknown => "unknown host (not in known-hosts list)",
        }
    }
}

/// `c` with an ASCII capital made small.
pub open spec fn ascii_lower(c: char) -> char {
    if 'A' <= c && c <= 'Z' {
        (c as u32 + 32) as char
    } else {
        c
    }
}

/// Whether two texts differ at most in the case of ASCII letters.
pub open spec fn same_ignoring_case(a: Seq<char>, b: Seq<char>) -> bool {
    a.len() == b.len() && forall|i: int|
        0 <= i < a.len() ==> #[trigger] ascii_lower(a[i]) == ascii_lower(b[i])
}

fn lower(c: char) -> (r: char)
    ensures
        r == ascii_lower(c),
{
    if c >= 'A' && c <= 'Z' {
        ((c as u8) + 32) as char
    } else {
        c
    }
}

/// Whether two texts differ at most in the case of ASCII letters.
pub fn eq_ignore_ascii_case(a: &str, b: &str) -> (r: bool)
    ensures
        r == same_ignoring_case(a@, b@),
{
    let x = chars_of(a);
    let y = chars_of(b);
    if x.len() != y.len() {
        return false;
    }
    let mut i: usize = 0;
    while i < x.len()
        invariant
            i <= x.len(),
            x@ == a@,
            y@ == b@,
            x.len() == y.len(),
            forall|k: int| 0 <= k < i ==> #[trigger] ascii_lower(a@[k]) == ascii_lower(b@[k]),
        decreases x.len() - i,
    {
        if lower(x[i]) != lower(y[i]) {
            assert(ascii_lower(a@[i as int]) != ascii_lower(b@[i as int]));
            return false;
        }
        i += 1;
    }
    true
}

/// How many times `c` stands at the front of `s`.
pub open spec fn leading(s: Seq<char>, c: char) -> nat
    decreases s.len(),
{
    if s.len() > 0 && s[0] == c {
        1 + leading(s.drop_first(), c)
    } else {
        0
    }
}

/// How many times `c` stands at the end of `s`.
pub open spec fn trailing(s: Seq<char>, c: char) -> nat
    decreases s.len(),
{
    if s.len() > 0 && s.last() == c {
        1 + trailing(s.drop_last(), c)
    } else {
        0
    }
}

/// `host` without the brackets of an IPv6 literal.
pub open spec fn unbracketed(host: Seq<char>) -> Seq<char> {
    let open = host.skip(leading(host, '[') as int);
    open.take(open.len() - trailing(open, ']'))
}

/// Whether `host` is the machine itself: `localhost`, or an address that
/// `loopback` takes for one.
pub open spec fn is_local(loopback: spec_fn(Seq<char>) -> bool, host: Seq<char>) -> bool {
    same_ignoring_case(host, "localhost"@) || loopback(unbracketed(host))
}

proof fn lemma_leading_bound(s: Seq<char>, c: char)
    ensures
        leading(s, c) <= s.len(),
    decreases s.len(),
{
    if s.len() > 0 {
        lemma_leading_bound(s.drop_first(), c);
    }
}

proof fn lemma_trailing_bound(s: Seq<char>, c: char)
    ensures
        trailing(s, c) <= s.len(),
    decreases s.len(),
{
    if s.len() > 0 {
        lemma_trailing_bound(s.drop_last(), c);
    }
}

/// The text of a host without the brackets round it.
fn strip_brackets(host: &str) -> (r: String)
    ensures
        r@ == unbracketed(host@),
{
    let s = chars_of(host);
    let mut lo: usize = 0;
    proof {
        assert(s@.skip(0) =~= s@);
        lemma_leading_bound(s@, '[');
    }
    while lo < s.len() && s[lo] == '['
        invariant
            lo <= s.len(),
            leading(s@, '[') == lo + leading(s@.skip(lo as int), '['),
        decreases s.len() - lo,
    {
        proof {
            assert(s@.skip(lo as int).drop_first() =~= s@.skip(lo + 1));
        }
        lo += 1;
    }
    let ghost open = s@.skip(lo as int);
    let mut hi: usize = s.len();
    proof {
        assert(s@.subrange(lo as int, hi as int) =~= open);
    }
    while lo < hi && s[hi - 1] == ']'
        invariant
            lo <= hi <= s.len(),
            open == s@.skip(lo as int),
            trailing(open, ']') == (s.len() - hi) + trailing(s@.subrange(lo as int, hi as int), ']'),
        decreases hi,
    {
        proof {
            let cur = s@.subrange(lo as int, hi as int);
            assert(cur.last() == s@[hi - 1]);
            assert(cur.drop_last() =~= s@.subrange(lo as int, hi - 1));
        }
        hi -= 1;
    }
    proof {
        let cur = s@.subrange(lo as int, hi as int);
        if lo < hi {
            assert(cur.last() == s@[hi - 1]);
        }
        assert(cur =~= open.take(open.len() - trailing(open, ']')));
    }
    text_between(&s, lo, hi)
}

/// `r` is whether `host` is the machine itself, by the answer of `f` where its
/// name does not settle it.
pub open spec fn local_told<L: Fn(&str) -> bool>(f: L, host: Seq<char>, r: bool) -> bool {
    if same_ignoring_case(host, "localhost"@) {
        r
    } else {
        told(f, unbracketed(host), r)
    }
}

/// Whether `host` is the machine itself: `localhost` in any case, or an IP
/// address of the loopback range, in brackets or not.
pub fn is_loopback<L: Fn(&str) -> bool>(host: &str, loopback_ip: &L) -> (r: bool)
    requires
        decides_all(*loopback_ip),
    ensures
        local_told(*loopback_ip, host@, r),
        forall|loopback: spec_fn(Seq<char>) -> bool| #[trigger]
            decides(*loopback_ip, loopback) ==> r == is_local(loopback, host@),
{
    if eq_ignore_ascii_case(host, "localhost") {
        return true;
    }
    let bare = strip_brackets(host);
    loopback_ip(bare.as_str())
}

/// The trust class of `host`, `known` being the answer of the known-hosts
/// list.
pub open spec fn trust_class(
    loopback: spec_fn(Seq<char>) -> bool,
    host: Seq<char>,
    known: bool,
) -> HostTrust {
    if is_local(loopback, host) {
        HostTrust::Loopback
    } else if known {
        HostTrust::Known
    } else {
        HostTrust::Unknown
    }
}

/// `r` is the trust class of `host`, by the answer of `f` where its name does not
/// settle it.
pub open spec fn trust_told<L: Fn(&str) -> bool>(
    f: L,
    host: Seq<char>,
    known: bool,
    r: HostTrust,
) -> bool {
    match r {
        HostTrust::Loopback => local_told(f, host, true),
        HostTrust::Known => local_told(f, host, false) && known,
        HostTrust::Unknown => local_told(f, host, false) && !known,
    }
}

/// The trust class of `host`. The loopback rule is asked here again, so that a
/// stale `host_known` for `localhost` still gives loopback.
pub fn host_trust<L: Fn(&str) -> bool>(host: &str, host_known: bool, loopback_ip: &L) -> (r: HostTrust)
    requires
        decides_all(*loopback_ip),
    ensures
        trust_told(*loopback_ip, host@, host_known, r),
        forall|loopback: spec_fn(Seq<char>) -> bool| #[trigger]
            decides(*loopback_ip, loopback) ==> r == trust_class(loopback, host@, host_known),
{
    if is_loopback(host, loopback_ip) {
        HostTrust::Loopback
    } else if host_known {
        HostTrust::Known
    } else {
        HostTrust::Unknown
    }
}

/// The line that stands in for the URL row on a card without an HTTP request.
pub open spec fn fallback_line(
    clean: spec_fn(Seq<char>) -> Seq<char>,
    command: Seq<char>,
    verb: Seq<char>,
    target: Seq<char>,
) -> Seq<char> {
    if verb.len() == 0 {
        clean(command) + "  "@ + clean(target)
    } else {
        clean(command) + "  "@ + clean(verb) + " "@ + clean(target)
    }
}

/// `out` is the text of the fallback row, by the answers that were given.
pub open spec fn fallback_painted<S: Fn(&str) -> String>(
    sanitize: S,
    command: Seq<char>,
    verb: Seq<char>,
    target: Seq<char>,
    out: Seq<char>,
) -> bool {
    exists|c: Seq<char>, t: Seq<char>| #[trigger]
        cleaned(sanitize, command, c) && #[trigger] cleaned(sanitize, target, t) && if verb.len() == 0 {
            out == c + "  "@ + t
        } else {
            exists|v: Seq<char>| #[trigger]
                cleaned(sanitize, verb, v) && out == c + "  "@ + v + " "@ + t
        }
}

/// The text of the fallback row, every component made safe to paint.
pub fn fallback_text<S: Fn(&str) -> String>(
    command: &str,
    primary_verb: &str,
    primary_target: &str,
    sanitize: &S,
) -> (r: String)
    requires
        answers_all(*sanitize),
    ensures
        forall|clean: spec_fn(Seq<char>) -> Seq<char>| #[trigger]
            computes(*sanitize, clean) ==> r@ == fallback_line(
                clean,
                command@,
                primary_verb@,
                primary_target@,
            ),
        fallback_painted(*sanitize, command@, primary_verb@, primary_target@, r@),
{
    let mut out = sanitize(command);
    assert(cleaned(*sanitize, command@, out@));
    out.append("  ");
    if !primary_verb.is_empty() {
        let verb = sanitize(primary_verb);
        assert(cleaned(*sanitize, primary_verb@, verb@));
        out.append(verb.as_str());
        out.append(" ");
    }
    let target = sanitize(primary_target);
    assert(cleaned(*sanitize, primary_target@, target@));
    out.append(target.as_str());
    out
}

/// What is taken off a host are brackets alone: opening ones in front and closing
/// ones behind. What is left begins with none and ends with none.
pub proof fn law_only_brackets_come_off(host: Seq<char>) -> (place: (int, int))
    ensures
        0 <= place.0 <= place.1 <= host.len(),
        unbracketed(host) == host.subrange(place.0, place.1),
        forall|k: int| 0 <= k < place.0 ==> #[trigger] host[k] == '[',
        forall|k: int| place.1 <= k < host.len() ==> #[trigger] host[k] == ']',
        place.0 < place.1 ==> host[place.0] != '[' && host[place.1 - 1] != ']',
{
    let lo = leading(host, '[') as int;
    lemma_leading_bound(host, '[');
    lemma_leading_is(host, '[');
    let open = host.skip(lo);
    let cut = trailing(open, ']') as int;
    lemma_trailing_bound(open, ']');
    lemma_trailing_is(open, ']');
    let hi = host.len() - cut;
    assert(unbracketed(host) =~= host.subrange(lo, hi));
    assert forall|k: int| hi <= k < host.len() implies #[trigger] host[k] == ']' by {
        assert(open[k - lo] == ']');
    }
    if lo < hi {
        assert(open[hi - 1 - lo] == host[hi - 1]);
    }
    (lo, hi)
}

proof fn lemma_leading_is(s: Seq<char>, c: char)
    ensures
        leading(s, c) <= s.len(),
        forall|k: int| 0 <= k < leading(s, c) ==> #[trigger] s[k] == c,
        leading(s, c) < s.len() ==> s[leading(s, c) as int] != c,
    decreases s.len(),
{
    if s.len() > 0 && s[0] == c {
        let rest = s.drop_first();
        lemma_leading_is(rest, c);
        assert forall|k: int| 0 <= k < leading(s, c) implies #[trigger] s[k] == c by {
            if k > 0 {
                assert(rest[k - 1] == s[k]);
            }
        }
        if leading(s, c) < s.len() {
            assert(rest[leading(rest, c) as int] == s[leading(s, c) as int]);
        }
    }
}

proof fn lemma_trailing_is(s: Seq<char>, c: char)
    ensures
        trailing(s, c) <= s.len(),
        forall|k: int| s.len() - trailing(s, c) <= k < s.len() ==> #[trigger] s[k] == c,
        trailing(s, c) < s.len() ==> s[s.len() - trailing(s, c) - 1] != c,
    decreases s.len(),
{
    if s.len() > 0 && s.last() == c {
        let rest = s.drop_last();
        lemma_trailing_is(rest, c);
        assert forall|k: int| s.len() - trailing(s, c) <= k < s.len() implies #[trigger] s[k] == c by {
            if k < s.len() - 1 {
                assert(rest[k] == s[k]);
            }
        }
        if trailing(s, c) < s.len() {
            assert(rest[rest.len() - trailing(rest, c) - 1] == s[s.len() - trailing(s, c) - 1]);
        }
    }
}

/// A host is taken for the machine itself only by its name or by the answer about
/// its address, and the known-hosts list is never outvoted by anything else. The
/// answer that was given is about the host without its brackets.
pub proof fn law_trust_follows_the_answers<L: Fn(&str) -> bool>(
    f: L,
    host: Seq<char>,
    known: bool,
    r: HostTrust,
)
    requires
        trust_told(f, host, known, r),
    ensures
        r == HostTrust::Known ==> known,
        r == HostTrust::Unknown ==> !known,
        same_ignoring_case(host, "localhost"@) ==> r == HostTrust::Loopback,
        !same_ignoring_case(host, "localhost"@) ==> exists|asked: &str, local: bool|
            asked@ == unbracketed(host) && #[trigger] call_ensures(f, (asked,), local) && (local <==> r
                == HostTrust::Loopback),
{
    if !same_ignoring_case(host, "localhost"@) {
        let b = r == HostTrust::Loopback;
        assert(told(f, unbracketed(host), b));
        let asked = choose|x: &str| x@ == unbracketed(host) && #[trigger] call_ensures(f, (x,), b);
        assert(call_ensures(f, (asked,), b));
    }
}

/// Letters of two hosts are compared without their case and nothing else is: a
/// text is the same as itself with any capital made small, and differs from one
/// with another letter.
pub proof fn law_case_alone_is_ignored(x: Seq<char>, y: Seq<char>, i: int)
    requires
        same_ignoring_case(x, y),
        0 <= i < x.len(),
    ensures
        x.len() == y.len(),
        x[i] == y[i] || ('A' <= x[i] <= 'Z' && y[i] as int == x[i] as int + 32) || ('A' <= y[i] <= 'Z'
            && x[i] as int == y[i] as int + 32),
{
    assert(ascii_lower(x[i]) == ascii_lower(y[i]));
}

/// A verb that reads nothing but is shown as reading, or one that deletes and is
/// not shown as destructive, there is not: the tones part the methods.
pub proof fn law_tone_parts_the_methods(method: HttpMethod)
    ensures
        tone_of(method) == MethodTone::Read <==> method is Get || method is Head || method is Options
            || method is Trace,
        tone_of(method) == MethodTone::Write <==> method is Post || method is Put || method is Patch,
        tone_of(method) == MethodTone::Destructive <==> method is Delete,
{
}

/// What the hover text says of a host tells the classes of trust apart, and says
/// of an unknown one that it is unknown.
pub proof fn law_trust_is_told_apart(x: HostTrust, y: HostTrust)
    ensures
        x != y ==> x.explanation() != y.explanation(),
        "unknown"@.is_prefix_of(x.explanation()) <==> x == HostTrust::Unknown,
        "known"@.is_prefix_of(x.explanation()) <==> x == HostTrust::Known,
{
    reveal_strlit("loopback (trusted local)");
    reveal_strlit("known host (matched known-hosts list)");
    reveal_strlit("unknown host (not in known-hosts list)");
    reveal_strlit("unknown");
    reveal_strlit("known");
    let a = "loopback (trusted local)"@;
    let b = "known host (matched known-hosts list)"@;
    let c = "unknown host (not in known-hosts list)"@;
    assert(a[0] == 'l' && b[0] == 'k' && c[0] == 'u');
    assert("unknown"@ =~= c.subrange(0, 7));
    assert("known"@ =~= b.subrange(0, 5));
    assert("unknown"@[0] == 'u' && "known"@[0] == 'k');
    let t = x.explanation();
    if "unknown"@.is_prefix_of(t) {
        assert(t.subrange(0, 7)[0] == t[0]);
    }
    if "known"@.is_prefix_of(t) {
        assert(t.subrange(0, 5)[0] == t[0]);
    }
}

} // verus!
