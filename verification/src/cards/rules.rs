//! How long an allowlist rule lives, and what it will look like on disk.
use crate::text::{
    join, law_lines_make_up_the_text, law_split_undoes_join, lines, lines_of, split_on, texts,
};
use vstd::prelude::*;
use vstd::string::*;

verus! {

/// The durations that the picker offers, in the order of display.
#[derive(Debug, Clone, Copy, PartialEq, Eq, Structural)]
pub enum DurationChoice {
    FifteenMinutes,
    OneHour,
    FourHours,
    /// For the terminal session that the request came from. Not on offer where
    /// the request has none.
    ThisSession,
    Forever,
}

/// How long a rule for one session stays in the file after it was made, so
/// that it is pruned even where the session never comes back.
pub const SESSION_BACKSTOP_SECS: u64 = 604800;

impl DurationChoice {
    /// The choices in the order of display.
    pub open spec fn choices() -> Seq<DurationChoice> {
        seq![
            DurationChoice::FifteenMinutes,
            DurationChoice::OneHour,
            DurationChoice::FourHours,
            DurationChoice::ThisSession,
            DurationChoice::Forever,
        ]
    }

    /// The choices in the order of display.
    pub fn all() -> (r: Vec<DurationChoice>)
        ensures
            r@ == DurationChoice::choices(),
    {
        let r = vec![
            DurationChoice::FifteenMinutes,
            DurationChoice::OneHour,
            DurationChoice::FourHours,
            DurationChoice::ThisSession,
            DurationChoice::Forever,
        ];
        assert(r@ =~= DurationChoice::choices());
        r
    }

    pub open spec fn name(self) -> Seq<char> {
        match self {
            DurationChoice::FifteenMinutes => "15 minutes"@,
            DurationChoice::OneHour => "1 hour"@,
            DurationChoice::FourHours => "4 hours"@,
            DurationChoice::ThisSession => "For this terminal session"@,
            DurationChoice::Forever => "Forever"@,
        }
    }

    pub fn title(&self) -> (r: &'static str)
        ensures
            r@ == self.name(),
    {
        match self {
            DurationChoice::FifteenMinutes => "15 minutes",
            DurationChoice::OneHour => "1 hour",
            DurationChoice::FourHours => "4 hours",
            DurationChoice::ThisSession => "For this terminal session",
            DurationChoice::Forever => "Forever",
        }
    }

    /// How many seconds a rule of this duration lives, or none where it never
    /// expires.
    pub open spec fn lifetime(self) -> Option<nat> {
        match self {
            DurationChoice::FifteenMinutes => Some(15 * 60),
            DurationChoice::OneHour => Some(60 * 60),
            DurationChoice::FourHours => Some(4 * 60 * 60),
            DurationChoice::ThisSession => Some(7 * 24 * 60 * 60),
            DurationChoice::Forever => None,
        }
    }

    /// The expiry time and the session that a rule of this duration gets when
    /// it is made at `now` for a request of session `peer_sid`. Only a rule for
    /// this session has a session.
    pub fn apply(&self, now: u64, peer_sid: Option<i32>) -> (r: (Option<u64>, Option<i32>))
        requires
            self.lifetime() is Some ==> now + self.lifetime()->0 <= u64::MAX,
        ensures
            self.lifetime() is None ==> r.0 is None,
            self.lifetime() is Some ==> r.0 is Some && r.0->0 == now + self.lifetime()->0,
            r.1 == (if *self == DurationChoice::ThisSession {
                peer_sid
            } else {
                None
            }),
    {
        match self {
            DurationChoice::FifteenMinutes => (Some(now + 15 * 60), None),
            DurationChoice::OneHour => (Some(now + 60 * 60), None),
            DurationChoice::FourHours => (Some(now + 4 * 60 * 60), None),
            DurationChoice::ThisSession => (Some(now + SESSION_BACKSTOP_SECS), peer_sid),
            DurationChoice::Forever => (None, None),
        }
    }

    pub open spec fn note(self) -> Seq<char> {
        match self {
            DurationChoice::FifteenMinutes => "Expires in 15 minutes."@,
            DurationChoice::OneHour => "Expires in 1 hour."@,
            DurationChoice::FourHours => "Expires in 4 hours."@,
            DurationChoice::ThisSession => "Active for this terminal session."@,
            DurationChoice::Forever => "Persisted to your user allowlist."@,
        }
    }

    /// What the user is told once the rule is saved.
    pub fn confirmation_note(&self) -> (r: &'static str)
        ensures
            r@ == self.note(),
    {
        match self {
            DurationChoice::FifteenMinutes => "Expires in 15 minutes.",
            DurationChoice::OneHour => "Expires in 1 hour.",
            DurationChoice::FourHours => "Expires in 4 hours.",
            DurationChoice::ThisSession => "Active for this terminal session.",
            DurationChoice::Forever => "Persisted to your user allowlist.",
        }
    }
}

/// The lines of `s`, each with `pad` in front, with line feeds between.
pub open spec fn indented(s: Seq<char>, pad: Seq<char>) -> Seq<char> {
    join(lines(s).map_values(|l: Seq<char>| pad + l), "\n"@)
}

/// The preview of a rule's `when` block.
pub open spec fn when_preview(yaml: Result<String, String>) -> Seq<char> {
    match yaml {
        Ok(s) => "when:\n"@ + indented(s@, "  "@),
        Err(e) => "(yaml render failed: "@ + e@ + ")"@,
    }
}

fn indent_lines(s: &str, pad: &str) -> (r: String)
    ensures
        r@ == indented(s@, pad@),
{
    let all = lines_of(s);
    let ghost padded = lines(s@).map_values(|l: Seq<char>| pad@ + l);
    let mut out = String::new();
    let mut i: usize = 0;
    assert(texts(all@).len() == all.len());
    assert(padded.take(0) =~= Seq::empty());
    while i < all.len()
        invariant
            i <= all.len(),
            padded.len() == all.len(),
            texts(all@) == lines(s@),
            padded == lines(s@).map_values(|l: Seq<char>| pad@ + l),
            out@ == join(padded.take(i as int), "\n"@),
        decreases all.len() - i,
    {
        let ghost before = out@;
        if i > 0 {
            out.append("\n");
        }
        out.append(pad);
        out.append(all[i].as_str());
        i += 1;
        proof {
            let shown = padded.take(i as int);
            assert(all@[i - 1]@ == texts(all@)[i - 1]);
            assert(shown.drop_last() =~= padded.take(i - 1));
            assert(shown.last() == pad@ + all@[i - 1]@);
            assert(out@ =~= join(shown, "\n"@));
        }
    }
    assert(padded.take(i as int) =~= padded);
    out
}

/// The preview of a rule's `when` block: the YAML that would be saved, without
/// the other fields of the rule.
pub fn render_rule_when_yaml(yaml: &Result<String, String>) -> (r: String)
    ensures
        r@ == when_preview(*yaml),
{
    match yaml {
        Ok(s) => {
            let mut out = "when:\n".to_owned();
            let body = indent_lines(s.as_str(), "  ");
            out.append(body.as_str());
            out
        },
        Err(e) => {
            let mut out = "(yaml render failed: ".to_owned();
            out.append(e.as_str());
            out.append(")");
            out
        },
    }
}

proof fn lemma_join_in_front(first: Seq<char>, parts: Seq<Seq<char>>, sep: Seq<char>)
    requires
        parts.len() > 0,
    ensures
        join(seq![first] + parts, sep) == first + sep + join(parts, sep),
    decreases parts.len(),
{
    let all = seq![first] + parts;
    assert(all.last() == parts.last());
    if parts.len() == 1 {
        assert(all.drop_last() =~= seq![first]);
        assert(join(seq![first], sep) == first);
        assert(join(all, sep) =~= first + sep + join(parts, sep));
    } else {
        let front = parts.drop_last();
        lemma_join_in_front(first, front, sep);
        assert(all.drop_last() =~= seq![first] + front);
        assert(join(all, sep) =~= first + sep + join(parts, sep));
    }
}

/// The preview of a rule has a line `when:` and below it every line of the YAML,
/// each two blanks further in, and no other line.
pub proof fn law_preview_has_every_line(yaml: String)
    requires
        yaml@.len() > 0,
        !yaml@.contains('\r'),
        lines(yaml@).len() > 0,
    ensures
        ({
            let shown = split_on(when_preview(Ok(yaml)), '\n');
            &&& shown.len() == lines(yaml@).len() + 1
            &&& shown[0] == "when:"@
            &&& forall|i: int|
                1 <= i < shown.len() ==> #[trigger] shown[i] == seq![' ', ' '] + lines(yaml@)[i - 1]
        }),
{
    reveal_strlit("when:\n");
    reveal_strlit("when:");
    reveal_strlit("  ");
    reveal_strlit("\n");
    law_lines_make_up_the_text(yaml@);
    let pad = "  "@;
    let padded = lines(yaml@).map_values(|l: Seq<char>| pad + l);
    let all = seq!["when:"@] + padded;
    let sep = "\n"@;
    assert(sep =~= seq!['\n']);
    assert(pad =~= seq![' ', ' ']);
    lemma_join_in_front("when:"@, padded, sep);
    assert("when:\n"@ =~= "when:"@ + sep);
    assert(when_preview(Ok(yaml)) =~= join(all, sep));
    assert forall|i: int| 0 <= i < all.len() implies !(#[trigger] all[i]).contains('\n') by {
        if i > 0 {
            let l = lines(yaml@)[i - 1];
            assert(all[i] == pad + l);
            assert(!l.contains('\n'));
            if all[i].contains('\n') {
                let k = choose|k: int| 0 <= k < all[i].len() && all[i][k] == '\n';
                if k >= 2 {
                    assert(l[k - 2] == '\n');
                }
            }
        } else {
            assert(all[0] == "when:"@);
        }
    }
    law_split_undoes_join(all, '\n');
}

/// YAML that could not be made is shown as a failure with its reason, and never
/// as an empty rule.
pub proof fn law_failed_preview_says_why(why: String)
    ensures
        !("when:\n"@.is_prefix_of(when_preview(Err(why)))),
        exists|at: int|
            0 <= at && at + why@.len() <= when_preview(Err(why)).len() && #[trigger] when_preview(
                Err(why),
            ).subrange(at, at + why@.len()) == why@,
{
    reveal_strlit("when:\n");
    reveal_strlit("(yaml render failed: ");
    let text = when_preview(Err(why));
    let at = "(yaml render failed: "@.len() as int;
    assert(text.subrange(at, at + why@.len()) =~= why@);
    assert(text[0] == '(');
    assert("when:\n"@[0] == 'w');
    if "when:\n"@.is_prefix_of(text) {
        assert(text.subrange(0, "when:\n"@.len() as int)[0] == 'w');
    }
}

} // verus!
