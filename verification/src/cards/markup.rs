//! Escaping for the surfaces that parse markup.
//!
//! Two surfaces render markup: notification servers that say so, and the
//! labels of the window. What they show comes from command lines. Unescaped,
//! a command line could restyle or hide the text that describes it, on the
//! surface where a human decides on it. Escaping comes after the text was made
//! safe to paint, and does not replace that.
use crate::text::chars_of;
use vstd::prelude::*;
use vstd::string::*;

verus! {

/// `c` as markup.
pub open spec fn escaped_char(c: char) -> Seq<char> {
    if c == '&' {
        "&amp;"@
    } else if c == '<' {
        "&lt;"@
    } else if c == '>' {
        "&gt;"@
    } else if c == '"' {
        "&quot;"@
    } else if c == '\'' {
        "&apos;"@
    } else {
        seq![c]
    }
}

/// `s` as markup: each of the five special characters by its entity.
pub open spec fn escaped(s: Seq<char>) -> Seq<char>
    decreases s.len(),
{
    if s.len() == 0 {
        Seq::empty()
    } else {
        escaped(s.drop_last()) + escaped_char(s.last())
    }
}

/// `s` as markup. For text that goes where markup is parsed, and nowhere else.
pub fn escape_markup(s: &str) -> (r: String)
    ensures
        r@ == escaped(s@),
{
    let v = chars_of(s);
    let mut out = String::new();
    let mut i: usize = 0;
    assert(v@.take(0) =~= Seq::empty());
    while i < v.len()
        invariant
            i <= v.len(),
            out@ == escaped(v@.take(i as int)),
        decreases v.len() - i,
    {
        let ghost before = out@;
        match v[i] {
            '&' => out.append("&amp;"),
            '<' => out.append("&lt;"),
            '>' => out.append("&gt;"),
            '"' => out.append("&quot;"),
            '\'' => out.append("&apos;"),
            _ => out.push(v[i]),
        }
        i += 1;
        proof {
            let now = v@.take(i as int);
            assert(now.drop_last() =~= v@.take(i - 1));
            assert(now.last() == v@[i - 1]);
            assert(out@ =~= before + escaped_char(v@[i - 1]));
        }
    }
    assert(v@.take(i as int) =~= v@);
    out
}

/// Whether `piece` stands in `t` at position `i`.
pub open spec fn stands_at(t: Seq<char>, i: int, piece: Seq<char>) -> bool {
    i + piece.len() <= t.len() && t.subrange(i, i + piece.len()) == piece
}

/// Whether one of the five entities stands in `t` at position `i`.
pub open spec fn entity_at(t: Seq<char>, i: int) -> bool {
    ||| stands_at(t, i, "&amp;"@)
    ||| stands_at(t, i, "&lt;"@)
    ||| stands_at(t, i, "&gt;"@)
    ||| stands_at(t, i, "&quot;"@)
    ||| stands_at(t, i, "&apos;"@)
}

/// What a reader of markup makes of `t` from position `i` on: the character of
/// each entity, and every other character as it stands.
pub open spec fn read_markup(t: Seq<char>, i: int) -> Seq<char>
    decreases t.len() - i,
{
    if i < 0 || i >= t.len() {
        Seq::empty()
    } else if i + 5 <= t.len() && stands_at(t, i, "&amp;"@) {
        seq!['&'] + read_markup(t, i + 5)
    } else if i + 4 <= t.len() && stands_at(t, i, "&lt;"@) {
        seq!['<'] + read_markup(t, i + 4)
    } else if i + 4 <= t.len() && stands_at(t, i, "&gt;"@) {
        seq!['>'] + read_markup(t, i + 4)
    } else if i + 6 <= t.len() && stands_at(t, i, "&quot;"@) {
        seq!['"'] + read_markup(t, i + 6)
    } else if i + 6 <= t.len() && stands_at(t, i, "&apos;"@) {
        seq!['\''] + read_markup(t, i + 6)
    } else {
        seq![t[i]] + read_markup(t, i + 1)
    }
}

/// Escaping two texts one after the other is escaping both together.
pub proof fn law_escape_concatenates(a: Seq<char>, b: Seq<char>)
    ensures
        escaped(a + b) == escaped(a) + escaped(b),
    decreases b.len(),
{
    if b.len() == 0 {
        assert(a + b =~= a);
        assert(escaped(a) + escaped(b) =~= escaped(a));
    } else {
        assert((a + b).drop_last() =~= a + b.drop_last());
        law_escape_concatenates(a, b.drop_last());
        assert(escaped(a + b) =~= escaped(a) + escaped(b));
    }
}

proof fn lemma_entities()
    ensures
        "&amp;"@ == seq!['&', 'a', 'm', 'p', ';'],
        "&lt;"@ == seq!['&', 'l', 't', ';'],
        "&gt;"@ == seq!['&', 'g', 't', ';'],
        "&quot;"@ == seq!['&', 'q', 'u', 'o', 't', ';'],
        "&apos;"@ == seq!['&', 'a', 'p', 'o', 's', ';'],
{
    reveal_strlit("&amp;");
    reveal_strlit("&lt;");
    reveal_strlit("&gt;");
    reveal_strlit("&quot;");
    reveal_strlit("&apos;");
    assert("&amp;"@ =~= seq!['&', 'a', 'm', 'p', ';']);
    assert("&lt;"@ =~= seq!['&', 'l', 't', ';']);
    assert("&gt;"@ =~= seq!['&', 'g', 't', ';']);
    assert("&quot;"@ =~= seq!['&', 'q', 'u', 'o', 't', ';']);
    assert("&apos;"@ =~= seq!['&', 'a', 'p', 'o', 's', ';']);
}

proof fn lemma_read_back(front: Seq<char>, s: Seq<char>)
    ensures
        read_markup(front + escaped(s), front.len() as int) == s,
    decreases s.len(),
{
    let t = front + escaped(s);
    let i = front.len() as int;
    if s.len() == 0 {
        assert(t =~= front);
        assert(read_markup(t, i) =~= s);
    } else {
        lemma_entities();
        let c = s[0];
        let rest = s.drop_first();
        let e = escaped_char(c);
        assert(s =~= seq![c] + rest);
        law_escape_concatenates(seq![c], rest);
        assert(escaped(seq![c]) =~= e) by {
            assert(seq![c].drop_last() =~= Seq::empty());
            assert(escaped(Seq::<char>::empty()) =~= Seq::empty());
        }
        assert(t =~= (front + e) + escaped(rest));
        lemma_read_back(front + e, rest);
        assert(t.subrange(i, i + e.len()) =~= e);
        assert(forall|k: int| 0 <= k < e.len() ==> t[i + k] == e[k]);
        if c == '&' {
            assert(stands_at(t, i, "&amp;"@));
        } else if c == '<' {
            assert(!stands_at(t, i, "&amp;"@)) by {
                if stands_at(t, i, "&amp;"@) {
                    assert(t.subrange(i, i + 5)[1] == 'a');
                }
            }
            assert(stands_at(t, i, "&lt;"@));
        } else if c == '>' {
            assert(!stands_at(t, i, "&amp;"@)) by {
                if stands_at(t, i, "&amp;"@) {
                    assert(t.subrange(i, i + 5)[1] == 'a');
                }
            }
            assert(!stands_at(t, i, "&lt;"@)) by {
                if stands_at(t, i, "&lt;"@) {
                    assert(t.subrange(i, i + 4)[1] == 'l');
                }
            }
            assert(stands_at(t, i, "&gt;"@));
        } else if c == '"' {
            assert(!stands_at(t, i, "&amp;"@)) by {
                if stands_at(t, i, "&amp;"@) {
                    assert(t.subrange(i, i + 5)[1] == 'a');
                }
            }
            assert(!stands_at(t, i, "&lt;"@)) by {
                if stands_at(t, i, "&lt;"@) {
                    assert(t.subrange(i, i + 4)[1] == 'l');
                }
            }
            assert(!stands_at(t, i, "&gt;"@)) by {
                if stands_at(t, i, "&gt;"@) {
                    assert(t.subrange(i, i + 4)[1] == 'g');
                }
            }
            assert(stands_at(t, i, "&quot;"@));
        } else if c == '\'' {
            assert(!stands_at(t, i, "&amp;"@)) by {
                if stands_at(t, i, "&amp;"@) {
                    assert(t.subrange(i, i + 5)[2] == 'm');
                }
            }
            assert(!stands_at(t, i, "&lt;"@)) by {
                if stands_at(t, i, "&lt;"@) {
                    assert(t.subrange(i, i + 4)[1] == 'l');
                }
            }
            assert(!stands_at(t, i, "&gt;"@)) by {
                if stands_at(t, i, "&gt;"@) {
                    assert(t.subrange(i, i + 4)[1] == 'g');
                }
            }
            assert(!stands_at(t, i, "&quot;"@)) by {
                if stands_at(t, i, "&quot;"@) {
                    assert(t.subrange(i, i + 6)[1] == 'q');
                }
            }
            assert(stands_at(t, i, "&apos;"@));
        } else {
            assert(t[i] == c);
            assert forall|piece: Seq<char>| piece.len() > 0 && piece[0] == '&' implies !#[trigger] stands_at(
                t,
                i,
                piece,
            ) by {
                if stands_at(t, i, piece) {
                    assert(t.subrange(i, i + piece.len())[0] == t[i]);
                }
            }
        }
        assert(read_markup(t, i) =~= s);
    }
}

/// A reader of markup gets back the text that was escaped: no text can add
/// markup of its own.
pub proof fn law_escaped_text_reads_back(s: Seq<char>)
    ensures
        read_markup(escaped(s), 0) == s,
{
    lemma_read_back(Seq::empty(), s);
    assert(Seq::<char>::empty() + escaped(s) =~= escaped(s));
}

/// Escaped text holds no angle bracket and no quote, and every `&` in it opens
/// an entity.
pub proof fn law_escaped_text_is_inert(s: Seq<char>, i: int)
    requires
        0 <= i < escaped(s).len(),
    ensures
        escaped(s)[i] != '<',
        escaped(s)[i] != '>',
        escaped(s)[i] != '"',
        escaped(s)[i] != '\'',
        escaped(s)[i] == '&' ==> entity_at(escaped(s), i),
    decreases s.len(),
{
    lemma_entities();
    let front = escaped(s.drop_last());
    let e = escaped_char(s.last());
    let t = escaped(s);
    assert(t == front + e);
    if i < front.len() {
        law_escaped_text_is_inert(s.drop_last(), i);
        if front[i] == '&' {
            assert forall|piece: Seq<char>| #[trigger] stands_at(front, i, piece) implies stands_at(
                t,
                i,
                piece,
            ) by {
                assert(t.subrange(i, i + piece.len()) =~= front.subrange(i, i + piece.len()));
            }
        }
    } else {
        assert(t[i] == e[i - front.len()]);
        if t[i] == '&' {
            assert(i == front.len());
            assert(t.subrange(i, i + e.len()) =~= e);
        }
    }
}

} // verus!
