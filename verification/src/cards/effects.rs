//! What a single effect says: the texts of the rows beneath a card's URL line.
//!
//! Texts that come from the parsed command are made safe to paint here, so
//! that no surface can paint raw argument bytes into a row that a human is
//! about to approve.
use crate::command::{Auth, Body, Effect, FormField, ParsedCommand};
use crate::outside::{answers_all, cleaned, computes};
use crate::path::{same_location, same_path};
use crate::text::{
    decimal, decimal_text, digit_char, digit_of, digits_value, law_decimal_reads_back, texts,
};
use vstd::prelude::*;
use vstd::string::*;
use vstd::utf8::{decode_utf8, valid_utf8};

verus! {

/// Whether `path` is the body file of one of the first `n` effects.
pub open spec fn is_body_file(effects: Seq<Effect>, n: int, path: Seq<char>) -> bool {
    exists|i: int|
        0 <= i < n && i < effects.len() && #[trigger] sends_file(effects[i], path)
}

/// Whether `effect` is a request whose body is the file at `path`.
pub open spec fn sends_file(effect: Effect, path: Seq<char>) -> bool {
    effect matches Effect::HttpRequest(req) && (req.body matches Body::FromFile { path: p }
        && same_location(p@, path))
}

/// Whether some path of the list is the same location as `path`.
pub open spec fn lists_path(paths: Seq<String>, path: Seq<char>) -> bool {
    exists|k: int| 0 <= k < paths.len() && #[trigger] same_location(paths[k]@, path)
}

/// Whether the list holds a path that is the same location as `path`.
pub fn holds_path(paths: &Vec<String>, path: &str) -> (r: bool)
    ensures
        r == lists_path(paths@, path@),
{
    let mut i: usize = 0;
    while i < paths.len()
        invariant
            i <= paths.len(),
            forall|k: int| 0 <= k < i ==> !#[trigger] same_location(paths@[k]@, path@),
        decreases paths.len() - i,
    {
        if same_path(paths[i].as_str(), path) {
            assert(same_location(paths@[i as int]@, path@));
            return true;
        }
        i += 1;
    }
    false
}

/// The files that the command's requests send as their bodies, each once.
///
/// A body that comes from a file is also an effect of its own, the reading of
/// that file. The rows of a card leave out a read whose path is in this list,
/// which the body row shows already.
pub fn collect_body_file_paths(parsed: &ParsedCommand) -> (r: Vec<String>)
    ensures
        forall|path: Seq<char>| #[trigger]
            lists_path(r@, path) <==> is_body_file(
                parsed.effects@,
                parsed.effects@.len() as int,
                path,
            ),
        forall|i: int, j: int|
            0 <= i < j < r.len() ==> !same_location((#[trigger] r@[i])@, (#[trigger] r@[j])@),
{
    let mut out: Vec<String> = Vec::new();
    let mut i: usize = 0;
    while i < parsed.effects.len()
        invariant
            i <= parsed.effects.len(),
            forall|path: Seq<char>| #[trigger]
                lists_path(out@, path) <==> is_body_file(parsed.effects@, i as int, path),
            forall|a: int, b: int|
                0 <= a < b < out.len() ==> !same_location((#[trigger] out@[a])@, (#[trigger] out@[b])@),
        decreases parsed.effects.len() - i,
    {
        let ghost before = out@;
        let ghost effects = parsed.effects@;
        if let Effect::HttpRequest(req) = &parsed.effects[i] {
            if let Body::FromFile { path } = &req.body {
                if !holds_path(&out, path.as_str()) {
                    out.push(path.clone());
                }
            }
        }
        proof {
            assert forall|path: Seq<char>| #[trigger] lists_path(out@, path) <==> is_body_file(
                effects,
                i + 1,
                path,
            ) by {
                let now = sends_file(effects[i as int], path);
                assert(is_body_file(effects, i + 1, path) <==> is_body_file(effects, i as int, path)
                    || now) by {
                    if is_body_file(effects, i as int, path) {
                        let k = choose|k: int|
                            0 <= k < i && k < effects.len() && #[trigger] sends_file(effects[k], path);
                        assert(sends_file(effects[k], path));
                    }
                }
                assert(lists_path(before, path) <==> is_body_file(effects, i as int, path));
                if lists_path(before, path) {
                    let k = choose|k: int|
                        0 <= k < before.len() && #[trigger] same_location(before[k]@, path);
                    assert(out@[k] == before[k]);
                    assert(same_location(out@[k]@, path));
                }
                if now {
                    let sent = effects[i as int]->HttpRequest_0.body->FromFile_path@;
                    if lists_path(before, sent) {
                        let k = choose|k: int|
                            0 <= k < before.len() && #[trigger] same_location(before[k]@, sent);
                        assert(out@[k] == before[k]);
                        assert(same_location(out@[k]@, path));
                    } else {
                        assert(same_location(out@[before.len() as int]@, path));
                    }
                }
                if lists_path(out@, path) && !lists_path(before, path) {
                    let k = choose|k: int|
                        0 <= k < out@.len() && #[trigger] same_location(out@[k]@, path);
                    if k < before.len() {
                        assert(same_location(before[k]@, path));
                    }
                }
            }
            assert forall|a: int, b: int| 0 <= a < b < out.len() implies !same_location(
                (#[trigger] out@[a])@,
                (#[trigger] out@[b])@,
            ) by {
                if b == before.len() {
                    assert(out@[a] == before[a]);
                    assert(!lists_path(before, out@[b]@));
                    assert(!same_location(before[a]@, out@[b]@));
                }
            }
        }
        i += 1;
    }
    out
}

/// The one-line summary of a body.
pub open spec fn body_meta(body: Body) -> Option<Seq<char>> {
    match body {
        Body::Empty => None,
        Body::Inline { bytes } => Some("inline, "@ + decimal(bytes@.len()) + " B"@),
        Body::FromFile { .. } => Some("from file"@),
        Body::Form { fields } => Some(
            "x-www-form-urlencoded, "@ + decimal(fields@.len()) + " fields"@,
        ),
    }
}

/// The one-line summary of a body, such as `inline, 7 B`. An empty body has
/// none, so that a request without one gets no stub row.
pub fn body_meta_label(body: &Body) -> (r: Option<String>)
    ensures
        r is Some <==> body_meta(*body) is Some,
        r matches Some(text) ==> text@ == body_meta(*body)->0,
{
    match body {
        Body::Empty => None,
        Body::Inline { bytes } => {
            let mut out = "inline, ".to_owned();
            out.append(decimal_text(bytes.len() as u64).as_str());
            out.append(" B");
            Some(out)
        },
        Body::FromFile { .. } => Some("from file".to_owned()),
        Body::Form { fields } => {
            let mut out = "x-www-form-urlencoded, ".to_owned();
            out.append(decimal_text(fields.len() as u64).as_str());
            out.append(" fields");
            Some(out)
        },
    }
}

/// `std::str::from_utf8`, with the text copied out: the text that the bytes
/// encode, or nothing where they are not valid UTF-8.
#[verifier::external_body]
fn utf8_text(bytes: &Vec<u8>) -> (r: Option<String>)
    ensures
        r is Some <==> valid_utf8(bytes@),
        r matches Some(text) ==> text@ == decode_utf8(bytes@),
{
    match std::str::from_utf8(bytes) {
        Ok(s) => Some(s.to_owned()),
        Err(_) => None,
    }
}

/// The hexadecimal digit for a number below sixteen.
pub open spec fn hex_digit(d: nat) -> char {
    if d < 10 {
        digit_char(d)
    } else {
        ('a' as int + d as int - 10) as char
    }
}

/// The first `n` bytes in hexadecimal, two digits each, with a space between.
pub open spec fn hex_dump(bytes: Seq<u8>, n: nat) -> Seq<char>
    decreases n,
{
    if n == 0 {
        Seq::empty()
    } else {
        let b = bytes[n - 1] as nat;
        let pair = seq![hex_digit(b / 16), hex_digit(b % 16)];
        if n == 1 {
            pair
        } else {
            hex_dump(bytes, (n - 1) as nat) + " "@ + pair
        }
    }
}

/// The text of an inline body: the text itself where it is UTF-8, else the
/// first 64 bytes in hexadecimal and how many more there are.
pub open spec fn inline_text(clean: spec_fn(Seq<char>) -> Seq<char>, bytes: Seq<u8>) -> Seq<char> {
    if valid_utf8(bytes) {
        clean(decode_utf8(bytes))
    } else {
        hex_text(bytes)
    }
}

/// The first 64 bytes in hexadecimal, and how many more there are.
pub open spec fn hex_text(bytes: Seq<u8>) -> Seq<char> {
    if bytes.len() <= 64 {
        hex_dump(bytes, bytes.len())
    } else {
        hex_dump(bytes, 64) + " … ("@ + decimal((bytes.len() - 64) as nat) + " more bytes)"@
    }
}

fn hex_char(d: u8) -> (c: char)
    requires
        d < 16,
    ensures
        c == hex_digit(d as nat),
{
    if d < 10 {
        digit_of(d)
    } else {
        (87u8 + d) as char
    }
}

/// The text to show for an inline body.
pub fn inline_body_text<S: Fn(&str) -> String>(bytes: &Vec<u8>, sanitize: &S) -> (r: String)
    requires
        answers_all(*sanitize),
    ensures
        forall|clean: spec_fn(Seq<char>) -> Seq<char>| #[trigger]
            computes(*sanitize, clean) ==> r@ == inline_text(clean, bytes@),
        valid_utf8(bytes@) ==> cleaned(*sanitize, decode_utf8(bytes@), r@),
        !valid_utf8(bytes@) ==> r@ == hex_text(bytes@),
{
    match utf8_text(bytes) {
        Some(s) => sanitize(s.as_str()),
        None => {
            let max: usize = if bytes.len() < 64 {
                bytes.len()
            } else {
                64
            };
            let mut out = String::new();
            let mut i: usize = 0;
            while i < max
                invariant
                    i <= max <= bytes.len(),
                    out@ == hex_dump(bytes@, i as nat),
                decreases max - i,
            {
                let ghost before = out@;
                if i > 0 {
                    out.append(" ");
                }
                out.push(hex_char(bytes[i] / 16));
                out.push(hex_char(bytes[i] % 16));
                i += 1;
                assert(out@ =~= hex_dump(bytes@, i as nat));
            }
            if max < bytes.len() {
                out.append(" … (");
                out.append(decimal_text((bytes.len() - max) as u64).as_str());
                out.append(" more bytes)");
            }
            out
        },
    }
}

pub open spec fn field_line(clean: spec_fn(Seq<char>) -> Seq<char>, field: FormField) -> Seq<char> {
    clean(field.name@) + "="@ + clean(field.value@)
}

/// `out` is the line of a form field, by the answers that were given.
pub open spec fn field_painted<S: Fn(&str) -> String>(sanitize: S, field: FormField, out: Seq<char>) -> bool {
    exists|name: Seq<char>, value: Seq<char>| #[trigger]
        cleaned(sanitize, field.name@, name) && #[trigger] cleaned(sanitize, field.value@, value)
            && out == name + "="@ + value
}

/// `name=value` for one form field.
pub fn form_field_text<S: Fn(&str) -> String>(field: &FormField, sanitize: &S) -> (r: String)
    requires
        answers_all(*sanitize),
    ensures
        forall|clean: spec_fn(Seq<char>) -> Seq<char>| #[trigger]
            computes(*sanitize, clean) ==> r@ == field_line(clean, *field),
        field_painted(*sanitize, *field, r@),
{
    let mut out = sanitize(field.name.as_str());
    assert(cleaned(*sanitize, field.name@, out@));
    out.append("=");
    let value = sanitize(field.value.as_str());
    assert(cleaned(*sanitize, field.value@, value@));
    out.append(value.as_str());
    out
}

/// The text of an auth row. A secret never stands in it.
pub open spec fn auth_text(clean: spec_fn(Seq<char>) -> Seq<char>, auth: Auth) -> Seq<char> {
    match auth {
        Auth::Basic { user, .. } => "Basic user="@ + clean(user@) + " password=••••"@,
        Auth::Bearer { .. } => "Bearer ••••"@,
        Auth::Header { name } => clean(name@) + ": ••••"@,
        Auth::Netrc => "from .netrc"@,
    }
}

/// `out` is the text of an auth row, by the answer that was given where one is
/// needed.
pub open spec fn auth_painted<S: Fn(&str) -> String>(sanitize: S, auth: Auth, out: Seq<char>) -> bool {
    match auth {
        Auth::Basic { user, .. } => exists|shown: Seq<char>| #[trigger]
            cleaned(sanitize, user@, shown) && out == "Basic user="@ + shown + " password=••••"@,
        Auth::Bearer { .. } => out == "Bearer ••••"@,
        Auth::Header { name } => exists|shown: Seq<char>| #[trigger]
            cleaned(sanitize, name@, shown) && out == shown + ": ••••"@,
        Auth::Netrc => out == "from .netrc"@,
    }
}

/// Whether the credential was kept off the screen.
pub open spec fn auth_redacted(auth: Auth) -> bool {
    match auth {
        Auth::Basic { password_redacted, .. } => password_redacted,
        Auth::Bearer { token_redacted } => token_redacted,
        Auth::Header { .. } => true,
        Auth::Netrc => false,
    }
}

/// The text of an auth row, and whether the credential was kept off the
/// screen. The flag drives a reassuring tone and no alarm: that a request
/// carries credentials is in general a good sign.
pub fn auth_label<S: Fn(&str) -> String>(auth: &Auth, sanitize: &S) -> (r: (String, bool))
    requires
        answers_all(*sanitize),
    ensures
        forall|clean: spec_fn(Seq<char>) -> Seq<char>| #[trigger]
            computes(*sanitize, clean) ==> r.0@ == auth_text(clean, *auth),
        auth_painted(*sanitize, *auth, r.0@),
        r.1 == auth_redacted(*auth),
{
    match auth {
        Auth::Basic { user, password_redacted } => {
            let mut out = "Basic user=".to_owned();
            let shown = sanitize(user.as_str());
            assert(cleaned(*sanitize, user@, shown@));
            out.append(shown.as_str());
            out.append(" password=••••");
            (out, *password_redacted)
        },
        Auth::Bearer { token_redacted } => ("Bearer ••••".to_owned(), *token_redacted),
        Auth::Header { name } => {
            let mut out = sanitize(name.as_str());
            assert(cleaned(*sanitize, name@, out@));
            out.append(": ••••");
            (out, true)
        },
        Auth::Netrc => ("from .netrc".to_owned(), false),
    }
}

/// The number that a hexadecimal digit stands for.
pub open spec fn hex_value(c: char) -> int {
    if '0' <= c <= '9' {
        c as int - '0' as int
    } else {
        c as int - 'a' as int + 10
    }
}

/// A hexadecimal dump reads back: two digits for each byte, the high one first,
/// and a space between each two bytes.
pub proof fn law_hex_reads_back(bytes: Seq<u8>, n: nat)
    requires
        n <= bytes.len(),
    ensures
        n > 0 ==> hex_dump(bytes, n).len() == 3 * n - 1,
        n == 0 ==> hex_dump(bytes, n).len() == 0,
        forall|i: int|
            0 <= i < n ==> 16 * hex_value(hex_dump(bytes, n)[3 * i]) + hex_value(
                hex_dump(bytes, n)[3 * i + 1],
            ) == #[trigger] bytes[i],
        forall|i: int| 0 <= i < n - 1 ==> #[trigger] hex_dump(bytes, n)[3 * i + 2] == ' ',
    decreases n,
{
    if n > 0 {
        reveal_strlit(" ");
        let m = (n - 1) as nat;
        law_hex_reads_back(bytes, m);
        let before = hex_dump(bytes, m);
        let dump = hex_dump(bytes, n);
        let b = bytes[n - 1] as nat;
        assert(b == 16 * (b / 16) + b % 16);
        assert(hex_value(hex_digit(b / 16)) == b / 16);
        assert(hex_value(hex_digit(b % 16)) == b % 16);
        assert(dump[3 * m as int] == hex_digit(b / 16));
        assert(dump[3 * m as int + 1] == hex_digit(b % 16));
        assert forall|i: int| 0 <= i < n implies 16 * hex_value(dump[3 * i]) + hex_value(dump[3 * i + 1])
            == #[trigger] bytes[i] by {
            if i < m {
                assert(dump[3 * i] == before[3 * i]);
                assert(dump[3 * i + 1] == before[3 * i + 1]);
            }
        }
        assert forall|i: int| 0 <= i < n - 1 implies #[trigger] dump[3 * i + 2] == ' ' by {
            if i < m - 1 {
                assert(dump[3 * i + 2] == before[3 * i + 2]);
            }
        }
    }
}

/// Bytes that are no text are shown in hexadecimal: all of them up to sixty-four,
/// and of more the first sixty-four, with the number of those that are left
/// out behind.
pub proof fn law_binary_body_shows_its_size(bytes: Seq<u8>) -> (shown: nat)
    ensures
        shown == if bytes.len() <= 64 {
            bytes.len()
        } else {
            64nat
        },
        hex_dump(bytes, shown).is_prefix_of(hex_text(bytes)),
        shown == bytes.len() ==> hex_text(bytes).len() == hex_dump(bytes, shown).len(),
        shown < bytes.len() ==> exists|count: Seq<char>|
            digits_value(count) == bytes.len() - shown && #[trigger] (count + " more bytes)"@).is_suffix_of(
                hex_text(bytes),
            ),
{
    let text = hex_text(bytes);
    if bytes.len() <= 64 {
        assert(text.subrange(0, text.len() as int) =~= text);
        bytes.len()
    } else {
        let dump = hex_dump(bytes, 64);
        let rest = (bytes.len() - 64) as nat;
        let count = decimal(rest);
        law_decimal_reads_back(rest);
        assert(dump =~= text.subrange(0, dump.len() as int));
        let end = count + " more bytes)"@;
        assert(end =~= text.subrange(text.len() - end.len(), text.len() as int));
        assert(end.is_suffix_of(text));
        64
    }
}

/// The summary of a body has its size: of an inline body the number of bytes, of
/// a form the number of fields. An empty body has no summary.
pub proof fn law_body_summary_has_the_size(body: Body)
    ensures
        body_meta(body) is None <==> body is Empty,
        body matches Body::Inline { bytes } ==> exists|count: Seq<char>|
            digits_value(count) == bytes@.len() && body_meta(body)->0 == #[trigger] ("inline, "@ + count)
                + " B"@,
        body matches Body::Form { fields } ==> exists|count: Seq<char>|
            digits_value(count) == fields@.len() && body_meta(body)->0 == #[trigger] (
            "x-www-form-urlencoded, "@ + count) + " fields"@,
{
    match body {
        Body::Inline { bytes } => {
            law_decimal_reads_back(bytes@.len());
            assert(body_meta(body)->0 == ("inline, "@ + decimal(bytes@.len())) + " B"@);
        },
        Body::Form { fields } => {
            law_decimal_reads_back(fields@.len());
            assert(body_meta(body)->0 == ("x-www-form-urlencoded, "@ + decimal(fields@.len()))
                + " fields"@);
        },
        _ => {},
    }
}

/// A secret never stands in an auth row: where two ways to authenticate differ in
/// what was withheld alone, their rows read the same.
pub proof fn law_auth_text_has_no_secret(clean: spec_fn(Seq<char>) -> Seq<char>, x: Auth, y: Auth)
    requires
        x matches Auth::Basic { user, .. } ==> y is Basic && y->user@ == user@,
        x matches Auth::Header { name } ==> y is Header && y->name@ == name@,
        x is Bearer ==> y is Bearer,
        x is Netrc ==> y is Netrc,
    ensures
        auth_text(clean, x) == auth_text(clean, y),
{
}

/// An auth row says how a request authenticates, and ends in dots where it hides
/// a secret.
pub proof fn law_auth_text_says_how(clean: spec_fn(Seq<char>) -> Seq<char>, auth: Auth)
    ensures
        auth is Basic ==> "Basic user="@.is_prefix_of(auth_text(clean, auth)),
        auth is Bearer ==> "Bearer "@.is_prefix_of(auth_text(clean, auth)),
        !(auth is Netrc) ==> "••••"@.is_suffix_of(auth_text(clean, auth)),
        auth is Netrc ==> auth_text(clean, auth) == "from .netrc"@,
        auth matches Auth::Basic { user, .. } ==> auth_text(clean, auth).len() == 25 + clean(user@).len(),
        auth matches Auth::Header { name } ==> auth_text(clean, auth).len() == 6 + clean(name@).len(),
        auth is Bearer ==> auth_text(clean, auth).len() == 11,
{
    reveal_strlit("Basic user=");
    reveal_strlit(" password=••••");
    reveal_strlit("Bearer ••••");
    reveal_strlit("Bearer ");
    reveal_strlit(": ••••");
    reveal_strlit("••••");
    let text = auth_text(clean, auth);
    let dots = "••••"@;
    if !(auth is Netrc) {
        assert(dots =~= text.subrange(text.len() - dots.len(), text.len() as int));
    }
    if auth is Basic {
        assert("Basic user="@ =~= text.subrange(0, "Basic user="@.len() as int));
    }
    if auth is Bearer {
        assert("Bearer "@ =~= text.subrange(0, "Bearer "@.len() as int));
    }
}

} // verus!
