//! Starting the daemon at login.
//!
//! On macOS the system keeps the list of login items, and the daemon registers
//! its bundle there. On Linux autostart is a file: a desktop entry below the
//! configuration directory, which the session runs at login. The file is
//! written, read and judged here as text.
use crate::cards::markup::stands_at;
use crate::cards::url::{ascii_lower, eq_ignore_ascii_case, same_ignoring_case};
use crate::outside::{decides_all, told};
use crate::path::{is_absolute, starts_at_root};
use crate::paths::Platform;
use crate::text::{
    blank_front, chars_of, is_space, is_whitespace, law_trim_takes_whitespace_alone,
    lemma_split_on_nonempty, lines, lines_of, same_text, split_on, strip_cr, text_between, texts, trim,
    trim_end, trimmed,
};
use vstd::prelude::*;
use vstd::string::*;

verus! {

/// Whether the daemon starts at login.
#[derive(Debug, Clone, Copy, PartialEq, Eq, Structural)]
pub enum AutostartStatus {
    NotRegistered,
    Enabled,
    /// Registered, and waiting for the user's consent.
    RequiresApproval,
    /// Registered, and what it would start is gone.
    NotFound,
    /// This system has no autostart.
    Unsupported,
}

impl AutostartStatus {
    pub open spec fn is_on(self) -> bool {
        self == AutostartStatus::Enabled || self == AutostartStatus::RequiresApproval
    }

    /// Whether autostart counts as switched on.
    pub fn is_enabled(&self) -> (r: bool)
        ensures
            r == self.is_on(),
    {
        *self == AutostartStatus::Enabled || *self == AutostartStatus::RequiresApproval
    }
}

/// The status for the number that macOS gives. An unknown number is taken for
/// not registered: nothing is claimed to be on that is not known to be.
pub fn from_raw_status(raw: i64) -> (r: AutostartStatus)
    ensures
        raw == 1 ==> r == AutostartStatus::Enabled,
        raw == 2 ==> r == AutostartStatus::RequiresApproval,
        raw == 3 ==> r == AutostartStatus::NotFound,
        raw != 1 && raw != 2 && raw != 3 ==> r == AutostartStatus::NotRegistered,
{
    match raw {
        1 => AutostartStatus::Enabled,
        2 => AutostartStatus::RequiresApproval,
        3 => AutostartStatus::NotFound,
        _ => AutostartStatus::NotRegistered,
    }
}

/// Why autostart could not be changed.
#[derive(Debug, PartialEq, Eq)]
pub enum AutostartError {
    /// The daemon does not run from an application bundle.
    NotABundle { exe: String },
    Unavailable(String),
    /// The system refused.
    Apple { op: String, message: String },
    /// The entry could not be written or removed.
    Io { path: String, source: String },
}

impl AutostartError {
    pub open spec fn text(self) -> Seq<char> {
        match self {
            AutostartError::NotABundle { exe } => "autostart requires running inside a code-signed .app bundle (current executable: "@
                + exe@ + "); launch via `open Vetter.app`"@,
            AutostartError::Unavailable(why) => "autostart unavailable on this platform: "@ + why@,
            AutostartError::Apple { op, message } => "SMAppService "@ + op@ + " failed: "@ + message@,
            AutostartError::Io { path, source } => "autostart entry "@ + path@ + ": "@ + source@,
        }
    }

    /// The message of the error.
    pub fn message(&self) -> (r: String)
        ensures
            r@ == self.text(),
    {
        match self {
            AutostartError::NotABundle { exe } => {
                let mut out = "autostart requires running inside a code-signed .app bundle (current executable: ".to_owned();
                out.append(exe.as_str());
                out.append("); launch via `open Vetter.app`");
                out
            },
            AutostartError::Unavailable(why) => {
                let mut out = "autostart unavailable on this platform: ".to_owned();
                out.append(why.as_str());
                out
            },
            AutostartError::Apple { op, message } => {
                let mut out = "SMAppService ".to_owned();
                out.append(op.as_str());
                out.append(" failed: ");
                out.append(message.as_str());
                out
            },
            AutostartError::Io { path, source } => {
                let mut out = "autostart entry ".to_owned();
                out.append(path.as_str());
                out.append(": ");
                out.append(source.as_str());
                out
            },
        }
    }
}

/// Whether a program stands where an application bundle keeps its programs.
pub open spec fn within_bundle(exe: Seq<char>) -> bool {
    exists|i: int| #[trigger] stands_at(exe, i, ".app/Contents/MacOS/"@) && 0 <= i
}

/// Whether a program stands where an application bundle keeps its programs.
pub fn is_app_bundle_executable(exe: &str) -> (r: bool)
    ensures
        r == within_bundle(exe@),
{
    let v = chars_of(exe);
    let part = chars_of(".app/Contents/MacOS/");
    let mut i: usize = 0;
    while part.len() <= v.len() && i <= v.len() - part.len()
        invariant
            i <= v.len() + 1,
            v@ == exe@,
            part@ == ".app/Contents/MacOS/"@,
            forall|k: int| 0 <= k < i ==> !#[trigger] stands_at(v@, k, part@),
        decreases v.len() + 1 - i,
    {
        let mut k: usize = 0;
        while k < part.len() && v[i + k] == part[k]
            invariant
                k <= part.len(),
                i + part.len() <= v.len(),
                forall|j: int| 0 <= j < k ==> v@[i + j] == #[trigger] part@[j],
            decreases part.len() - k,
        {
            k += 1;
        }
        if k == part.len() {
            assert(v@.subrange(i as int, i + part@.len()) =~= part@);
            assert(stands_at(exe@, i as int, ".app/Contents/MacOS/"@));
            return true;
        }
        assert(!stands_at(v@, i as int, part@)) by {
            if stands_at(v@, i as int, part@) {
                assert(v@.subrange(i as int, i + part@.len())[k as int] == v@[i + k]);
            }
        }
        i += 1;
    }
    assert forall|k: int| 0 <= k implies !#[trigger] stands_at(v@, k, part@) by {
        if k >= i {
            assert(k + part@.len() > v@.len());
        }
    }
    false
}

/// Where `c` first stands in `s` from position `i` on, or the length of `s`.
pub open spec fn first_at(s: Seq<char>, c: char, i: int) -> int
    decreases s.len() - i,
{
    if 0 <= i < s.len() && s[i] != c {
        first_at(s, c, i + 1)
    } else {
        i
    }
}

/// The value that a line gives to `key`: what stands behind the first `=`, where
/// what stands before it is the key. A comment gives none.
pub open spec fn line_value(line: Seq<char>, key: Seq<char>) -> Option<Seq<char>> {
    let t = trim(line);
    let at = first_at(t, '=', 0);
    if t.len() > 0 && t[0] == '#' {
        None
    } else if at < t.len() && trim(t.take(at)) == key {
        Some(trim(t.skip(at + 1)))
    } else {
        None
    }
}

/// The value that the first line with one gives to `key`, from line `i` on.
pub open spec fn value_from(all: Seq<Seq<char>>, key: Seq<char>, i: int) -> Option<Seq<char>>
    decreases all.len() - i,
{
    if 0 <= i < all.len() {
        match line_value(all[i], key) {
            Some(v) => Some(v),
            None => value_from(all, key, i + 1),
        }
    } else {
        None
    }
}

/// The value of `key` in an entry.
pub open spec fn value_of(contents: Seq<char>, key: Seq<char>) -> Option<Seq<char>> {
    value_from(lines(contents), key, 0)
}

proof fn lemma_first_at(s: Seq<char>, c: char, i: int)
    requires
        0 <= i <= s.len(),
    ensures
        i <= first_at(s, c, i) <= s.len(),
        first_at(s, c, i) < s.len() ==> s[first_at(s, c, i)] == c,
        forall|k: int| i <= k < first_at(s, c, i) ==> #[trigger] s[k] != c,
    decreases s.len() - i,
{
    if i < s.len() && s[i] != c {
        lemma_first_at(s, c, i + 1);
    }
}

/// The value that a line gives to `key`.
fn value_in(line: &str, key: &str) -> (r: Option<String>)
    ensures
        (match r {
            Some(v) => Some(v@),
            None => None,
        }) == line_value(line@, key@),
{
    let t = chars_of(trimmed(line).as_str());
    if t.len() > 0 && t[0] == '#' {
        return None;
    }
    let mut at: usize = 0;
    while at < t.len() && t[at] != '='
        invariant
            at <= t.len(),
            first_at(t@, '=', 0) == first_at(t@, '=', at as int),
        decreases t.len() - at,
    {
        at += 1;
    }
    if at == t.len() {
        return None;
    }
    let left = text_between(&t, 0, at);
    assert(left@ =~= t@.take(at as int));
    if !same_text(trimmed(left.as_str()).as_str(), key) {
        return None;
    }
    let right = text_between(&t, at + 1, t.len());
    assert(right@ =~= t@.skip(at + 1));
    Some(trimmed(right.as_str()))
}

/// The value of `key` in an entry, without the whitespace round it. Groups are
/// not told apart: an entry of the daemon's has but one.
pub fn field(contents: &str, key: &str) -> (r: Option<String>)
    ensures
        (match r {
            Some(v) => Some(v@),
            None => None,
        }) == value_of(contents@, key@),
{
    let all = lines_of(contents);
    assert(texts(all@).len() == all.len());
    let mut i: usize = 0;
    while i < all.len()
        invariant
            i <= all.len(),
            texts(all@) == lines(contents@),
            texts(all@).len() == all.len(),
            value_of(contents@, key@) == value_from(lines(contents@), key@, i as int),
        decreases all.len() - i,
    {
        assert(all@[i as int]@ == texts(all@)[i as int]);
        let v = value_in(all[i].as_str(), key);
        if v.is_some() {
            return v;
        }
        i += 1;
    }
    None
}

/// Whether an entry is there but switched off: the user deleted it, or unticked
/// it in the settings of their desktop.
pub open spec fn switched_off(contents: Seq<char>) -> bool {
    ||| value_of(contents, "Hidden"@) matches Some(v) && same_ignoring_case(v, "true"@)
    ||| value_of(contents, "X-GNOME-Autostart-enabled"@) matches Some(v) && same_ignoring_case(
        v,
        "false"@,
    )
}

/// Whether an entry is there but switched off.
pub fn is_disabled(contents: &str) -> (r: bool)
    ensures
        r == switched_off(contents@),
{
    if let Some(v) = field(contents, "Hidden") {
        if eq_ignore_ascii_case(v.as_str(), "true") {
            return true;
        }
    }
    if let Some(v) = field(contents, "X-GNOME-Autostart-enabled") {
        if eq_ignore_ascii_case(v.as_str(), "false") {
            return true;
        }
    }
    false
}

/// What a quoted argument holds, from position `i` on: up to the closing quote,
/// a backslash standing for the character behind it. None where it is not
/// closed.
pub open spec fn quoted_from(t: Seq<char>, i: int) -> Option<Seq<char>>
    decreases t.len() - i,
{
    if i < 0 || i >= t.len() || (t[i] == '\\' && i + 1 >= t.len()) {
        None
    } else if t[i] == '"' {
        Some(Seq::empty())
    } else if t[i] == '\\' {
        in_front(seq![t[i + 1]], quoted_from(t, i + 2))
    } else {
        in_front(seq![t[i]], quoted_from(t, i + 1))
    }
}

/// `s` in front of what there is.
pub open spec fn in_front(s: Seq<char>, rest: Option<Seq<char>>) -> Option<Seq<char>> {
    match rest {
        Some(r) => Some(s + r),
        None => None,
    }
}

/// How many characters that are no whitespace stand at the front of `s`.
pub open spec fn word_len(s: Seq<char>) -> nat
    decreases s.len(),
{
    if s.len() > 0 && !is_whitespace(s[0]) {
        1 + word_len(s.drop_first())
    } else {
        0
    }
}

/// The first argument of a command line, without its quotes.
pub open spec fn first_word(raw: Seq<char>) -> Option<Seq<char>> {
    let t = trim(raw);
    if t.len() == 0 {
        None
    } else if t[0] == '"' {
        quoted_from(t, 1)
    } else {
        Some(t.take(word_len(t) as int))
    }
}

/// The program that an entry starts.
pub open spec fn program_of(contents: Seq<char>) -> Option<Seq<char>> {
    match value_of(contents, "Exec"@) {
        Some(raw) => match first_word(raw) {
            Some(p) => if p.len() > 0 {
                Some(p)
            } else {
                None
            },
            None => None,
        },
        None => None,
    }
}

proof fn lemma_word_len(s: Seq<char>)
    ensures
        word_len(s) <= s.len(),
    decreases s.len(),
{
    if s.len() > 0 {
        lemma_word_len(s.drop_first());
    }
}

fn quoted_argument(t: &Vec<char>) -> (r: Option<String>)
    requires
        t.len() > 0,
    ensures
        (match r {
            Some(v) => Some(v@),
            None => None,
        }) == quoted_from(t@, 1),
{
    let mut out = String::new();
    let mut i: usize = 1;
    proof {
        if let Some(x) = quoted_from(t@, 1) {
            assert(Seq::<char>::empty() + x =~= x);
        }
    }
    while i < t.len()
        invariant
            i <= t.len(),
            quoted_from(t@, 1) == in_front(out@, quoted_from(t@, i as int)),
        decreases t.len() - i,
    {
        let ghost so_far = out@;
        let c = t[i];
        if c == '\\' {
            if i + 1 >= t.len() {
                return None;
            }
            out.push(t[i + 1]);
            proof {
                if let Some(x) = quoted_from(t@, i + 2) {
                    assert(so_far + (seq![t@[i + 1]] + x) =~= out@ + x);
                }
            }
            i += 2;
        } else if c == '"' {
            assert(out@ + Seq::<char>::empty() =~= out@);
            return Some(out);
        } else {
            out.push(c);
            proof {
                if let Some(x) = quoted_from(t@, i + 1) {
                    assert(so_far + (seq![c] + x) =~= out@ + x);
                }
            }
            i += 1;
        }
    }
    None
}

/// The first argument of a command line, without its quotes. None where there is
/// none, or where its quote is not closed.
pub fn first_argument(raw: &str) -> (r: Option<String>)
    ensures
        (match r {
            Some(v) => Some(v@),
            None => None,
        }) == first_word(raw@),
{
    let t = chars_of(trimmed(raw).as_str());
    if t.len() == 0 {
        return None;
    }
    if t[0] == '"' {
        return quoted_argument(&t);
    }
    let mut end: usize = 0;
    proof {
        assert(t@.skip(0) =~= t@);
        lemma_word_len(t@);
    }
    while end < t.len() && !is_space(t[end])
        invariant
            end <= t.len(),
            word_len(t@) == end + word_len(t@.skip(end as int)),
        decreases t.len() - end,
    {
        proof {
            assert(t@.skip(end as int).drop_first() =~= t@.skip(end + 1));
        }
        end += 1;
    }
    let word = text_between(&t, 0, end);
    assert(word@ =~= t@.take(end as int));
    Some(word)
}

/// The program that an entry starts, if that can be told.
pub fn exec_target(contents: &str) -> (r: Option<String>)
    ensures
        (match r {
            Some(v) => Some(v@),
            None => None,
        }) == program_of(contents@),
{
    match field(contents, "Exec") {
        Some(raw) => match first_argument(raw.as_str()) {
            Some(p) => {
                if p.as_str().is_empty() {
                    None
                } else {
                    Some(p)
                }
            },
            None => None,
        },
        None => None,
    }
}

/// What an entry says of autostart, `there` being whether its program exists.
pub open spec fn entry_status(contents: Option<Seq<char>>, there: bool) -> AutostartStatus {
    match contents {
        None => AutostartStatus::NotRegistered,
        Some(text) => if switched_off(text) {
            AutostartStatus::NotRegistered
        } else {
            match program_of(text) {
                None => AutostartStatus::NotFound,
                Some(p) => if is_absolute(p) && !there {
                    AutostartStatus::NotFound
                } else {
                    AutostartStatus::Enabled
                },
            }
        },
    }
}

/// The program of an entry that the disk is asked about: none where the entry
/// is off, or its program is looked up by its name.
pub open spec fn program_to_find(contents: Option<Seq<char>>) -> Option<Seq<char>> {
    match contents {
        Some(text) => if switched_off(text) {
            None
        } else {
            match program_of(text) {
                Some(p) => if is_absolute(p) {
                    Some(p)
                } else {
                    None
                },
                None => None,
            }
        },
        None => None,
    }
}

/// The contents of a file that may be missing.
pub open spec fn text_of(contents: Option<&str>) -> Option<Seq<char>> {
    match contents {
        Some(c) => Some(c@),
        None => None,
    }
}

/// What an entry says of autostart. `contents` is none where it could not be
/// read, which counts as not registered. Only an absolute program can be
/// missed: a bare name is looked up at login.
pub fn current_at<E: Fn(&str) -> bool>(contents: Option<&str>, on_disk: &E) -> (r: AutostartStatus)
    requires
        decides_all(*on_disk),
    ensures
        match program_to_find(text_of(contents)) {
            Some(p) => exists|there: bool| #[trigger]
                told(*on_disk, p, there) && r == entry_status(text_of(contents), there),
            None => r == entry_status(text_of(contents), false),
        },
{
    match contents {
        None => AutostartStatus::NotRegistered,
        Some(text) => {
            if is_disabled(text) {
                return AutostartStatus::NotRegistered;
            }
            match exec_target(text) {
                None => AutostartStatus::NotFound,
                Some(p) => {
                    if !starts_at_root(p.as_str()) {
                        return AutostartStatus::Enabled;
                    }
                    let there = on_disk(p.as_str());
                    assert(told(*on_disk, p@, there));
                    if there {
                        AutostartStatus::Enabled
                    } else {
                        AutostartStatus::NotFound
                    }
                },
            }
        },
    }
}

/// Whether `c` has to stand behind a backslash within quotes.
pub open spec fn needs_backslash(c: char) -> bool {
    c == '\\' || c == '"' || c == '`' || c == '$'
}

/// The inside of a quoted argument.
pub open spec fn escaped_body(s: Seq<char>) -> Seq<char>
    decreases s.len(),
{
    if s.len() == 0 {
        Seq::empty()
    } else if needs_backslash(s.last()) {
        escaped_body(s.drop_last()).push('\\').push(s.last())
    } else {
        escaped_body(s.drop_last()).push(s.last())
    }
}

/// `s` as a quoted argument.
pub open spec fn quoted_exec(s: Seq<char>) -> Seq<char> {
    seq!['"'] + escaped_body(s) + seq!['"']
}

/// `value` as a quoted argument of a desktop entry.
pub fn quote_exec(value: &str) -> (r: String)
    ensures
        r@ == quoted_exec(value@),
{
    let v = chars_of(value);
    let mut out = String::new();
    out.push('"');
    let mut i: usize = 0;
    proof {
        assert(v@.take(0) =~= Seq::empty());
        assert(out@ =~= seq!['"'] + escaped_body(v@.take(0)));
    }
    while i < v.len()
        invariant
            i <= v.len(),
            out@ == seq!['"'] + escaped_body(v@.take(i as int)),
        decreases v.len() - i,
    {
        let c = v[i];
        if c == '\\' || c == '"' || c == '`' || c == '$' {
            out.push('\\');
        }
        out.push(c);
        proof {
            let now = v@.take(i + 1);
            assert(now.drop_last() =~= v@.take(i as int));
            assert(now.last() == c);
            assert(out@ =~= seq!['"'] + escaped_body(now));
        }
        i += 1;
    }
    assert(v@.take(i as int) =~= v@);
    out.push('"');
    assert(out@ =~= quoted_exec(value@));
    out
}

/// The lines of the entry that starts `exec`.
pub open spec fn entry_lines(exec: Seq<char>) -> Seq<Seq<char>> {
    seq![
        "[Desktop Entry]"@,
        "Type=Application"@,
        "Name=Vetter"@,
        "Comment=Approve or reject commands an AI agent wants to run"@,
        "Exec="@ + quoted_exec(exec),
        "Icon=dev.vetter.daemon"@,
        "Terminal=false"@,
        "X-GNOME-Autostart-enabled=true"@,
        "# Written by `vet daemon autostart enable`. The Exec path is"@,
        "# absolute and pinned at that moment: if the binary moves,"@,
        "# `vet doctor` reports the autostart row as `not found`."@,
    ]
}

/// The lines one after the other, each with a line feed behind it.
pub open spec fn ended_lines(all: Seq<Seq<char>>) -> Seq<char>
    decreases all.len(),
{
    if all.len() == 0 {
        Seq::empty()
    } else {
        ended_lines(all.drop_last()) + all.last() + "\n"@
    }
}

fn add_line(out: &mut String, line: &str, Ghost(done): Ghost<Seq<Seq<char>>>)
    requires
        old(out)@ == ended_lines(done),
    ensures
        final(out)@ == ended_lines(done.push(line@)),
{
    out.append(line);
    out.append("\n");
    assert(done.push(line@).drop_last() =~= done);
}

/// The entry that starts `exec` at login. The program is always in quotes, so
/// that a path with a space or a quote in it is read back as it is.
pub fn render_entry(exec: &str) -> (r: String)
    ensures
        r@ == ended_lines(entry_lines(exec@)),
{
    let ghost all = entry_lines(exec@);
    let mut program = "Exec=".to_owned();
    program.append(quote_exec(exec).as_str());
    let mut out = String::new();
    proof {
        assert(all.take(0) =~= Seq::empty());
        assert forall|k: int| 0 <= k < all.len() implies #[trigger] all.take(k + 1) == all.take(k).push(
            all[k],
        ) by {
            assert(all.take(k + 1) =~= all.take(k).push(all[k]));
        }
        assert(all.take(1) == all.take(0).push(all[0]));
        assert(all.take(2) == all.take(1).push(all[1]));
        assert(all.take(3) == all.take(2).push(all[2]));
        assert(all.take(4) == all.take(3).push(all[3]));
        assert(all.take(5) == all.take(4).push(all[4]));
        assert(all.take(6) == all.take(5).push(all[5]));
        assert(all.take(7) == all.take(6).push(all[6]));
        assert(all.take(8) == all.take(7).push(all[7]));
        assert(all.take(9) == all.take(8).push(all[8]));
        assert(all.take(10) == all.take(9).push(all[9]));
        assert(all.take(11) == all.take(10).push(all[10]));
        assert(all.take(11) =~= all);
    }
    add_line(&mut out, "[Desktop Entry]", Ghost(all.take(0)));
    add_line(&mut out, "Type=Application", Ghost(all.take(1)));
    add_line(&mut out, "Name=Vetter", Ghost(all.take(2)));
    add_line(
        &mut out,
        "Comment=Approve or reject commands an AI agent wants to run",
        Ghost(all.take(3)),
    );
    add_line(&mut out, program.as_str(), Ghost(all.take(4)));
    add_line(&mut out, "Icon=dev.vetter.daemon", Ghost(all.take(5)));
    add_line(&mut out, "Terminal=false", Ghost(all.take(6)));
    add_line(&mut out, "X-GNOME-Autostart-enabled=true", Ghost(all.take(7)));
    add_line(
        &mut out,
        "# Written by `vet daemon autostart enable`. The Exec path is",
        Ghost(all.take(8)),
    );
    add_line(
        &mut out,
        "# absolute and pinned at that moment: if the binary moves,",
        Ghost(all.take(9)),
    );
    add_line(
        &mut out,
        "# `vet doctor` reports the autostart row as `not found`.",
        Ghost(all.take(10)),
    );
    out
}

/// What is to be done to the system.
#[derive(Debug, PartialEq, Eq)]
pub enum AutostartChange {
    /// Register the bundle as a login item.
    Register,
    /// Take the bundle off the login items.
    Unregister,
    /// Write this entry to this file.
    WriteEntry { path: String, text: String },
    /// Remove this file. That it is not there is no error.
    RemoveEntry { path: String },
}

/// The message on a system without autostart.
pub open spec fn unsupported_text() -> Seq<char> {
    "autostart supported on macOS and Linux targets only"@
}

/// Whether the login items can be changed: the daemon has to run from a bundle,
/// and the service has to be there.
fn login_items(exe: Result<String, String>, in_bundle: bool, service: bool) -> (r: Result<
    (),
    AutostartError,
>)
    ensures
        match exe {
            Err(e) => r == Err::<(), AutostartError>(AutostartError::Unavailable(e)),
            Ok(path) => if !in_bundle {
                r == Err::<(), AutostartError>((AutostartError::NotABundle { exe: path }))
            } else if !service {
                r matches Err(AutostartError::Unavailable(why)) && why@
                    == "SMAppService class not loadable on this system"@
            } else {
                r is Ok
            },
        },
{
    match exe {
        Err(e) => Err(AutostartError::Unavailable(e)),
        Ok(path) => {
            if !in_bundle {
                Err(AutostartError::NotABundle { exe: path })
            } else if !service {
                Err(
                    AutostartError::Unavailable(
                        "SMAppService class not loadable on this system".to_owned(),
                    ),
                )
            } else {
                Ok(())
            }
        },
    }
}

/// What to do so that the daemon starts at login. `exe` is the running program
/// and `entry_path` the place of its entry, or why they cannot be told;
/// `in_bundle` is whether the program is in an application bundle, and `service`
/// whether the system has the service for login items.
pub fn enable(
    platform: Platform,
    exe: Result<String, String>,
    entry_path: Result<String, String>,
    in_bundle: bool,
    service: bool,
) -> (r: Result<AutostartChange, AutostartError>)
    ensures
        match platform {
            Platform::MacOs => match exe {
                Err(e) => r == Err::<AutostartChange, AutostartError>(AutostartError::Unavailable(e)),
                Ok(path) => if !in_bundle {
                    r == Err::<AutostartChange, AutostartError>(
                        (AutostartError::NotABundle { exe: path }),
                    )
                } else if !service {
                    r matches Err(AutostartError::Unavailable(why)) && why@
                        == "SMAppService class not loadable on this system"@
                } else {
                    r matches Ok(change) && change is Register
                },
            },
            Platform::Linux => match (exe, entry_path) {
                (Err(e), _) => r == Err::<AutostartChange, AutostartError>(
                    AutostartError::Unavailable(e),
                ),
                (Ok(_), Err(e)) => r == Err::<AutostartChange, AutostartError>(
                    AutostartError::Unavailable(e),
                ),
                (Ok(program), Ok(place)) => r matches Ok(AutostartChange::WriteEntry { path, text })
                    && path == place && text@ == ended_lines(entry_lines(program@)),
            },
            Platform::Other => r matches Err(AutostartError::Unavailable(why)) && why@
                == unsupported_text(),
        },
{
    match platform {
        Platform::MacOs => match login_items(exe, in_bundle, service) {
            Ok(_) => Ok(AutostartChange::Register),
            Err(e) => Err(e),
        },
        Platform::Linux => match exe {
            Err(e) => Err(AutostartError::Unavailable(e)),
            Ok(program) => match entry_path {
                Err(e) => Err(AutostartError::Unavailable(e)),
                Ok(path) => {
                    let text = render_entry(program.as_str());
                    Ok(AutostartChange::WriteEntry { path, text })
                },
            },
        },
        Platform::Other => Err(
            AutostartError::Unavailable(
                "autostart supported on macOS and Linux targets only".to_owned(),
            ),
        ),
    }
}

/// `r` is what is to be done so that the daemon does not start at login.
pub open spec fn disables(
    platform: Platform,
    exe: Result<String, String>,
    entry_path: Result<String, String>,
    in_bundle: bool,
    service: bool,
    r: Result<AutostartChange, AutostartError>,
) -> bool {
    match platform {
        Platform::MacOs => match exe {
            Err(e) => r == Err::<AutostartChange, AutostartError>(AutostartError::Unavailable(e)),
            Ok(path) => if !in_bundle {
                r == Err::<AutostartChange, AutostartError>(
                    (AutostartError::NotABundle { exe: path }),
                )
            } else if !service {
                r matches Err(AutostartError::Unavailable(why)) && why@
                    == "SMAppService class not loadable on this system"@
            } else {
                r matches Ok(change) && change is Unregister
            },
        },
        Platform::Linux => match entry_path {
            Err(e) => r == Err::<AutostartChange, AutostartError>(AutostartError::Unavailable(e)),
            Ok(place) => r == Ok::<AutostartChange, AutostartError>(
                (AutostartChange::RemoveEntry { path: place }),
            ),
        },
        Platform::Other => r matches Err(AutostartError::Unavailable(why)) && why@
            == unsupported_text(),
    }
}

/// What to do so that the daemon does not start at login.
pub fn disable(
    platform: Platform,
    exe: Result<String, String>,
    entry_path: Result<String, String>,
    in_bundle: bool,
    service: bool,
) -> (r: Result<AutostartChange, AutostartError>)
    ensures
        disables(platform, exe, entry_path, in_bundle, service, r),
{
    match platform {
        Platform::MacOs => match login_items(exe, in_bundle, service) {
            Ok(_) => Ok(AutostartChange::Unregister),
            Err(e) => Err(e),
        },
        Platform::Linux => match entry_path {
            Err(e) => Err(AutostartError::Unavailable(e)),
            Ok(path) => Ok(AutostartChange::RemoveEntry { path }),
        },
        Platform::Other => Err(
            AutostartError::Unavailable(
                "autostart supported on macOS and Linux targets only".to_owned(),
            ),
        ),
    }
}

/// What the removal of an entry came to.
#[derive(Debug, PartialEq, Eq)]
pub enum Removal {
    Removed,
    /// There was no entry.
    Missing,
    Failed(String),
}

/// The result of removing the entry at `path`. A missing entry is no error.
pub fn entry_removed(path: &str, removal: Removal) -> (r: Result<(), AutostartError>)
    ensures
        match removal {
            Removal::Removed | Removal::Missing => r is Ok,
            Removal::Failed(why) => r matches Err(AutostartError::Io { path: p, source }) && p@ == path@
                && source == why,
        },
{
    match removal {
        Removal::Removed | Removal::Missing => Ok(()),
        Removal::Failed(source) => Err(AutostartError::Io { path: path.to_owned(), source }),
    }
}

/// What is registered to start at login: the contents of the entry, and whether
/// the system has the bundle among its login items.
pub struct Registered {
    pub entry: Option<Seq<char>>,
    pub login_item: bool,
}

/// What is registered after a change.
pub open spec fn applied(change: AutostartChange, now: Registered) -> Registered {
    match change {
        AutostartChange::Register => Registered { login_item: true, ..now },
        AutostartChange::Unregister => Registered { login_item: false, ..now },
        AutostartChange::WriteEntry { text, .. } => Registered { entry: Some(text@), ..now },
        AutostartChange::RemoveEntry { .. } => Registered { entry: None, ..now },
    }
}

/// Switching autostart off leaves nothing registered. Doing it again is planned
/// as before and changes nothing, also where nothing was registered to begin
/// with.
pub proof fn law_disabling_twice_is_disabling_once(
    platform: Platform,
    exe: Result<String, String>,
    entry_path: Result<String, String>,
    in_bundle: bool,
    service: bool,
    first: Result<AutostartChange, AutostartError>,
    second: Result<AutostartChange, AutostartError>,
    before: Registered,
)
    requires
        disables(platform, exe, entry_path, in_bundle, service, first),
        disables(platform, exe, entry_path, in_bundle, service, second),
        first is Ok,
    ensures
        second is Ok,
        applied(second->Ok_0, applied(first->Ok_0, before)) == applied(first->Ok_0, before),
        platform == Platform::MacOs ==> !applied(first->Ok_0, before).login_item,
        platform == Platform::Linux ==> applied(first->Ok_0, before).entry is None,
        platform == Platform::Linux ==> entry_status(applied(first->Ok_0, before).entry, true)
            == AutostartStatus::NotRegistered,
        platform == Platform::Linux && before.entry is None ==> applied(first->Ok_0, before) == before,
        platform == Platform::MacOs && !before.login_item ==> applied(first->Ok_0, before) == before,
{
}

/// What has to change for the system to follow the settings.
#[derive(Debug, Clone, Copy, PartialEq, Eq, Structural)]
pub enum Reconcile {
    Nothing,
    Enable,
    Disable,
}

/// What has to change for the system to follow the settings: something only
/// where the two differ, and nothing on a system without autostart.
pub fn reconcile_with_settings(desired_autostart: bool, now: AutostartStatus) -> (r: Reconcile)
    ensures
        r == (if now == AutostartStatus::Unsupported || now.is_on() == desired_autostart {
            Reconcile::Nothing
        } else if desired_autostart {
            Reconcile::Enable
        } else {
            Reconcile::Disable
        }),
{
    if now == AutostartStatus::Unsupported {
        return Reconcile::Nothing;
    }
    let on = now.is_enabled();
    if desired_autostart && !on {
        Reconcile::Enable
    } else if !desired_autostart && on {
        Reconcile::Disable
    } else {
        Reconcile::Nothing
    }
}

/// Whether `s` stays one line when it is written into a file: it holds no line
/// feed, and no carriage return at its end.
pub open spec fn is_one_line(s: Seq<char>) -> bool {
    &&& forall|i: int| 0 <= i < s.len() ==> #[trigger] s[i] != '\n'
    &&& s.len() > 0 ==> s.last() != '\r'
}

proof fn lemma_split_run(x: Seq<char>, l: Seq<char>)
    requires
        forall|i: int| 0 <= i < l.len() ==> #[trigger] l[i] != '\n',
    ensures
        split_on(x + l, '\n') == split_on(x, '\n').drop_last().push(split_on(x, '\n').last() + l),
    decreases l.len(),
{
    lemma_split_on_nonempty(x, '\n');
    let parts = split_on(x, '\n');
    if l.len() == 0 {
        assert(x + l =~= x);
        assert(parts.last() + l =~= parts.last());
        assert(parts =~= parts.drop_last().push(parts.last()));
    } else {
        let l0 = l.drop_last();
        assert forall|i: int| 0 <= i < l0.len() implies #[trigger] l0[i] != '\n' by {
            assert(l[i] != '\n');
        }
        lemma_split_run(x, l0);
        assert((x + l).drop_last() =~= x + l0);
        assert(l[l.len() - 1] != '\n');
        assert((parts.last() + l0).push(l.last()) =~= parts.last() + l);
        let front = parts.drop_last();
        assert(front.push(parts.last() + l0).drop_last() =~= front);
    }
}

proof fn lemma_split_ended(all: Seq<Seq<char>>)
    requires
        forall|i: int| 0 <= i < all.len() ==> is_one_line(#[trigger] all[i]),
    ensures
        split_on(ended_lines(all), '\n') == all.push(Seq::empty()),
    decreases all.len(),
{
    if all.len() == 0 {
        assert(split_on(ended_lines(all), '\n') =~= all.push(Seq::empty()));
    } else {
        let front = all.drop_last();
        let l = all.last();
        assert forall|i: int| 0 <= i < front.len() implies is_one_line(#[trigger] front[i]) by {
            assert(is_one_line(all[i]));
        }
        lemma_split_ended(front);
        assert(is_one_line(all[all.len() - 1]));
        let x = ended_lines(front);
        lemma_split_run(x, l);
        let before = front.push(Seq::empty());
        assert(before.drop_last() =~= front);
        assert(Seq::<char>::empty() + l =~= l);
        assert(front.push(l) =~= all);
        reveal_strlit("\n");
        let t = ended_lines(all);
        assert(t == x + l + "\n"@);
        assert(t.drop_last() =~= x + l);
        assert(t.last() == '\n');
    }
}

/// A file of lines is read back as these lines.
pub proof fn lemma_lines_of_ended(all: Seq<Seq<char>>)
    requires
        forall|i: int| 0 <= i < all.len() ==> is_one_line(#[trigger] all[i]),
    ensures
        lines(ended_lines(all)) == all,
{
    lemma_split_ended(all);
    let parts = split_on(ended_lines(all), '\n');
    assert(parts.drop_last() =~= all);
    let ended = parts.drop_last().map_values(|l: Seq<char>| strip_cr(l));
    assert forall|i: int| 0 <= i < all.len() implies #[trigger] ended[i] == all[i] by {
        assert(is_one_line(all[i]));
    }
    assert(ended =~= all);
}

proof fn lemma_trim_end(s: Seq<char>)
    requires
        s.len() > 0,
        !is_whitespace(s[0]),
    ensures
        trim_end(s).len() > 0,
        trim_end(s)[0] == s[0],
        !is_whitespace(s.last()) ==> trim_end(s) == s,
    decreases s.len(),
{
    if is_whitespace(s.last()) {
        assert(s.len() > 1);
        lemma_trim_end(s.drop_last());
    }
}

proof fn lemma_trim(s: Seq<char>)
    requires
        s.len() > 0,
        !is_whitespace(s[0]),
    ensures
        trim(s).len() > 0,
        trim(s)[0] == s[0],
        !is_whitespace(s.last()) ==> trim(s) == s,
{
    assert(blank_front(s) == 0);
    assert(s.skip(0) =~= s);
    lemma_trim_end(s);
}

proof fn lemma_other_line(line: Seq<char>, key: Seq<char>)
    requires
        line.len() > 0,
        !is_whitespace(line[0]),
        key.len() > 0,
        key[0] != line[0] || line[0] == '#',
    ensures
        line_value(line, key) is None,
{
    lemma_trim(line);
    let t = trim(line);
    let at = first_at(t, '=', 0);
    lemma_first_at(t, '=', 0);
    if at < t.len() {
        let left = t.take(at);
        if at == 0 {
            assert(left =~= Seq::empty());
            assert(trim(left) =~= Seq::empty());
        } else {
            lemma_trim(left);
        }
    }
}

proof fn lemma_exec_line(q: Seq<char>)
    requires
        q.len() > 0,
        !is_whitespace(q[0]),
        !is_whitespace(q.last()),
    ensures
        line_value("Exec="@ + q, "Exec"@) == Some(q),
{
    reveal_strlit("Exec=");
    reveal_strlit("Exec");
    let line = "Exec="@ + q;
    assert(line[0] == 'E' && line[1] == 'x' && line[2] == 'e' && line[3] == 'c' && line[4] == '=');
    assert(line.last() == q.last());
    lemma_trim(line);
    lemma_first_at(line, '=', 0);
    let at = first_at(line, '=', 0);
    assert(at == 4) by {
        if at > 4 {
            assert(line[4] != '=');
        }
    }
    assert(line.take(4) =~= "Exec"@);
    lemma_trim("Exec"@);
    assert(line.skip(5) =~= q);
    lemma_trim(q);
}

proof fn lemma_read_quoted(front: Seq<char>, s: Seq<char>, rest: Seq<char>)
    ensures
        ({
            let t = front + escaped_body(s) + rest;
            quoted_from(t, front.len() as int) == in_front(
                s,
                quoted_from(t, (front.len() + escaped_body(s).len()) as int),
            )
        }),
    decreases s.len(),
{
    let t = front + escaped_body(s) + rest;
    let at = front.len() as int;
    if s.len() == 0 {
        if let Some(x) = quoted_from(t, at) {
            assert(s + x =~= x);
        }
    } else {
        let s0 = s.drop_last();
        let c = s.last();
        let b0 = escaped_body(s0);
        let k: int = at + b0.len();
        if needs_backslash(c) {
            assert(t =~= front + b0 + (seq!['\\', c] + rest));
            lemma_read_quoted(front, s0, seq!['\\', c] + rest);
            assert(t[k] == '\\');
            assert(t[k + 1] == c);
            if let Some(x) = quoted_from(t, k + 2) {
                assert(s0 + (seq![c] + x) =~= s + x);
            }
        } else {
            assert(t =~= front + b0 + (seq![c] + rest));
            lemma_read_quoted(front, s0, seq![c] + rest);
            assert(t[k] == c);
            if let Some(x) = quoted_from(t, k + 1) {
                assert(s0 + (seq![c] + x) =~= s + x);
            }
        }
    }
}

/// A quoted program is read back as the program.
pub proof fn law_quoted_program_reads_back(s: Seq<char>)
    ensures
        first_word(quoted_exec(s)) == Some(s),
{
    let q = quoted_exec(s);
    lemma_trim(q);
    lemma_read_quoted(seq!['"'], s, seq!['"']);
    let end: int = 1 + escaped_body(s).len() as int;
    assert(q[end] == '"');
    assert(quoted_from(q, end) == Some(Seq::<char>::empty()));
    assert(s + Seq::<char>::empty() =~= s);
}

proof fn lemma_quoted_one_line(s: Seq<char>)
    requires
        forall|i: int| 0 <= i < s.len() ==> #[trigger] s[i] != '\n',
    ensures
        forall|i: int| 0 <= i < escaped_body(s).len() ==> #[trigger] escaped_body(s)[i] != '\n',
    decreases s.len(),
{
    if s.len() > 0 {
        let s0 = s.drop_last();
        assert forall|i: int| 0 <= i < s0.len() implies #[trigger] s0[i] != '\n' by {
            assert(s[i] != '\n');
        }
        lemma_quoted_one_line(s0);
        assert(s[s.len() - 1] != '\n');
        let b0 = escaped_body(s0);
        assert forall|i: int| 0 <= i < escaped_body(s).len() implies #[trigger] escaped_body(s)[i]
            != '\n' by {
            if i < b0.len() {
                assert(escaped_body(s)[i] == b0[i]);
            }
        }
    }
}

proof fn lemma_entry_lines(exec: Seq<char>)
    requires
        forall|i: int| 0 <= i < exec.len() ==> #[trigger] exec[i] != '\n',
    ensures
        forall|i: int| 0 <= i < entry_lines(exec).len() ==> is_one_line(#[trigger] entry_lines(exec)[i]),
{
    let all = entry_lines(exec);
    assert(is_one_line(all[0])) by {
        reveal_strlit("[Desktop Entry]");
    }
    assert(is_one_line(all[1])) by {
        reveal_strlit("Type=Application");
    }
    assert(is_one_line(all[2])) by {
        reveal_strlit("Name=Vetter");
    }
    assert(is_one_line(all[3])) by {
        reveal_strlit("Comment=Approve or reject commands an AI agent wants to run");
    }
    assert(is_one_line(all[4])) by {
        reveal_strlit("Exec=");
        lemma_quoted_one_line(exec);
        let b = escaped_body(exec);
        assert forall|i: int| 0 <= i < all[4].len() implies #[trigger] all[4][i] != '\n' by {
            if 6 <= i < 6 + b.len() {
                assert(all[4][i] == b[i - 6]);
            }
        }
    }
    assert(is_one_line(all[5])) by {
        reveal_strlit("Icon=dev.vetter.daemon");
    }
    assert(is_one_line(all[6])) by {
        reveal_strlit("Terminal=false");
    }
    assert(is_one_line(all[7])) by {
        reveal_strlit("X-GNOME-Autostart-enabled=true");
    }
    assert(is_one_line(all[8])) by {
        reveal_strlit("# Written by `vet daemon autostart enable`. The Exec path is");
    }
    assert(is_one_line(all[9])) by {
        reveal_strlit("# absolute and pinned at that moment: if the binary moves,");
    }
    assert(is_one_line(all[10])) by {
        reveal_strlit("# `vet doctor` reports the autostart row as `not found`.");
    }
}

/// The first character of each line of an entry.
proof fn lemma_entry_starts(exec: Seq<char>)
    ensures
        forall|i: int| 0 <= i < entry_lines(exec).len() ==> (#[trigger] entry_lines(exec)[i]).len() > 0,
        entry_lines(exec)[0][0] == '[',
        entry_lines(exec)[1][0] == 'T',
        entry_lines(exec)[2][0] == 'N',
        entry_lines(exec)[3][0] == 'C',
        entry_lines(exec)[4][0] == 'E',
        entry_lines(exec)[5][0] == 'I',
        entry_lines(exec)[6][0] == 'T',
        entry_lines(exec)[7][0] == 'X',
        entry_lines(exec)[8][0] == '#',
        entry_lines(exec)[9][0] == '#',
        entry_lines(exec)[10][0] == '#',
{
    reveal_strlit("[Desktop Entry]");
    reveal_strlit("Type=Application");
    reveal_strlit("Name=Vetter");
    reveal_strlit("Comment=Approve or reject commands an AI agent wants to run");
    reveal_strlit("Exec=");
    reveal_strlit("Icon=dev.vetter.daemon");
    reveal_strlit("Terminal=false");
    reveal_strlit("X-GNOME-Autostart-enabled=true");
    reveal_strlit("# Written by `vet daemon autostart enable`. The Exec path is");
    reveal_strlit("# absolute and pinned at that moment: if the binary moves,");
    reveal_strlit("# `vet doctor` reports the autostart row as `not found`.");
}

/// In an entry a key is looked for only in the line that starts as it does.
proof fn lemma_value_in_entry(exec: Seq<char>, key: Seq<char>, at: int)
    requires
        key.len() > 0,
        0 <= at <= entry_lines(exec).len(),
        forall|i: int|
            0 <= i < entry_lines(exec).len() && i != at ==> (#[trigger] entry_lines(exec)[i])[0] != key[0]
                || entry_lines(exec)[i][0] == '#',
        at < entry_lines(exec).len() ==> line_value(entry_lines(exec)[at], key) is Some,
    ensures
        at < entry_lines(exec).len() ==> value_from(entry_lines(exec), key, 0) == line_value(
            entry_lines(exec)[at],
            key,
        ),
        at == entry_lines(exec).len() ==> value_from(entry_lines(exec), key, 0) is None,
{
    lemma_entry_starts(exec);
    let all = entry_lines(exec);
    assert forall|i: int| 0 <= i < all.len() && i != at implies line_value(#[trigger] all[i], key) is None by {
        assert(all[i].len() > 0);
        assert(!is_whitespace(all[i][0]));
        lemma_other_line(all[i], key);
    }
    lemma_value_skips(all, key, 0, at);
}

proof fn lemma_value_skips(all: Seq<Seq<char>>, key: Seq<char>, i: int, at: int)
    requires
        0 <= i <= at <= all.len(),
        forall|k: int| i <= k < at ==> line_value(#[trigger] all[k], key) is None,
    ensures
        value_from(all, key, i) == value_from(all, key, at),
    decreases at - i,
{
    if i < at {
        assert(line_value(all[i], key) is None);
        lemma_value_skips(all, key, i + 1, at);
    }
}

proof fn lemma_gnome_line()
    ensures
        line_value("X-GNOME-Autostart-enabled=true"@, "X-GNOME-Autostart-enabled"@) matches Some(v) && v.len() > 0
            && v[0] == 't',
{
    reveal_strlit("X-GNOME-Autostart-enabled=true");
    reveal_strlit("X-GNOME-Autostart-enabled");
    let line = "X-GNOME-Autostart-enabled=true"@;
    let key = "X-GNOME-Autostart-enabled"@;
    lemma_trim(line);
    lemma_first_at(line, '=', 0);
    let at = first_at(line, '=', 0);
    assert(line.take(25) =~= key);
    assert(line[25] == '=');
    assert(at == 25) by {
        if at > 25 {
            assert(line[25] != '=');
        }
        if at < 25 {
            assert(line[at] == key[at]);
            assert(key[at] != '=');
        }
    }
    lemma_trim(key);
    lemma_trim(line.skip(26));
}

/// An entry that was written for a program is on, and starts that program. A
/// program with a line feed in its path is left out: its entry would be another
/// file.
pub proof fn law_written_entry_is_on(exec: Seq<char>, there: bool)
    requires
        exec.len() > 0,
        forall|i: int| 0 <= i < exec.len() ==> #[trigger] exec[i] != '\n',
    ensures
        program_of(ended_lines(entry_lines(exec))) == Some(exec),
        !switched_off(ended_lines(entry_lines(exec))),
        entry_status(Some(ended_lines(entry_lines(exec))), there) == (if is_absolute(exec) && !there {
            AutostartStatus::NotFound
        } else {
            AutostartStatus::Enabled
        }),
{
    let all = entry_lines(exec);
    let text = ended_lines(all);
    lemma_entry_lines(exec);
    lemma_lines_of_ended(all);
    assert(lines(text) == all);
    lemma_entry_starts(exec);
    assert(value_of(text, "Exec"@) == Some(quoted_exec(exec))) by {
        reveal_strlit("Exec");
        lemma_exec_line(quoted_exec(exec));
        lemma_value_in_entry(exec, "Exec"@, 4);
    }
    law_quoted_program_reads_back(exec);
    assert(value_of(text, "Hidden"@) is None) by {
        reveal_strlit("Hidden");
        lemma_value_in_entry(exec, "Hidden"@, 11);
    }
    assert(!switched_off(text)) by {
        reveal_strlit("X-GNOME-Autostart-enabled");
        reveal_strlit("false");
        lemma_gnome_line();
        lemma_value_in_entry(exec, "X-GNOME-Autostart-enabled"@, 7);
        let v = value_of(text, "X-GNOME-Autostart-enabled"@)->0;
        if same_ignoring_case(v, "false"@) {
            assert(ascii_lower(v[0]) == ascii_lower("false"@[0]));
        }
    }
}

/// Where the equals sign stands in a line of a key and a value, and what is on its
/// two sides.
proof fn lemma_key_line(key: Seq<char>, value: Seq<char>)
    requires
        !key.contains('='),
    ensures
        first_at(key.push('=') + value, '=', 0) == key.len(),
        (key.push('=') + value).take(key.len() as int) == key,
        (key.push('=') + value).skip(key.len() as int + 1) == value,
        (key.push('=') + value).len() == key.len() + 1 + value.len(),
{
    let line = key.push('=') + value;
    lemma_first_at(line, '=', 0);
    let at = first_at(line, '=', 0);
    assert(line[key.len() as int] == '=');
    if at < key.len() {
        assert(line[at] == key[at]);
        assert(key.contains(key[at]));
    }
    assert(line.take(key.len() as int) =~= key);
    assert(line.skip(key.len() as int + 1) =~= value);
}

/// A line with a key, an equals sign and a value is read as that value under that
/// key, and under no other. The key has no equals sign and does not begin as a
/// comment does, and neither has whitespace at its ends.
#[verifier::spinoff_prover]
pub proof fn law_line_is_read_under_its_key(key: Seq<char>, value: Seq<char>, other: Seq<char>)
    requires
        key.len() > 0,
        !key.contains('='),
        key[0] != '#',
        !is_whitespace(key[0]),
        !is_whitespace(key.last()),
        value.len() > 0,
        !is_whitespace(value[0]),
        !is_whitespace(value.last()),
    ensures
        line_value(key.push('=') + value, key) == Some(value),
        other != key ==> line_value(key.push('=') + value, other) is None,
{
    let line = key.push('=') + value;
    lemma_key_line(key, value);
    assert(line[0] == key[0]);
    assert(line.last() == value.last());
    assert(trim(line) == line) by {
        lemma_trim(line);
    }
    assert(trim(key) == key) by {
        lemma_trim(key);
    }
    assert(trim(value) == value) by {
        lemma_trim(value);
    }
}

/// A line that begins as a comment is read under no key.
#[verifier::spinoff_prover]
pub proof fn law_comment_has_no_key(rest: Seq<char>, key: Seq<char>)
    ensures
        line_value(seq!['#'] + rest, key) is None,
{
    let line = seq!['#'] + rest;
    assert(line[0] == '#');
    assert(trim(line).len() > 0 && trim(line)[0] == '#') by {
        lemma_trim(line);
    }
}

/// Of several lines with the same key the first counts, and lines with another
/// key do not.
pub proof fn law_first_line_of_a_key_counts(all: Seq<Seq<char>>, key: Seq<char>, i: int)
    requires
        forall|k: int| 0 <= k < all.len() ==> is_one_line(#[trigger] all[k]),
        0 <= i < all.len(),
        line_value(all[i], key) is Some,
        forall|k: int| 0 <= k < i ==> line_value(#[trigger] all[k], key) is None,
    ensures
        value_of(ended_lines(all), key) == line_value(all[i], key),
{
    lemma_lines_of_ended(all);
    lemma_value_skips(all, key, 0, i);
}

/// An entry that is hidden, or that the desktop has switched off, does not count
/// as registered, whatever else stands in it: `true` and `false` are read in any
/// case of letters.
pub proof fn law_switched_off_entry_is_not_registered(
    all: Seq<Seq<char>>,
    i: int,
    value: Seq<char>,
    hidden: bool,
    there: bool,
)
    requires
        forall|k: int| 0 <= k < all.len() ==> is_one_line(#[trigger] all[k]),
        0 <= i < all.len(),
        hidden ==> all[i] == "Hidden"@.push('=') + value && same_ignoring_case(value, "true"@),
        !hidden ==> all[i] == "X-GNOME-Autostart-enabled"@.push('=') + value && same_ignoring_case(
            value,
            "false"@,
        ),
        forall|k: int|
            0 <= k < i ==> line_value(
                #[trigger] all[k],
                if hidden {
                    "Hidden"@
                } else {
                    "X-GNOME-Autostart-enabled"@
                },
            ) is None,
    ensures
        entry_status(Some(ended_lines(all)), there) == AutostartStatus::NotRegistered,
        program_to_find(Some(ended_lines(all))) is None,
{
    reveal_strlit("Hidden");
    reveal_strlit("X-GNOME-Autostart-enabled");
    reveal_strlit("true");
    reveal_strlit("false");
    let key = if hidden {
        "Hidden"@
    } else {
        "X-GNOME-Autostart-enabled"@
    };
    let word = if hidden {
        "true"@
    } else {
        "false"@
    };
    assert forall|k: int| 0 <= k < value.len() implies !is_whitespace(#[trigger] value[k]) by {
        assert(ascii_lower(value[k]) == ascii_lower(word[k]));
    }
    assert(!key.contains('='));
    law_line_is_read_under_its_key(key, value, key);
    law_first_line_of_a_key_counts(all, key, i);
}

/// What an entry starts is looked for exactly where the entry is on and names it
/// by a path from the root, and it is on only where it is there.
pub proof fn law_missing_program_is_not_found(contents: Seq<char>, there: bool)
    ensures
        entry_status(None, there) == AutostartStatus::NotRegistered,
        program_to_find(Some(contents)) is Some && !there ==> entry_status(Some(contents), there)
            == AutostartStatus::NotFound,
        program_to_find(Some(contents)) is Some && there ==> entry_status(Some(contents), there)
            == AutostartStatus::Enabled,
        entry_status(Some(contents), there) == AutostartStatus::Enabled ==> program_of(contents) is Some
            && program_of(contents)->0.len() > 0 && !switched_off(contents),
        program_to_find(Some(contents)) matches Some(p) ==> p.len() > 0 && p[0] == '/',
        !switched_off(contents) && (program_of(contents) matches Some(p) && p.len() > 0 && p[0] == '/')
            ==> program_to_find(Some(contents)) == program_of(contents),
        !switched_off(contents) && (program_of(contents) matches Some(p) && p.len() > 0 && p[0] != '/')
            ==> entry_status(Some(contents), there) == AutostartStatus::Enabled,
        !switched_off(contents) && program_of(contents) is None ==> entry_status(Some(contents), there)
            == AutostartStatus::NotFound,
{
}

proof fn lemma_word_is(s: Seq<char>)
    ensures
        word_len(s) <= s.len(),
        forall|k: int| 0 <= k < word_len(s) ==> !is_whitespace(#[trigger] s[k]),
        word_len(s) < s.len() ==> is_whitespace(s[word_len(s) as int]),
    decreases s.len(),
{
    if s.len() > 0 && !is_whitespace(s[0]) {
        let rest = s.drop_first();
        lemma_word_is(rest);
        assert forall|k: int| 0 <= k < word_len(s) implies !is_whitespace(#[trigger] s[k]) by {
            if k > 0 {
                assert(rest[k - 1] == s[k]);
            }
        }
        if word_len(s) < s.len() {
            assert(rest[word_len(rest) as int] == s[word_len(s) as int]);
        }
    }
}

/// A program without quotes is what stands before the first whitespace, all of it
/// and no argument with it.
pub proof fn law_program_ends_at_whitespace(raw: Seq<char>)
    requires
        trim(raw).len() > 0,
        trim(raw)[0] != '"',
    ensures
        first_word(raw) is Some,
        first_word(raw)->0.len() > 0,
        first_word(raw)->0.is_prefix_of(trim(raw)),
        forall|k: int|
            0 <= k < first_word(raw)->0.len() ==> !is_whitespace(#[trigger] first_word(raw)->0[k]),
        first_word(raw)->0.len() < trim(raw).len() ==> is_whitespace(
            trim(raw)[first_word(raw)->0.len() as int],
        ),
{
    let t = trim(raw);
    lemma_word_is(t);
    let place = law_trim_takes_whitespace_alone(raw);
    assert(t[0] == raw[place.0]);
    let n = word_len(t) as int;
    assert(t.take(n) =~= t.subrange(0, n));
}

/// What is asked for is what is then done, and nothing is done where the system
/// says so already or has no autostart.
pub proof fn law_setting_is_carried_out(desired: bool, now: AutostartStatus, r: Reconcile)
    requires
        call_ensures(reconcile_with_settings, (desired, now), r),
    ensures
        r == Reconcile::Enable ==> desired && now != AutostartStatus::Enabled && now
            != AutostartStatus::RequiresApproval,
        r == Reconcile::Disable ==> !desired && (now == AutostartStatus::Enabled || now
            == AutostartStatus::RequiresApproval),
        now == AutostartStatus::Unsupported ==> r == Reconcile::Nothing,
        r == Reconcile::Nothing && now != AutostartStatus::Unsupported ==> (desired <==> now
            == AutostartStatus::Enabled || now == AutostartStatus::RequiresApproval),
{
}

/// An entry that is written starts this very program: what is read back from the
/// file is the path of the program, and the entry is on.
pub proof fn law_enabling_starts_the_program(
    exe: String,
    place: String,
    in_bundle: bool,
    service: bool,
    r: Result<AutostartChange, AutostartError>,
)
    requires
        call_ensures(
            enable,
            (Platform::Linux, Ok::<String, String>(exe), Ok::<String, String>(place), in_bundle, service),
            r,
        ),
        exe@.len() > 0,
        !exe@.contains('\n'),
    ensures
        r is Ok,
        r->Ok_0 is WriteEntry,
        r->Ok_0->WriteEntry_path@ == place@,
        program_of(r->Ok_0->text@) == Some(exe@),
        entry_status(Some(r->Ok_0->text@), true) == AutostartStatus::Enabled,
{
    assert forall|i: int| 0 <= i < exe@.len() implies #[trigger] exe@[i] != '\n' by {
        assert(exe@.contains(exe@[i]));
    }
    law_written_entry_is_on(exe@, true);
}

/// Nothing in a quoted program is read as anything but itself: each quote, each
/// dollar sign and each backquote in it has a backslash in front.
pub proof fn law_quoted_program_is_inert(s: Seq<char>, i: int)
    requires
        0 <= i < escaped_body(s).len(),
    ensures
        escaped_body(s)[i] == '"' || escaped_body(s)[i] == '$' || escaped_body(s)[i] == '`' ==> i > 0
            && escaped_body(s)[i - 1] == '\\',
    decreases s.len(),
{
    if s.len() > 0 {
        let front = escaped_body(s.drop_last());
        if i < front.len() {
            law_quoted_program_is_inert(s.drop_last(), i);
        }
    }
}

/// A program runs from a bundle exactly where its path goes through the directory
/// that a bundle has for programs.
pub proof fn law_bundle_has_its_directory(exe: &str, r: bool)
    requires
        call_ensures(is_app_bundle_executable, (exe,), r),
    ensures
        r <==> exists|before: Seq<char>, after: Seq<char>|
            exe@ == #[trigger] (before + ".app/Contents/MacOS/"@ + after),
{
    let mark = ".app/Contents/MacOS/"@;
    if r {
        let i = choose|i: int| #[trigger] stands_at(exe@, i, mark) && 0 <= i;
        let before = exe@.take(i);
        let after = exe@.skip(i + mark.len());
        assert(exe@.subrange(i, i + mark.len()) == mark);
        assert(exe@ =~= before + mark + after);
    }
    if exists|before: Seq<char>, after: Seq<char>| exe@ == #[trigger] (before + mark + after) {
        let (before, after) = choose|before: Seq<char>, after: Seq<char>|
            exe@ == #[trigger] (before + mark + after);
        let i = before.len() as int;
        assert(exe@.subrange(i, i + mark.len()) =~= mark);
        assert(stands_at(exe@, i, mark));
    }
}

/// On a Mac what is enabled is registered and what is disabled is taken off, each
/// only from a bundle and where the system offers it.
pub proof fn law_login_item_follows_the_request(
    exe: Result<String, String>,
    place: Result<String, String>,
    in_bundle: bool,
    service: bool,
    on: Result<AutostartChange, AutostartError>,
    off: Result<AutostartChange, AutostartError>,
)
    requires
        call_ensures(enable, (Platform::MacOs, exe, place, in_bundle, service), on),
        call_ensures(disable, (Platform::MacOs, exe, place, in_bundle, service), off),
    ensures
        on is Ok <==> exe is Ok && in_bundle && service,
        off is Ok <==> exe is Ok && in_bundle && service,
        on is Ok ==> on->Ok_0 is Register,
        off is Ok ==> off->Ok_0 is Unregister,
        exe is Ok && !in_bundle ==> on is Err && on->Err_0 is NotABundle && on->Err_0->exe@ == exe->Ok_0@,
{
}

} // verus!
