//! The rows beneath a card's URL line: which effects earn one, in what order,
//! and which rows stay in view on a resolved card.
use crate::cards::effects::{
    auth_label, auth_painted, auth_redacted, auth_text, body_meta, body_meta_label, collect_body_file_paths,
    field_line, form_field_text, holds_path, inline_body_text, inline_text, is_body_file, lists_path,
    sends_file,
};
use crate::command::{Auth, Body, Effect, FormField, Header, HttpRequest, ParsedCommand};
use crate::outside::{answers_all, cleaned, computes, decides_all, no_answers, told, Answers, Lookups};
use crate::path::same_location;
use crate::text::texts;
use vstd::prelude::*;
use vstd::string::*;
use vstd::utf8::{decode_utf8, valid_utf8};

verus! {

/// A path, and whether a surface should offer to open it.
#[derive(Debug, PartialEq, Eq)]
pub struct FilePath {
    pub display: String,
    pub path: String,
    /// False where the path does not exist: an offer to open it would do
    /// nothing.
    pub can_open: bool,
}

/// The content of a body row.
#[derive(Debug, PartialEq, Eq)]
pub enum BodyContent {
    Inline(String),
    FromFile(FilePath),
    Form(Vec<String>),
}

/// One row beneath the URL.
#[derive(Debug, PartialEq, Eq)]
pub enum EffectRow {
    /// Header names. Values never reach a card: every one is taken for a
    /// secret.
    Headers(Vec<String>),
    Body { meta: String, content: BodyContent },
    Auth { text: String, redacted: bool },
    FileRead(FilePath),
    FileWrite(FilePath),
    ProcessSpawn(String),
}

/// What a [`FilePath`] holds.
#[verifier::ext_equal]
pub struct FileShown {
    pub display: Seq<char>,
    pub path: Seq<char>,
    pub can_open: bool,
}

/// What a [`BodyContent`] holds.
#[verifier::ext_equal]
pub enum BodyShown {
    Inline(Seq<char>),
    FromFile(FileShown),
    Form(Seq<Seq<char>>),
}

/// What an [`EffectRow`] holds.
#[verifier::ext_equal]
pub enum RowShown {
    Headers(Seq<Seq<char>>),
    Body { meta: Seq<char>, content: BodyShown },
    Auth { text: Seq<char>, redacted: bool },
    FileRead(FileShown),
    FileWrite(FileShown),
    ProcessSpawn(Seq<char>),
}

impl View for FilePath {
    type V = FileShown;

    open spec fn view(&self) -> FileShown {
        FileShown { display: self.display@, path: self.path@, can_open: self.can_open }
    }
}

impl View for BodyContent {
    type V = BodyShown;

    open spec fn view(&self) -> BodyShown {
        match self {
            BodyContent::Inline(text) => BodyShown::Inline(text@),
            BodyContent::FromFile(file) => BodyShown::FromFile(file@),
            BodyContent::Form(fields) => BodyShown::Form(texts(fields@)),
        }
    }
}

impl View for EffectRow {
    type V = RowShown;

    open spec fn view(&self) -> RowShown {
        match self {
            EffectRow::Headers(names) => RowShown::Headers(texts(names@)),
            EffectRow::Body { meta, content } => RowShown::Body { meta: meta@, content: content@ },
            EffectRow::Auth { text, redacted } => RowShown::Auth { text: text@, redacted: *redacted },
            EffectRow::FileRead(file) => RowShown::FileRead(file@),
            EffectRow::FileWrite(file) => RowShown::FileWrite(file@),
            EffectRow::ProcessSpawn(command) => RowShown::ProcessSpawn(command@),
        }
    }
}

/// What a list of rows holds.
pub open spec fn row_views(v: Seq<EffectRow>) -> Seq<RowShown> {
    v.map_values(|r: EffectRow| r@)
}

/// A copy of a list of texts.
fn copy_texts(v: &Vec<String>) -> (r: Vec<String>)
    ensures
        texts(r@) == texts(v@),
{
    let mut out: Vec<String> = Vec::new();
    let mut i: usize = 0;
    while i < v.len()
        invariant
            i <= v.len(),
            out@ == v@.take(i as int),
        decreases v.len() - i,
    {
        out.push(v[i].clone());
        i += 1;
        assert(out@ =~= v@.take(i as int));
    }
    assert(out@ =~= v@);
    out
}

impl Clone for FilePath {
    fn clone(&self) -> (r: FilePath)
        ensures
            r@ == self@,
    {
        FilePath {
            display: self.display.clone(),
            path: self.path.clone(),
            can_open: self.can_open,
        }
    }
}

impl Clone for BodyContent {
    fn clone(&self) -> (r: BodyContent)
        ensures
            r@ == self@,
    {
        match self {
            BodyContent::Inline(text) => BodyContent::Inline(text.clone()),
            BodyContent::FromFile(file) => BodyContent::FromFile(file.clone()),
            BodyContent::Form(fields) => BodyContent::Form(copy_texts(fields)),
        }
    }
}

impl Clone for EffectRow {
    fn clone(&self) -> (r: EffectRow)
        ensures
            r@ == self@,
    {
        match self {
            EffectRow::Headers(names) => EffectRow::Headers(copy_texts(names)),
            EffectRow::Body { meta, content } => EffectRow::Body {
                meta: meta.clone(),
                content: content.clone(),
            },
            EffectRow::Auth { text, redacted } => EffectRow::Auth {
                text: text.clone(),
                redacted: *redacted,
            },
            EffectRow::FileRead(file) => EffectRow::FileRead(file.clone()),
            EffectRow::FileWrite(file) => EffectRow::FileWrite(file.clone()),
            EffectRow::ProcessSpawn(command) => EffectRow::ProcessSpawn(command.clone()),
        }
    }
}

/// A copy of a list of rows.
pub fn copy_rows(v: &Vec<EffectRow>) -> (r: Vec<EffectRow>)
    ensures
        row_views(r@) == row_views(v@),
{
    let mut out: Vec<EffectRow> = Vec::new();
    let mut i: usize = 0;
    while i < v.len()
        invariant
            i <= v.len(),
            row_views(out@) == row_views(v@).take(i as int),
        decreases v.len() - i,
    {
        let ghost before = row_views(out@);
        out.push(v[i].clone());
        i += 1;
        assert(row_views(out@) =~= before.push(v@[i - 1]@));
        assert(row_views(out@) =~= row_views(v@).take(i as int));
    }
    assert(row_views(out@) =~= row_views(v@));
    out
}

/// The rows of a card by visibility. On a resolved card the file inputs stay
/// in view, while the rest may go behind a disclosure.
#[derive(Debug, Clone, PartialEq, Eq)]
pub struct EffectRows {
    /// Files that are read, and bodies that come from a file.
    pub file_inputs: Vec<EffectRow>,
    /// Headers, other bodies, auth, files that are written, processes.
    pub others: Vec<EffectRow>,
}

/// What an [`EffectRows`] holds.
#[verifier::ext_equal]
pub struct RowsShown {
    pub file_inputs: Seq<RowShown>,
    pub others: Seq<RowShown>,
}

impl View for EffectRows {
    type V = RowsShown;

    open spec fn view(&self) -> RowsShown {
        RowsShown { file_inputs: row_views(self.file_inputs@), others: row_views(self.others@) }
    }
}

impl Default for EffectRows {
    fn default() -> (r: EffectRows)
        ensures
            r@.file_inputs.len() == 0,
            r@.others.len() == 0,
    {
        EffectRows { file_inputs: Vec::new(), others: Vec::new() }
    }
}

impl EffectRows {
    /// Every row, file inputs first, then the others, each in source order.
    pub fn flattened(self) -> (r: Vec<EffectRow>)
        ensures
            row_views(r@) == self@.file_inputs + self@.others,
    {
        let mut out = self.file_inputs;
        let mut rest = self.others;
        let ghost a = out@;
        let ghost b = rest@;
        out.append(&mut rest);
        assert(out@ =~= a + b);
        assert(row_views(out@) =~= row_views(a) + row_views(b));
        out
    }

    /// How many rows there are.
    pub fn total(&self) -> (r: usize)
        requires
            self@.file_inputs.len() + self@.others.len() <= usize::MAX,
        ensures
            r == self@.file_inputs.len() + self@.others.len(),
    {
        assert(self@.file_inputs.len() == self.file_inputs.len());
        assert(self@.others.len() == self.others.len());
        self.file_inputs.len() + self.others.len()
    }

    pub fn is_empty(&self) -> (r: bool)
        ensures
            r == (self@.file_inputs.len() == 0 && self@.others.len() == 0),
    {
        self.file_inputs.len() == 0 && self.others.len() == 0
    }
}

/// `file` apart from the answer of the disk.
pub open spec fn unopened_file(file: FileShown) -> FileShown {
    FileShown { can_open: false, ..file }
}

/// `row` apart from the answers of the disk.
pub open spec fn unopened_row(row: RowShown) -> RowShown {
    match row {
        RowShown::FileRead(file) => RowShown::FileRead(unopened_file(file)),
        RowShown::FileWrite(file) => RowShown::FileWrite(unopened_file(file)),
        RowShown::Body { meta, content: BodyShown::FromFile(file) } => RowShown::Body {
            meta,
            content: BodyShown::FromFile(unopened_file(file)),
        },
        _ => row,
    }
}

/// The rows apart from the answers of the disk.
pub open spec fn unopened_rows(rows: Seq<RowShown>) -> Seq<RowShown> {
    rows.map_values(|r: RowShown| unopened_row(r))
}

/// The rows of a card apart from the answers of the disk.
pub open spec fn unopened(rows: RowsShown) -> RowsShown {
    RowsShown { file_inputs: unopened_rows(rows.file_inputs), others: unopened_rows(rows.others) }
}

/// The file apart from everything that was asked of the outside.
pub open spec fn bare_file(file: FileShown) -> FileShown {
    FileShown { display: Seq::empty(), path: file.path, can_open: false }
}

/// As many blank texts.
pub open spec fn blanks(texts: Seq<Seq<char>>) -> Seq<Seq<char>> {
    texts.map_values(|t: Seq<char>| Seq::<char>::empty())
}

/// The row apart from everything that was asked of the outside: what kind it
/// is, of which file, how large, and whether a credential was withheld.
pub open spec fn bare_row(row: RowShown) -> RowShown {
    match row {
        RowShown::Headers(names) => RowShown::Headers(blanks(names)),
        RowShown::Body { meta, content } => RowShown::Body {
            meta,
            content: match content {
                BodyShown::Inline(_) => BodyShown::Inline(Seq::empty()),
                BodyShown::FromFile(file) => BodyShown::FromFile(bare_file(file)),
                BodyShown::Form(fields) => BodyShown::Form(blanks(fields)),
            },
        },
        RowShown::Auth { redacted, .. } => RowShown::Auth { text: Seq::empty(), redacted },
        RowShown::FileRead(file) => RowShown::FileRead(bare_file(file)),
        RowShown::FileWrite(file) => RowShown::FileWrite(bare_file(file)),
        RowShown::ProcessSpawn(_) => RowShown::ProcessSpawn(Seq::empty()),
    }
}

/// The rows apart from everything that was asked of the outside.
pub open spec fn bare_rows(rows: Seq<RowShown>) -> Seq<RowShown> {
    rows.map_values(|r: RowShown| bare_row(r))
}

/// The rows of a card apart from everything that was asked of the outside.
pub open spec fn bare(rows: RowsShown) -> RowsShown {
    RowsShown { file_inputs: bare_rows(rows.file_inputs), others: bare_rows(rows.others) }
}

/// Whether the file of the row can be opened is what the disk said of it.
pub open spec fn row_asked<E: Fn(&str) -> bool>(on_disk: E, row: RowShown) -> bool {
    match row {
        RowShown::FileRead(file) => told(on_disk, file.path, file.can_open),
        RowShown::FileWrite(file) => told(on_disk, file.path, file.can_open),
        RowShown::Body { content: BodyShown::FromFile(file), .. } => told(
            on_disk,
            file.path,
            file.can_open,
        ),
        _ => true,
    }
}

/// Whether each file of the rows can be opened is what the disk said of it.
pub open spec fn rows_asked<E: Fn(&str) -> bool>(on_disk: E, rows: Seq<RowShown>) -> bool {
    forall|i: int| 0 <= i < rows.len() ==> row_asked(on_disk, #[trigger] rows[i])
}

/// Whether each file of a card's rows can be opened is what the disk said of it.
pub open spec fn asked<E: Fn(&str) -> bool>(on_disk: E, rows: RowsShown) -> bool {
    rows_asked(on_disk, rows.file_inputs) && rows_asked(on_disk, rows.others)
}

/// What a surface shows of a path, apart from the answer of the disk.
pub open spec fn file_shown(a: Answers, path: Seq<char>) -> FileShown {
    FileShown { display: (a.clean)(path), path, can_open: false }
}

/// The names of headers.
pub open spec fn names_shown(a: Answers, headers: Seq<Header>) -> Seq<Seq<char>> {
    headers.map_values(|h: Header| (a.clean)(h.name@))
}

/// The lines of form fields.
pub open spec fn fields_shown(a: Answers, fields: Seq<FormField>) -> Seq<Seq<char>> {
    fields.map_values(|f: FormField| field_line(a.clean, f))
}

/// The content of the body row, for a body that has one.
pub open spec fn body_shown(a: Answers, body: Body) -> BodyShown {
    match body {
        Body::Empty => arbitrary(),
        Body::Inline { bytes } => BodyShown::Inline(inline_text(a.clean, bytes@)),
        Body::FromFile { path } => BodyShown::FromFile(file_shown(a, path@)),
        Body::Form { fields } => BodyShown::Form(fields_shown(a, fields@)),
    }
}

/// The body row of a request, or no row where the body is empty.
pub open spec fn body_row(a: Answers, body: Body) -> Seq<RowShown> {
    if body is Empty {
        Seq::empty()
    } else {
        seq![RowShown::Body { meta: body_meta(body)->0, content: body_shown(a, body) }]
    }
}

/// The header row of a request, or no row where it has no headers.
pub open spec fn header_row(a: Answers, headers: Seq<Header>) -> Seq<RowShown> {
    if headers.len() == 0 {
        Seq::empty()
    } else {
        seq![RowShown::Headers(names_shown(a, headers))]
    }
}

/// The auth row of a request, or no row where it does not authenticate.
pub open spec fn auth_rows(a: Answers, auth: Option<Auth>) -> Seq<RowShown> {
    match auth {
        Some(x) => seq![RowShown::Auth { text: auth_text(a.clean, x), redacted: auth_redacted(x) }],
        None => Seq::empty(),
    }
}

/// The file inputs among the rows of one effect of `effects`. A file that a
/// body row shows already gets no row for being read.
pub open spec fn inputs_of(a: Answers, effects: Seq<Effect>, effect: Effect) -> Seq<RowShown> {
    match effect {
        Effect::HttpRequest(req) => if req.body is FromFile {
            body_row(a, req.body)
        } else {
            Seq::empty()
        },
        Effect::FileRead { path } => if is_body_file(effects, effects.len() as int, path@) {
            Seq::empty()
        } else {
            seq![RowShown::FileRead(file_shown(a, path@))]
        },
        _ => Seq::empty(),
    }
}

/// The other rows of one effect: of a request its headers, its body and its
/// auth, in this order. The use of a credential and network access get none.
pub open spec fn others_of(a: Answers, effect: Effect) -> Seq<RowShown> {
    match effect {
        Effect::HttpRequest(req) => header_row(a, req.headers@) + (if req.body is FromFile {
            Seq::empty()
        } else {
            body_row(a, req.body)
        }) + auth_rows(a, req.auth),
        Effect::FileWrite { path } => seq![RowShown::FileWrite(file_shown(a, path@))],
        Effect::ProcessSpawn { command } => seq![RowShown::ProcessSpawn((a.clean)(command@))],
        _ => Seq::empty(),
    }
}

/// The file inputs of the first `n` effects.
pub open spec fn inputs_upto(a: Answers, effects: Seq<Effect>, n: nat) -> Seq<RowShown>
    decreases n,
{
    if n == 0 {
        Seq::empty()
    } else {
        inputs_upto(a, effects, (n - 1) as nat) + inputs_of(a, effects, effects[n - 1])
    }
}

/// The other rows of the first `n` effects.
pub open spec fn others_upto(a: Answers, effects: Seq<Effect>, n: nat) -> Seq<RowShown>
    decreases n,
{
    if n == 0 {
        Seq::empty()
    } else {
        others_upto(a, effects, (n - 1) as nat) + others_of(a, effects[n - 1])
    }
}

/// The rows of a command, apart from the answers of the disk.
pub open spec fn rows_of(a: Answers, parsed: ParsedCommand) -> RowsShown {
    RowsShown {
        file_inputs: inputs_upto(a, parsed.effects@, parsed.effects@.len()),
        others: others_upto(a, parsed.effects@, parsed.effects@.len()),
    }
}

/// Whether a surface should offer to open `path`: existence is the whole rule,
/// asked when the card is built.
pub fn can_open<E: Fn(&str) -> bool>(path: &str, on_disk: &E) -> (r: bool)
    requires
        decides_all(*on_disk),
    ensures
        call_ensures(*on_disk, (path,), r),
{
    on_disk(path)
}

/// What a surface shows of a path.
pub fn file_path<S: Fn(&str) -> String, L: Fn(&str) -> bool, E: Fn(&str) -> bool>(
    path: &str,
    ask: &Lookups<S, L, E>,
) -> (r: FilePath)
    requires
        ask.ready(),
    ensures
        forall|a: Answers| #[trigger]
            ask.give(a) ==> unopened_file(r@) == file_shown(a, path@),
        r@.path == path@,
        cleaned(ask.sanitize, path@, r@.display),
        told(ask.on_disk, path@, r.can_open),
{
    let sanitize = &ask.sanitize;
    FilePath {
        display: sanitize(path),
        path: path.to_owned(),
        can_open: can_open(path, &ask.on_disk),
    }
}

/// The text of an auth row, and whether the credential was withheld.
pub fn auth_row<S: Fn(&str) -> String>(auth: &Auth, sanitize: &S) -> (r: (String, bool))
    requires
        answers_all(*sanitize),
    ensures
        forall|clean: spec_fn(Seq<char>) -> Seq<char>| #[trigger]
            computes(*sanitize, clean) ==> r.0@ == auth_text(clean, *auth),
        auth_painted(*sanitize, *auth, r.0@),
        r.1 == auth_redacted(*auth),
{
    auth_label(auth, sanitize)
}

fn header_names<S: Fn(&str) -> String, L: Fn(&str) -> bool, E: Fn(&str) -> bool>(
    headers: &Vec<Header>,
    ask: &Lookups<S, L, E>,
) -> (r: Vec<String>)
    requires
        ask.ready(),
    ensures
        forall|a: Answers| #[trigger] ask.give(a) ==> texts(r@) == names_shown(a, headers@),
        r.len() == headers.len(),
{
    let sanitize = &ask.sanitize;
    let mut out: Vec<String> = Vec::new();
    let mut i: usize = 0;
    while i < headers.len()
        invariant
            i <= headers.len(),
            ask.ready(),
            sanitize == &ask.sanitize,
            out.len() == i,
            forall|a: Answers| #[trigger]
                ask.give(a) ==> (forall|k: int|
                    0 <= k < i ==> (#[trigger] out@[k])@ == (a.clean)(headers@[k].name@)),
        decreases headers.len() - i,
    {
        out.push(sanitize(headers[i].name.as_str()));
        i += 1;
    }
    proof {
        assert forall|a: Answers| #[trigger] ask.give(a) implies texts(out@) == names_shown(
            a,
            headers@,
        ) by {
            assert(texts(out@) =~= names_shown(a, headers@));
        }
    }
    out
}

fn form_lines<S: Fn(&str) -> String, L: Fn(&str) -> bool, E: Fn(&str) -> bool>(
    fields: &Vec<FormField>,
    ask: &Lookups<S, L, E>,
) -> (r: Vec<String>)
    requires
        ask.ready(),
    ensures
        forall|a: Answers| #[trigger] ask.give(a) ==> texts(r@) == fields_shown(a, fields@),
        r.len() == fields.len(),
{
    let mut out: Vec<String> = Vec::new();
    let mut i: usize = 0;
    while i < fields.len()
        invariant
            i <= fields.len(),
            ask.ready(),
            out.len() == i,
            forall|a: Answers| #[trigger]
                ask.give(a) ==> (forall|k: int|
                    0 <= k < i ==> (#[trigger] out@[k])@ == field_line(a.clean, fields@[k])),
        decreases fields.len() - i,
    {
        out.push(form_field_text(&fields[i], &ask.sanitize));
        i += 1;
    }
    proof {
        assert forall|a: Answers| #[trigger] ask.give(a) implies texts(out@) == fields_shown(
            a,
            fields@,
        ) by {
            assert(texts(out@) =~= fields_shown(a, fields@));
        }
    }
    out
}

/// Adds `row` at the end of `rows`.
fn add_row<E: Fn(&str) -> bool>(rows: &mut Vec<EffectRow>, row: EffectRow, on_disk: &E)
    requires
        row_asked(*on_disk, row@),
        rows_asked(*on_disk, row_views(old(rows)@)),
    ensures
        unopened_rows(row_views(final(rows)@)) == unopened_rows(row_views(old(rows)@)).push(
            unopened_row(row@),
        ),
        bare_rows(row_views(final(rows)@)) == bare_rows(row_views(old(rows)@)).push(bare_row(row@)),
        rows_asked(*on_disk, row_views(final(rows)@)),
{
    let ghost before = row_views(rows@);
    let ghost added = row@;
    rows.push(row);
    assert(row_views(rows@) =~= before.push(added));
    assert(bare_rows(before.push(added)) =~= bare_rows(before).push(bare_row(added)));
    assert(unopened_rows(before.push(added)) =~= unopened_rows(before).push(unopened_row(added)));
}

/// Adds the rows of one request.
fn add_request<S: Fn(&str) -> String, L: Fn(&str) -> bool, E: Fn(&str) -> bool>(
    out: &mut EffectRows,
    req: &HttpRequest,
    ask: &Lookups<S, L, E>,
)
    requires
        ask.ready(),
        asked(ask.on_disk, old(out)@),
    ensures
        asked(ask.on_disk, final(out)@),
        forall|a: Answers| #[trigger]
            ask.give(a) ==> unopened(final(out)@).file_inputs == unopened(old(out)@).file_inputs + (
            if req.body is FromFile {
                body_row(a, req.body)
            } else {
                Seq::empty()
            }) && unopened(final(out)@).others == unopened(old(out)@).others + others_of(
                a,
                Effect::HttpRequest(*req),
            ),
        bare(final(out)@).file_inputs == bare(old(out)@).file_inputs + bare_rows(
            if req.body is FromFile {
                body_row(no_answers(), req.body)
            } else {
                Seq::empty()
            },
        ),
        bare(final(out)@).others == bare(old(out)@).others + bare_rows(
            others_of(no_answers(), Effect::HttpRequest(*req)),
        ),
{
    if req.headers.len() > 0 {
        let names = header_names(&req.headers, ask);
        add_row(&mut out.others, EffectRow::Headers(names), &ask.on_disk);
    }
    if let Some(meta) = body_meta_label(&req.body) {
        match &req.body {
            Body::Inline { bytes } => {
                let content = BodyContent::Inline(inline_body_text(bytes, &ask.sanitize));
                add_row(&mut out.others, EffectRow::Body { meta, content }, &ask.on_disk);
            },
            Body::FromFile { path } => {
                let content = BodyContent::FromFile(file_path(path.as_str(), ask));
                add_row(&mut out.file_inputs, EffectRow::Body { meta, content }, &ask.on_disk);
            },
            Body::Form { fields } => {
                let content = BodyContent::Form(form_lines(fields, ask));
                add_row(&mut out.others, EffectRow::Body { meta, content }, &ask.on_disk);
            },
            Body::Empty => {},
        }
    }
    if let Some(auth) = &req.auth {
        let (text, redacted) = auth_row(auth, &ask.sanitize);
        add_row(&mut out.others, EffectRow::Auth { text, redacted }, &ask.on_disk);
    }
    proof {
        assert forall|a: Answers| #[trigger] ask.give(a) implies unopened(out@).file_inputs
            == unopened(old(out)@).file_inputs + (if req.body is FromFile {
            body_row(a, req.body)
        } else {
            Seq::empty()
        }) && unopened(out@).others == unopened(old(out)@).others + others_of(
            a,
            Effect::HttpRequest(*req),
        ) by {
            assert(unopened(out@).file_inputs =~= unopened(old(out)@).file_inputs + (
            if req.body is FromFile {
                body_row(a, req.body)
            } else {
                Seq::empty()
            }));
            assert(unopened(out@).others =~= unopened(old(out)@).others + others_of(
                a,
                Effect::HttpRequest(*req),
            ));
        }
        let a = no_answers();
        let sent = if req.body is FromFile {
            body_row(a, req.body)
        } else {
            Seq::empty()
        };
        assert(bare(out@).file_inputs =~= bare(old(out)@).file_inputs + bare_rows(sent));
        let rest = bare(out@).others;
        let want = bare_rows(others_of(a, Effect::HttpRequest(*req)));
        let from = bare(old(out)@).others;
        if req.headers.len() > 0 {
            assert(want[0] == bare_row(RowShown::Headers(names_shown(a, req.headers@))));
            let row = rest[from.len() as int];
            assert(row is Headers);
            assert(row->Headers_0 =~= blanks(names_shown(a, req.headers@)));
        }
        if let Body::Form { fields } = &req.body {
            let at: int = if req.headers.len() > 0 {
                1int
            } else {
                0int
            };
            assert(want[at] == bare_row(body_row(a, req.body)[0]));
            let row = rest[from.len() + at];
            assert(row is Body && row->content is Form);
            assert(row->content->Form_0 =~= blanks(fields_shown(a, fields@)));
        }
        assert(rest.len() == from.len() + want.len());
        assert(rest =~= from + want);
    }
}

/// The rows of a parsed command.
///
/// A file that is read is left out where a body row shows its path already:
/// only the visible row goes, the effect stays what it is for the matcher. The
/// disk is asked about each file that is shown, and settles nothing but whether
/// that file can be opened.
pub fn effect_rows<S: Fn(&str) -> String, L: Fn(&str) -> bool, E: Fn(&str) -> bool>(
    parsed: &ParsedCommand,
    ask: &Lookups<S, L, E>,
) -> (r: EffectRows)
    requires
        ask.ready(),
    ensures
        forall|a: Answers| #[trigger] ask.give(a) ==> unopened(r@) == rows_of(a, *parsed),
        bare(r@) == bare(rows_of(no_answers(), *parsed)),
        asked(ask.on_disk, r@),
{
    let body_files = collect_body_file_paths(parsed);
    let mut out = EffectRows::default();
    let mut i: usize = 0;
    let ghost effects = parsed.effects@;
    proof {
        assert forall|a: Answers| #[trigger] ask.give(a) implies unopened(out@).file_inputs
            == inputs_upto(a, effects, 0) && unopened(out@).others == others_upto(a, effects, 0) by {
            assert(unopened(out@).file_inputs =~= inputs_upto(a, effects, 0));
            assert(unopened(out@).others =~= others_upto(a, effects, 0));
        }
        assert(bare(out@).file_inputs =~= bare_rows(inputs_upto(no_answers(), effects, 0)));
        assert(bare(out@).others =~= bare_rows(others_upto(no_answers(), effects, 0)));
    }
    while i < parsed.effects.len()
        invariant
            i <= parsed.effects.len(),
            effects == parsed.effects@,
            ask.ready(),
            forall|path: Seq<char>| #[trigger]
                lists_path(body_files@, path) <==> is_body_file(effects, effects.len() as int, path),
            asked(ask.on_disk, out@),
            forall|a: Answers| #[trigger]
                ask.give(a) ==> unopened(out@).file_inputs == inputs_upto(a, effects, i as nat)
                    && unopened(out@).others == others_upto(a, effects, i as nat),
            bare(out@).file_inputs == bare_rows(inputs_upto(no_answers(), effects, i as nat)),
            bare(out@).others == bare_rows(others_upto(no_answers(), effects, i as nat)),
        decreases parsed.effects.len() - i,
    {
        let ghost before = unopened(out@);
        let ghost plain = bare(out@);
        match &parsed.effects[i] {
            Effect::HttpRequest(req) => {
                add_request(&mut out, req, ask);
            },
            Effect::FileRead { path } => {
                if !holds_path(&body_files, path.as_str()) {
                    let file = file_path(path.as_str(), ask);
                    add_row(&mut out.file_inputs, EffectRow::FileRead(file), &ask.on_disk);
                }
            },
            Effect::FileWrite { path } => {
                let file = file_path(path.as_str(), ask);
                add_row(&mut out.others, EffectRow::FileWrite(file), &ask.on_disk);
            },
            Effect::ProcessSpawn { command } => {
                let sanitize = &ask.sanitize;
                let row = EffectRow::ProcessSpawn(sanitize(command.as_str()));
                add_row(&mut out.others, row, &ask.on_disk);
            },
            Effect::CredentialUse => {},
            Effect::Network => {},
        }
        i += 1;
        proof {
            assert forall|a: Answers| #[trigger] ask.give(a) implies unopened(out@).file_inputs
                == inputs_upto(a, effects, i as nat) && unopened(out@).others == others_upto(
                a,
                effects,
                i as nat,
            ) by {
                assert(unopened(out@).file_inputs =~= before.file_inputs + inputs_of(
                    a,
                    effects,
                    effects[i - 1],
                ));
                assert(unopened(out@).others =~= before.others + others_of(a, effects[i - 1]));
            }
            let a = no_answers();
            let x = inputs_of(a, effects, effects[i - 1]);
            let y = others_of(a, effects[i - 1]);
            let n = (i - 1) as nat;
            assert(bare(out@).file_inputs =~= plain.file_inputs + bare_rows(x));
            assert(bare(out@).others =~= plain.others + bare_rows(y));
            assert(bare_rows(inputs_upto(a, effects, n) + x) =~= bare_rows(
                inputs_upto(a, effects, n),
            ) + bare_rows(x));
            assert(bare_rows(others_upto(a, effects, n) + y) =~= bare_rows(
                others_upto(a, effects, n),
            ) + bare_rows(y));
        }
    }
    out
}

/// The row of a file that is read is left out exactly where a body row shows
/// that file.
pub proof fn law_read_row_unless_sent(a: Answers, effects: Seq<Effect>, path: String)
    ensures
        inputs_of(a, effects, Effect::FileRead { path }).len() == (if is_body_file(
            effects,
            effects.len() as int,
            path@,
        ) {
            0nat
        } else {
            1nat
        }),
{
}

/// Whether two effects differ at most in the values of headers.
pub open spec fn same_but_header_values(x: Effect, y: Effect) -> bool {
    match (x, y) {
        (Effect::HttpRequest(p), Effect::HttpRequest(q)) => {
            &&& p.method == q.method
            &&& p.url == q.url
            &&& p.body == q.body
            &&& p.auth == q.auth
            &&& p.headers@.len() == q.headers@.len()
            &&& forall|i: int|
                0 <= i < p.headers@.len() ==> (#[trigger] p.headers@[i]).name@ == q.headers@[i].name@
        },
        _ => x == y,
    }
}

/// Commands that differ only in the values of headers give the same rows: no
/// header value reaches a card.
pub proof fn law_rows_show_header_names_only(a: Answers, x: ParsedCommand, y: ParsedCommand)
    requires
        x.effects@.len() == y.effects@.len(),
        forall|i: int|
            0 <= i < x.effects@.len() ==> same_but_header_values(#[trigger] x.effects@[i], y.effects@[i]),
    ensures
        rows_of(a, x) == rows_of(a, y),
{
    lemma_rows_upto(a, x.effects@, y.effects@, x.effects@.len());
}

proof fn lemma_rows_upto(a: Answers, x: Seq<Effect>, y: Seq<Effect>, n: nat)
    requires
        x.len() == y.len(),
        n <= x.len(),
        forall|i: int| 0 <= i < x.len() ==> same_but_header_values(#[trigger] x[i], y[i]),
    ensures
        inputs_upto(a, x, n) == inputs_upto(a, y, n),
        others_upto(a, x, n) == others_upto(a, y, n),
    decreases n,
{
    if n > 0 {
        lemma_rows_upto(a, x, y, (n - 1) as nat);
        let p = x[n - 1];
        let q = y[n - 1];
        assert(same_but_header_values(p, q));
        if let Effect::FileRead { path } = p {
            lemma_same_body_files(x, y, path@);
        }
        if let (Effect::HttpRequest(r), Effect::HttpRequest(t)) = (p, q) {
            assert(names_shown(a, r.headers@) =~= names_shown(a, t.headers@));
        }
    }
}

proof fn lemma_same_body_files(x: Seq<Effect>, y: Seq<Effect>, path: Seq<char>)
    requires
        x.len() == y.len(),
        forall|i: int| 0 <= i < x.len() ==> same_but_header_values(#[trigger] x[i], y[i]),
    ensures
        is_body_file(x, x.len() as int, path) == is_body_file(y, y.len() as int, path),
{
    assert forall|i: int| 0 <= i < x.len() implies #[trigger] sends_file(x[i], path) == sends_file(
        y[i],
        path,
    ) by {
        assert(same_but_header_values(x[i], y[i]));
    }
    if is_body_file(x, x.len() as int, path) {
        let i = choose|i: int| 0 <= i < x.len() && #[trigger] sends_file(x[i], path);
        assert(sends_file(y[i], path));
    }
    if is_body_file(y, y.len() as int, path) {
        let i = choose|i: int| 0 <= i < y.len() && #[trigger] sends_file(y[i], path);
        assert(sends_file(x[i], path));
    }
}

/// How many items of the list are such.
pub open spec fn how_many<T>(items: Seq<T>, such: spec_fn(T) -> bool) -> nat {
    items.filter(such).len()
}

proof fn lemma_how_many_add<T>(x: Seq<T>, y: Seq<T>, such: spec_fn(T) -> bool)
    ensures
        how_many(x + y, such) == how_many(x, such) + how_many(y, such),
{
    Seq::filter_distributes_over_add(x, y, such);
}

proof fn lemma_how_many_few<T>(x: Seq<T>, such: spec_fn(T) -> bool)
    ensures
        x.len() == 0 ==> how_many(x, such) == 0,
        x.len() == 1 ==> how_many(x, such) == if such(x[0]) {
            1nat
        } else {
            0nat
        },
{
    reveal(Seq::filter);
    if x.len() == 1 {
        assert(x.drop_last() =~= Seq::empty());
        assert(x.drop_last().filter(such).len() == 0);
    }
}

proof fn lemma_rows_counted(
    a: Answers,
    effects: Seq<Effect>,
    n: nat,
    row: spec_fn(RowShown) -> bool,
    earns: spec_fn(Effect) -> bool,
)
    requires
        n <= effects.len(),
        forall|i: int|
            0 <= i < effects.len() ==> how_many(inputs_of(a, effects, #[trigger] effects[i]), row)
                + how_many(others_of(a, effects[i]), row) == if earns(effects[i]) {
                1nat
            } else {
                0nat
            },
    ensures
        how_many(inputs_upto(a, effects, n), row) + how_many(others_upto(a, effects, n), row)
            == how_many(effects.take(n as int), earns),
    decreases n,
{
    if n == 0 {
        lemma_how_many_few(inputs_upto(a, effects, n), row);
        lemma_how_many_few(others_upto(a, effects, n), row);
        lemma_how_many_few(effects.take(0), earns);
    } else {
        let m = (n - 1) as nat;
        let last = effects[n - 1];
        lemma_rows_counted(a, effects, m, row, earns);
        lemma_how_many_add(inputs_upto(a, effects, m), inputs_of(a, effects, last), row);
        lemma_how_many_add(others_upto(a, effects, m), others_of(a, last), row);
        lemma_how_many_add(effects.take(m as int), seq![last], earns);
        lemma_how_many_few(seq![last], earns);
        assert(effects.take(n as int) =~= effects.take(m as int) + seq![last]);
    }
}

/// Whether the effect is a request that authenticates.
pub open spec fn authenticates(effect: Effect) -> bool {
    effect is HttpRequest && effect->HttpRequest_0.auth is Some
}

/// Whether the effect is a request with a header.
pub open spec fn has_headers(effect: Effect) -> bool {
    effect is HttpRequest && effect->HttpRequest_0.headers@.len() > 0
}

/// Whether the effect is a request that sends a body.
pub open spec fn has_body(effect: Effect) -> bool {
    effect is HttpRequest && !(effect->HttpRequest_0.body is Empty)
}

/// Whether the effect reads a file that none of the requests sends.
pub open spec fn reads_unsent(effects: Seq<Effect>, effect: Effect) -> bool {
    effect is FileRead && forall|i: int|
        0 <= i < effects.len() && (#[trigger] effects[i]) is HttpRequest
            && effects[i]->HttpRequest_0.body is FromFile ==> !same_location(
            effects[i]->HttpRequest_0.body->FromFile_path@,
            effect->FileRead_path@,
        )
}

proof fn lemma_unsent(effects: Seq<Effect>, path: String)
    ensures
        reads_unsent(effects, Effect::FileRead { path }) <==> !is_body_file(
            effects,
            effects.len() as int,
            path@,
        ),
{
    let effect = Effect::FileRead { path };
    if is_body_file(effects, effects.len() as int, path@) {
        let i = choose|i: int| 0 <= i < effects.len() && #[trigger] sends_file(effects[i], path@);
        assert(effects[i] is HttpRequest);
    }
    if !reads_unsent(effects, effect) {
        let i = choose|i: int|
            0 <= i < effects.len() && (#[trigger] effects[i]) is HttpRequest
                && effects[i]->HttpRequest_0.body is FromFile && same_location(
                effects[i]->HttpRequest_0.body->FromFile_path@,
                path@,
            );
        assert(sends_file(effects[i], path@));
    }
}

proof fn lemma_rows_of_one(a: Answers, effects: Seq<Effect>, effect: Effect, row: spec_fn(RowShown) -> bool)
    ensures
        match effect {
            Effect::HttpRequest(req) => how_many(inputs_of(a, effects, effect), row) + how_many(
                others_of(a, effect),
                row,
            ) == how_many(header_row(a, req.headers@), row) + how_many(body_row(a, req.body), row)
                + how_many(auth_rows(a, req.auth), row),
            _ => true,
        },
        how_many(Seq::<RowShown>::empty(), row) == 0,
{
    let none = Seq::<RowShown>::empty();
    lemma_how_many_few(none, row);
    if let Effect::HttpRequest(req) = effect {
        let h = header_row(a, req.headers@);
        let b = if req.body is FromFile {
            none
        } else {
            body_row(a, req.body)
        };
        lemma_how_many_add(h, b, row);
        lemma_how_many_add(h + b, auth_rows(a, req.auth), row);
    }
}

/// Each thing that a human should see of a command has exactly one row, and
/// nothing else has one. Over all effects there are as many auth rows as
/// requests that authenticate, as many header rows as requests with a header, as
/// many body rows as requests with a body, a row for each file that is written
/// and each process, and one for each file that is read and that no request sends.
pub proof fn law_one_row_each(a: Answers, parsed: ParsedCommand)
    ensures
        ({
            let shown = rows_of(a, parsed).file_inputs + rows_of(a, parsed).others;
            let effects = parsed.effects@;
            &&& how_many(shown, |r: RowShown| r is Auth) == how_many(
                effects,
                |e: Effect| authenticates(e),
            )
            &&& how_many(shown, |r: RowShown| r is Headers) == how_many(
                effects,
                |e: Effect| has_headers(e),
            )
            &&& how_many(shown, |r: RowShown| r is Body) == how_many(
                effects,
                |e: Effect| has_body(e),
            )
            &&& how_many(shown, |r: RowShown| r is FileWrite) == how_many(
                effects,
                |e: Effect| e is FileWrite,
            )
            &&& how_many(shown, |r: RowShown| r is ProcessSpawn) == how_many(
                effects,
                |e: Effect| e is ProcessSpawn,
            )
            &&& how_many(shown, |r: RowShown| r is FileRead) == how_many(
                effects,
                |e: Effect| reads_unsent(effects, e),
            )
        }),
{
    let effects = parsed.effects@;
    lemma_counted(a, effects, |r: RowShown| r is Auth, |e: Effect| authenticates(e));
    lemma_counted(a, effects, |r: RowShown| r is Headers, |e: Effect| has_headers(e));
    lemma_counted(a, effects, |r: RowShown| r is Body, |e: Effect| has_body(e));
    lemma_counted(a, effects, |r: RowShown| r is FileWrite, |e: Effect| e is FileWrite);
    lemma_counted(a, effects, |r: RowShown| r is ProcessSpawn, |e: Effect| e is ProcessSpawn);
    lemma_counted(a, effects, |r: RowShown| r is FileRead, |e: Effect| reads_unsent(effects, e));
}

/// How many rows of a kind the effect earns, counted over the rows it can have.
spec fn earned(a: Answers, effects: Seq<Effect>, effect: Effect, row: spec_fn(RowShown) -> bool) -> bool {
    match effect {
        Effect::HttpRequest(req) => {
            ||| req.headers@.len() > 0 && row(RowShown::Headers(names_shown(a, req.headers@)))
            ||| !(req.body is Empty) && row(body_row(a, req.body)[0])
            ||| req.auth is Some && row(auth_rows(a, req.auth)[0])
        },
        Effect::FileRead { path } => reads_unsent(effects, effect) && row(
            RowShown::FileRead(file_shown(a, path@)),
        ),
        Effect::FileWrite { path } => row(RowShown::FileWrite(file_shown(a, path@))),
        Effect::ProcessSpawn { command } => row(RowShown::ProcessSpawn((a.clean)(command@))),
        _ => false,
    }
}

proof fn lemma_counted(
    a: Answers,
    effects: Seq<Effect>,
    row: spec_fn(RowShown) -> bool,
    earns: spec_fn(Effect) -> bool,
)
    requires
        forall|x: RowShown, y: RowShown|
            #[trigger] row(x) && #[trigger] row(y) ==> (x is Headers <==> y is Headers) && (x is Body
                <==> y is Body) && (x is Auth <==> y is Auth),
        forall|i: int|
            0 <= i < effects.len() ==> earns(#[trigger] effects[i]) == earned(
                a,
                effects,
                effects[i],
                row,
            ),
    ensures
        how_many(
            inputs_upto(a, effects, effects.len()) + others_upto(a, effects, effects.len()),
            row,
        ) == how_many(effects, earns),
{
    assert forall|i: int| 0 <= i < effects.len() implies how_many(
        inputs_of(a, effects, #[trigger] effects[i]),
        row,
    ) + how_many(others_of(a, effects[i]), row) == if earns(effects[i]) {
        1nat
    } else {
        0nat
    } by {
        let effect = effects[i];
        lemma_rows_of_one(a, effects, effect, row);
        lemma_how_many_few(inputs_of(a, effects, effect), row);
        lemma_how_many_few(others_of(a, effect), row);
        match effect {
            Effect::HttpRequest(req) => {
                lemma_how_many_few(header_row(a, req.headers@), row);
                lemma_how_many_few(body_row(a, req.body), row);
                lemma_how_many_few(auth_rows(a, req.auth), row);
            },
            Effect::FileRead { path } => {
                lemma_unsent(effects, path);
            },
            _ => {},
        }
    }
    lemma_rows_counted(a, effects, effects.len(), row, earns);
    lemma_how_many_add(
        inputs_upto(a, effects, effects.len()),
        others_upto(a, effects, effects.len()),
        row,
    );
    assert(effects.take(effects.len() as int) =~= effects);
}

proof fn lemma_rows_hold(a: Answers, effects: Seq<Effect>, n: nat, i: int)
    requires
        n <= effects.len(),
        0 <= i < n,
    ensures
        forall|r: RowShown| #[trigger]
            inputs_of(a, effects, effects[i]).contains(r) ==> inputs_upto(a, effects, n).contains(r),
        forall|r: RowShown| #[trigger]
            others_of(a, effects[i]).contains(r) ==> others_upto(a, effects, n).contains(r),
    decreases n,
{
    let m = (n - 1) as nat;
    let last = effects[n - 1];
    assert forall|r: RowShown| #[trigger]
        inputs_of(a, effects, effects[i]).contains(r) implies inputs_upto(a, effects, n).contains(r) by {
        if i < m {
            lemma_rows_hold(a, effects, m, i);
        }
        lemma_contains_add(inputs_upto(a, effects, m), inputs_of(a, effects, last), r);
    }
    assert forall|r: RowShown| #[trigger]
        others_of(a, effects[i]).contains(r) implies others_upto(a, effects, n).contains(r) by {
        if i < m {
            lemma_rows_hold(a, effects, m, i);
        }
        lemma_contains_add(others_upto(a, effects, m), others_of(a, last), r);
    }
}

proof fn lemma_contains_add(x: Seq<RowShown>, y: Seq<RowShown>, r: RowShown)
    ensures
        x.contains(r) || y.contains(r) ==> (x + y).contains(r),
{
    if x.contains(r) {
        let k = choose|k: int| 0 <= k < x.len() && x[k] == r;
        assert((x + y)[k] == r);
    } else if y.contains(r) {
        let k = choose|k: int| 0 <= k < y.len() && y[k] == r;
        assert((x + y)[x.len() + k] == r);
    }
}

/// Whether the row says that `user` or the header `name` authenticates, without
/// a secret in it: the name stands in it, made safe to paint, at this place.
pub open spec fn names_at(row: RowShown, name: Seq<char>, at: int) -> bool {
    row is Auth && 0 <= at && at + name.len() <= row->Auth_text.len() && row->Auth_text.subrange(
        at,
        at + name.len(),
    ) == name
}

/// The row of a file shows its path, and that of a process its command line.
pub proof fn law_rows_show_the_effect(a: Answers, parsed: ParsedCommand, i: int)
    requires
        0 <= i < parsed.effects@.len(),
    ensures
        ({
            let inputs = rows_of(a, parsed).file_inputs;
            let others = rows_of(a, parsed).others;
            match parsed.effects@[i] {
                Effect::FileWrite { path } => others.contains(
                    RowShown::FileWrite(
                        FileShown { display: (a.clean)(path@), path: path@, can_open: false },
                    ),
                ),
                Effect::ProcessSpawn { command } => others.contains(
                    RowShown::ProcessSpawn((a.clean)(command@)),
                ),
                Effect::FileRead { path } => reads_unsent(parsed.effects@, parsed.effects@[i])
                    ==> inputs.contains(
                    RowShown::FileRead(
                        FileShown { display: (a.clean)(path@), path: path@, can_open: false },
                    ),
                ),
                _ => true,
            }
        }),
{
    let effects = parsed.effects@;
    let effect = effects[i];
    lemma_rows_hold(a, effects, effects.len(), i);
    match effect {
        Effect::FileRead { path } => {
            lemma_unsent(effects, path);
            if reads_unsent(effects, effect) {
                let own = inputs_of(a, effects, effect);
                assert(reads_unsent(effects, Effect::FileRead { path }));
                let row = RowShown::FileRead(
                    FileShown { display: (a.clean)(path@), path: path@, can_open: false },
                );
                assert(own[0] == row);
                assert(own.contains(row));
                assert(inputs_upto(a, effects, effects.len()).contains(row));
                assert(rows_of(a, parsed).file_inputs.contains(row));
            }
        },
        Effect::FileWrite { .. } => {
            assert(others_of(a, effect).contains(others_of(a, effect)[0]));
        },
        Effect::ProcessSpawn { .. } => {
            assert(others_of(a, effect).contains(others_of(a, effect)[0]));
        },
        _ => {},
    }
}

/// The header row of a request has the name of each header, made safe to paint.
pub proof fn law_header_row_has_every_name(a: Answers, parsed: ParsedCommand, i: int)
    requires
        0 <= i < parsed.effects@.len(),
        has_headers(parsed.effects@[i]),
    ensures
        exists|names: Seq<Seq<char>>| #[trigger]
            rows_of(a, parsed).others.contains(RowShown::Headers(names)) && names.len()
                == parsed.effects@[i]->HttpRequest_0.headers@.len() && forall|k: int|
                0 <= k < names.len() ==> #[trigger] names[k] == (a.clean)(
                    parsed.effects@[i]->HttpRequest_0.headers@[k].name@,
                ),
{
    let effects = parsed.effects@;
    let req = effects[i]->HttpRequest_0;
    lemma_rows_hold(a, effects, effects.len(), i);
    let own = others_of(a, effects[i]);
    let names = names_shown(a, req.headers@);
    let row = RowShown::Headers(names);
    assert(own[0] == row);
    assert(own.contains(row));
    assert(rows_of(a, parsed).others.contains(row));
}

/// The body row of a request shows the file that is sent, or the text where the
/// bytes are text, or each field of the form with its name and value.
pub proof fn law_body_row_shows_what_is_sent(a: Answers, parsed: ParsedCommand, i: int) -> (row: RowShown)
    requires
        0 <= i < parsed.effects@.len(),
        has_body(parsed.effects@[i]),
    ensures
        row is Body,
        match parsed.effects@[i]->HttpRequest_0.body {
            Body::Empty => false,
            Body::FromFile { path } => rows_of(a, parsed).file_inputs.contains(row) && row->content
                == BodyShown::FromFile(
                FileShown { display: (a.clean)(path@), path: path@, can_open: false },
            ),
            Body::Inline { bytes } => rows_of(a, parsed).others.contains(row)
                && row->content is Inline && (valid_utf8(bytes@) ==> row->content
                == BodyShown::Inline((a.clean)(decode_utf8(bytes@)))),
            Body::Form { fields } => {
                &&& rows_of(a, parsed).others.contains(row)
                &&& row->content is Form
                &&& row->content->Form_0.len() == fields@.len()
                &&& forall|k: int|
                    0 <= k < fields@.len() ==> #[trigger] row->content->Form_0[k] == (a.clean)(
                        fields@[k].name@,
                    ).push('=') + (a.clean)(fields@[k].value@)
            },
        },
{
    let effects = parsed.effects@;
    let req = effects[i]->HttpRequest_0;
    lemma_rows_hold(a, effects, effects.len(), i);
    let row = body_row(a, req.body)[0];
    if req.body is FromFile {
        let own = inputs_of(a, effects, effects[i]);
        assert(own[0] == row);
        assert(own.contains(row));
    } else {
        let own = others_of(a, effects[i]);
        assert(own[header_row(a, req.headers@).len() as int] == row);
        assert(own.contains(row));
    }
    if let Body::Form { fields } = req.body {
        reveal_strlit("=");
        let lines = fields_shown(a, fields@);
        assert(row->content == BodyShown::Form(lines));
        assert forall|k: int| 0 <= k < fields@.len() implies #[trigger] row->content->Form_0[k] == (
        a.clean)(fields@[k].name@).push('=') + (a.clean)(fields@[k].value@) by {
            assert(lines[k] =~= (a.clean)(fields@[k].name@).push('=') + (a.clean)(fields@[k].value@));
        }
    }
    row
}

/// The auth row of a request shows as whom it authenticates and whether a secret
/// was withheld.
pub proof fn law_auth_row_shows_who(a: Answers, parsed: ParsedCommand, i: int) -> (row: RowShown)
    requires
        0 <= i < parsed.effects@.len(),
        authenticates(parsed.effects@[i]),
    ensures
        row is Auth,
        rows_of(a, parsed).others.contains(row),
        match parsed.effects@[i]->HttpRequest_0.auth->0 {
            Auth::Basic { user, password_redacted } => names_at(row, (a.clean)(user@), 11)
                && row->redacted == password_redacted,
            Auth::Bearer { token_redacted } => row->redacted == token_redacted,
            Auth::Header { name } => names_at(row, (a.clean)(name@), 0) && row->redacted,
            Auth::Netrc => !row->redacted,
        },
{
    let effects = parsed.effects@;
    let req = effects[i]->HttpRequest_0;
    lemma_rows_hold(a, effects, effects.len(), i);
    let own = others_of(a, effects[i]);
    let row = auth_rows(a, req.auth)[0];
    assert(own.last() == row);
    assert(own.contains(row));
    match req.auth->0 {
        Auth::Basic { user, .. } => {
            reveal_strlit("Basic user=");
            let name = (a.clean)(user@);
            assert(row->Auth_text.subrange(11, (11 + name.len()) as int) =~= name);
        },
        Auth::Header { name } => {
            let shown = (a.clean)(name@);
            assert(row->Auth_text.subrange(0, shown.len() as int) =~= shown);
        },
        _ => {},
    }
    row
}

proof fn lemma_how_many_mapped<T, U>(
    items: Seq<T>,
    f: spec_fn(T) -> U,
    such: spec_fn(T) -> bool,
    mapped: spec_fn(U) -> bool,
)
    requires
        forall|i: int| 0 <= i < items.len() ==> such(#[trigger] items[i]) == mapped(f(items[i])),
    ensures
        how_many(items.map_values(f), mapped) == how_many(items, such),
    decreases items.len(),
{
    reveal(Seq::filter);
    let all = items.map_values(f);
    if items.len() > 0 {
        let front = items.drop_last();
        assert forall|i: int| 0 <= i < front.len() implies such(#[trigger] front[i]) == mapped(
            f(front[i]),
        ) by {
            assert(front[i] == items[i]);
        }
        lemma_how_many_mapped(front, f, such, mapped);
        assert(all.drop_last() =~= front.map_values(f));
        assert(items[items.len() - 1] == items.last());
    }
}

/// How many rows of a kind there are, whatever was asked of the outside.
proof fn lemma_rows_of_a_kind(
    rows: Seq<EffectRow>,
    shown: Seq<RowShown>,
    kind: spec_fn(EffectRow) -> bool,
    kind_shown: spec_fn(RowShown) -> bool,
)
    requires
        bare_rows(row_views(rows)) == bare_rows(shown),
        forall|r: EffectRow| #[trigger] kind(r) == kind_shown(r@),
        forall|r: RowShown| #[trigger] kind_shown(bare_row(r)) == kind_shown(r),
    ensures
        how_many(rows, kind) == how_many(shown, kind_shown),
{
    lemma_how_many_mapped(rows, |r: EffectRow| r@, kind, kind_shown);
    lemma_how_many_mapped(row_views(rows), |r: RowShown| bare_row(r), kind_shown, kind_shown);
    lemma_how_many_mapped(shown, |r: RowShown| bare_row(r), kind_shown, kind_shown);
}

pub proof fn lemma_both_lists(
    rows: EffectRows,
    shown: RowsShown,
    kind: spec_fn(EffectRow) -> bool,
    kind_shown: spec_fn(RowShown) -> bool,
)
    requires
        bare(rows@) == bare(shown),
        forall|r: EffectRow| #[trigger] kind(r) == kind_shown(r@),
        forall|r: RowShown| #[trigger] kind_shown(bare_row(r)) == kind_shown(r),
    ensures
        how_many(rows.file_inputs@, kind) + how_many(rows.others@, kind) == how_many(
            shown.file_inputs + shown.others,
            kind_shown,
        ),
{
    lemma_rows_of_a_kind(rows.file_inputs@, shown.file_inputs, kind, kind_shown);
    lemma_rows_of_a_kind(rows.others@, shown.others, kind, kind_shown);
    lemma_how_many_add(shown.file_inputs, shown.others, kind_shown);
}

/// The rows of a command are counted by its effects, whatever the outside says:
/// one auth row for each request that authenticates and none for another, and
/// likewise for headers, bodies, files and processes.
pub proof fn law_card_has_one_row_each<S: Fn(&str) -> String, L: Fn(&str) -> bool, E: Fn(&str) -> bool>(
    parsed: &ParsedCommand,
    ask: &Lookups<S, L, E>,
    r: EffectRows,
)
    requires
        call_ensures(effect_rows::<S, L, E>, (parsed, ask), r),
    ensures
        how_many(r.file_inputs@, |row: EffectRow| row is Auth) + how_many(
            r.others@,
            |row: EffectRow| row is Auth,
        ) == how_many(parsed.effects@, |e: Effect| authenticates(e)),
        how_many(r.file_inputs@, |row: EffectRow| row is Headers) + how_many(
            r.others@,
            |row: EffectRow| row is Headers,
        ) == how_many(parsed.effects@, |e: Effect| has_headers(e)),
        how_many(r.file_inputs@, |row: EffectRow| row is Body) + how_many(
            r.others@,
            |row: EffectRow| row is Body,
        ) == how_many(parsed.effects@, |e: Effect| has_body(e)),
        how_many(r.file_inputs@, |row: EffectRow| row is FileWrite) + how_many(
            r.others@,
            |row: EffectRow| row is FileWrite,
        ) == how_many(parsed.effects@, |e: Effect| e is FileWrite),
        how_many(r.file_inputs@, |row: EffectRow| row is ProcessSpawn) + how_many(
            r.others@,
            |row: EffectRow| row is ProcessSpawn,
        ) == how_many(parsed.effects@, |e: Effect| e is ProcessSpawn),
        how_many(r.file_inputs@, |row: EffectRow| row is FileRead) + how_many(
            r.others@,
            |row: EffectRow| row is FileRead,
        ) == how_many(parsed.effects@, |e: Effect| reads_unsent(parsed.effects@, e)),
{
    let shown = rows_of(no_answers(), *parsed);
    law_one_row_each(no_answers(), *parsed);
    lemma_both_lists(r, shown, |row: EffectRow| row is Auth, |row: RowShown| row is Auth);
    lemma_both_lists(r, shown, |row: EffectRow| row is Headers, |row: RowShown| row is Headers);
    lemma_both_lists(r, shown, |row: EffectRow| row is Body, |row: RowShown| row is Body);
    lemma_both_lists(r, shown, |row: EffectRow| row is FileWrite, |row: RowShown| row is FileWrite);
    lemma_both_lists(
        r,
        shown,
        |row: EffectRow| row is ProcessSpawn,
        |row: RowShown| row is ProcessSpawn,
    );
    lemma_both_lists(r, shown, |row: EffectRow| row is FileRead, |row: RowShown| row is FileRead);
}

/// The place of a row among those of one request.
pub open spec fn row_rank(row: RowShown) -> int {
    match row {
        RowShown::Headers(_) => 0,
        RowShown::Body { .. } => 1,
        _ => 2,
    }
}

/// The rows of one request stand in one order: its headers, its body, its auth.
pub proof fn law_rows_of_a_request_in_order(a: Answers, parsed: ParsedCommand, j: int, k: int)
    requires
        parsed.effects@.len() == 1,
        parsed.effects@[0] is HttpRequest,
        0 <= j < k < rows_of(a, parsed).others.len(),
    ensures
        row_rank(rows_of(a, parsed).others[j]) < row_rank(rows_of(a, parsed).others[k]),
{
    let effects = parsed.effects@;
    reveal_with_fuel(others_upto, 2);
    assert(rows_of(a, parsed).others =~= others_of(a, effects[0]));
}

/// The rows stand in the order of the effects: those of the first effects come
/// first, whatever follows.
pub proof fn law_rows_in_the_order_of_the_effects(a: Answers, x: ParsedCommand, y: ParsedCommand)
    requires
        x.effects@.len() <= y.effects@.len(),
        forall|i: int| 0 <= i < x.effects@.len() ==> #[trigger] x.effects@[i] == y.effects@[i],
    ensures
        rows_of(a, x).others.is_prefix_of(rows_of(a, y).others),
{
    lemma_same_front(a, x.effects@, y.effects@, x.effects@.len());
    lemma_front_stays(a, y.effects@, x.effects@.len(), y.effects@.len());
}

proof fn lemma_same_front(a: Answers, x: Seq<Effect>, y: Seq<Effect>, n: nat)
    requires
        n <= x.len() <= y.len(),
        forall|i: int| 0 <= i < x.len() ==> #[trigger] x[i] == y[i],
    ensures
        others_upto(a, x, n) == others_upto(a, y, n),
    decreases n,
{
    if n > 0 {
        lemma_same_front(a, x, y, (n - 1) as nat);
        assert(x[n - 1] == y[n - 1]);
    }
}

proof fn lemma_front_stays(a: Answers, effects: Seq<Effect>, n: nat, m: nat)
    requires
        n <= m <= effects.len(),
    ensures
        others_upto(a, effects, n).is_prefix_of(others_upto(a, effects, m)),
    decreases m - n,
{
    let front = others_upto(a, effects, n);
    let all = others_upto(a, effects, m);
    if n < m {
        lemma_front_stays(a, effects, n, (m - 1) as nat);
        let less = others_upto(a, effects, (m - 1) as nat);
        assert(front =~= all.subrange(0, front.len() as int)) by {
            assert(front == less.subrange(0, front.len() as int));
            assert(all.subrange(0, front.len() as int) =~= less.subrange(0, front.len() as int));
        }
    } else {
        assert(front =~= all.subrange(0, front.len() as int));
    }
}

/// All rows of a card in one list are the file inputs and then the others, none
/// left out.
pub proof fn law_flattened_has_every_row(rows: EffectRows, r: Vec<EffectRow>)
    requires
        call_ensures(EffectRows::flattened, (rows,), r),
    ensures
        r@.len() == rows.file_inputs@.len() + rows.others@.len(),
        forall|i: int| 0 <= i < rows.file_inputs@.len() ==> (#[trigger] r@[i])@ == rows.file_inputs@[i]@,
        forall|i: int|
            rows.file_inputs@.len() <= i < r@.len() ==> (#[trigger] r@[i])@ == rows.others@[i
                - rows.file_inputs@.len()]@,
{
    let all = rows@.file_inputs + rows@.others;
    assert(row_views(r@).len() == r@.len());
    assert forall|i: int| 0 <= i < r@.len() implies (#[trigger] r@[i])@ == all[i] by {
        assert(row_views(r@)[i] == r@[i]@);
    }
}

} // verus!
