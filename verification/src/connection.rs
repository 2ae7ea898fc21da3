//! One request from the wire to its answer.
//!
//! The client's own view of a command line is not trusted: the daemon parses
//! the arguments itself. A request that cannot be parsed is denied. What the
//! rules decide is answered at once. The rest waits for a human, and is denied
//! where the daemon stops before one answers.
use crate::audit::AuditEntry;
use crate::cards::spans::{
    is_sgr, law_codes_count_one_after_the_other, law_escape_styles_what_follows, law_other_text_is_kept,
    param_run, plain_style, sgr, sgr_all, sgr_close, spans, stripped, stripped_from, SpanView,
};
use crate::command::{Decision, ParsedCommand, RiskSignal, RuleScope, WireDecision};
use crate::outside::{decides_all, told};
use crate::path::{file_name, file_name_of, law_new_name_in_the_same_directory};
use crate::pending::{restores, PendingDecision, PromptSummary, ResolvedEntry, SHUTDOWN_REASON};
use crate::policy::{
    evaluate, flag_answers, law_flag_is_an_answer, ruled, rules_ready, rules_said, summarizes, HostLookups,
    PolicyOutcome,
};
use crate::text::{chars_of, digits_value, law_split_undoes_join, split_on, texts};
use vstd::prelude::*;
use vstd::string::*;

verus! {

/// A request as it comes over the wire.
#[derive(Debug, PartialEq, Eq)]
pub struct Request {
    pub id: String,
    pub argv: Vec<String>,
    pub cwd: String,
    /// Whether the caller asks for a prompt whatever the rules say.
    pub force_prompt: bool,
}

/// Why a command line could not be parsed.
#[derive(Debug, PartialEq, Eq)]
pub enum ParseError {
    MissingArgument(String),
    ConflictingArgs(String),
    UnknownArgument(String),
    StreamingUnsupported,
    Other(String),
}

/// What the user is told of a parse error.
pub open spec fn explained(e: ParseError) -> Seq<char> {
    match e {
        ParseError::MissingArgument(what) => "missing required argument `"@ + what@ + "`"@,
        ParseError::ConflictingArgs(detail) => "conflicting arguments: "@ + detail@,
        ParseError::UnknownArgument(name) => "unknown argument `"@ + name@ + "`"@,
        ParseError::StreamingUnsupported => "streaming bodies are not supported (`-T -`, chunked transfer, or `-d @-` over 1 MiB)"@,
        ParseError::Other(s) => s@,
    }
}

/// What the user is told of a parse error.
pub fn explain_parse_error(e: &ParseError) -> (r: String)
    ensures
        r@ == explained(*e),
{
    match e {
        ParseError::MissingArgument(what) => {
            let mut out = "missing required argument `".to_owned();
            out.append(what.as_str());
            out.append("`");
            out
        },
        ParseError::ConflictingArgs(detail) => {
            let mut out = "conflicting arguments: ".to_owned();
            out.append(detail.as_str());
            out
        },
        ParseError::UnknownArgument(name) => {
            let mut out = "unknown argument `".to_owned();
            out.append(name.as_str());
            out.append("`");
            out
        },
        ParseError::StreamingUnsupported => {
            "streaming bodies are not supported (`-T -`, chunked transfer, or `-d @-` over 1 MiB)".to_owned()
        },
        ParseError::Other(s) => s.clone(),
    }
}

/// The functions that parse command lines.
pub struct Parsers<R, P, A> {
    /// Whether there is a parser for the program.
    pub registered: R,
    /// The parse of a request's arguments by the parser of its program.
    pub parse: P,
    /// The risk signals of a parsed command.
    pub analyze: A,
}

impl<
    R: Fn(&str) -> bool,
    P: Fn(&Request) -> Result<ParsedCommand, ParseError>,
    A: Fn(&ParsedCommand) -> Vec<RiskSignal>,
> Parsers<R, P, A> {
    /// The functions take every argument.
    pub open spec fn ready(&self) -> bool {
        &&& decides_all(self.registered)
        &&& forall|r: &Request| #[trigger] call_requires(self.parse, (r,))
        &&& forall|p: &ParsedCommand| #[trigger] call_requires(self.analyze, (p,))
    }

    /// The parser was asked for the parse of the request, and gave `out`.
    pub open spec fn parsed(&self, req: Request, out: Result<ParsedCommand, ParseError>) -> bool {
        exists|r: &Request| *r == req && #[trigger] call_ensures(self.parse, (r,), out)
    }

    /// The analysis was asked for the signals of the command, and gave `found`.
    pub open spec fn analyzed(&self, parsed: ParsedCommand, found: Seq<RiskSignal>) -> bool {
        exists|p: &ParsedCommand, out: Vec<RiskSignal>|
            *p == parsed && out@ == found && #[trigger] call_ensures(self.analyze, (p,), out)
    }
}

/// `new` is the command `old_` with other signals and working directory.
pub open spec fn restated(
    old_: ParsedCommand,
    new: ParsedCommand,
    cwd: Seq<char>,
    signals: Seq<RiskSignal>,
) -> bool {
    &&& new.command == old_.command
    &&& new.primary_verb == old_.primary_verb
    &&& new.primary_target == old_.primary_target
    &&& new.argv == old_.argv
    &&& new.effects == old_.effects
    &&& new.cwd@ == cwd
    &&& new.signals@ == signals
}

/// `result` is the parse of the request, by the answers that were given: an
/// error where there are no arguments or no parser for the program, else what
/// its parser says, with the signals of the analysis behind those of the parser.
pub open spec fn parse_result<
    R: Fn(&str) -> bool,
    P: Fn(&Request) -> Result<ParsedCommand, ParseError>,
    A: Fn(&ParsedCommand) -> Vec<RiskSignal>,
>(parsers: Parsers<R, P, A>, req: Request, result: Result<ParsedCommand, ParseError>) -> bool {
    if req.argv@.len() == 0 {
        result matches Err(ParseError::Other(why)) && why@ == "argv is empty"@
    } else {
        ||| told(parsers.registered, req.argv@[0]@, false) && (result matches Err(
            ParseError::Other(why),
        ) && why@ == "no parser registered for `"@ + req.argv@[0]@ + "`"@)
        ||| told(parsers.registered, req.argv@[0]@, true) && exists|
            out: Result<ParsedCommand, ParseError>,
        | #[trigger] parsers.parsed(req, out) && completed(parsers, req, out, result)
    }
}

/// `result` is what becomes of the parser's answer `out`.
pub open spec fn completed<
    R: Fn(&str) -> bool,
    P: Fn(&Request) -> Result<ParsedCommand, ParseError>,
    A: Fn(&ParsedCommand) -> Vec<RiskSignal>,
>(
    parsers: Parsers<R, P, A>,
    req: Request,
    out: Result<ParsedCommand, ParseError>,
    result: Result<ParsedCommand, ParseError>,
) -> bool {
    match out {
        Err(e) => result == Err::<ParsedCommand, ParseError>(e),
        Ok(parsed) => result matches Ok(new) && (exists|mid: ParsedCommand, found: Seq<RiskSignal>|
            #[trigger] parsers.analyzed(mid, found) && restated(
                parsed,
                mid,
                req.cwd@,
                parsed.signals@,
            ) && restated(parsed, new, req.cwd@, parsed.signals@ + found)),
    }
}

/// Parses the arguments of a request, in its working directory, and adds the
/// signals of the analysis.
pub fn parse_request<
    R: Fn(&str) -> bool,
    P: Fn(&Request) -> Result<ParsedCommand, ParseError>,
    A: Fn(&ParsedCommand) -> Vec<RiskSignal>,
>(req: &Request, parsers: &Parsers<R, P, A>) -> (r: Result<ParsedCommand, ParseError>)
    requires
        parsers.ready(),
    ensures
        parse_result(*parsers, *req, r),
{
    if req.argv.len() == 0 {
        return Err(ParseError::Other("argv is empty".to_owned()));
    }
    let program = req.argv[0].as_str();
    let registered = &parsers.registered;
    if !registered(program) {
        let mut why = "no parser registered for `".to_owned();
        why.append(program);
        why.append("`");
        return Err(ParseError::Other(why));
    }
    let parse = &parsers.parse;
    let answered = parse(req);
    assert(parsers.parsed(*req, answered));
    match answered {
        Err(e) => Err(e),
        Ok(found) => {
            let ghost first = found;
            let mut parsed = found;
            parsed.cwd = req.cwd.clone();
            let ghost mid = parsed;
            let analyze = &parsers.analyze;
            let mut more = analyze(&parsed);
            let ghost added = more@;
            parsed.signals.append(&mut more);
            proof {
                assert(parsers.analyzed(mid, added));
                assert(restated(first, mid, req.cwd@, first.signals@));
                assert(restated(first, parsed, req.cwd@, first.signals@ + added));
                assert(completed(*parsers, *req, Ok(first), Ok(parsed)));
            }
            Ok(parsed)
        },
    }
}

/// The name for the audit log of a request that could not be parsed: the file
/// name of its program.
pub open spec fn name_hint(argv: Seq<String>) -> Seq<char> {
    if argv.len() == 0 {
        "?"@
    } else {
        match file_name(argv[0]@) {
            Some(name) => name,
            None => argv[0]@,
        }
    }
}

/// The name for the audit log of a request that could not be parsed.
pub fn parser_name_hint(argv: &Vec<String>) -> (r: String)
    ensures
        r@ == name_hint(argv@),
{
    if argv.len() == 0 {
        return "?".to_owned();
    }
    match file_name_of(argv[0].as_str()) {
        Some(name) => name,
        None => argv[0].clone(),
    }
}

/// What came of a request before anybody was asked.
#[derive(Debug, PartialEq, Eq)]
pub enum Judged {
    /// It could not be parsed, and is denied.
    Refused { command: String, reason: String },
    /// The policy spoke.
    Decided { command: String, outcome: PolicyOutcome },
}

/// `outcome` is what the policy says of the parsed request, by the answers that
/// were given: its signals are those of the command and then those of the
/// known-hosts list.
pub open spec fn judged<
    D: Fn(&ParsedCommand) -> Decision,
    K: Fn(&str) -> bool,
    L: Fn(&str) -> bool,
    C: Fn(&str, &ParsedCommand) -> Vec<RiskSignal>,
>(
    hosts: HostLookups<K, L, C>,
    decide: D,
    req: Request,
    parsed: ParsedCommand,
    peer_sid: Option<i32>,
    outcome: PolicyOutcome,
) -> bool {
    let s = outcome.about();
    &&& s.parsed matches Some(checked) && {
        &&& exists|found: Seq<RiskSignal>| #[trigger]
            hosts.checked(req.id@, parsed, found) && restated(
                parsed,
                checked,
                parsed.cwd@,
                parsed.signals@ + found,
            )
        &&& hosts.flags_told(parsed.effects@, s.host_known@)
        &&& summarizes(s, req.id@, checked, req.force_prompt, s.host_known@, peer_sid)
        &&& if req.force_prompt {
            outcome is Prompt
        } else {
            exists|d: Decision| #[trigger] rules_said(decide, checked, d) && ruled(d, outcome)
        }
    }
}

/// Adds the signals of the known-hosts list to a parsed request and asks the
/// policy.
pub fn judge<
    D: Fn(&ParsedCommand) -> Decision,
    K: Fn(&str) -> bool,
    L: Fn(&str) -> bool,
    C: Fn(&str, &ParsedCommand) -> Vec<RiskSignal>,
>(
    req: &Request,
    parsed: ParsedCommand,
    peer_sid: Option<i32>,
    decide: &D,
    hosts: &HostLookups<K, L, C>,
) -> (r: PolicyOutcome)
    requires
        rules_ready(*decide),
        hosts.ready(),
    ensures
        judged(*hosts, *decide, *req, parsed, peer_sid, r),
        req.force_prompt ==> r is Prompt,
{
    let ghost first = parsed;
    let mut parsed = parsed;
    let check = &hosts.check;
    let mut more = check(req.id.as_str(), &parsed);
    let ghost found = more@;
    assert(hosts.checked(req.id@, first, found));
    parsed.signals.append(&mut more);
    assert(restated(first, parsed, first.cwd@, first.signals@ + found));
    evaluate(parsed, req.id.as_str(), req.force_prompt, peer_sid, decide, hosts)
}

/// `r` is what comes of the request whose parse is `result`.
pub open spec fn opened<
    D: Fn(&ParsedCommand) -> Decision,
    K: Fn(&str) -> bool,
    L: Fn(&str) -> bool,
    C: Fn(&str, &ParsedCommand) -> Vec<RiskSignal>,
>(
    hosts: HostLookups<K, L, C>,
    decide: D,
    req: Request,
    result: Result<ParsedCommand, ParseError>,
    peer_sid: Option<i32>,
    r: Judged,
) -> bool {
    match result {
        Err(e) => r matches Judged::Refused { command, reason } && command@ == name_hint(req.argv@)
            && reason@ == "parse failed: "@ + explained(e),
        Ok(parsed) => r matches Judged::Decided { command, outcome } && command == parsed.command
            && judged(hosts, decide, req, parsed, peer_sid, outcome),
    }
}

/// Takes a request as far as it goes without a human: parsed, checked against
/// the known-hosts list and put to the rules. One that cannot be parsed is
/// refused.
pub fn open_request<
    R: Fn(&str) -> bool,
    P: Fn(&Request) -> Result<ParsedCommand, ParseError>,
    A: Fn(&ParsedCommand) -> Vec<RiskSignal>,
    D: Fn(&ParsedCommand) -> Decision,
    K: Fn(&str) -> bool,
    L: Fn(&str) -> bool,
    C: Fn(&str, &ParsedCommand) -> Vec<RiskSignal>,
>(
    req: &Request,
    peer_sid: Option<i32>,
    parsers: &Parsers<R, P, A>,
    decide: &D,
    hosts: &HostLookups<K, L, C>,
) -> (r: Judged)
    requires
        parsers.ready(),
        rules_ready(*decide),
        hosts.ready(),
    ensures
        exists|result: Result<ParsedCommand, ParseError>| #[trigger]
            parse_result(*parsers, *req, result) && opened(
                *hosts,
                *decide,
                *req,
                result,
                peer_sid,
                r,
            ),
        req.argv@.len() == 0 ==> r is Refused,
        req.force_prompt ==> (r matches Judged::Decided { outcome, .. } ==> outcome is Prompt),
{
    let result = parse_request(req, parsers);
    let ghost shown = result;
    let out = match result {
        Ok(parsed) => {
            let command = parsed.command.clone();
            let outcome = judge(req, parsed, peer_sid, decide, hosts);
            Judged::Decided { command, outcome }
        },
        Err(e) => {
            let mut reason = "parse failed: ".to_owned();
            reason.append(explain_parse_error(&e).as_str());
            Judged::Refused { command: parser_name_hint(&req.argv), reason }
        },
    };
    proof {
        assert(parse_result(*parsers, *req, shown));
        assert(opened(*hosts, *decide, *req, shown, peer_sid, out));
    }
    out
}

/// The answer that a request gets without a human: a denial where it could not
/// be parsed, and what the rule says where a rule decided.
pub fn answer_without_prompt(judged: &Judged) -> (r: Option<PendingDecision>)
    ensures
        match *judged {
            Judged::Refused { reason, .. } => r matches Some(d) && d.decision == WireDecision::Deny
                && d.reason == reason,
            Judged::Decided { outcome: PolicyOutcome::Auto { decision, reason, .. }, .. } => {
                r matches Some(d) && d.decision == decision && d.reason == reason
            },
            Judged::Decided { outcome: PolicyOutcome::Prompt(_), .. } => r is None,
        },
{
    match judged {
        Judged::Refused { reason, .. } => Some(
            PendingDecision { decision: WireDecision::Deny, reason: reason.clone() },
        ),
        Judged::Decided { outcome, .. } => match outcome {
            PolicyOutcome::Auto { decision, reason, .. } => Some(
                PendingDecision { decision: *decision, reason: reason.clone() },
            ),
            PolicyOutcome::Prompt(_) => None,
        },
    }
}

/// The reason for a request that nobody answered before the daemon stopped.
pub open spec fn cancelled_reason(id: Seq<char>) -> Seq<char> {
    SHUTDOWN_REASON@ + " (pending request `"@ + id + "` cancelled)"@
}

/// The answer to a request that waited: what a surface said, or a denial where
/// the daemon stopped first.
pub fn prompt_answer(id: &str, answer: Option<PendingDecision>) -> (r: PendingDecision)
    ensures
        answer matches Some(d) ==> r == d,
        answer is None ==> r.decision == WireDecision::Deny && r.reason@ == cancelled_reason(id@),
{
    match answer {
        Some(d) => d,
        None => {
            let mut reason = SHUTDOWN_REASON.to_owned();
            reason.append(" (pending request `");
            reason.append(id);
            reason.append("` cancelled)");
            PendingDecision { decision: WireDecision::Deny, reason }
        },
    }
}

/// The answer that goes back over the wire.
#[derive(Debug, PartialEq, Eq)]
pub struct Reply {
    pub id: String,
    pub decision: WireDecision,
    pub reason: String,
}

/// The answer to the request `id`.
pub fn reply(id: &str, answer: &PendingDecision) -> (r: Reply)
    ensures
        r.id@ == id@,
        r.decision == answer.decision,
        r.reason@ == answer.reason@,
{
    Reply { id: id.to_owned(), decision: answer.decision, reason: answer.reason.clone() }
}

/// What the card of a request showed, for the audit log: its summary, its
/// rendered detail, and the rule that decided, where a rule did.
#[derive(Debug, PartialEq, Eq)]
pub struct CardRecord {
    pub summary: PromptSummary,
    pub rendered: String,
    pub rule: Option<(String, RuleScope)>,
}

/// `e` is the line of the audit log for the request `req` with this answer.
pub open spec fn logged(
    e: AuditEntry,
    req: Request,
    timestamp: String,
    command: String,
    answer: PendingDecision,
    card: Option<CardRecord>,
) -> bool {
    &&& e.id == req.id
    &&& e.timestamp == timestamp
    &&& e.command == command
    &&& texts(e.argv@) == texts(req.argv@)
    &&& e.decision == answer.decision
    &&& e.reason == answer.reason
    &&& e.force_prompt == req.force_prompt
    &&& match card {
        Some(c) => {
            &&& e.primary_verb == c.summary.primary_verb
            &&& e.primary_target == c.summary.primary_target
            &&& e.signals == c.summary.signals
            &&& e.parsed == c.summary.parsed
            &&& e.host_known == c.summary.host_known
            &&& e.peer_sid == c.summary.peer_sid
            &&& e.rendered == c.rendered
            &&& match c.rule {
                Some((rule_id, scope)) => e.rule_id == Some(rule_id) && e.rule_scope == Some(scope),
                None => e.rule_id is None && e.rule_scope is None,
            }
        },
        None => {
            &&& e.primary_verb@.len() == 0
            &&& e.primary_target@.len() == 0
            &&& e.signals@.len() == 0
            &&& e.parsed is None
            &&& e.host_known@.len() == 0
            &&& e.peer_sid is None
            &&& e.rendered@.len() == 0
            &&& e.rule_id is None
            &&& e.rule_scope is None
        },
    }
}

/// The line of the audit log for a request. It carries what the card showed,
/// where the request had one, so that the history survives a restart.
pub fn audit_entry(
    req: &Request,
    timestamp: String,
    command: String,
    answer: &PendingDecision,
    card: Option<CardRecord>,
) -> (r: AuditEntry)
    ensures
        logged(r, *req, timestamp, command, *answer, card),
{
    let mut argv: Vec<String> = Vec::new();
    let mut i: usize = 0;
    while i < req.argv.len()
        invariant
            i <= req.argv.len(),
            argv@ == req.argv@.take(i as int),
        decreases req.argv.len() - i,
    {
        argv.push(req.argv[i].clone());
        i += 1;
        assert(argv@ =~= req.argv@.take(i as int));
    }
    assert(argv@ =~= req.argv@);
    match card {
        Some(c) => {
            let (rule_id, rule_scope) = match c.rule {
                Some((rule_id, scope)) => (Some(rule_id), Some(scope)),
                None => (None, None),
            };
            AuditEntry {
                id: req.id.clone(),
                timestamp,
                command,
                argv,
                decision: answer.decision,
                reason: answer.reason.clone(),
                rule_id,
                rule_scope,
                force_prompt: req.force_prompt,
                primary_verb: c.summary.primary_verb,
                primary_target: c.summary.primary_target,
                signals: c.summary.signals,
                parsed: c.summary.parsed,
                host_known: c.summary.host_known,
                rendered: c.rendered,
                peer_sid: c.summary.peer_sid,
            }
        },
        None => AuditEntry {
            id: req.id.clone(),
            timestamp,
            command,
            argv,
            decision: answer.decision,
            reason: answer.reason.clone(),
            rule_id: None,
            rule_scope: None,
            force_prompt: req.force_prompt,
            primary_verb: String::new(),
            primary_target: String::new(),
            signals: Vec::new(),
            parsed: None,
            host_known: Vec::new(),
            rendered: String::new(),
            peer_sid: None,
        },
    }
}

/// Whether `c` is of the portable set for file names, and so can stand in a
/// shell word as it is.
pub open spec fn shell_safe(c: char) -> bool {
    ||| '0' <= c && c <= '9'
    ||| 'a' <= c && c <= 'z'
    ||| 'A' <= c && c <= 'Z'
    ||| c == '-'
    ||| c == '_'
    ||| c == '.'
}

pub open spec fn all_safe(s: Seq<char>) -> bool {
    forall|i: int| 0 <= i < s.len() ==> shell_safe(#[trigger] s[i])
}

/// The inside of a single-quoted shell word: a quote closes the word, stands
/// escaped, and opens the word again.
pub open spec fn quoted_body(s: Seq<char>) -> Seq<char>
    decreases s.len(),
{
    if s.len() == 0 {
        Seq::empty()
    } else if s.last() == '\'' {
        quoted_body(s.drop_last()) + "'\\''"@
    } else {
        quoted_body(s.drop_last()).push(s.last())
    }
}

/// `s` as a shell word.
pub open spec fn quoted(s: Seq<char>) -> Seq<char> {
    if s.len() > 0 && all_safe(s) {
        s
    } else {
        "'"@ + quoted_body(s) + "'"@
    }
}

/// `arg` as a shell word, in quotes where it needs them.
pub fn shell_quote(arg: &str) -> (r: String)
    ensures
        r@ == quoted(arg@),
{
    let v = chars_of(arg);
    let mut safe = v.len() > 0;
    let mut i: usize = 0;
    while i < v.len()
        invariant
            i <= v.len(),
            safe == (v.len() > 0 && forall|k: int| 0 <= k < i ==> shell_safe(#[trigger] v@[k])),
        decreases v.len() - i,
    {
        let c = v[i];
        let ok = (c >= '0' && c <= '9') || (c >= 'a' && c <= 'z') || (c >= 'A' && c <= 'Z') || c == '-'
            || c == '_' || c == '.';
        assert(ok == shell_safe(v@[i as int]));
        if !ok {
            safe = false;
        }
        i += 1;
    }
    if safe {
        return arg.to_owned();
    }
    let mut out = "'".to_owned();
    let mut k: usize = 0;
    assert(v@.take(0) =~= Seq::empty());
    assert("'"@ + quoted_body(v@.take(0)) =~= "'"@);
    while k < v.len()
        invariant
            k <= v.len(),
            out@ == "'"@ + quoted_body(v@.take(k as int)),
        decreases v.len() - k,
    {
        let ghost before = quoted_body(v@.take(k as int));
        proof {
            assert(v@.take(k + 1).drop_last() =~= v@.take(k as int));
            assert(v@.take(k + 1).last() == v@[k as int]);
        }
        if v[k] == '\'' {
            out.append("'\\''");
            assert(out@ =~= "'"@ + (before + "'\\''"@));
        } else {
            out.push(v[k]);
            assert(out@ =~= "'"@ + before.push(v@[k as int]));
        }
        k += 1;
    }
    assert(v@.take(k as int) =~= v@);
    out.append("'");
    out
}

/// What stands behind the program in the raw view: each argument as a shell
/// word with a space before it.
pub open spec fn quoted_args(argv: Seq<String>, n: nat) -> Seq<char>
    decreases n,
{
    if n <= 1 {
        Seq::empty()
    } else {
        quoted_args(argv, (n - 1) as nat) + (" "@ + quoted(argv[n - 1]@))
    }
}

/// The raw view of a command: the program in bold, and its arguments.
pub open spec fn detail(argv: Seq<String>) -> Seq<char> {
    if argv.len() == 0 {
        Seq::empty()
    } else {
        "\x1b[1m"@ + argv[0]@ + "\x1b[0m"@ + quoted_args(argv, argv.len())
    }
}

/// The raw view of a command, with the program in bold: what the agent invoked,
/// fit to be pasted into a shell.
pub fn render_detail(parsed: &ParsedCommand) -> (r: String)
    ensures
        r@ == detail(parsed.argv@),
{
    if parsed.argv.len() == 0 {
        return String::new();
    }
    let mut out = "\x1b[1m".to_owned();
    out.append(parsed.argv[0].as_str());
    out.append("\x1b[0m");
    let ghost head = out@;
    let mut i: usize = 1;
    assert(head + quoted_args(parsed.argv@, 1) =~= head);
    while i < parsed.argv.len()
        invariant
            1 <= i <= parsed.argv.len(),
            out@ == head + quoted_args(parsed.argv@, i as nat),
        decreases parsed.argv.len() - i,
    {
        let ghost before = quoted_args(parsed.argv@, i as nat);
        out.append(" ");
        let word = shell_quote(parsed.argv[i].as_str());
        out.append(word.as_str());
        assert(out@ =~= head + (before + (" "@ + word@)));
        i += 1;
    }
    out
}

/// Whether `c` means something to a shell outside quotes: it ends the word,
/// starts a quotation or a comment, or is expanded.
pub open spec fn shell_special(c: char) -> bool {
    ||| c == ' ' || c == '\t' || c == '\n' || c == '\r'
    ||| c == '|' || c == '&' || c == ';' || c == '<' || c == '>' || c == '(' || c == ')'
    ||| c == '$' || c == '`' || c == '\\' || c == '"' || c == '\''
    ||| c == '*' || c == '?' || c == '[' || c == ']' || c == '{' || c == '}'
    ||| c == '#' || c == '~' || c == '=' || c == '%' || c == '!' || c == '^'
}

/// `c` and what a shell makes of the rest of the word.
pub open spec fn then_reads(c: char, rest: Option<Seq<char>>) -> Option<Seq<char>> {
    match rest {
        Some(s) => Some(seq![c] + s),
        None => None,
    }
}

/// What a shell makes of the text `t` from position `i` on, `open` being
/// whether a single quote is open there: one word, with every character taken
/// for itself, or none where the text is more than a word, has something to
/// expand, or ends within quotes.
pub open spec fn shell_reads(t: Seq<char>, i: int, open: bool) -> Option<Seq<char>>
    decreases t.len() - i,
{
    if i < 0 || i >= t.len() {
        if open {
            None
        } else {
            Some(Seq::empty())
        }
    } else if open {
        if t[i] == '\'' {
            shell_reads(t, i + 1, false)
        } else {
            then_reads(t[i], shell_reads(t, i + 1, true))
        }
    } else if t[i] == '\'' {
        shell_reads(t, i + 1, true)
    } else if t[i] == '\\' && i + 1 < t.len() && t[i + 1] != '\n' {
        then_reads(t[i + 1], shell_reads(t, i + 2, false))
    } else if shell_special(t[i]) {
        None
    } else {
        then_reads(t[i], shell_reads(t, i + 1, false))
    }
}

/// `s` in front of what a shell makes of the rest of the word.
pub open spec fn all_then(s: Seq<char>, rest: Option<Seq<char>>) -> Option<Seq<char>> {
    match rest {
        Some(r) => Some(s + r),
        None => None,
    }
}

proof fn lemma_shell_reads_body(front: Seq<char>, s: Seq<char>, rest: Seq<char>)
    ensures
        ({
            let t = front + quoted_body(s) + rest;
            shell_reads(t, front.len() as int, true) == all_then(
                s,
                shell_reads(t, (front.len() + quoted_body(s).len()) as int, true),
            )
        }),
    decreases s.len(),
{
    let t = front + quoted_body(s) + rest;
    let at = front.len() as int;
    if s.len() == 0 {
        if let Some(r) = shell_reads(t, at, true) {
            assert(s + r =~= r);
        }
    } else {
        let s0 = s.drop_last();
        let c = s.last();
        let b0 = quoted_body(s0);
        if c == '\'' {
            reveal_strlit("'\\''");
            let e = "'\\''"@;
            assert(e =~= seq!['\'', '\\', '\'', '\'']);
            assert(t =~= front + b0 + (e + rest));
            lemma_shell_reads_body(front, s0, e + rest);
            let k: int = at + b0.len();
            assert(t[k] == '\'');
            assert(t[k + 1] == '\\');
            assert(t[k + 2] == '\'');
            assert(t[k + 3] == '\'');
            assert(shell_reads(t, k, true) == shell_reads(t, k + 1, false));
            assert(shell_reads(t, k + 1, false) == then_reads('\'', shell_reads(t, k + 3, false)));
            assert(shell_reads(t, k + 3, false) == shell_reads(t, k + 4, true));
            if let Some(tail) = shell_reads(t, k + 4, true) {
                assert(s0 + (seq!['\''] + tail) =~= s + tail);
            }
        } else {
            assert(t =~= front + b0 + (seq![c] + rest));
            lemma_shell_reads_body(front, s0, seq![c] + rest);
            let k: int = at + b0.len();
            assert(t[k] == c);
            assert(shell_reads(t, k, true) == then_reads(c, shell_reads(t, k + 1, true)));
            if let Some(tail) = shell_reads(t, k + 1, true) {
                assert(s0 + (seq![c] + tail) =~= s + tail);
            }
        }
    }
}

proof fn lemma_shell_reads_safe(t: Seq<char>, i: int)
    requires
        all_safe(t),
        0 <= i <= t.len(),
    ensures
        shell_reads(t, i, false) == Some(t.skip(i)),
    decreases t.len() - i,
{
    if i < t.len() {
        assert(shell_safe(t[i]));
        assert(!shell_special(t[i]));
        lemma_shell_reads_safe(t, i + 1);
        assert(seq![t[i]] + t.skip(i + 1) =~= t.skip(i));
    } else {
        assert(t.skip(i) =~= Seq::empty());
    }
}

/// A shell reads a quoted argument back as the argument: as one word, with
/// nothing in it expanded.
pub proof fn law_shell_reads_quoted_argument(s: Seq<char>)
    ensures
        shell_reads(quoted(s), 0, false) == Some(s),
{
    if s.len() > 0 && all_safe(s) {
        lemma_shell_reads_safe(s, 0);
        assert(s.skip(0) =~= s);
    } else {
        reveal_strlit("'");
        let q = "'"@;
        assert(q =~= seq!['\'']);
        let t = quoted(s);
        assert(t == q + quoted_body(s) + q);
        lemma_shell_reads_body(q, s, q);
        let end: int = 1 + quoted_body(s).len() as int;
        assert(t[0] == '\'');
        assert(t[end] == '\'');
        assert(shell_reads(t, 0, false) == shell_reads(t, 1, true));
        assert(shell_reads(t, end, true) == shell_reads(t, end + 1, false));
        assert(shell_reads(t, end + 1, false) == Some(Seq::<char>::empty()));
        assert(s + Seq::<char>::empty() =~= s);
    }
}

/// A word that stands bare has no blank in it and nothing that means something
/// to a shell, and it is not empty.
pub proof fn law_bare_word_is_plain(s: Seq<char>, i: int)
    requires
        quoted(s) == s,
        0 <= i < s.len(),
    ensures
        shell_safe(s[i]),
        !shell_special(s[i]),
{
    reveal_strlit("'");
    if !all_safe(s) {
        lemma_quoted_is_longer(s);
        assert(quoted(s).len() >= s.len() + 2);
    }
}

proof fn lemma_quoted_is_longer(s: Seq<char>)
    ensures
        quoted_body(s).len() >= s.len(),
    decreases s.len(),
{
    if s.len() > 0 {
        reveal_strlit("'\\''");
        lemma_quoted_is_longer(s.drop_last());
    }
}

/// Whether `s` holds no escape character.
pub open spec fn no_escape(s: Seq<char>) -> bool {
    forall|i: int| 0 <= i < s.len() ==> #[trigger] s[i] != '\x1b'
}

proof fn lemma_body_no_escape(s: Seq<char>)
    requires
        no_escape(s),
    ensures
        no_escape(quoted_body(s)),
    decreases s.len(),
{
    if s.len() > 0 {
        assert(no_escape(s.drop_last())) by {
            assert forall|i: int| 0 <= i < s.drop_last().len() implies #[trigger] s.drop_last()[i]
                != '\x1b' by {
                assert(s[i] != '\x1b');
            }
        }
        lemma_body_no_escape(s.drop_last());
        reveal_strlit("'\\''");
        assert(s[s.len() - 1] != '\x1b');
        let b = quoted_body(s.drop_last());
        assert forall|i: int| 0 <= i < quoted_body(s).len() implies #[trigger] quoted_body(s)[i]
            != '\x1b' by {
            if i < b.len() {
                assert(quoted_body(s)[i] == b[i]);
            }
        }
    }
}

proof fn lemma_args_no_escape(argv: Seq<String>, n: nat)
    requires
        n <= argv.len(),
        forall|i: int| 0 <= i < argv.len() ==> no_escape((#[trigger] argv[i])@),
    ensures
        no_escape(quoted_args(argv, n)),
    decreases n,
{
    if n > 1 {
        lemma_args_no_escape(argv, (n - 1) as nat);
        let arg = argv[n - 1]@;
        assert(no_escape(arg));
        lemma_body_no_escape(arg);
        reveal_strlit("'");
        reveal_strlit(" ");
        let word = quoted(arg);
        assert(no_escape(word)) by {
            if !(arg.len() > 0 && all_safe(arg)) {
                let b = quoted_body(arg);
                assert forall|i: int| 0 <= i < word.len() implies #[trigger] word[i] != '\x1b' by {
                    if 1 <= i < 1 + b.len() {
                        assert(word[i] == b[i - 1]);
                    }
                }
            }
        }
        let front = quoted_args(argv, (n - 1) as nat);
        let all = quoted_args(argv, n);
        assert forall|i: int| 0 <= i < all.len() implies #[trigger] all[i] != '\x1b' by {
            if i < front.len() {
                assert(all[i] == front[i]);
            } else if i > front.len() {
                assert(all[i] == word[i - front.len() - 1]);
            }
        }
    }
}

proof fn lemma_stripped_run(s: Seq<char>, i: int, j: int)
    requires
        0 <= i <= j <= s.len(),
        forall|k: int| i <= k < j ==> #[trigger] s[k] != '\x1b',
    ensures
        stripped_from(s, i) == s.subrange(i, j) + stripped_from(s, j),
    decreases j - i,
{
    if i < j {
        assert(s[i] != '\x1b');
        lemma_stripped_run(s, i + 1, j);
        assert(seq![s[i]] + (s.subrange(i + 1, j) + stripped_from(s, j)) =~= s.subrange(i, j)
            + stripped_from(s, j));
    } else {
        assert(s.subrange(i, j) + stripped_from(s, j) =~= stripped_from(s, j));
    }
}

/// What is copied from the raw view is the command line: the program, and each
/// argument as a shell word. Arguments with an escape character of their own
/// are left out, as such a character can take the text behind it along.
pub proof fn law_raw_view_is_the_command_line(argv: Seq<String>)
    requires
        argv.len() > 0,
        forall|i: int| 0 <= i < argv.len() ==> no_escape((#[trigger] argv[i])@),
    ensures
        stripped(detail(argv)) == argv[0]@ + quoted_args(argv, argv.len()),
{
    reveal_strlit("\x1b[1m");
    reveal_strlit("\x1b[0m");
    let on = "\x1b[1m"@;
    let off = "\x1b[0m"@;
    let program = argv[0]@;
    let args = quoted_args(argv, argv.len());
    let s = detail(argv);
    assert(s == on + program + off + args);
    assert(no_escape(program));
    lemma_args_no_escape(argv, argv.len());
    let p: int = 4 + program.len() as int;
    assert(s[0] == '\x1b' && s[1] == '[' && s[2] == '1' && s[3] == 'm');
    assert(param_run(s, 3) == 0);
    assert(param_run(s, 2) == 1);
    assert(is_sgr(s, 0) && sgr_close(s, 0) == 3);
    assert(stripped_from(s, 0) == stripped_from(s, 4));
    assert forall|k: int| 4 <= k < p implies #[trigger] s[k] != '\x1b' by {
        assert(s[k] == program[k - 4]);
    }
    lemma_stripped_run(s, 4, p);
    assert(s.subrange(4, p) =~= program);
    assert(s[p] == '\x1b' && s[p + 1] == '[' && s[p + 2] == '0' && s[p + 3] == 'm');
    assert(param_run(s, p + 3) == 0);
    assert(param_run(s, p + 2) == 1);
    assert(is_sgr(s, p) && sgr_close(s, p) == p + 3);
    assert(stripped_from(s, p) == stripped_from(s, p + 4));
    assert forall|k: int| p + 4 <= k < s.len() implies #[trigger] s[k] != '\x1b' by {
        assert(s[k] == args[k - p - 4]);
    }
    lemma_stripped_run(s, p + 4, s.len() as int);
    assert(s.subrange(p + 4, s.len() as int) =~= args);
    assert(stripped_from(s, s.len() as int) =~= Seq::empty());
    assert(stripped(s) =~= program + args);
}

/// The history survives a restart: the entry that is read back from the log
/// line of a request has what its card showed, the answer it got and the rule
/// that decided.
pub proof fn law_history_survives_restart(
    line: AuditEntry,
    req: Request,
    timestamp: String,
    command: String,
    answer: PendingDecision,
    card: CardRecord,
    back: ResolvedEntry,
)
    requires
        logged(line, req, timestamp, command, answer, Some(card)),
        restores(line, back),
        card.summary.id == req.id,
        card.summary.command == command,
        card.summary.force_prompt == req.force_prompt,
    ensures
        back.summary == card.summary,
        back.rendered == card.rendered,
        back.decision == answer.decision,
        back.rule_id == (match card.rule {
            Some((rule_id, _)) => Some(rule_id),
            None => None,
        }),
        back.rule_scope == (match card.rule {
            Some((_, scope)) => Some(scope),
            None => None,
        }),
{
}

/// A request that asks for a prompt is never answered by a rule, and one that
/// cannot be parsed never reaches the rules.
pub proof fn law_dry_run_always_asks<
    D: Fn(&ParsedCommand) -> Decision,
    K: Fn(&str) -> bool,
    L: Fn(&str) -> bool,
    C: Fn(&str, &ParsedCommand) -> Vec<RiskSignal>,
>(
    hosts: HostLookups<K, L, C>,
    decide: D,
    req: Request,
    result: Result<ParsedCommand, ParseError>,
    peer_sid: Option<i32>,
    r: Judged,
)
    requires
        opened(hosts, decide, req, result, peer_sid, r),
    ensures
        req.force_prompt && result is Ok ==> r is Decided && r->outcome is Prompt,
        result is Err ==> r is Refused,
{
}

/// Every signal that the analysis gave is among those of the command that comes
/// out. Where a request parses, its parser was asked about that request, the
/// analysis was asked about what the parser gave, in the working directory of
/// the request, and the signals are those of the parser with those of the
/// analysis behind them. All else is as the parser gave it.
pub proof fn law_signals_of_the_analysis_come_out<
    R: Fn(&str) -> bool,
    P: Fn(&Request) -> Result<ParsedCommand, ParseError>,
    A: Fn(&ParsedCommand) -> Vec<RiskSignal>,
>(parsers: Parsers<R, P, A>, req: Request, new: ParsedCommand)
    requires
        parse_result(parsers, req, Ok(new)),
    ensures
        exists|asked: &Request, own: ParsedCommand, seen: &ParsedCommand, found: Vec<RiskSignal>|
            #[trigger] call_ensures(parsers.parse, (asked,), Ok(own)) && #[trigger] call_ensures(
                parsers.analyze,
                (seen,),
                found,
            ) && {
                &&& *asked == req
                &&& req.argv@.len() > 0
                &&& seen.effects == own.effects
                &&& seen.argv == own.argv
                &&& seen.command == own.command
                &&& seen.signals@ == own.signals@
                &&& seen.cwd@ == req.cwd@
                &&& new.signals@.len() == own.signals@.len() + found@.len()
                &&& new.signals@.take(own.signals@.len() as int) == own.signals@
                &&& new.signals@.skip(own.signals@.len() as int) == found@
                &&& new.command == own.command
                &&& new.primary_verb == own.primary_verb
                &&& new.primary_target == own.primary_target
                &&& new.argv == own.argv
                &&& new.effects == own.effects
                &&& new.cwd@ == req.cwd@
            },
{
    let result: Result<ParsedCommand, ParseError> = Ok(new);
    let out = choose|out: Result<ParsedCommand, ParseError>| #[trigger]
        parsers.parsed(req, out) && completed(parsers, req, out, result);
    let own = out->Ok_0;
    let (mid, added) = choose|mid: ParsedCommand, found: Seq<RiskSignal>|
        #[trigger] parsers.analyzed(mid, found) && restated(own, mid, req.cwd@, own.signals@)
            && restated(own, new, req.cwd@, own.signals@ + found);
    let asked = choose|r: &Request| *r == req && #[trigger] call_ensures(parsers.parse, (r,), out);
    let (seen, found) = choose|p: &ParsedCommand, v: Vec<RiskSignal>|
        *p == mid && v@ == added && #[trigger] call_ensures(parsers.analyze, (p,), v);
    assert(call_ensures(parsers.parse, (asked,), Ok(own)));
    assert(call_ensures(parsers.analyze, (seen,), found));
    assert(new.signals@.take(own.signals@.len() as int) =~= own.signals@);
    assert(new.signals@.skip(own.signals@.len() as int) =~= found@);
}

/// A request that no parser is registered for is an error that names its
/// program, and what a parser rejects is rejected for the parser's own reason.
pub proof fn law_what_does_not_parse_is_an_error<
    R: Fn(&str) -> bool,
    P: Fn(&Request) -> Result<ParsedCommand, ParseError>,
    A: Fn(&ParsedCommand) -> Vec<RiskSignal>,
>(parsers: Parsers<R, P, A>, req: Request, result: Result<ParsedCommand, ParseError>)
    requires
        parse_result(parsers, req, result),
    ensures
        req.argv@.len() == 0 ==> result is Err,
        req.argv@.len() > 0 && (forall|a: &str, r: bool| #[trigger]
            call_ensures(parsers.registered, (a,), r) && a@ == req.argv@[0]@ ==> !r) ==> result is Err
            && result->Err_0 is Other,
        (req.argv@.len() > 0 && forall|a: &str, r: bool| #[trigger]
            call_ensures(parsers.registered, (a,), r) && a@ == req.argv@[0]@ ==> r) && (result matches Err(
            e,
        )) ==> exists|q: &Request| *q == req && #[trigger] call_ensures(
            parsers.parse,
            (q,),
            Err(result->Err_0),
        ),
{
    if req.argv@.len() > 0 {
        if told(parsers.registered, req.argv@[0]@, true) {
            let a = choose|a: &str|
                a@ == req.argv@[0]@ && #[trigger] call_ensures(parsers.registered, (a,), true);
            assert(call_ensures(parsers.registered, (a,), true));
        }
        if told(parsers.registered, req.argv@[0]@, false) {
            let a = choose|a: &str|
                a@ == req.argv@[0]@ && #[trigger] call_ensures(parsers.registered, (a,), false);
            assert(call_ensures(parsers.registered, (a,), false));
        }
    }
}

/// What the rules see, the card shows and the log keeps of a request has the
/// signals of its command and behind them those of the known-hosts list, which
/// was asked about this command. Unless a prompt was asked for, the rules were
/// asked about the command with all of them, and their word is what happens: an
/// allow lets it through, a deny stops it, and neither asks a human.
pub proof fn law_signals_reach_the_rules<
    D: Fn(&ParsedCommand) -> Decision,
    K: Fn(&str) -> bool,
    L: Fn(&str) -> bool,
    C: Fn(&str, &ParsedCommand) -> Vec<RiskSignal>,
>(
    hosts: HostLookups<K, L, C>,
    decide: D,
    req: Request,
    parsed: ParsedCommand,
    peer_sid: Option<i32>,
    outcome: PolicyOutcome,
)
    requires
        judged(hosts, decide, req, parsed, peer_sid, outcome),
    ensures
        exists|id: &str, seen: &ParsedCommand, found: Vec<RiskSignal>|
            #[trigger] call_ensures(hosts.check, (id, seen), found) && id@ == req.id@ && *seen == parsed
                && outcome.about().signals@ == parsed.signals@ + found@,
        outcome.about().parsed is Some,
        outcome.about().parsed->0.signals@ == outcome.about().signals@,
        outcome.about().parsed->0.effects == parsed.effects,
        outcome.about().parsed->0.argv == parsed.argv,
        outcome.about().parsed->0.command == parsed.command,
        outcome.about().id@ == req.id@,
        outcome.about().command == parsed.command,
        outcome.about().primary_verb == parsed.primary_verb,
        outcome.about().primary_target == parsed.primary_target,
        outcome.about().force_prompt == req.force_prompt,
        outcome.about().peer_sid == peer_sid,
        outcome.about().host_known@.len() == parsed.effects@.len(),
        req.force_prompt ==> outcome is Prompt,
        !req.force_prompt ==> exists|p: &ParsedCommand, d: Decision|
            #[trigger] call_ensures(decide, (p,), d) && *p == outcome.about().parsed->0 && {
                &&& d is Prompt <==> outcome is Prompt
                &&& d is Allow <==> outcome is Auto && outcome->decision == WireDecision::Allow
                &&& d is Deny <==> outcome is Auto && outcome->decision == WireDecision::Deny
                &&& d is Allow ==> outcome->rule_id == d->Allow_rule_id && outcome->scope
                    == d->Allow_scope
                &&& d is Deny ==> outcome->rule_id == d->Deny_rule_id && outcome->scope == d->Deny_scope
            },
{
    let checked = outcome.about().parsed->0;
    let added = choose|found: Seq<RiskSignal>| #[trigger]
        hosts.checked(req.id@, parsed, found) && restated(
            parsed,
            checked,
            parsed.cwd@,
            parsed.signals@ + found,
        );
    let (id, seen, found) = choose|i: &str, p: &ParsedCommand, r: Vec<RiskSignal>|
        i@ == req.id@ && *p == parsed && r@ == added && #[trigger] call_ensures(hosts.check, (i, p), r);
    assert(call_ensures(hosts.check, (id, seen), found));
    if !req.force_prompt {
        let d = choose|d: Decision| #[trigger] rules_said(decide, checked, d) && ruled(d, outcome);
        let p = choose|p: &ParsedCommand| *p == checked && #[trigger] call_ensures(decide, (p,), d);
        assert(call_ensures(decide, (p,), d));
    }
}

/// A request that cannot be parsed is refused, with the reason in its answer,
/// and one that can be parsed is judged under the name of its command.
pub proof fn law_unparsed_request_is_refused<
    D: Fn(&ParsedCommand) -> Decision,
    K: Fn(&str) -> bool,
    L: Fn(&str) -> bool,
    C: Fn(&str, &ParsedCommand) -> Vec<RiskSignal>,
>(
    hosts: HostLookups<K, L, C>,
    decide: D,
    req: Request,
    result: Result<ParsedCommand, ParseError>,
    peer_sid: Option<i32>,
    r: Judged,
)
    requires
        opened(hosts, decide, req, result, peer_sid, r),
    ensures
        result is Err <==> r is Refused,
        result is Ok ==> r->Decided_command == result->Ok_0.command && judged(
            hosts,
            decide,
            req,
            result->Ok_0,
            peer_sid,
            r->outcome,
        ),
        (result matches Err(ParseError::Other(why)) ==> r->reason@ == "parse failed: "@ + why@),
{
}

/// Words in front of others.
pub open spec fn words_then(first: Seq<Seq<char>>, rest: Option<Seq<Seq<char>>>) -> Option<
    Seq<Seq<char>>,
> {
    match rest {
        Some(words) => Some(first + words),
        None => None,
    }
}

/// The words that a shell splits the text `t` into from position `i` on. `open`
/// is whether a single quote is open there, and `word` what has been read of the
/// word that stands there. None where something in it would be expanded, or a
/// quote is left open.
pub open spec fn shell_words(t: Seq<char>, i: int, open: bool, word: Option<Seq<char>>) -> Option<
    Seq<Seq<char>>,
>
    decreases t.len() - i,
{
    let held = match word {
        Some(w) => w,
        None => Seq::empty(),
    };
    if i < 0 || i >= t.len() {
        if open {
            None
        } else {
            match word {
                Some(w) => Some(seq![w]),
                None => Some(Seq::empty()),
            }
        }
    } else if open {
        if t[i] == '\'' {
            shell_words(t, i + 1, false, Some(held))
        } else {
            shell_words(t, i + 1, true, Some(held.push(t[i])))
        }
    } else if t[i] == '\'' {
        shell_words(t, i + 1, true, Some(held))
    } else if t[i] == ' ' {
        match word {
            Some(w) => words_then(seq![w], shell_words(t, i + 1, false, None)),
            None => shell_words(t, i + 1, false, None),
        }
    } else if t[i] == '\\' && i + 1 < t.len() && t[i + 1] != '\n' {
        shell_words(t, i + 2, false, Some(held.push(t[i + 1])))
    } else if shell_special(t[i]) {
        None
    } else {
        shell_words(t, i + 1, false, Some(held.push(t[i])))
    }
}

proof fn lemma_words_body(front: Seq<char>, s: Seq<char>, rest: Seq<char>, w: Seq<char>)
    ensures
        ({
            let t = front + quoted_body(s) + rest;
            shell_words(t, front.len() as int, true, Some(w)) == shell_words(
                t,
                (front.len() + quoted_body(s).len()) as int,
                true,
                Some(w + s),
            )
        }),
    decreases s.len(),
{
    let t = front + quoted_body(s) + rest;
    if s.len() == 0 {
        assert(w + s =~= w);
    } else {
        let s0 = s.drop_last();
        let c = s.last();
        let b0 = quoted_body(s0);
        let k = (front.len() + b0.len()) as int;
        if c == '\'' {
            reveal_strlit("'\\''");
            let e = "'\\''"@;
            assert(e =~= seq!['\'', '\\', '\'', '\'']);
            assert(t =~= front + b0 + (e + rest));
            lemma_words_body(front, s0, e + rest, w);
            assert(t[k] == '\'' && t[k + 1] == '\\' && t[k + 2] == '\'' && t[k + 3] == '\'');
            let x = w + s0;
            assert(shell_words(t, k, true, Some(x)) == shell_words(t, k + 1, false, Some(x)));
            assert(shell_words(t, k + 1, false, Some(x)) == shell_words(
                t,
                k + 3,
                false,
                Some(x.push('\'')),
            ));
            assert(shell_words(t, k + 3, false, Some(x.push('\''))) == shell_words(
                t,
                k + 4,
                true,
                Some(x.push('\'')),
            ));
            assert(x.push('\'') =~= w + s);
        } else {
            assert(t =~= front + b0 + (seq![c] + rest));
            lemma_words_body(front, s0, seq![c] + rest, w);
            assert(t[k] == c);
            assert((w + s0).push(c) =~= w + s);
        }
    }
}

proof fn lemma_words_safe(t: Seq<char>, i: int, j: int, w: Seq<char>)
    requires
        0 <= i <= j <= t.len(),
        forall|k: int| i <= k < j ==> shell_safe(#[trigger] t[k]),
    ensures
        i < j ==> shell_words(t, i, false, Some(w)) == shell_words(
            t,
            j,
            false,
            Some(w + t.subrange(i, j)),
        ),
    decreases j - i,
{
    if i < j {
        assert(shell_safe(t[i]));
        assert(!shell_special(t[i]));
        lemma_words_safe(t, i + 1, j, w.push(t[i]));
        assert(w.push(t[i]) + t.subrange(i + 1, j) =~= w + t.subrange(i, j));
        if i + 1 == j {
            assert(w.push(t[i]) =~= w + t.subrange(i, j));
        }
    }
}

proof fn lemma_words_of_one(front: Seq<char>, s: Seq<char>, rest: Seq<char>)
    ensures
        shell_words(front + quoted(s) + rest, front.len() as int, false, None) == shell_words(
            front + quoted(s) + rest,
            (front.len() + quoted(s).len()) as int,
            false,
            Some(s),
        ),
{
    let t = front + quoted(s) + rest;
    let at = front.len() as int;
    if s.len() > 0 && all_safe(s) {
        assert forall|k: int| at <= k < at + s.len() implies shell_safe(#[trigger] t[k]) by {
            assert(t[k] == s[k - at]);
        }
        assert(shell_safe(t[at]));
        assert(!shell_special(t[at]));
        let none = Seq::<char>::empty();
        assert(shell_words(t, at, false, None) == shell_words(t, at + 1, false, Some(none.push(t[at]))));
        assert(shell_words(t, at, false, Some(none)) == shell_words(
            t,
            at + 1,
            false,
            Some(none.push(t[at])),
        ));
        lemma_words_safe(t, at, at + s.len() as int, none);
        assert(none + t.subrange(at, at + s.len() as int) =~= s);
    } else {
        reveal_strlit("'");
        let q = "'"@;
        assert(q =~= seq!['\'']);
        let b = quoted_body(s);
        assert(t =~= (front + q) + b + (q + rest));
        let none = Seq::<char>::empty();
        lemma_words_body(front + q, s, q + rest, none);
        assert(none + s =~= s);
        assert(t[at] == '\'');
        let end: int = at + 1 + b.len();
        assert(t[end] == '\'');
        assert(shell_words(t, at, false, None) == shell_words(t, at + 1, true, Some(none)));
        assert(shell_words(t, end, true, Some(s)) == shell_words(t, end + 1, false, Some(s)));
    }
}

/// The arguments of a command line, without the program.
pub open spec fn arguments(argv: Seq<String>) -> Seq<Seq<char>> {
    Seq::new((argv.len() - 1) as nat, |i: int| argv[i + 1]@)
}

proof fn lemma_words_of_args(front: Seq<char>, argv: Seq<String>, n: nat, rest: Seq<char>)
    requires
        1 <= n <= argv.len(),
        rest.len() == 0 || rest[0] == ' ',
    ensures
        ({
            let t = front + quoted_args(argv, n) + rest;
            shell_words(t, front.len() as int, false, None) == words_then(
                arguments(argv.take(n as int)),
                shell_words(t, (front.len() + quoted_args(argv, n).len()) as int, false, None),
            )
        }),
    decreases n,
{
    let t = front + quoted_args(argv, n) + rest;
    let start = front.len() as int;
    let args = arguments(argv.take(n as int));
    if n == 1 {
        assert(args =~= Seq::empty());
        if let Some(words) = shell_words(t, start, false, None) {
            assert(args + words =~= words);
        }
    } else {
        reveal_strlit(" ");
        let m = (n - 1) as nat;
        let before = quoted_args(argv, m);
        let s = argv[n - 1]@;
        let q = quoted(s);
        let space = " "@;
        assert(space =~= seq![' ']);
        assert(t =~= front + before + (space + q + rest));
        assert((space + q + rest)[0] == ' ');
        lemma_words_of_args(front, argv, m, space + q + rest);
        let k: int = start + before.len();
        assert(t[k] == ' ');
        assert(t =~= (front + before + space) + q + rest);
        lemma_words_of_one(front + before + space, s, rest);
        let end: int = k + 1 + q.len();
        assert(shell_words(t, k, false, None) == shell_words(t, k + 1, false, None));
        assert(shell_words(t, k + 1, false, None) == shell_words(t, end, false, Some(s)));
        if rest.len() == 0 {
            assert(seq![s] + Seq::<Seq<char>>::empty() =~= seq![s]);
        } else {
            assert(t[end] == ' ');
        }
        assert(shell_words(t, end, false, Some(s)) == words_then(
            seq![s],
            shell_words(t, end, false, None),
        ));
        let fewer = arguments(argv.take(m as int));
        assert(args =~= fewer + seq![s]);
        if let Some(words) = shell_words(t, end, false, None) {
            assert(fewer + (seq![s] + words) =~= args + words);
        }
    }
}

/// The raw view, pasted into a shell, is the command that was invoked: its plain
/// text is the program, and behind it a shell reads exactly the arguments, as
/// many words as there are and each as it was given. Command lines with an
/// escape character are left out, as such a character can take the text behind
/// it along.
pub proof fn law_shell_reads_the_raw_view(argv: Seq<String>)
    requires
        argv.len() > 0,
        forall|i: int| 0 <= i < argv.len() ==> no_escape((#[trigger] argv[i])@),
    ensures
        ({
            let text = stripped(detail(argv));
            let program = argv[0]@.len() as int;
            let words = shell_words(text, program, false, None);
            &&& program <= text.len()
            &&& text.take(program) == argv[0]@
            &&& words is Some
            &&& words->0.len() == argv.len() - 1
            &&& forall|i: int| 1 <= i < argv.len() ==> words->0[i - 1] == (#[trigger] argv[i])@
        }),
{
    law_raw_view_is_the_command_line(argv);
    let text = stripped(detail(argv));
    let args = quoted_args(argv, argv.len());
    let none = Seq::<char>::empty();
    assert(text =~= argv[0]@ + args + none);
    lemma_words_of_args(argv[0]@, argv, argv.len(), none);
    assert(argv.take(argv.len() as int) =~= argv);
    assert(text.take(argv[0]@.len() as int) =~= argv[0]@);
    let words = shell_words(text, argv[0]@.len() as int, false, None)->0;
    assert(words =~= arguments(argv));
    assert forall|i: int| 1 <= i < argv.len() implies words[i - 1] == (#[trigger] argv[i])@ by {
        assert(arguments(argv)[i - 1] == argv[i]@);
    }
}

/// A line of the log says what was asked, what came of it and why, and its card
/// where it has one.
pub proof fn law_log_says_what_happened(
    line: AuditEntry,
    req: Request,
    timestamp: String,
    command: String,
    answer: PendingDecision,
    card: Option<CardRecord>,
)
    requires
        logged(line, req, timestamp, command, answer, card),
    ensures
        line.id@ == req.id@,
        line.argv@.len() == req.argv@.len(),
        forall|i: int| 0 <= i < req.argv@.len() ==> (#[trigger] line.argv@[i])@ == req.argv@[i]@,
        line.timestamp@ == timestamp@,
        line.command@ == command@,
        line.decision == answer.decision,
        line.reason@ == answer.reason@,
        line.force_prompt == req.force_prompt,
        card is None ==> line.rendered@.len() == 0 && line.parsed is None && line.rule_id is None,
        card matches Some(c) ==> line.signals == c.summary.signals && line.rendered@ == c.rendered@
            && line.parsed == c.summary.parsed && line.host_known == c.summary.host_known
            && line.primary_target == c.summary.primary_target && line.primary_verb
            == c.summary.primary_verb,
        card matches Some(c) ==> line.peer_sid == c.summary.peer_sid && (match c.rule {
            Some(rule) => line.rule_id == Some(rule.0) && line.rule_scope == Some(rule.1),
            None => line.rule_id is None && line.rule_scope is None,
        }),
{
    assert(texts(line.argv@).len() == texts(req.argv@).len());
    assert forall|i: int| 0 <= i < req.argv@.len() implies (#[trigger] line.argv@[i])@
        == req.argv@[i]@ by {
        assert(texts(line.argv@)[i] == texts(req.argv@)[i]);
    }
}

/// Only a rule allows without a human. Where a request gets an answer before
/// anybody was asked, and the answer is not a denial, then no prompt was asked
/// for, and the rules were asked about this very command and allowed it; a
/// request that could not be parsed is denied.
pub proof fn law_only_a_rule_allows_unasked<
    R: Fn(&str) -> bool,
    P: Fn(&Request) -> Result<ParsedCommand, ParseError>,
    A: Fn(&ParsedCommand) -> Vec<RiskSignal>,
    D: Fn(&ParsedCommand) -> Decision,
    K: Fn(&str) -> bool,
    L: Fn(&str) -> bool,
    C: Fn(&str, &ParsedCommand) -> Vec<RiskSignal>,
>(
    req: &Request,
    peer_sid: Option<i32>,
    parsers: &Parsers<R, P, A>,
    decide: &D,
    hosts: &HostLookups<K, L, C>,
    r: Judged,
    shown: &Judged,
    answer: Option<PendingDecision>,
)
    requires
        call_ensures(open_request::<R, P, A, D, K, L, C>, (req, peer_sid, parsers, decide, hosts), r),
        *shown == r,
        call_ensures(answer_without_prompt, (shown,), answer),
    ensures
        r is Refused ==> answer is Some && answer->0.decision == WireDecision::Deny,
        answer is Some && answer->0.decision != WireDecision::Deny ==> r is Decided && !req.force_prompt
            && exists|p: &ParsedCommand, d: Decision|
            #[trigger] call_ensures(*decide, (p,), d) && d is Allow && *p
                == r->outcome.about().parsed->0,
        answer is None ==> r is Decided && r->outcome is Prompt,
        req.argv@.len() == 0 ==> answer is Some && answer->0.decision == WireDecision::Deny,
        req.force_prompt ==> answer is None || answer->0.decision == WireDecision::Deny,
{
    let result = choose|result: Result<ParsedCommand, ParseError>| #[trigger]
        parse_result(*parsers, *req, result) && opened(*hosts, *decide, *req, result, peer_sid, r);
    if let Ok(parsed) = result {
        law_signals_reach_the_rules(*hosts, *decide, *req, parsed, peer_sid, r->outcome);
    }
}

/// What the rules see of a request holds every signal: those of the parser first,
/// then those of the analysis, then those of the known-hosts list.
pub proof fn law_rules_see_every_signal<
    R: Fn(&str) -> bool,
    P: Fn(&Request) -> Result<ParsedCommand, ParseError>,
    A: Fn(&ParsedCommand) -> Vec<RiskSignal>,
    D: Fn(&ParsedCommand) -> Decision,
    K: Fn(&str) -> bool,
    L: Fn(&str) -> bool,
    C: Fn(&str, &ParsedCommand) -> Vec<RiskSignal>,
>(
    req: &Request,
    peer_sid: Option<i32>,
    parsers: &Parsers<R, P, A>,
    decide: &D,
    hosts: &HostLookups<K, L, C>,
    r: Judged,
)
    requires
        call_ensures(open_request::<R, P, A, D, K, L, C>, (req, peer_sid, parsers, decide, hosts), r),
        r is Decided,
    ensures
        exists|
            asked: &Request,
            own: ParsedCommand,
            seen: &ParsedCommand,
            found: Vec<RiskSignal>,
            id: &str,
            whole: &ParsedCommand,
            warned: Vec<RiskSignal>,
        |
            #[trigger] call_ensures(parsers.parse, (asked,), Ok(own)) && #[trigger] call_ensures(
                parsers.analyze,
                (seen,),
                found,
            ) && #[trigger] call_ensures(hosts.check, (id, whole), warned) && *asked == *req && id@
                == req.id@ && seen.effects == own.effects && whole.effects == own.effects
                && r->outcome.about().signals@ == own.signals@ + found@ + warned@
                && r->outcome.about().parsed->0.signals@ == own.signals@ + found@ + warned@,
{
    let result = choose|result: Result<ParsedCommand, ParseError>| #[trigger]
        parse_result(*parsers, *req, result) && opened(*hosts, *decide, *req, result, peer_sid, r);
    let parsed = result->Ok_0;
    law_signals_of_the_analysis_come_out(*parsers, *req, parsed);
    law_signals_reach_the_rules(*hosts, *decide, *req, parsed, peer_sid, r->outcome);
    let (asked, own, seen, found) = choose|
        asked: &Request,
        own: ParsedCommand,
        seen: &ParsedCommand,
        found: Vec<RiskSignal>,
    |
        #[trigger] call_ensures(parsers.parse, (asked,), Ok(own)) && #[trigger] call_ensures(
            parsers.analyze,
            (seen,),
            found,
        ) && {
            &&& *asked == *req
            &&& seen.effects == own.effects
            &&& new_signals_are(parsed, own, found)
            &&& parsed.effects == own.effects
        };
    let (id, whole, warned) = choose|id: &str, whole: &ParsedCommand, warned: Vec<RiskSignal>|
        #[trigger] call_ensures(hosts.check, (id, whole), warned) && id@ == req.id@ && *whole == parsed
            && r->outcome.about().signals@ == parsed.signals@ + warned@;
    assert(parsed.signals@ =~= own.signals@ + found@);
    assert(call_ensures(parsers.parse, (asked,), Ok(own)));
    assert(call_ensures(parsers.analyze, (seen,), found));
    assert(call_ensures(hosts.check, (id, whole), warned));
}

/// The signals of `new` are those of `own` with `found` behind them.
spec fn new_signals_are(new: ParsedCommand, own: ParsedCommand, found: Vec<RiskSignal>) -> bool {
    &&& new.signals@.len() == own.signals@.len() + found@.len()
    &&& new.signals@.take(own.signals@.len() as int) == own.signals@
    &&& new.signals@.skip(own.signals@.len() as int) == found@
}

/// A request that waited and got no answer is denied, and the answer that a
/// human gave is the one that goes out, under the id of the request.
pub proof fn law_answer_goes_out_as_given(
    id: &str,
    given: Option<PendingDecision>,
    answer: PendingDecision,
    told: &PendingDecision,
    out: Reply,
)
    requires
        call_ensures(prompt_answer, (id, given), answer),
        *told == answer,
        call_ensures(reply, (id, told), out),
    ensures
        out.id@ == id@,
        given is None ==> out.decision == WireDecision::Deny,
        given matches Some(d) ==> out.decision == d.decision && out.reason@ == d.reason@,
{
}

/// The reason for a command that could not be parsed says what was wrong with it:
/// the argument or the detail stands in it.
pub proof fn law_parse_error_names_the_argument(e: ParseError)
    ensures
        e matches ParseError::MissingArgument(what) ==> explained(e).subrange(
            27,
            27 + what@.len() as int,
        ) == what@ && explained(e).len() == what@.len() + 28,
        e matches ParseError::UnknownArgument(name) ==> explained(e).subrange(
            18,
            18 + name@.len() as int,
        ) == name@ && explained(e).len() == name@.len() + 19,
        e matches ParseError::ConflictingArgs(detail) ==> detail@.is_suffix_of(explained(e)),
        e matches ParseError::Other(s) ==> explained(e) == s@,
{
    reveal_strlit("missing required argument `");
    reveal_strlit("unknown argument `");
    reveal_strlit("`");
    let text = explained(e);
    match e {
        ParseError::MissingArgument(what) => {
            assert(text.subrange(27, 27 + what@.len() as int) =~= what@);
        },
        ParseError::UnknownArgument(name) => {
            assert(text.subrange(18, 18 + name@.len() as int) =~= name@);
        },
        ParseError::ConflictingArgs(detail) => {
            assert(detail@ =~= text.subrange(text.len() - detail@.len(), text.len() as int));
        },
        _ => {},
    }
}

/// The name under which a request is refused is the last part of its program.
pub proof fn law_name_is_the_last_part(argv: Seq<String>, dir: Seq<char>, file: Seq<char>)
    requires
        argv.len() > 0,
        argv[0]@ == dir.push('/') + file,
        dir.len() > 0,
        dir.last() != '/',
        !(dir.last() == '.' && dir.len() > 1 && dir[dir.len() - 2] == '/'),
        file.len() > 0,
        !file.contains('/'),
        file != seq!['.'],
        file != seq!['.', '.'],
    ensures
        name_hint(argv) == file,
{
    law_new_name_in_the_same_directory(dir, file, file);
}

/// A request that was parsed has every signal of its analysis, in their order
/// behind those of its parser.
pub proof fn law_parsed_request_has_every_signal<
    R: Fn(&str) -> bool,
    P: Fn(&Request) -> Result<ParsedCommand, ParseError>,
    A: Fn(&ParsedCommand) -> Vec<RiskSignal>,
>(req: &Request, parsers: &Parsers<R, P, A>, r: Result<ParsedCommand, ParseError>)
    requires
        call_ensures(parse_request::<R, P, A>, (req, parsers), r),
        r is Ok,
    ensures
        exists|asked: &Request, own: ParsedCommand, seen: &ParsedCommand, found: Vec<RiskSignal>|
            #[trigger] call_ensures(parsers.parse, (asked,), Ok(own)) && #[trigger] call_ensures(
                parsers.analyze,
                (seen,),
                found,
            ) && *asked == *req && seen.effects == own.effects && seen.argv == own.argv && seen.cwd@
                == req.cwd@ && r->Ok_0.signals@ == own.signals@ + found@ && r->Ok_0.effects == own.effects
                && r->Ok_0.argv == own.argv,
{
    let new = r->Ok_0;
    law_signals_of_the_analysis_come_out(*parsers, *req, new);
    let (asked, own, seen, found) = choose|
        asked: &Request,
        own: ParsedCommand,
        seen: &ParsedCommand,
        found: Vec<RiskSignal>,
    |
        #[trigger] call_ensures(parsers.parse, (asked,), Ok(own)) && #[trigger] call_ensures(
            parsers.analyze,
            (seen,),
            found,
        ) && {
            &&& *asked == *req
            &&& seen.effects == own.effects
            &&& seen.argv == own.argv
            &&& seen.cwd@ == req.cwd@
            &&& new_signals_are(new, own, found)
            &&& new.effects == own.effects
            &&& new.argv == own.argv
        };
    assert(new.signals@ =~= own.signals@ + found@);
    assert(call_ensures(parsers.parse, (asked,), Ok(own)));
    assert(call_ensures(parsers.analyze, (seen,), found));
}

/// The detail that is shown of a command is its command line: without the styles
/// it is the program, and behind it a shell reads exactly the arguments.
pub proof fn law_detail_reads_as_the_command(parsed: &ParsedCommand, text: String)
    requires
        call_ensures(render_detail, (parsed,), text),
        parsed.argv@.len() > 0,
        forall|i: int| 0 <= i < parsed.argv@.len() ==> !(#[trigger] parsed.argv@[i])@.contains('\x1b'),
    ensures
        ({
            let plain = stripped(text@);
            let program = parsed.argv@[0]@;
            let words = shell_words(plain, program.len() as int, false, None);
            &&& program.is_prefix_of(plain)
            &&& words is Some
            &&& words->0.len() == parsed.argv@.len() - 1
            &&& forall|i: int|
                1 <= i < parsed.argv@.len() ==> words->0[i - 1] == (#[trigger] parsed.argv@[i])@
        }),
{
    let argv = parsed.argv@;
    assert forall|i: int| 0 <= i < argv.len() implies no_escape((#[trigger] argv[i])@) by {
        assert forall|k: int| 0 <= k < argv[i]@.len() implies #[trigger] argv[i]@[k] != '\x1b' by {
            assert(argv[i]@.contains(argv[i]@[k]));
        }
    }
    law_shell_reads_the_raw_view(argv);
    let plain = stripped(text@);
    assert(plain.subrange(0, argv[0]@.len() as int) =~= plain.take(argv[0]@.len() as int));
}

/// A word is shown bare exactly where it is made of letters, digits, `-`, `_` and
/// `.` alone and is not empty, and in single quotes otherwise.
pub proof fn law_quotes_only_where_needed(s: Seq<char>)
    ensures
        ({
            let bare = s.len() > 0 && forall|i: int|
                0 <= i < s.len() ==> '0' <= #[trigger] s[i] <= '9' || 'a' <= s[i] <= 'z' || 'A' <= s[i]
                    <= 'Z' || s[i] == '-' || s[i] == '_' || s[i] == '.';
            &&& bare ==> quoted(s) == s
            &&& !bare ==> quoted(s).len() >= s.len() + 2 && quoted(s)[0] == '\'' && quoted(s).last()
                == '\''
        }),
{
    reveal_strlit("'");
    let bare = s.len() > 0 && forall|i: int|
        0 <= i < s.len() ==> '0' <= #[trigger] s[i] <= '9' || 'a' <= s[i] <= 'z' || 'A' <= s[i] <= 'Z'
            || s[i] == '-' || s[i] == '_' || s[i] == '.';
    if bare {
        assert forall|i: int| 0 <= i < s.len() implies shell_safe(#[trigger] s[i]) by {}
    } else if s.len() > 0 && all_safe(s) {
        assert forall|i: int| 0 <= i < s.len() implies '0' <= #[trigger] s[i] <= '9' || 'a' <= s[i] <= 'z'
            || 'A' <= s[i] <= 'Z' || s[i] == '-' || s[i] == '_' || s[i] == '.' by {
            assert(shell_safe(s[i]));
        }
    }
    lemma_body_is_longer(s);
}

proof fn lemma_body_is_longer(s: Seq<char>)
    ensures
        quoted_body(s).len() >= s.len(),
    decreases s.len(),
{
    reveal_strlit("'\\''");
    if s.len() > 0 {
        lemma_body_is_longer(s.drop_last());
    }
}

/// The raw view sets off the program: it is bold, and what follows is plain.
pub proof fn law_program_is_bold(argv: Seq<String>)
    requires
        argv.len() > 0,
        argv[0]@.len() > 0,
        forall|i: int| 0 <= i < argv.len() ==> no_escape((#[trigger] argv[i])@),
    ensures
        spans(detail(argv)).len() >= 1,
        spans(detail(argv))[0].text == argv[0]@,
        spans(detail(argv))[0].style.bold,
        spans(detail(argv))[0].style.color is None,
        forall|k: int|
            1 <= k < spans(detail(argv)).len() ==> (#[trigger] spans(detail(argv))[k]).style
                == plain_style(),
{
    reveal_strlit("\x1b[1m");
    reveal_strlit("\x1b[0m");
    let none = Seq::<char>::empty();
    let args = quoted_args(argv, argv.len());
    lemma_args_no_escape(argv, argv.len());
    let one = seq!['1'];
    let zero = seq!['0'];
    let off = seq!['\x1b', '['] + zero + seq!['m'];
    let on = seq!['\x1b', '['] + one + seq!['m'];
    let program = argv[0]@;
    let rest = program + (off + args);
    assert(no_escape(argv[0]@));
    assert(!program.contains('\x1b'));
    assert(detail(argv) =~= none + (on + rest));
    law_escape_styles_what_follows(none, one, rest, plain_style());
    assert(!one.contains(';'));
    law_split_undoes_join(seq![one], ';');
    assert(split_on(one, ';') =~= seq![one]);
    law_codes_count_one_after_the_other(plain_style(), seq![one], Seq::empty());
    assert(one.drop_last() =~= none);
    assert(zero.drop_last() =~= none);
    assert(digits_value(none) == 0);
    assert(digits_value(one) == 1);
    assert(digits_value(zero) == 0);
    let bold = sgr_all(plain_style(), split_on(one, ';'));
    assert(bold == sgr(plain_style(), 1));
    law_escape_styles_what_follows(program, zero, args, bold);
    assert(!zero.contains(';'));
    law_split_undoes_join(seq![zero], ';');
    assert(split_on(zero, ';') =~= seq![zero]);
    law_codes_count_one_after_the_other(bold, seq![zero], Seq::empty());
    let plain = sgr_all(bold, split_on(zero, ';'));
    assert(plain == plain_style());
    assert forall|k: int| 0 <= k < args.len() implies !#[trigger] is_sgr(args, k) by {
        assert(args[k] != '\x1b');
    }
    law_other_text_is_kept(args);
    assert(spans(detail(argv)) =~= seq![SpanView { text: program, style: bold }] + spans(args));
}

/// Why a request was denied that nobody answered says which one it was.
pub proof fn law_cancelled_request_is_named(id: &str, r: PendingDecision)
    requires
        call_ensures(prompt_answer, (id, None::<PendingDecision>), r),
    ensures
        r.decision == WireDecision::Deny,
        "daemon shutting down"@.is_prefix_of(r.reason@),
        exists|at: int|
            0 <= at && at + id@.len() <= r.reason@.len() && #[trigger] r.reason@.subrange(
                at,
                at + id@.len(),
            ) == id@,
{
    let front = "daemon shutting down"@;
    let text = r.reason@;
    let at = front.len() + " (pending request `"@.len() as int;
    assert(front =~= text.subrange(0, front.len() as int));
    assert(text.subrange(at, at + id@.len()) =~= id@);
}

/// Each flag of a request that was judged is what was answered about the host of
/// that effect.
pub proof fn law_judged_flags_are_answers<
    D: Fn(&ParsedCommand) -> Decision,
    K: Fn(&str) -> bool,
    L: Fn(&str) -> bool,
    C: Fn(&str, &ParsedCommand) -> Vec<RiskSignal>,
>(
    hosts: HostLookups<K, L, C>,
    decide: D,
    req: Request,
    parsed: ParsedCommand,
    peer_sid: Option<i32>,
    outcome: PolicyOutcome,
    i: int,
)
    requires
        judged(hosts, decide, req, parsed, peer_sid, outcome),
        0 <= i < parsed.effects@.len(),
    ensures
        outcome.about().host_known@.len() == parsed.effects@.len(),
        flag_answers(hosts, parsed.effects@[i], outcome.about().host_known@[i]),
{
    law_flag_is_an_answer(hosts, parsed.effects@, outcome.about().host_known@, i);
}

} // verus!
