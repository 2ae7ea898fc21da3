//! What a request is made of, as far as the daemon reads it: the parsed
//! command with its effects and risk signals, and the words of the policy
//! (decisions, scopes, rules).
//!
//! The parsers, the rule matcher and the suggestion engine live outside this
//! crate. Their answers arrive here as plain values of these types.
use vstd::prelude::*;
use vstd::string::*;

verus! {

/// An HTTP method. `Other` holds a method the parser has no name for, as it
/// was written.
#[derive(Debug, Clone, PartialEq, Eq)]
pub enum HttpMethod {
    Get,
    Head,
    Options,
    Trace,
    Post,
    Put,
    Patch,
    Delete,
    Connect,
    Other(String),
}

impl HttpMethod {
    /// The method as it stands on a request line.
    pub open spec fn name(self) -> Seq<char> {
        match self {
            HttpMethod::Get => "GET"@,
            HttpMethod::Head => "HEAD"@,
            HttpMethod::Options => "OPTIONS"@,
            HttpMethod::Trace => "TRACE"@,
            HttpMethod::Post => "POST"@,
            HttpMethod::Put => "PUT"@,
            HttpMethod::Patch => "PATCH"@,
            HttpMethod::Delete => "DELETE"@,
            HttpMethod::Connect => "CONNECT"@,
            HttpMethod::Other(name) => name@,
        }
    }

    pub fn as_str(&self) -> (r: &str)
        ensures
            r@ == self.name(),
    {
        match self {
            HttpMethod::Get => "GET",
            HttpMethod::Head => "HEAD",
            HttpMethod::Options => "OPTIONS",
            HttpMethod::Trace => "TRACE",
            HttpMethod::Post => "POST",
            HttpMethod::Put => "PUT",
            HttpMethod::Patch => "PATCH",
            HttpMethod::Delete => "DELETE",
            HttpMethod::Connect => "CONNECT",
            HttpMethod::Other(name) => name.as_str(),
        }
    }
}

/// The components of a URL. `port` is the port written in the URL, absent
/// where it is the scheme's own.
#[derive(Debug, Clone, PartialEq, Eq)]
pub struct Url {
    pub scheme: String,
    pub host: Option<String>,
    pub port: Option<u16>,
    pub path: String,
    pub query: Option<String>,
}

/// A request header.
#[derive(Debug, Clone, PartialEq, Eq)]
pub struct Header {
    pub name: String,
    pub value: String,
}

/// One field of an urlencoded form.
#[derive(Debug, Clone, PartialEq, Eq)]
pub struct FormField {
    pub name: String,
    pub value: String,
}

/// The body of a request.
#[derive(Debug, Clone, PartialEq, Eq)]
pub enum Body {
    Empty,
    Inline { bytes: Vec<u8> },
    FromFile { path: String },
    Form { fields: Vec<FormField> },
}

/// How a request authenticates. No secret is held.
#[derive(Debug, Clone, PartialEq, Eq)]
pub enum Auth {
    Basic { user: String, password_redacted: bool },
    Bearer { token_redacted: bool },
    Header { name: String },
    Netrc,
}

#[derive(Debug, Clone, PartialEq, Eq)]
pub struct HttpRequest {
    pub method: HttpMethod,
    pub url: Url,
    pub headers: Vec<Header>,
    pub body: Body,
    pub auth: Option<Auth>,
}

/// One thing that running the command would do.
#[derive(Debug, Clone, PartialEq, Eq)]
pub enum Effect {
    HttpRequest(HttpRequest),
    FileRead { path: String },
    FileWrite { path: String },
    ProcessSpawn { command: String },
    CredentialUse,
    Network,
}

/// How loudly a signal is shown.
#[derive(Debug, Clone, Copy, PartialEq, Eq, Structural)]
pub enum BadgeSeverity {
    Danger,
    Warn,
    Info,
}

/// What a risk signal is about. The two kinds that the daemon treats in a way
/// of their own have a name; the others carry the analyzer's number for them.
#[derive(Debug, Clone, Copy, PartialEq, Eq, Structural)]
pub enum SignalKind {
    AuthHeader,
    UnknownHost,
    Other(u16),
}

/// One risk signal: its kind, the analyzer's label and severity for that kind,
/// a detail for humans, and the effect it speaks of, if it speaks of one.
#[derive(Debug, PartialEq, Eq)]
pub struct RiskSignal {
    pub kind: SignalKind,
    pub label: String,
    pub severity: BadgeSeverity,
    pub detail: String,
    pub effect: Option<usize>,
}

impl Clone for RiskSignal {
    fn clone(&self) -> (r: RiskSignal)
        ensures
            r == *self,
    {
        RiskSignal {
            kind: self.kind,
            label: self.label.clone(),
            severity: self.severity,
            detail: self.detail.clone(),
            effect: self.effect,
        }
    }
}

/// A copy of a list of signals.
pub fn copy_signals(v: &Vec<RiskSignal>) -> (r: Vec<RiskSignal>)
    ensures
        r@ == v@,
{
    let mut out: Vec<RiskSignal> = Vec::new();
    let mut i: usize = 0;
    while i < v.len()
        invariant
            i <= v.len(),
            out@ == v@.take(i as int),
        decreases v.len() - i,
    {
        out.push(v[i].clone());
        i += 1;
        assert(out@ =~= v@.take(i as int));
    }
    assert(out@ =~= v@);
    out
}

/// A parsed command line.
#[derive(Debug, Clone, PartialEq, Eq)]
pub struct ParsedCommand {
    pub command: String,
    pub primary_verb: String,
    pub primary_target: String,
    pub argv: Vec<String>,
    pub cwd: String,
    pub effects: Vec<Effect>,
    pub signals: Vec<RiskSignal>,
}

/// The answer that goes back over the wire.
#[derive(Debug, Clone, Copy, PartialEq, Eq, Structural)]
pub enum WireDecision {
    Allow,
    AllowOnce,
    Deny,
}

impl WireDecision {
    /// Whether the answer lets the command run.
    pub open spec fn allows(self) -> bool {
        self != WireDecision::Deny
    }

    pub fn is_allow(&self) -> (r: bool)
        ensures
            r == self.allows(),
    {
        *self != WireDecision::Deny
    }
}

/// A scope that a client can name when it adds a rule.
#[derive(Debug, Clone, Copy, PartialEq, Eq, Structural)]
pub enum WireScope {
    User,
    Project,
}

/// An allowlist layer.
#[derive(Debug, Clone, Copy, PartialEq, Eq, Structural)]
pub enum Scope {
    Session,
    User,
    Project,
    Builtin,
    Denylist,
}

/// An allowlist layer with the name that the matcher prints for it.
#[derive(Debug, PartialEq, Eq)]
pub struct RuleScope {
    pub layer: Scope,
    pub name: String,
}

impl Clone for RuleScope {
    fn clone(&self) -> (r: RuleScope)
        ensures
            r == *self,
    {
        RuleScope { layer: self.layer, name: self.name.clone() }
    }
}

/// What the rule matcher says of a command.
#[derive(Debug, PartialEq, Eq)]
pub enum Decision {
    Allow { rule_id: String, scope: RuleScope },
    Deny { rule_id: String, scope: RuleScope },
    Prompt,
}

/// The part of an allowlist rule that the daemon reads and writes itself.
#[derive(Debug, PartialEq, Eq)]
pub struct Rule {
    pub id: String,
    pub expires_at: Option<u64>,
    pub sid: Option<i32>,
}

/// A rule that the suggestion engine offers: the name of its tier, a label,
/// the rule, and its `when` block as YAML, or why that could not be rendered.
#[derive(Debug, PartialEq, Eq)]
pub struct RuleSuggestion {
    pub tier: String,
    pub label: String,
    pub rule: Rule,
    pub when_yaml: Result<String, String>,
}

/// A host pattern that the suggestion engine offers.
#[derive(Debug, PartialEq, Eq)]
pub struct HostSuggestion {
    pub tier: String,
    pub label: String,
    pub pattern: String,
}

/// The names of the standard methods are all different, so that a row shows which
/// one it is.
pub proof fn law_method_names_differ(a: HttpMethod, b: HttpMethod)
    requires
        !(a is Other),
        !(b is Other),
        a != b,
    ensures
        a.name() != b.name(),
{
    reveal_strlit("GET");
    reveal_strlit("HEAD");
    reveal_strlit("OPTIONS");
    reveal_strlit("TRACE");
    reveal_strlit("POST");
    reveal_strlit("PUT");
    reveal_strlit("PATCH");
    reveal_strlit("DELETE");
    reveal_strlit("CONNECT");
    assert("GET"@[0] == 'G' && "HEAD"@[0] == 'H' && "OPTIONS"@[0] == 'O' && "TRACE"@[0] == 'T');
    assert("DELETE"@[0] == 'D' && "CONNECT"@[0] == 'C');
    assert("POST"@[1] == 'O' && "PUT"@[1] == 'U' && "PATCH"@[1] == 'A');
    assert("POST"@[0] == 'P' && "PUT"@[0] == 'P' && "PATCH"@[0] == 'P');
}

} // verus!
