//! Getting a prompt in front of a human.
//!
//! A notifier shows the prompt and returns: the answer comes back through the
//! queue, from whatever surface the human used. Which notifier the daemon runs
//! is chosen by `$VETTERD_NOTIFIER`. A daemon that cannot bring up its notifier
//! does not start, so that no request waits for a prompt that nobody sees.
use crate::pending::NotifyHint;
use crate::paths::Platform;
use crate::text::same_text;
use vstd::prelude::*;
use vstd::string::*;

pub mod linux;
pub mod mac;
pub mod mock;

verus! {

/// What the main thread runs beside the daemon's own loops.
#[derive(Debug, Clone, Copy, PartialEq, Eq, Structural)]
pub enum PlatformDriver {
    /// Nothing: the main thread accepts connections itself.
    NoDriver,
    /// The application loop of macOS.
    AppKit,
}

/// Which notifier to run.
#[derive(Debug, PartialEq, Eq)]
pub enum NotifierKind {
    /// One that asks a test over this socket.
    Mock { socket: String },
    Noop,
    Mac,
    Linux,
}

/// Why a notifier could not be brought up.
#[derive(Debug, PartialEq, Eq)]
pub enum NotifierBuildError {
    MissingEnv(String),
    Unknown(String),
    Unsupported(String),
    Setup(String),
}

impl NotifierBuildError {
    pub open spec fn text(self) -> Seq<char> {
        match self {
            NotifierBuildError::MissingEnv(what) => "missing required env: "@ + what@,
            NotifierBuildError::Unknown(value) => "unknown VETTERD_NOTIFIER value `"@ + value@
                + "`; expected mac | linux | mock | noop"@,
            NotifierBuildError::Unsupported(why) => "notifier not supported on this build: "@ + why@,
            NotifierBuildError::Setup(why) => "notifier setup failed: "@ + why@,
        }
    }

    /// The message of the error.
    pub fn message(&self) -> (r: String)
        ensures
            r@ == self.text(),
    {
        match self {
            NotifierBuildError::MissingEnv(what) => {
                let mut out = "missing required env: ".to_owned();
                out.append(what.as_str());
                out
            },
            NotifierBuildError::Unknown(value) => {
                let mut out = "unknown VETTERD_NOTIFIER value `".to_owned();
                out.append(value.as_str());
                out.append("`; expected mac | linux | mock | noop");
                out
            },
            NotifierBuildError::Unsupported(why) => {
                let mut out = "notifier not supported on this build: ".to_owned();
                out.append(why.as_str());
                out
            },
            NotifierBuildError::Setup(why) => {
                let mut out = "notifier setup failed: ".to_owned();
                out.append(why.as_str());
                out
            },
        }
    }
}

/// The notifier of a platform where none is asked for.
pub open spec fn usual_kind(platform: Platform) -> Seq<char> {
    match platform {
        Platform::MacOs => "mac"@,
        Platform::Linux => "linux"@,
        Platform::Other => "noop"@,
    }
}

/// The notifier of a platform where none is asked for.
pub fn default_kind(platform: Platform) -> (r: &'static str)
    ensures
        r@ == usual_kind(platform),
{
    match platform {
        Platform::MacOs => "mac",
        Platform::Linux => "linux",
        Platform::Other => "noop",
    }
}

/// The notifier that is asked for, from the value of `$VETTERD_NOTIFIER`, or
/// that of the platform.
pub fn resolved_kind(platform: Platform, value: Option<String>) -> (r: String)
    ensures
        r@ == (match value {
            Some(v) => v@,
            None => usual_kind(platform),
        }),
{
    match value {
        Some(v) => v,
        None => default_kind(platform).to_owned(),
    }
}

/// Which notifier the daemon runs and what its main thread does, from the
/// values of `$VETTERD_NOTIFIER` and `$VETTERD_NOTIFIER_SOCKET`.
pub fn build_from_env(platform: Platform, value: Option<String>, socket: Option<String>) -> (r: Result<
    (NotifierKind, PlatformDriver),
    NotifierBuildError,
>)
    ensures
        ({
            let kind = match value {
                Some(v) => v@,
                None => usual_kind(platform),
            };
            if kind == "mock"@ {
                match socket {
                    Some(s) => r == Ok::<(NotifierKind, PlatformDriver), NotifierBuildError>(
                        (NotifierKind::Mock { socket: s }, PlatformDriver::NoDriver),
                    ),
                    None => r matches Err(NotifierBuildError::MissingEnv(what)) && what@
                        == "VETTERD_NOTIFIER_SOCKET (required for mock)"@,
                }
            } else if kind == "noop"@ {
                r == Ok::<(NotifierKind, PlatformDriver), NotifierBuildError>(
                    (NotifierKind::Noop, PlatformDriver::NoDriver),
                )
            } else if kind == "mac"@ {
                if platform == Platform::MacOs {
                    r == Ok::<(NotifierKind, PlatformDriver), NotifierBuildError>(
                        (NotifierKind::Mac, PlatformDriver::AppKit),
                    )
                } else {
                    r matches Err(NotifierBuildError::Unsupported(why)) && why@
                        == "VETTERD_NOTIFIER=mac requires a macOS target"@
                }
            } else if kind == "linux"@ {
                if platform == Platform::Linux {
                    r == Ok::<(NotifierKind, PlatformDriver), NotifierBuildError>(
                        (NotifierKind::Linux, PlatformDriver::NoDriver),
                    )
                } else {
                    r matches Err(NotifierBuildError::Unsupported(why)) && why@
                        == "VETTERD_NOTIFIER=linux requires a Linux target"@
                }
            } else {
                r matches Err(NotifierBuildError::Unknown(v)) && v@ == kind
            }
        }),
{
    let kind = resolved_kind(platform, value);
    if same_text(kind.as_str(), "mock") {
        match socket {
            Some(socket) => Ok((NotifierKind::Mock { socket }, PlatformDriver::NoDriver)),
            None => Err(
                NotifierBuildError::MissingEnv("VETTERD_NOTIFIER_SOCKET (required for mock)".to_owned()),
            ),
        }
    } else if same_text(kind.as_str(), "noop") {
        Ok((NotifierKind::Noop, PlatformDriver::NoDriver))
    } else if same_text(kind.as_str(), "mac") {
        if platform == Platform::MacOs {
            Ok((NotifierKind::Mac, PlatformDriver::AppKit))
        } else {
            Err(
                NotifierBuildError::Unsupported(
                    "VETTERD_NOTIFIER=mac requires a macOS target".to_owned(),
                ),
            )
        }
    } else if same_text(kind.as_str(), "linux") {
        if platform == Platform::Linux {
            Ok((NotifierKind::Linux, PlatformDriver::NoDriver))
        } else {
            Err(
                NotifierBuildError::Unsupported(
                    "VETTERD_NOTIFIER=linux requires a Linux target".to_owned(),
                ),
            )
        }
    } else {
        Err(NotifierBuildError::Unknown(kind))
    }
}

/// Whether a submission raises a banner: the one that finds the queue empty
/// does, so that a burst of requests raises one.
pub fn should_raise_banner(hint: NotifyHint) -> (r: bool)
    ensures
        r == hint.was_empty_before,
{
    hint.was_empty_before
}

/// A notifier is made for the system it runs on: that of another system is
/// refused, and where nothing is asked for the usual one is made.
pub proof fn law_notifier_fits_the_system(
    platform: Platform,
    value: Option<String>,
    socket: Option<String>,
    r: Result<(NotifierKind, PlatformDriver), NotifierBuildError>,
)
    requires
        call_ensures(build_from_env, (platform, value, socket), r),
    ensures
        r is Ok && r->Ok_0.0 is Mac ==> platform == Platform::MacOs,
        r is Ok && r->Ok_0.0 is Linux ==> platform == Platform::Linux,
        r is Ok ==> (r->Ok_0.1 == PlatformDriver::AppKit <==> r->Ok_0.0 is Mac),
        value is None ==> r is Ok,
        value is None && platform == Platform::MacOs ==> r->Ok_0.0 is Mac,
        value is None && platform == Platform::Linux ==> r->Ok_0.0 is Linux,
        value is None && platform == Platform::Other ==> r->Ok_0.0 is Noop,
        r is Ok && r->Ok_0.0 is Mock ==> value is Some && value->0@ == "mock"@ && socket == Some(
            r->Ok_0.0->socket,
        ),
{
    reveal_strlit("mock");
    reveal_strlit("noop");
    reveal_strlit("mac");
    reveal_strlit("linux");
    assert("mock"@[0] == 'm' && "noop"@[0] == 'n' && "mac"@[1] == 'a' && "linux"@[0] == 'l');
    assert("mock"@[1] == 'o');
    assert("mac"@[0] == 'm');
}

} // verus!
