//! What to do about a socket file that is there already.
use vstd::prelude::*;
use vstd::string::*;

verus! {

/// What was found at the place of the socket.
#[derive(Debug, Clone, Copy, PartialEq, Eq, Structural)]
pub enum SocketProbe {
    /// No file.
    Nothing,
    /// A file, and connecting to it succeeded.
    Answered,
    /// A file, and connecting to it was refused.
    Refused,
    /// A file that was gone when it was connected to.
    Vanished,
    /// A file, and connecting to it failed in another way.
    Failed,
}

/// What to do before binding the socket.
#[derive(Debug, PartialEq, Eq)]
pub enum SocketStep {
    /// Another daemon is alive: give up, with this message.
    Busy(String),
    /// Remove the file a daemon left behind, and bind.
    UnlinkThenBind,
    Bind,
}

/// The message for a socket that another daemon listens on.
pub open spec fn busy_text(path: Seq<char>) -> Seq<char> {
    "another vetterd is already listening on "@ + path
}

/// What to do before binding the socket at `path`: a live daemon is never
/// displaced, and whatever else is there is removed.
pub fn before_bind(probe: SocketProbe, path: &str) -> (r: SocketStep)
    ensures
        match probe {
            SocketProbe::Answered => r matches SocketStep::Busy(m) && m@ == busy_text(path@),
            SocketProbe::Refused | SocketProbe::Failed => r is UnlinkThenBind,
            SocketProbe::Nothing | SocketProbe::Vanished => r is Bind,
        },
{
    match probe {
        SocketProbe::Answered => {
            let mut message = "another vetterd is already listening on ".to_owned();
            message.append(path);
            SocketStep::Busy(message)
        },
        SocketProbe::Refused | SocketProbe::Failed => SocketStep::UnlinkThenBind,
        SocketProbe::Nothing | SocketProbe::Vanished => SocketStep::Bind,
    }
}

/// A socket that answers is never taken over, and no file is removed but one that
/// a connection to failed.
pub proof fn law_live_socket_is_left_alone(probe: SocketProbe, path: &str, r: SocketStep)
    requires
        call_ensures(before_bind, (probe, path), r),
    ensures
        r is Busy <==> probe == SocketProbe::Answered,
        r is UnlinkThenBind <==> probe == SocketProbe::Refused || probe == SocketProbe::Failed,
        r matches SocketStep::Busy(message) ==> path@.is_suffix_of(message@),
{
    if let SocketStep::Busy(message) = r {
        let text = message@;
        assert(path@ =~= text.subrange(text.len() - path@.len(), text.len() as int));
    }
}

} // verus!
