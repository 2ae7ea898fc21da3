//! Where the daemon keeps its files.
use crate::path::{
    join_path, joined, law_joined_path_ends_with_the_rest, law_new_name_in_the_same_directory,
    set_file_name, with_file_name,
};
use vstd::prelude::*;
use vstd::string::*;

verus! {

/// The kinds of system that differ in where files go.
#[derive(Debug, Clone, Copy, PartialEq, Eq, Structural)]
pub enum Platform {
    MacOs,
    Linux,
    Other,
}

/// Why a path could not be found.
#[derive(Debug, Clone, Copy, PartialEq, Eq, Structural)]
pub enum PathError {
    HomeUnset,
}

impl PathError {
    pub open spec fn text(self) -> Seq<char> {
        "$HOME is not set; cannot resolve audit log path"@
    }

    /// The message of the error.
    pub fn message(&self) -> (r: &'static str)
        ensures
            r@ == self.text(),
    {
        "$HOME is not set; cannot resolve audit log path"
    }
}

/// The place of the audit log: the one that the environment names, or else
/// below the log directory on macOS and below the state directory elsewhere.
/// None where it would be below a home directory that is not known.
pub open spec fn audit_path(
    platform: Platform,
    named: Option<String>,
    state_home: Option<String>,
    home: Option<String>,
) -> Option<Seq<char>> {
    match named {
        Some(p) => Some(p@),
        None => if platform != Platform::MacOs && state_home is Some && state_home->0@.len() > 0 {
            Some(joined(joined(state_home->0@, "vetter"@), "audit.log"@))
        } else {
            match home {
                Some(h) => Some(
                    joined(
                        joined(
                            h@,
                            if platform == Platform::MacOs {
                                "Library/Logs/vetter"@
                            } else {
                                ".local/state/vetter"@
                            },
                        ),
                        "audit.log"@,
                    ),
                ),
                None => None,
            }
        },
    }
}

/// The place of the audit log, from the values of `$VETTER_AUDIT_LOG`,
/// `$XDG_STATE_HOME` and `$HOME`. An empty state directory counts as none, and
/// none is asked for on macOS.
pub fn default_audit_path(
    platform: Platform,
    named: Option<String>,
    state_home: Option<String>,
    home: Option<String>,
) -> (r: Result<String, PathError>)
    ensures
        match audit_path(platform, named, state_home, home) {
            Some(p) => r matches Ok(path) && path@ == p,
            None => r == Err::<String, PathError>(PathError::HomeUnset),
        },
{
    if let Some(p) = named {
        return Ok(p);
    }
    let below_home = if platform == Platform::MacOs {
        "Library/Logs/vetter"
    } else {
        ".local/state/vetter"
    };
    if platform != Platform::MacOs {
        if let Some(state) = &state_home {
            if !state.as_str().is_empty() {
                let dir = join_path(state.as_str(), "vetter");
                return Ok(join_path(dir.as_str(), "audit.log"));
            }
        }
    }
    match &home {
        Some(h) => {
            let dir = join_path(h.as_str(), below_home);
            Ok(join_path(dir.as_str(), "audit.log"))
        },
        None => Err(PathError::HomeUnset),
    }
}

/// The place of the admin socket: the one that the environment names, or else
/// beside the main socket.
pub open spec fn admin_path(named: Option<String>, main: Seq<char>) -> Seq<char> {
    match named {
        Some(p) => p@,
        None => with_file_name(main, "vetter-admin.sock"@),
    }
}

/// The place of the admin socket, from the value of `$VETTERD_ADMIN_SOCKET` and
/// the path of the main socket.
pub fn admin_socket_path_for(named: Option<String>, main: &str) -> (r: String)
    ensures
        r@ == admin_path(named, main@),
{
    match named {
        Some(p) => p,
        None => set_file_name(main, "vetter-admin.sock"),
    }
}

/// The log goes where the environment names it. Else it is a file `audit.log`, on
/// a Mac below the home directory whatever the state directory is, and elsewhere
/// below the state directory where one is given.
pub proof fn law_log_goes_where_it_is_named(
    platform: Platform,
    named: Option<String>,
    state_home: Option<String>,
    home: Option<String>,
    r: Result<String, PathError>,
)
    requires
        call_ensures(default_audit_path, (platform, named, state_home, home), r),
    ensures
        named matches Some(p) ==> r is Ok && r->Ok_0@ == p@,
        named is None && r is Ok ==> "audit.log"@.is_suffix_of(r->Ok_0@),
        named is None && platform == Platform::MacOs ==> (r is Ok <==> home is Some),
        named is None && platform != Platform::MacOs ==> (r is Ok <==> home is Some || (state_home is Some
            && state_home->0@.len() > 0)),
        named is None && platform == Platform::MacOs && r is Ok ==> home->0@.is_prefix_of(r->Ok_0@),
        named is None && platform != Platform::MacOs && state_home is Some && state_home->0@.len() > 0
            ==> state_home->0@.is_prefix_of(r->Ok_0@),
        named is None && platform != Platform::MacOs && r is Ok && (state_home is None
            || state_home->0@.len() == 0) ==> home->0@.is_prefix_of(r->Ok_0@),
{
    reveal_strlit("vetter");
    reveal_strlit("audit.log");
    reveal_strlit("Library/Logs/vetter");
    reveal_strlit(".local/state/vetter");
    assert("vetter"@[0] == 'v' && "audit.log"@[0] == 'a' && "Library/Logs/vetter"@[0] == 'L'
        && ".local/state/vetter"@[0] == '.');
    if named is None && r is Ok {
        let in_state = platform != Platform::MacOs && state_home is Some && state_home->0@.len() > 0;
        let base = if in_state {
            state_home->0@
        } else {
            home->0@
        };
        let below = if in_state {
            "vetter"@
        } else if platform == Platform::MacOs {
            "Library/Logs/vetter"@
        } else {
            ".local/state/vetter"@
        };
        let dir = joined(base, below);
        law_joined_path_ends_with_the_rest(base, below);
        law_joined_path_ends_with_the_rest(dir, "audit.log"@);
        let path = r->Ok_0@;
        assert(path == joined(dir, "audit.log"@));
        assert(base =~= path.subrange(0, base.len() as int)) by {
            assert(dir == path.subrange(0, dir.len() as int));
            assert(base == dir.subrange(0, base.len() as int));
            assert forall|k: int| 0 <= k < base.len() implies base[k] == #[trigger] path[k] by {
                assert(dir[k] == path.subrange(0, dir.len() as int)[k]);
                assert(base[k] == dir.subrange(0, base.len() as int)[k]);
            }
        }
    }
}

/// The admin socket is where the environment names it, or else beside the main
/// socket under its own name.
pub proof fn law_admin_socket_is_beside_the_main_one(
    named: Option<String>,
    main: &str,
    r: String,
    dir: Seq<char>,
    file: Seq<char>,
)
    requires
        call_ensures(admin_socket_path_for, (named, main), r),
        main@ == dir.push('/') + file,
        dir.len() > 0,
        dir.last() != '/',
        !(dir.last() == '.' && dir.len() > 1 && dir[dir.len() - 2] == '/'),
        file.len() > 0,
        !file.contains('/'),
        file != seq!['.'],
        file != seq!['.', '.'],
    ensures
        named matches Some(p) ==> r@ == p@,
        named is None ==> r@ == dir.push('/') + "vetter-admin.sock"@,
{
    reveal_strlit("vetter-admin.sock");
    assert("vetter-admin.sock"@[0] == 'v');
    law_new_name_in_the_same_directory(dir, file, "vetter-admin.sock"@);
}

} // verus!
