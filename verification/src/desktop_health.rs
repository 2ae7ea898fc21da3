//! What the desktop offers to the surfaces, put together from probes of the
//! session bus. A probe that failed counts as a service that is absent.
use crate::text::same_text;
use vstd::prelude::*;
use vstd::string::*;

verus! {

/// What the desktop offers.
#[derive(Debug, PartialEq, Eq)]
pub struct DesktopHealth {
    pub session_bus: bool,
    /// The name of the notification server.
    pub notification_server: Option<String>,
    /// Whether the notification server shows action buttons.
    pub notification_actions: bool,
    pub tray_watcher: bool,
    /// Whether something draws the items of the tray.
    pub tray_host: bool,
}

/// The answers of the notification service; each is none where asking failed.
#[derive(Debug, PartialEq, Eq)]
pub struct NotifyProbe {
    /// Whether the name of the service is owned, and it could be reached.
    pub reachable: bool,
    pub server_name: Option<String>,
    pub capabilities: Option<Vec<String>>,
}

/// The answers about the tray; each is none where asking failed.
#[derive(Debug, Clone, Copy, PartialEq, Eq, Structural)]
pub struct TrayProbe {
    pub kde_watcher: Option<bool>,
    pub fdo_watcher: Option<bool>,
    /// Whether a host is registered with the watcher that was found.
    pub host_registered: Option<bool>,
}

/// Whether the list has the text.
pub open spec fn has_text(v: Seq<String>, want: Seq<char>) -> bool {
    exists|i: int| 0 <= i < v.len() && (#[trigger] v[i])@ == want
}

/// Whether the list has the text.
pub fn contains_text(v: &Vec<String>, want: &str) -> (r: bool)
    ensures
        r == has_text(v@, want@),
{
    let mut i: usize = 0;
    while i < v.len()
        invariant
            i <= v.len(),
            forall|k: int| 0 <= k < i ==> (#[trigger] v@[k])@ != want@,
        decreases v.len() - i,
    {
        if same_text(v[i].as_str(), want) {
            assert(v@[i as int]@ == want@);
            return true;
        }
        i += 1;
    }
    false
}

/// The name of the notification server, and whether it shows action buttons.
pub fn notification_health(probe: NotifyProbe) -> (r: (Option<String>, bool))
    ensures
        !probe.reachable ==> r.0 is None && !r.1,
        probe.reachable ==> r.0 == probe.server_name && r.1 == (probe.capabilities is Some && has_text(
            probe.capabilities->0@,
            "actions"@,
        )),
{
    if !probe.reachable {
        return (None, false);
    }
    let actions = match &probe.capabilities {
        Some(caps) => contains_text(caps, "actions"),
        None => false,
    };
    (probe.server_name, actions)
}

/// Whether there is a watcher of the tray, and whether a host is registered
/// with it. The two are not the same: a watcher without a host draws nothing.
pub fn tray_health(probe: TrayProbe) -> (r: (bool, bool))
    ensures
        r.0 == (probe.kde_watcher == Some(true) || probe.fdo_watcher == Some(true)),
        r.1 == (r.0 && probe.host_registered == Some(true)),
{
    let kde = match probe.kde_watcher {
        Some(b) => b,
        None => false,
    };
    let fdo = match probe.fdo_watcher {
        Some(b) => b,
        None => false,
    };
    let host = match probe.host_registered {
        Some(b) => b,
        None => false,
    };
    let watcher = kde || fdo;
    (watcher, watcher && host)
}

/// The bus name of the watcher to ask for its hosts: that of KDE where it is
/// owned, else that of freedesktop.
pub fn watcher_to_ask(kde_owned: bool, fdo_owned: bool) -> (r: Option<&'static str>)
    ensures
        kde_owned ==> (r matches Some(name) && name@ == "org.kde.StatusNotifierWatcher"@),
        !kde_owned && fdo_owned ==> (r matches Some(name) && name@
            == "org.freedesktop.StatusNotifierWatcher"@),
        !kde_owned && !fdo_owned ==> r is None,
{
    if kde_owned {
        Some("org.kde.StatusNotifierWatcher")
    } else if fdo_owned {
        Some("org.freedesktop.StatusNotifierWatcher")
    } else {
        None
    }
}

/// What the desktop offers: nothing where the session bus cannot be reached.
pub fn probe(bus: Option<(NotifyProbe, TrayProbe)>) -> (r: DesktopHealth)
    ensures
        match bus {
            None => {
                &&& !r.session_bus
                &&& r.notification_server is None
                &&& !r.notification_actions
                &&& !r.tray_watcher
                &&& !r.tray_host
            },
            Some((notify, tray)) => {
                &&& r.session_bus
                &&& r.notification_server == (if notify.reachable {
                    notify.server_name
                } else {
                    None
                })
                &&& r.notification_actions == (notify.reachable && notify.capabilities is Some && has_text(
                    notify.capabilities->0@,
                    "actions"@,
                ))
                &&& r.tray_watcher == (tray.kde_watcher == Some(true) || tray.fdo_watcher == Some(true))
                &&& r.tray_host == (r.tray_watcher && tray.host_registered == Some(true))
            },
        },
{
    match bus {
        None => DesktopHealth {
            session_bus: false,
            notification_server: None,
            notification_actions: false,
            tray_watcher: false,
            tray_host: false,
        },
        Some((notify, tray)) => {
            let (notification_server, notification_actions) = notification_health(notify);
            let (tray_watcher, tray_host) = tray_health(tray);
            DesktopHealth {
                session_bus: true,
                notification_server,
                notification_actions,
                tray_watcher,
                tray_host,
            }
        },
    }
}

/// A part of the desktop counts as there only where it answered: without a bus
/// nothing is, without a server there are no buttons, and without a watcher there
/// is no tray.
pub proof fn law_health_is_not_overstated(bus: Option<(NotifyProbe, TrayProbe)>, r: DesktopHealth)
    requires
        call_ensures(probe, (bus,), r),
    ensures
        r.session_bus <==> bus is Some,
        bus is None ==> r.notification_server is None && !r.notification_actions && !r.tray_watcher
            && !r.tray_host,
        bus matches Some((notify, tray)) ==> {
            let watched = tray.kde_watcher == Some(true) || tray.fdo_watcher == Some(true);
            &&& r.notification_server is Some ==> notify.reachable
            &&& notify.reachable ==> r.notification_server == notify.server_name
            &&& r.notification_actions ==> notify.reachable && notify.capabilities is Some && exists|i: int|
                0 <= i < notify.capabilities->0@.len() && (#[trigger] notify.capabilities->0@[i])@
                    == "actions"@
            &&& r.tray_watcher <==> watched
            &&& r.tray_host ==> watched && tray.host_registered == Some(true)
            &&& watched && tray.host_registered == Some(true) ==> r.tray_host
        },
{
}

} // verus!
