use vetterd::autostart::{
    current_at, disable, enable, entry_removed, exec_target, field, first_argument, from_raw_status,
    is_app_bundle_executable, is_disabled, quote_exec, reconcile_with_settings, render_entry, AutostartChange, AutostartError,
    AutostartStatus, Reconcile, Removal,
};
use vetterd::paths::Platform;

fn ok(s: &str) -> Result<String, String> {
    Ok(s.to_string())
}

fn err(s: &str) -> Result<String, String> {
    Err(s.to_string())
}

#[test]
fn a_written_entry_is_on() {
    for exec in ["/usr/bin/vetterd", "/opt/my apps/vet\"terd", "/a\\b`c$d"] {
        let entry = render_entry(exec);
        assert_eq!(exec_target(&entry), Some(exec.to_string()));
        assert_eq!(current_at(Some(entry.as_str()), &|p: &str| p == exec), AutostartStatus::Enabled);
        assert_eq!(current_at(Some(entry.as_str()), &|_: &str| false), AutostartStatus::NotFound);
    }
    assert!(render_entry("/x").starts_with("[Desktop Entry]\nType=Application\nName=Vetter\n"));
    assert!(render_entry("/x").contains("\nExec=\"/x\"\n"));
}

#[test]
fn a_missing_entry_is_off() {
    assert_eq!(current_at(None, &|_: &str| true), AutostartStatus::NotRegistered);
    let hidden = format!("{}Hidden=true\n", render_entry("/x"));
    assert_eq!(current_at(Some(hidden.as_str()), &|_: &str| true), AutostartStatus::NotRegistered);
}

#[test]
fn a_desktop_can_switch_an_entry_off() {
    assert!(is_disabled("Hidden=true\n"));
    assert!(is_disabled("X-GNOME-Autostart-enabled=false\n"));
    assert!(!is_disabled("Hidden=false\nX-GNOME-Autostart-enabled=true\n"));
    assert!(!is_disabled(""));
}

#[test]
fn fields_are_found_by_their_key() {
    assert_eq!(field("A = 1\nB=2\nB=3\n", "A"), Some("1".to_string()));
    assert_eq!(field("B=2\nB=3\n", "B"), Some("2".to_string()));
    assert_eq!(field("#B=2\n", "B"), None);
    assert_eq!(field("nothing", "B"), None);
}

#[test]
fn quoting_is_undone_by_reading() {
    assert_eq!(quote_exec("/a b"), "\"/a b\"");
    assert_eq!(quote_exec("a\"b\\c`d$e"), "\"a\\\"b\\\\c\\`d\\$e\"");
    assert_eq!(first_argument(&quote_exec("/a \"b\"")), Some("/a \"b\"".to_string()));
    assert_eq!(first_argument("/usr/bin/x --flag"), Some("/usr/bin/x".to_string()));
    assert_eq!(first_argument("\"open"), None);
}

#[test]
fn the_system_is_made_to_follow_the_settings() {
    assert_eq!(reconcile_with_settings(true, AutostartStatus::NotRegistered), Reconcile::Enable);
    assert_eq!(reconcile_with_settings(false, AutostartStatus::Enabled), Reconcile::Disable);
    assert_eq!(reconcile_with_settings(true, AutostartStatus::RequiresApproval), Reconcile::Nothing);
    assert_eq!(reconcile_with_settings(true, AutostartStatus::Unsupported), Reconcile::Nothing);
    assert_eq!(reconcile_with_settings(true, AutostartStatus::NotFound), Reconcile::Enable);
}

#[test]
fn the_numbers_of_macos_are_read() {
    assert_eq!(from_raw_status(0), AutostartStatus::NotRegistered);
    assert_eq!(from_raw_status(1), AutostartStatus::Enabled);
    assert_eq!(from_raw_status(2), AutostartStatus::RequiresApproval);
    assert_eq!(from_raw_status(3), AutostartStatus::NotFound);
    assert_eq!(from_raw_status(9), AutostartStatus::NotRegistered);
    assert!(AutostartStatus::RequiresApproval.is_enabled());
    assert!(!AutostartStatus::NotFound.is_enabled());
}

#[test]
fn autostart_is_changed_by_platform() {
    assert_eq!(
        enable(Platform::Linux, ok("/x"), ok("/cfg/vetter.desktop"), false, false),
        Ok(AutostartChange::WriteEntry {
            path: "/cfg/vetter.desktop".to_string(),
            text: render_entry("/x"),
        })
    );
    assert_eq!(
        disable(Platform::Linux, err("?"), ok("/cfg/vetter.desktop"), false, false),
        Ok(AutostartChange::RemoveEntry { path: "/cfg/vetter.desktop".to_string() })
    );
    assert_eq!(
        enable(Platform::Linux, ok("/x"), err("no home"), false, false),
        Err(AutostartError::Unavailable("no home".to_string()))
    );
    assert_eq!(
        enable(Platform::MacOs, ok("/x"), err(""), true, true),
        Ok(AutostartChange::Register)
    );
    assert_eq!(
        disable(Platform::MacOs, ok("/x"), err(""), true, true),
        Ok(AutostartChange::Unregister)
    );
    assert_eq!(
        enable(Platform::MacOs, ok("/x"), err(""), false, true),
        Err(AutostartError::NotABundle { exe: "/x".to_string() })
    );
    assert_eq!(
        enable(Platform::MacOs, ok("/x"), err(""), true, false),
        Err(AutostartError::Unavailable(
            "SMAppService class not loadable on this system".to_string()
        ))
    );
    assert_eq!(
        enable(Platform::Other, ok("/x"), err(""), true, true),
        Err(AutostartError::Unavailable(
            "autostart supported on macOS and Linux targets only".to_string()
        ))
    );
}

#[test]
fn switching_off_twice_is_switching_off_once() {
    let off = || disable(Platform::Linux, err("?"), ok("/cfg/vetter.desktop"), false, false);
    assert_eq!(off(), off());
    assert_eq!(entry_removed("/p", Removal::Removed), Ok(()));
    assert_eq!(entry_removed("/p", Removal::Missing), Ok(()));
    assert_eq!(
        entry_removed("/p", Removal::Failed("denied".to_string())),
        Err(AutostartError::Io { path: "/p".to_string(), source: "denied".to_string() })
    );
}

#[test]
fn a_bundle_is_told_by_its_path() {
    assert!(is_app_bundle_executable("/Applications/Vetter.app/Contents/MacOS/vetterd"));
    assert!(!is_app_bundle_executable("/usr/local/bin/vetterd"));
    assert!(!is_app_bundle_executable("/Vetter.app/Contents/vetterd"));
    assert!(!is_app_bundle_executable(""));
}

#[test]
fn autostart_errors_have_messages() {
    assert_eq!(
        AutostartError::NotABundle { exe: "/x".to_string() }.message(),
        "autostart requires running inside a code-signed .app bundle (current executable: /x); launch via `open Vetter.app`"
    );
    assert_eq!(
        AutostartError::Unavailable("w".to_string()).message(),
        "autostart unavailable on this platform: w"
    );
    assert_eq!(
        AutostartError::Apple { op: "register".to_string(), message: "m".to_string() }.message(),
        "SMAppService register failed: m"
    );
    assert_eq!(
        AutostartError::Io { path: "/p".to_string(), source: "s".to_string() }.message(),
        "autostart entry /p: s"
    );
}
