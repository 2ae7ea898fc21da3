use vetterd::audit::{
    log_line, looks_like_ui_row, tail_next, tail_start, tail_take, ui_lines, AuditEntry, TailStep,
    TAIL_WINDOW_START,
};
use vetterd::command::WireDecision;
use vetterd::daemon::{
    inflight_limit, max_inflight_from_env, timestamp_iso8601, EnvVar, Inflight,
    DEFAULT_MAX_INFLIGHT,
};
use vetterd::desktop_health::{
    notification_health, probe, tray_health, watcher_to_ask, NotifyProbe, TrayProbe,
};
use vetterd::path::{file_name_of, join_path, same_path, set_file_name, starts_at_root};
use vetterd::paths::{admin_socket_path_for, default_audit_path, PathError, Platform};
use vetterd::socket::{before_bind, SocketProbe, SocketStep};
use vetterd::text::{decimal_text, in_order, lines_of, split_text, trimmed};

fn text(s: &str) -> Option<String> {
    Some(s.to_string())
}

#[test]
fn the_limit_comes_from_the_environment() {
    assert_eq!(max_inflight_from_env(&EnvVar::Unset), Ok(DEFAULT_MAX_INFLIGHT));
    assert_eq!(DEFAULT_MAX_INFLIGHT, 16);
    assert_eq!(max_inflight_from_env(&EnvVar::Text("7".to_string())), Ok(7));
    assert_eq!(max_inflight_from_env(&EnvVar::Text("+7".to_string())), Ok(7));
    assert_eq!(max_inflight_from_env(&EnvVar::Text("007".to_string())), Ok(7));
    assert_eq!(
        max_inflight_from_env(&EnvVar::Text("0".to_string())),
        Err("VETTERD_MAX_INFLIGHT must be > 0 (got `0`)".to_string())
    );
    assert_eq!(
        max_inflight_from_env(&EnvVar::NotUnicode),
        Err("VETTERD_MAX_INFLIGHT contains non-UTF-8 bytes".to_string())
    );
    for bad in ["", "x", "-1", "1 ", "99999999999999999999999"] {
        let e = max_inflight_from_env(&EnvVar::Text(bad.to_string())).expect_err(bad);
        let why = bad.parse::<usize>().expect_err(bad).to_string();
        assert_eq!(
            e,
            format!("VETTERD_MAX_INFLIGHT=`{bad}` is not a non-negative integer: {why}")
        );
    }
    assert_eq!(
        inflight_limit("x", Err("no".to_string())),
        Err("VETTERD_MAX_INFLIGHT=`x` is not a non-negative integer: no".to_string())
    );
    assert_eq!(inflight_limit("3", Ok(3)), Ok(3));
}

#[test]
fn the_cap_on_workers_holds() {
    let mut workers = Inflight::new(2);
    assert!(workers.enter());
    assert!(workers.enter());
    assert!(!workers.enter());
    workers.leave();
    assert!(workers.enter());
    assert!(!workers.enter());
}

#[test]
fn timestamps_are_dates() {
    assert_eq!(timestamp_iso8601(0, 0), "1970-01-01T00:00:00.000000000Z");
    assert_eq!(timestamp_iso8601(951782400, 5), "2000-02-29T00:00:00.000000005Z");
    assert_eq!(timestamp_iso8601(1709251199, 999999999), "2024-02-29T23:59:59.999999999Z");
    assert_eq!(timestamp_iso8601(4102444800, 0), "2100-01-01T00:00:00.000000000Z");
    assert_eq!(timestamp_iso8601(4107542400, 0), "2100-03-01T00:00:00.000000000Z");
}

#[test]
fn the_audit_log_has_its_place() {
    let at = |p, named: Option<&str>, state: Option<&str>, home: Option<&str>| {
        default_audit_path(
            p,
            named.map(|s| s.to_string()),
            state.map(|s| s.to_string()),
            home.map(|s| s.to_string()),
        )
    };
    assert_eq!(at(Platform::Linux, Some("/x"), None, None), Ok("/x".to_string()));
    assert_eq!(
        at(Platform::Linux, None, Some("/s"), Some("/h")),
        Ok("/s/vetter/audit.log".to_string())
    );
    assert_eq!(
        at(Platform::Linux, None, Some(""), Some("/h")),
        Ok("/h/.local/state/vetter/audit.log".to_string())
    );
    assert_eq!(
        at(Platform::MacOs, None, Some("/s"), Some("/h")),
        Ok("/h/Library/Logs/vetter/audit.log".to_string())
    );
    assert_eq!(at(Platform::Linux, None, None, None), Err(PathError::HomeUnset));
    assert_eq!(
        PathError::HomeUnset.message(),
        "$HOME is not set; cannot resolve audit log path"
    );
}

#[test]
fn the_admin_socket_stands_beside_the_main_one() {
    assert_eq!(admin_socket_path_for(text("/a"), "/run/v.sock"), "/a");
    assert_eq!(admin_socket_path_for(None, "/run/v.sock"), "/run/vetter-admin.sock");
    assert_eq!(admin_socket_path_for(None, "v.sock"), "vetter-admin.sock");
}

#[test]
fn paths_are_taken_apart() {
    assert_eq!(file_name_of("/usr/bin/curl"), text("curl"));
    assert_eq!(file_name_of("/usr/bin/curl/"), text("curl"));
    assert_eq!(file_name_of(".."), None);
    assert_eq!(file_name_of("/"), None);
    assert_eq!(join_path("/a", "b"), "/a/b");
    assert_eq!(join_path("/a/", "b"), "/a/b");
    assert_eq!(join_path("/a", "/b"), "/b");
    assert_eq!(set_file_name("/a/b", "c"), "/a/c");
    assert!(same_path("/a//b/./c", "/a/b/c"));
    assert!(!same_path("/a/b", "a/b"));
    assert!(starts_at_root("/a"));
    assert!(!starts_at_root("a"));
}

#[test]
fn texts_are_taken_apart() {
    assert_eq!(trimmed("  a b\t\n"), "a b");
    assert_eq!(split_text("a;;b", ';'), vec!["a", "", "b"]);
    assert_eq!(lines_of("a\r\nb\n"), vec!["a", "b"]);
    assert_eq!(lines_of(""), Vec::<String>::new());
    assert!(in_order("a", "ab"));
    assert!(in_order("a", "a"));
    assert!(!in_order("b", "ab"));
    assert_eq!(decimal_text(0), "0");
    assert_eq!(decimal_text(u64::MAX), "18446744073709551615");
}

#[test]
fn a_live_daemon_is_not_displaced() {
    assert_eq!(
        before_bind(SocketProbe::Answered, "/s"),
        SocketStep::Busy("another vetterd is already listening on /s".to_string())
    );
    assert_eq!(before_bind(SocketProbe::Refused, "/s"), SocketStep::UnlinkThenBind);
    assert_eq!(before_bind(SocketProbe::Failed, "/s"), SocketStep::UnlinkThenBind);
    assert_eq!(before_bind(SocketProbe::Vanished, "/s"), SocketStep::Bind);
    assert_eq!(before_bind(SocketProbe::Nothing, "/s"), SocketStep::Bind);
}

#[test]
fn the_desktop_is_probed() {
    let none = probe(None);
    assert!(!none.session_bus && none.notification_server.is_none() && !none.tray_watcher);
    let notify = NotifyProbe {
        reachable: true,
        server_name: text("dunst"),
        capabilities: Some(vec!["body".to_string(), "actions".to_string()]),
    };
    let tray = TrayProbe { kde_watcher: Some(true), fdo_watcher: None, host_registered: Some(false) };
    let some = probe(Some((notify, tray)));
    assert_eq!(some.notification_server, text("dunst"));
    assert!(some.session_bus && some.notification_actions && some.tray_watcher && !some.tray_host);
    let silent = NotifyProbe { reachable: false, server_name: text("x"), capabilities: None };
    assert_eq!(notification_health(silent), (None, false));
    let lost = TrayProbe { kde_watcher: None, fdo_watcher: None, host_registered: Some(true) };
    assert_eq!(tray_health(lost), (false, false));
    assert_eq!(watcher_to_ask(true, true), Some("org.kde.StatusNotifierWatcher"));
    assert_eq!(watcher_to_ask(false, true), Some("org.freedesktop.StatusNotifierWatcher"));
    assert_eq!(watcher_to_ask(false, false), None);
}

fn entry(id: &str, rendered: &str) -> AuditEntry {
    AuditEntry {
        id: id.to_string(),
        timestamp: String::new(),
        command: String::new(),
        argv: Vec::new(),
        decision: WireDecision::Deny,
        reason: String::new(),
        rule_id: None,
        rule_scope: None,
        force_prompt: false,
        primary_verb: String::new(),
        primary_target: String::new(),
        signals: Vec::new(),
        parsed: None,
        host_known: Vec::new(),
        rendered: rendered.to_string(),
        peer_sid: None,
    }
}

#[test]
fn the_end_of_the_log_is_read_in_windows() {
    assert_eq!(tail_start(0, 100), TailStep::Done);
    assert_eq!(tail_start(20, 0), TailStep::Done);
    assert_eq!(tail_start(20, 100), TailStep::Read { pos: 0, len: 100 });
    let end = 3 * TAIL_WINDOW_START;
    assert_eq!(
        tail_start(20, end),
        TailStep::Read { pos: 2 * TAIL_WINDOW_START, len: TAIL_WINDOW_START }
    );
    assert_eq!(
        tail_next(TAIL_WINDOW_START, end),
        TailStep::Read { pos: TAIL_WINDOW_START, len: 2 * TAIL_WINDOW_START }
    );
    assert_eq!(tail_next(2 * TAIL_WINDOW_START, end), TailStep::Read { pos: 0, len: end });
}

#[test]
fn only_whole_lines_with_a_card_are_parsed() {
    let window = b"tail\",\"rendered\":\"a\"}\n{\"id\":1}\n{\"rendered\":\"b\"}\n".to_vec();
    assert_eq!(ui_lines(&window, 10), vec![b"{\"rendered\":\"b\"}".to_vec()]);
    assert_eq!(ui_lines(&window, 0).len(), 2);
    assert!(looks_like_ui_row(&b"{\"rendered\":\"\"}".to_vec()));
    assert!(!looks_like_ui_row(&b"{\"rendered\":null}".to_vec()));
    assert!(!looks_like_ui_row(&Vec::new()));
}

#[test]
fn the_newest_entries_are_taken() {
    let rows = vec![entry("1", "a"), entry("2", "b"), entry("3", "c")];
    let ids = |v: Option<Vec<AuditEntry>>| v.map(|v| v.into_iter().map(|e| e.id).collect::<Vec<_>>());
    assert_eq!(
        ids(tail_take(rows.clone(), 2, 5)),
        Some(vec!["3".to_string(), "2".to_string()])
    );
    assert_eq!(ids(tail_take(rows.clone(), 9, 5)), None);
    assert_eq!(ids(tail_take(rows, 9, 0)).map(|v| v.len()), Some(3));
}

#[test]
fn every_window_gives_the_end_of_the_log() {
    // Each line stands for an entry whose id is its number; one does not parse.
    let mut log = Vec::new();
    for i in 0..9 {
        let json = if i == 7 {
            "{\"rendered\":\"broken".to_string()
        } else {
            format!("{{\"id\":{i},\"rendered\":\"x\"}}")
        };
        log.extend(log_line(json.into_bytes()));
    }
    let parse = |line: &Vec<u8>| {
        let text = String::from_utf8(line.clone()).expect("ascii");
        let id = text.strip_prefix("{\"id\":")?.split(',').next()?.to_string();
        Some(entry(&id, "x"))
    };
    for pos in 0..log.len() {
        let window = log[pos..].to_vec();
        let rows: Vec<AuditEntry> = ui_lines(&window, pos as u64).iter().filter_map(parse).collect();
        if let Some(taken) = tail_take(rows, 3, pos as u64) {
            let ids: Vec<String> = taken.into_iter().map(|e| e.id).collect();
            assert_eq!(ids, vec!["8", "6", "5"], "window at {pos}");
        }
    }
}

#[test]
fn appended_entries_come_back_by_the_steps() {
    // Long lines, so that several windows are read.
    let mut log = Vec::new();
    for i in 0..30 {
        let rendered = if i % 3 == 0 { String::new() } else { "x".repeat(9000) };
        log.extend(log_line(format!("{{\"id\":{i},\"rendered\":\"{rendered}\"}}").into_bytes()));
    }
    let parse = |line: &Vec<u8>| {
        let text = String::from_utf8(line.clone()).expect("ascii");
        let id = text.strip_prefix("{\"id\":")?.split(',').next()?.to_string();
        let rendered = if text.contains("xx") { "x" } else { "" };
        Some(entry(&id, rendered))
    };
    let read_back = |cap: usize| {
        let end = log.len() as u64;
        let mut reads = 0;
        let mut step = tail_start(cap, end);
        loop {
            let (pos, len) = match step {
                TailStep::Done => return (reads, Vec::new()),
                TailStep::Read { pos, len } => (pos, len),
            };
            reads += 1;
            let window = log[pos as usize..(pos + len) as usize].to_vec();
            let rows = ui_lines(&window, pos).iter().filter_map(parse).collect();
            if let Some(taken) = tail_take(rows, cap, pos) {
                return (reads, taken.into_iter().map(|e| e.id).collect::<Vec<_>>());
            }
            step = tail_next(len, end);
        }
    };
    assert_eq!(read_back(0), (0, Vec::new()));
    assert_eq!(read_back(3), (1, vec!["29".to_string(), "28".to_string(), "26".to_string()]));
    let (reads, all) = read_back(100);
    assert!(reads > 1);
    assert_eq!(all.len(), 20);
    assert_eq!(all[19], "1");
    assert_eq!(read_back(12).1, all[..12].to_vec());
}

#[test]
fn an_entry_is_one_line() {
    assert_eq!(log_line(b"{}".to_vec()), b"{}\n".to_vec());
}
