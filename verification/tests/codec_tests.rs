use tici::codec::{parse_session, serialize_session};
use tici::model::{Pane, SessionError, Window};

fn pane(index: u32, active: bool, title: &str, path: &str, cmd: &str, pid: u32) -> Pane {
    Pane {
        index,
        title: title.to_string(),
        current_path: path.to_string(),
        active,
        current_command: cmd.to_string(),
        pid,
    }
}

fn window(name: &str, index: u32, active: bool, layout: &str, panes: Vec<Pane>) -> Window {
    Window {
        session_name: "proj".to_string(),
        index,
        name: name.to_string(),
        active,
        layout: layout.to_string(),
        panes,
    }
}

#[test]
fn serialize_two_windows_three_panes() {
    let windows = vec![
        window("edit", 0, false, "L0", vec![pane(0, false, "t0", "/h/proj", "vim", 11)]),
        window(
            "logs",
            1,
            true,
            "L1",
            vec![
                pane(0, true, "t1", "/h/proj", "tail", 12),
                pane(1, false, "t2", "/var/log", "bash", 13),
            ],
        ),
    ];
    let text = serialize_session(&windows).unwrap();
    let expected = "# Window: proj|0|edit|0|L0\n\
                    # Pane: 0|0|t0|/h/proj|vim|11\n\
                    # Window: proj|1|logs|1|L1\n\
                    # Pane: 0|1|t1|/h/proj|tail|12\n\
                    # Pane: 1|0|t2|/var/log|bash|13\n";
    assert_eq!(text, expected);
}

#[test]
fn round_trip_recovers_session() {
    let windows = vec![
        window("edit", 0, false, "L0", vec![pane(0, false, "t0", "/h/proj", "vim", 11)]),
        window(
            "logs",
            1,
            true,
            "L1",
            vec![
                pane(0, true, "t1", "/h/proj", "tail", 12),
                pane(1, false, "t2", "/var/log", "bash", 13),
            ],
        ),
    ];
    let text = serialize_session(&windows).unwrap();
    let parsed = parse_session(&text).unwrap();
    assert_eq!(parsed, windows);
}

#[test]
fn serialize_rejects_separator_in_field() {
    let windows = vec![window("bad|name", 0, false, "L0", vec![])];
    assert_eq!(serialize_session(&windows), Err(SessionError::UnserializableField));
}

#[test]
fn serialize_rejects_separator_in_pane_field() {
    let windows = vec![window("w", 0, false, "L0", vec![pane(0, false, "a|b", "/p", "c", 1)])];
    assert_eq!(serialize_session(&windows), Err(SessionError::UnserializableField));
}

#[test]
fn parse_skips_blank_and_unknown_lines() {
    let noisy = "\n# comment\n# Window: proj|0|edit|1|L0\njunk line\n# Pane: 0|1|t|/p|sh|7\n\n";
    let clean = "# Window: proj|0|edit|1|L0\n# Pane: 0|1|t|/p|sh|7\n";
    assert_eq!(parse_session(noisy).unwrap(), parse_session(clean).unwrap());
}

#[test]
fn parse_ignores_extra_trailing_fields() {
    let extra = "# Window: proj|0|edit|1|L0|surplus|fields\n# Pane: 0|1|t|/p|sh|7|99\n";
    let clean = "# Window: proj|0|edit|1|L0\n# Pane: 0|1|t|/p|sh|7\n";
    assert_eq!(parse_session(extra).unwrap(), parse_session(clean).unwrap());
}

#[test]
fn parse_discards_pane_before_any_window() {
    let stray = "# Pane: 0|1|t|/p|sh|7\n# Window: proj|0|edit|1|L0\n";
    let parsed = parse_session(stray).unwrap();
    assert_eq!(parsed.len(), 1);
    assert!(parsed[0].panes.is_empty());
}

#[test]
fn parse_empty_input_is_empty_session() {
    assert_eq!(parse_session(""), Err(SessionError::EmptySession));
    assert_eq!(parse_session("no records here\n"), Err(SessionError::EmptySession));
}

#[test]
fn parse_window_with_four_fields_is_malformed() {
    let text = "# Window: proj|0|edit|1\n";
    assert_eq!(
        parse_session(text),
        Err(SessionError::MalformedRecord("# Window: proj|0|edit|1".to_string()))
    );
}

#[test]
fn parse_pane_with_five_fields_is_malformed() {
    let text = "# Window: proj|0|edit|1|L0\n# Pane: 0|1|t|/p|sh\n";
    assert_eq!(
        parse_session(text),
        Err(SessionError::MalformedRecord("# Pane: 0|1|t|/p|sh".to_string()))
    );
}

#[test]
fn parse_bad_window_index_is_malformed() {
    let text = "# Window: proj|zero|edit|1|L0\n";
    assert_eq!(
        parse_session(text),
        Err(SessionError::MalformedRecord("# Window: proj|zero|edit|1|L0".to_string()))
    );
}

#[test]
fn parse_bad_pid_defaults_to_zero() {
    let text = "# Window: proj|0|edit|1|L0\n# Pane: 2|1|t|/p|sh|notanumber\n";
    let parsed = parse_session(text).unwrap();
    assert_eq!(parsed[0].panes[0].pid, 0);
    assert_eq!(parsed[0].panes[0].index, 2);
}

#[test]
fn parse_active_flag_must_be_one() {
    let text = "# Window: proj|0|edit|2|L0\n";
    let parsed = parse_session(text).unwrap();
    assert!(!parsed[0].active);
}

#[test]
fn from_line_parses_one_window_record() {
    let w = Window::from_line("# Window: proj|3|edit|1|tiled").unwrap();
    assert_eq!(w.session_name, "proj");
    assert_eq!(w.index, 3);
    assert_eq!(w.name, "edit");
    assert!(w.active);
    assert_eq!(w.layout, "tiled");
    assert!(w.panes.is_empty());
}

#[test]
fn pane_from_line_parses_one_pane_record() {
    let p = Pane::from_line("# Pane: 1|0|title|/tmp|bash|42").unwrap();
    assert_eq!(p.index, 1);
    assert!(!p.active);
    assert_eq!(p.title, "title");
    assert_eq!(p.current_path, "/tmp");
    assert_eq!(p.current_command, "bash");
    assert_eq!(p.pid, 42);
}

#[test]
fn empty_fields_round_trip() {
    let windows = vec![window("", 0, false, "", vec![pane(0, false, "", "", "", 0)])];
    let text = serialize_session(&windows).unwrap();
    let parsed = parse_session(&text).unwrap();
    assert_eq!(parsed, windows);
}

#[test]
fn parse_window_index_above_u32_is_malformed() {
    let text = "# Window: proj|4294967296|edit|1|L0\n";
    assert_eq!(
        parse_session(text),
        Err(SessionError::MalformedRecord("# Window: proj|4294967296|edit|1|L0".to_string()))
    );
}

#[test]
fn parse_pid_above_u32_defaults_to_zero() {
    let text = "# Window: proj|0|edit|1|L0\n# Pane: 0|1|t|/p|sh|99999999999\n";
    let parsed = parse_session(text).unwrap();
    assert_eq!(parsed[0].panes[0].pid, 0);
}

#[test]
fn large_indices_round_trip() {
    let windows = vec![window("w", 4294967295, false, "L", vec![pane(4294967295, false, "t", "/p", "c", 4294967295)])];
    let text = serialize_session(&windows).unwrap();
    assert_eq!(parse_session(&text).unwrap(), windows);
}
