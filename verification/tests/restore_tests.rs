use tici::codec::parse_session;
use tici::dispatch::{plan_default, DefaultAction};
use tici::restore::{plan_restore, TmuxCommand};

fn saved_session() -> &'static str {
    "# Window: proj|0|edit|0|L0\n\
     # Pane: 0|0|t0|/h/proj|vim|11\n\
     # Window: proj|1|logs|1|L1\n\
     # Pane: 0|1|t1|/h/proj|tail|12\n\
     # Pane: 1|0|t2|/var/log|bash|13\n"
}

#[test]
fn restore_plan_for_two_window_save() {
    let windows = parse_session(saved_session()).unwrap();
    let existing = vec![0u32, 2u32];
    let plan = plan_restore("proj", &existing, windows);
    let s = "proj".to_string();
    let expected = vec![
        TmuxCommand::KillWindow { session: s.clone(), index: 2 },
        TmuxCommand::SelectLayout { session: s.clone(), index: 0, layout: "L0".to_string() },
        TmuxCommand::NewWindow {
            session: s.clone(),
            index: 1,
            name: "logs".to_string(),
            cwd: Some("/h/proj".to_string()),
        },
        TmuxCommand::SplitWindow { session: s.clone(), index: 1, cwd: "/var/log".to_string() },
        TmuxCommand::SelectLayout { session: s.clone(), index: 1, layout: "L1".to_string() },
        TmuxCommand::SelectPane { session: s.clone(), index: 1, pane: 0 },
        TmuxCommand::SelectWindow { session: s.clone(), index: 1 },
    ];
    assert_eq!(plan, expected);
}

#[test]
fn restore_plan_never_kills_window_zero() {
    let windows = parse_session(saved_session()).unwrap();
    let existing = vec![0u32, 1u32, 5u32];
    let plan = plan_restore("proj", &existing, windows);
    for cmd in &plan {
        if let TmuxCommand::KillWindow { index, .. } = cmd {
            assert_ne!(*index, 0);
        }
    }
    assert!(plan.iter().any(|c| matches!(c, TmuxCommand::KillWindow { index: 1, .. })));
    assert!(plan.iter().any(|c| matches!(c, TmuxCommand::KillWindow { index: 5, .. })));
}

#[test]
fn restore_plan_selects_at_most_one_active_window() {
    let windows = parse_session(saved_session()).unwrap();
    let plan = plan_restore("proj", &vec![0u32], windows);
    let selects: Vec<&TmuxCommand> = plan
        .iter()
        .filter(|c| matches!(c, TmuxCommand::SelectWindow { .. }))
        .collect();
    assert_eq!(selects.len(), 1);
    assert!(matches!(selects[0], TmuxCommand::SelectWindow { index: 1, .. }));
}

#[test]
fn restore_plan_without_active_window_selects_none() {
    let text = "# Window: proj|0|edit|0|L0\n# Pane: 0|0|t|/p|sh|1\n";
    let windows = parse_session(text).unwrap();
    let plan = plan_restore("proj", &vec![0u32], windows);
    assert!(!plan.iter().any(|c| matches!(c, TmuxCommand::SelectWindow { .. })));
}

#[test]
fn restore_plan_creates_windows_in_ascending_index_order() {
    let text = "# Window: proj|2|b|0|L2\n# Pane: 0|0|t|/b|sh|1\n\
                # Window: proj|1|a|0|L1\n# Pane: 0|0|t|/a|sh|1\n";
    let windows = parse_session(text).unwrap();
    let plan = plan_restore("proj", &vec![0u32], windows);
    let creations: Vec<u32> = plan
        .iter()
        .filter_map(|c| match c {
            TmuxCommand::NewWindow { index, .. } => Some(*index),
            _ => None,
        })
        .collect();
    assert_eq!(creations, vec![1, 2]);
}

#[test]
fn restore_plan_on_matching_session_only_rebuilds() {
    let windows = parse_session(saved_session()).unwrap();
    let plan = plan_restore("proj", &vec![0u32, 1u32], windows.clone());
    let replay = plan_restore("proj", &vec![0u32, 1u32], windows);
    assert_eq!(plan, replay);
    assert_eq!(
        plan.iter().filter(|c| matches!(c, TmuxCommand::KillWindow { .. })).count(),
        1
    );
}

#[test]
fn default_plan_with_existing_session_only_switches() {
    let actions = plan_default(true, "/h/proj");
    assert_eq!(actions, vec![DefaultAction::SwitchTo]);
    assert!(!actions.iter().any(|a| matches!(a, DefaultAction::NewSession(_))));
    assert!(!actions.iter().any(|a| matches!(a, DefaultAction::Snapshot)));
}

#[test]
fn default_plan_without_session_creates_detached_in_directory() {
    let actions = plan_default(false, "/h/proj");
    assert_eq!(actions.len(), 4);
    match &actions[0] {
        DefaultAction::NewSession(opts) => {
            assert!(opts.detached);
            assert_eq!(opts.path.as_deref(), Some("/h/proj"));
        },
        other => panic!("unexpected first action: {:?}", other),
    }
    assert_eq!(actions[1], DefaultAction::RestoreBestEffort);
    assert_eq!(actions[2], DefaultAction::SwitchTo);
    assert_eq!(actions[3], DefaultAction::Snapshot);
}
