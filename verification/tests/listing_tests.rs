use tici::listing::{pane_target, panes_from_listing, window_target, windows_from_listing};
use tici::model::{Pane, SessionError, Window};

#[test]
fn window_listing_line_parses() {
    let line = "window\tproj\t1\t:logs\t1\tL1";
    let w = Window::from_format_str(line).unwrap();
    assert_eq!(w.session_name, "proj");
    assert_eq!(w.index, 1);
    assert_eq!(w.name, "logs");
    assert!(w.active);
    assert_eq!(w.layout, "L1");
}

#[test]
fn window_listing_strips_exactly_one_colon() {
    let line = "window\tproj\t0\t::odd\t0\tL0";
    let w = Window::from_format_str(line).unwrap();
    assert_eq!(w.name, ":odd");
}

#[test]
fn window_listing_with_too_few_fields_is_none() {
    assert!(Window::from_format_str("window\tproj\t0\t:n\t1").is_none());
}

#[test]
fn window_listing_with_bad_index_is_none() {
    assert!(Window::from_format_str("window\tproj\tx\t:n\t1\tL0").is_none());
}

#[test]
fn pane_listing_line_parses() {
    let line = "pane\tproj\t1\t1\t:*\t0\ttitle\t:/h/proj\t1\tvim\t42";
    let p = Pane::from_format_str(line).unwrap();
    assert_eq!(p.index, 0);
    assert_eq!(p.title, "title");
    assert_eq!(p.current_path, "/h/proj");
    assert!(p.active);
    assert_eq!(p.current_command, "vim");
    assert_eq!(p.pid, 42);
}

#[test]
fn whole_window_listing_parses_in_order() {
    let out = "window\tproj\t0\t:edit\t0\tL0\nwindow\tproj\t1\t:logs\t1\tL1\n";
    let ws = windows_from_listing(out).unwrap();
    assert_eq!(ws.len(), 2);
    assert_eq!(ws[0].name, "edit");
    assert_eq!(ws[1].name, "logs");
}

#[test]
fn malformed_window_listing_reports_the_line() {
    let out = "window\tproj\t0\t:edit\t0\tL0\nbroken\n";
    assert_eq!(
        windows_from_listing(out),
        Err(SessionError::MalformedRecord("broken".to_string()))
    );
}

#[test]
fn whole_pane_listing_parses() {
    let out = "pane\tproj\t1\t1\t:*\t0\tt0\t:/a\t1\tsh\t1\npane\tproj\t1\t1\t:*\t1\tt1\t:/b\t0\tvim\t2\n";
    let ps = panes_from_listing(out).unwrap();
    assert_eq!(ps.len(), 2);
    assert_eq!(ps[0].current_path, "/a");
    assert_eq!(ps[1].current_path, "/b");
    assert!(!ps[1].active);
}

#[test]
fn targets_are_composed_from_session_and_indices() {
    assert_eq!(window_target("proj", 3), "proj:3");
    assert_eq!(pane_target("proj", 3, 10), "proj:3.10");
}
