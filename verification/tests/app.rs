use ternitor::app::App;
use ternitor::janitor::{Event, Janitor, ObjectAction, OBJID_WINDOW};

#[test]
fn a_new_app_has_hidden_nothing() {
    let a = App::new(5);
    let s = a.snapshot(true);
    assert!(!s.paused);
    assert_eq!(s.hidden, 0);
    assert!(s.autostart);
    assert_eq!(s.last_title, "");
    assert_eq!(s.session_start, 5);
    assert_eq!(a.refresh_tooltip(), "Ternitor - 0 hidden this session");
}

#[test]
fn pausing_needs_a_janitor_and_toggles_back() {
    let mut a = App::new(0);
    assert_eq!(a.toggle_pause(), None);
    a.janitor = Some(Janitor::new());
    assert_eq!(a.toggle_pause().as_deref(), Some("paused"));
    assert!(a.snapshot(false).paused);
    assert_eq!(a.refresh_tooltip(), "Ternitor - paused");
    assert_eq!(a.toggle_pause().as_deref(), Some("resumed"));
    assert!(!a.snapshot(false).paused);
}

#[test]
fn the_tooltip_and_snapshot_follow_the_janitor() {
    let mut a = App::new(0);
    let mut j = Janitor::new();
    for w in 1..=3 {
        assert!(matches!(j.on_object_event(w, OBJID_WINDOW, 0, true, 0), ObjectAction::Hide { .. }));
    }
    a.janitor = Some(j);
    assert_eq!(a.snapshot(false).hidden, 3);
    assert_eq!(a.refresh_tooltip(), "Ternitor - 3 hidden this session");
}

#[test]
fn only_a_hide_names_the_last_cut() {
    let mut a = App::new(0);
    a.on_event(Event::Hidden { title: "C:\\node.exe".to_string() });
    a.on_event(Event::Restored { title: "pwsh".to_string() });
    assert_eq!(a.snapshot(false).last_title, "C:\\node.exe");
}

#[test]
fn the_autostart_log_line() {
    let a = App::new(0);
    assert_eq!(a.set_autostart(true, &Ok(())), "autostart enabled");
    assert_eq!(a.set_autostart(false, &Ok(())), "autostart disabled");
    assert_eq!(
        a.set_autostart(true, &Err("registry write failed (5)".to_string())),
        "autostart toggle failed: registry write failed (5)"
    );
}
