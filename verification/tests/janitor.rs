use ternitor::janitor::{
    classify, command_line_has_embedding, is_bare_exe_path, is_undecided_title, is_unwanted,
    trimmed, window_kind, ForegroundAction, Janitor, Look, ObjectAction, Settlement, Verdict,
    WindowKind, MAX_RECHECK_TRIES, OBJID_WINDOW, RECHECK_DELAY_MS, RELEASED_MEMORY,
};

/// The classification the deferred re-check turns on: hidden windows are
/// given back unless their title says they were never a real shell.
#[test]
fn blank_titles_stay_hidden() {
    for title in [
        r"C:\Windows\System32\cmd.exe",
        r"C:\Windows\System32\OpenSSH\ssh.EXE",
        r"d:/tools/node.exe",
    ] {
        assert_eq!(classify(title), Verdict::StayHidden, "{title}");
    }
    assert_eq!(classify(r"C:\a.exe"), Verdict::StayHidden);
}

#[test]
fn placeholder_titles_are_undecided() {
    for title in ["", "Terminal", "Windows Terminal"] {
        assert_eq!(classify(title), Verdict::Undecided, "[{title}]");
    }
}

#[test]
fn real_shell_titles_are_given_back() {
    for title in [
        "Command Prompt",
        r"Administrator: C:\Windows\System32\cmd.exe",
        r"pwsh - node",
        r"C:\Windows\System32",
        "notepad.exe",
        "C:",
    ] {
        assert_eq!(classify(title), Verdict::Restore, "{title}");
    }
}

/// A title is only a placeholder if it is nothing *but* a path to an exe.
#[test]
fn bare_exe_path_needs_a_drive_and_the_suffix() {
    assert!(is_bare_exe_path(r"C:\Windows\notepad.exe"));
    assert!(!is_bare_exe_path(r"C:\Windows\notepad.exe - Notepad"));
    assert!(!is_bare_exe_path(r"\Windows\notepad.exe"));
    assert!(!is_bare_exe_path("notepad.exe"));
    assert!(!is_bare_exe_path("2:\\x.exe"));
    assert!(!is_bare_exe_path("C:"));
    assert!(!is_bare_exe_path(""));
    assert!(!is_bare_exe_path(".exe"));
}

#[test]
fn embedding_flag_decides_on_the_command_line() {
    assert!(command_line_has_embedding(
        r#""C:\Program Files\WindowsApps\Microsoft.WindowsTerminal\wt.exe" -Embedding"#
    ));
    assert!(command_line_has_embedding("wt.exe -embedding"));
    assert!(command_line_has_embedding(r"C:\wt.exe --Embedding Thing"));
    // Not the flag: a shell that merely mentions something like it.
    assert!(!command_line_has_embedding(""));
    assert!(!command_line_has_embedding("a"));
    assert!(!command_line_has_embedding(
        r"C:\Windows\System32\cmd.exe /c echo Embedding"
    ));
    assert!(!command_line_has_embedding(r"C:\Windows\System32\cmd.exe"));
}

#[test]
fn placeholders_are_exactly_the_terminal_titles() {
    assert!(is_undecided_title(""));
    assert!(is_undecided_title("Terminal"));
    assert!(is_undecided_title("Windows Terminal"));
    assert!(!is_undecided_title("terminal"));
    assert!(!is_undecided_title(" Terminal"));
    assert!(!is_undecided_title("Windows Terminal Preview"));
}

#[test]
fn flag_and_suffix_are_case_blind_but_not_multibyte_blind() {
    assert!(command_line_has_embedding("-EMBEDDING"));
    assert!(!command_line_has_embedding("-Embeddin"));
    assert!(is_bare_exe_path("z:/a/b/c.ExE"));
    assert!(!is_bare_exe_path("é:/a.exe"));
    assert!(!is_bare_exe_path("C:|x.exe"));
}

#[test]
fn classes_are_told_apart_by_their_exact_names() {
    assert_eq!(window_kind("CASCADIA_HOSTING_WINDOW_CLASS"), WindowKind::Terminal);
    assert_eq!(window_kind("ConsoleWindowClass"), WindowKind::Other);
    assert_eq!(window_kind("consolewindowclass"), WindowKind::Other);
    assert_eq!(window_kind("Notepad"), WindowKind::Other);
}

#[test]
fn a_window_is_unwanted_only_for_both_reasons() {
    // Windows Terminal: the broker's flag on the owner decides.
    assert!(is_unwanted(WindowKind::Terminal, Some("wt.exe -Embedding")));
    assert!(is_unwanted(WindowKind::Terminal, Some("OpenConsole.exe -embedding")));
    assert!(!is_unwanted(WindowKind::Terminal, Some("wt.exe")));
    assert!(!is_unwanted(WindowKind::Terminal, None));
    // Any other class, a console a person opened among them, is never touched.
    assert!(!is_unwanted(window_kind("ConsoleWindowClass"), Some("x -Embedding")));
    assert!(!is_unwanted(window_kind("ConsoleWindowClass"), None));
    assert!(!is_unwanted(WindowKind::Other, Some("x -Embedding")));
}

#[test]
fn titles_are_trimmed_of_unicode_whitespace() {
    assert_eq!(trimmed("  a b \u{3000}\n"), "a b");
    assert_eq!(trimmed("\u{a0}"), "");
    assert_eq!(trimmed("x"), "x");
}

fn hide_window(j: &mut Janitor, w: usize, now: u64) -> ObjectAction {
    j.on_object_event(w, OBJID_WINDOW, 0, true, now)
}

#[test]
fn a_hide_counts_once_and_waits_once() {
    let mut j = Janitor::new();
    assert_eq!(hide_window(&mut j, 7, 0), ObjectAction::Hide { give_focus_to: None });
    assert_eq!(j.hidden_count(), 1);
    assert!(j.is_waiting(7));
    // A second create/show for the same window is another hide, but it does
    // not wait twice.
    assert_eq!(hide_window(&mut j, 7, 10), ObjectAction::Hide { give_focus_to: None });
    assert_eq!(j.hidden_count(), 2);
    assert_eq!(j.due(RECHECK_DELAY_MS), vec![7]);
}

#[test]
fn events_that_are_not_about_a_wanted_window_are_ignored() {
    let mut j = Janitor::new();
    assert_eq!(j.on_object_event(7, 1, 0, true, 0), ObjectAction::Ignore);
    assert_eq!(j.on_object_event(7, OBJID_WINDOW, 3, true, 0), ObjectAction::Ignore);
    assert_eq!(j.on_object_event(0, OBJID_WINDOW, 0, true, 0), ObjectAction::Ignore);
    assert_eq!(j.on_object_event(7, OBJID_WINDOW, 0, false, 0), ObjectAction::Ignore);
    assert_eq!(j.hidden_count(), 0);
    assert!(!j.is_waiting(7));
}

#[test]
fn paused_hides_nothing() {
    let mut j = Janitor::new();
    j.set_paused(true);
    assert!(j.paused());
    assert!(!j.watches(7));
    assert_eq!(hide_window(&mut j, 7, 0), ObjectAction::Ignore);
    assert_eq!(j.on_foreground(7, true), ForegroundAction::Noted);
    assert_eq!(j.hidden_count(), 0);
    j.set_paused(false);
    assert!(!j.paused());
    assert!(j.watches(7));
}

#[test]
fn focus_goes_back_to_the_last_real_window() {
    let mut j = Janitor::new();
    assert_eq!(j.on_foreground(0, false), ForegroundAction::Ignore);
    assert_eq!(j.on_foreground(3, false), ForegroundAction::Noted);
    assert_eq!(hide_window(&mut j, 7, 0), ObjectAction::Hide { give_focus_to: Some(3) });
    // The hidden window takes focus itself: it is hidden again and focus goes
    // back, and it is not remembered as the place to go back to.
    assert_eq!(j.on_foreground(7, true), ForegroundAction::TakeBack { give_focus_to: Some(3) });
    assert_eq!(hide_window(&mut j, 8, 0), ObjectAction::Hide { give_focus_to: Some(3) });
    // Focus is never handed to the window being hidden.
    assert_eq!(j.on_foreground(9, false), ForegroundAction::Noted);
    assert_eq!(hide_window(&mut j, 9, 0), ObjectAction::Hide { give_focus_to: None });
}

#[test]
fn a_real_shell_is_given_back_and_stays_shown() {
    let mut j = Janitor::new();
    hide_window(&mut j, 7, 100);
    assert!(j.due(100 + RECHECK_DELAY_MS - 1).is_empty());
    assert_eq!(j.due(100 + RECHECK_DELAY_MS), vec![7]);
    match j.settle(7, Look::Titled("  Command Prompt ".to_string()), 700) {
        Settlement::Restore { title } => assert_eq!(title, "Command Prompt"),
        other => panic!("expected a restore, got {other:?}"),
    }
    assert!(!j.is_waiting(7));
    assert!(!j.watches(7));
    assert_eq!(hide_window(&mut j, 7, 800), ObjectAction::Ignore);
    assert_eq!(j.on_foreground(7, true), ForegroundAction::Noted);
    assert_eq!(j.hidden_count(), 1);
}

#[test]
fn a_blank_stays_hidden_and_a_gone_window_is_forgotten() {
    let mut j = Janitor::new();
    hide_window(&mut j, 7, 0);
    hide_window(&mut j, 8, 0);
    assert_eq!(j.due(600), vec![8, 7]);
    match j.settle(8, Look::Titled(r"C:\Windows\System32\cmd.exe".to_string()), 600) {
        Settlement::StaysHidden { title } => assert_eq!(title, r"C:\Windows\System32\cmd.exe"),
        other => panic!("expected it to stay hidden, got {other:?}"),
    }
    assert!(matches!(j.settle(7, Look::Gone, 600), Settlement::Forgotten));
    assert!(matches!(j.settle(7, Look::Gone, 600), Settlement::NotPending));
    assert!(j.due(10_000).is_empty());
    assert!(j.watches(8));
}

#[test]
fn an_undecided_title_is_given_up_on_after_the_limit() {
    let mut j = Janitor::new();
    hide_window(&mut j, 7, 0);
    let mut now = 0;
    for _ in 0..MAX_RECHECK_TRIES {
        now += RECHECK_DELAY_MS;
        assert_eq!(j.due(now), vec![7]);
        assert!(matches!(j.settle(7, Look::Titled("Windows Terminal".to_string()), now), Settlement::Waiting));
        // Waiting again restarts the clock.
        assert!(j.due(now + RECHECK_DELAY_MS - 1).is_empty());
    }
    now += RECHECK_DELAY_MS;
    match j.settle(7, Look::Titled("".to_string()), now) {
        Settlement::StaysHidden { title } => assert_eq!(title, ""),
        other => panic!("expected it to stay hidden, got {other:?}"),
    }
    assert!(!j.is_waiting(7));
}

#[test]
fn the_memory_of_given_back_windows_is_bounded() {
    let mut j = Janitor::new();
    for w in 1..=RELEASED_MEMORY + 1 {
        hide_window(&mut j, w, 0);
        assert!(matches!(j.settle(w, Look::Titled("pwsh".to_string()), 600), Settlement::Restore { .. }));
    }
    // The memory was full when the last one came back, so it was forgotten
    // whole and only the last one is remembered.
    assert!(j.watches(1));
    assert!(j.watches(RELEASED_MEMORY));
    assert!(!j.watches(RELEASED_MEMORY + 1));
}
