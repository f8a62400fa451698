use ternitor::autostart::{entry_points_at, run_command, units, write_outcome};
use ternitor::log::{log_line, timestamp, Log};
use ternitor::text::{decimal_string, to_utf16};
use ternitor::theme::{palette, pick_face, rgb};
use ternitor::tray::{choice, command_id, menu, write_tip, Choice, MenuItem};
use ternitor::win::wide;

#[test]
fn commands_map_to_choices() {
    assert_eq!(choice(1), Some(Choice::OpenSettings));
    assert_eq!(choice(2), Some(Choice::TogglePause));
    assert_eq!(choice(3), Some(Choice::OpenLog));
    assert_eq!(choice(4), Some(Choice::Exit));
    assert_eq!(choice(0), None);
    assert_eq!(choice(-1), None);
    assert_eq!(choice(5), None);
    for c in [Choice::OpenSettings, Choice::TogglePause, Choice::OpenLog, Choice::Exit] {
        assert_eq!(choice(command_id(c) as i32), Some(c));
    }
}

#[test]
fn the_menu_says_what_the_toggle_will_do() {
    let m = menu(false);
    assert_eq!(m.len(), 5);
    assert_eq!(m[1], MenuItem::Command { id: 2, label: "Pause hiding".to_string() });
    assert_eq!(m[3], MenuItem::Separator);
    assert_eq!(m[4], MenuItem::Command { id: 4, label: "Exit".to_string() });
    assert_eq!(menu(true)[1], MenuItem::Command { id: 2, label: "Resume hiding".to_string() });
    assert_eq!(menu(true)[0], MenuItem::Command { id: 1, label: "Settings...".to_string() });
}

#[test]
fn a_short_tip_is_written_whole() {
    let mut field = [7u16; 128];
    write_tip(&mut field, "Ternitor - paused");
    let want: Vec<u16> = "Ternitor - paused".encode_utf16().collect();
    assert_eq!(&field[..want.len()], &want[..]);
    assert_eq!(field[want.len()], 0);
    assert_eq!(field[want.len() + 1], 7);
}

#[test]
fn a_long_tip_is_cut_and_never_splits_a_pair() {
    let mut field = [7u16; 128];
    write_tip(&mut field, &"a".repeat(300));
    assert!(field[..127].iter().all(|&u| u == 'a' as u16));
    assert_eq!(field[127], 0);

    // 126 units, then a character that needs two: it does not fit whole.
    let mut field = [7u16; 128];
    let text = format!("{}\u{1F600}", "b".repeat(126));
    write_tip(&mut field, &text);
    assert_eq!(field[125], 'b' as u16);
    assert_eq!(field[126], 0);
    assert_eq!(field[127], 7);

    // 125 units, then the pair: it fits, ending at 127.
    let mut field = [7u16; 128];
    let text = format!("{}\u{1F600}x", "b".repeat(125));
    write_tip(&mut field, &text);
    assert_eq!(field[125], 0xD83D);
    assert_eq!(field[126], 0xDE00);
    assert_eq!(field[127], 0);
}

#[test]
fn wide_strings_end_in_a_nul() {
    assert_eq!(wide(""), vec![0]);
    assert_eq!(wide("A\u{1F600}é"), vec![0x41, 0xD83D, 0xDE00, 0xE9, 0]);
    assert_eq!(to_utf16("Ternitor"), "Ternitor".encode_utf16().collect::<Vec<_>>());
}

#[test]
fn the_run_entry_must_point_at_this_exe() {
    assert!(entry_points_at("\"C:\\Apps\\Ternitor.exe\"", "c:\\apps\\ternitor.exe"));
    assert!(entry_points_at("C:\\Apps\\Ternitor.exe", "\"C:\\Apps\\Ternitor.exe\""));
    assert!(!entry_points_at("\"D:\\Old\\Ternitor.exe\"", "C:\\Apps\\Ternitor.exe"));
    assert!(!entry_points_at("", "C:\\Apps\\Ternitor.exe"));
    assert!(entry_points_at("\"\"", ""));
    assert_eq!(run_command("C:\\Program Files\\T.exe"), "\"C:\\Program Files\\T.exe\"");
}

#[test]
fn registry_strings_stop_at_the_nul() {
    assert_eq!(units(&[0x41, 0, 0x42, 0, 0, 0, 0x43, 0]), vec![0x41, 0x42]);
    assert_eq!(units(&[0x41, 0x01, 0x42]), vec![0x0141]);
    assert_eq!(units(&[]), Vec::<u16>::new());
}

#[test]
fn registry_results() {
    assert_eq!(write_outcome(true, 0), Ok(()));
    assert_eq!(write_outcome(false, 0), Ok(()));
    // Already absent is the state that was wanted.
    assert_eq!(write_outcome(false, 2), Ok(()));
    assert_eq!(write_outcome(true, 2), Err("registry write failed (2)".to_string()));
    assert_eq!(write_outcome(true, 5), Err("registry write failed (5)".to_string()));
}

#[test]
fn log_lines_are_stamped() {
    assert_eq!(timestamp(2026, 9, 16, 8, 5, 3, 7), "2026-09-16 08:05:03.007");
    assert_eq!(timestamp(12, 12, 31, 23, 59, 59, 999), "0012-12-31 23:59:59.999");
    assert_eq!(log_line("2026-09-16 08:05:03.007", "paused"), "2026-09-16 08:05:03.007  paused\n");
}

#[test]
fn the_log_path_is_set_once() {
    let mut log = Log::new();
    assert_eq!(log.path(), None);
    log.init("a.log".to_string());
    log.init("b.log".to_string());
    assert_eq!(log.path().map(|p| p.as_str()), Some("a.log"));
}

#[test]
fn faces_fall_back_to_the_last_wanted() {
    let wanted = vec!["Arial Narrow", "Segoe UI"];
    assert_eq!(pick_face(&wanted, &vec![true, true]), "Arial Narrow");
    assert_eq!(pick_face(&wanted, &vec![false, true]), "Segoe UI");
    assert_eq!(pick_face(&wanted, &vec![false, false]), "Segoe UI");
    assert_eq!(pick_face(&vec!["Cascadia Mono", "Consolas"], &vec![false, false]), "Consolas");
    assert_eq!(pick_face(&vec![], &vec![]), "Segoe UI");
}

#[test]
fn colours_are_colorrefs() {
    assert_eq!(rgb(0xFF, 0x6A, 0x13), 0x13_6A_FF);
    let p = palette();
    assert_eq!(p.ground, 0);
    assert_eq!(p.ink, 0xFF_FF_FF);
    assert_eq!(p.accent, 0x13_6A_FF);
    assert_eq!(p.dim, 0x8A_8A_8A);
}

#[test]
fn numerals() {
    assert_eq!(decimal_string(0), "0");
    assert_eq!(decimal_string(10), "10");
    assert_eq!(decimal_string(u64::MAX), "18446744073709551615");
}

#[test]
fn the_written_run_command_reads_back_as_enabled() {
    for exe in [
        "C:\\Program Files\\Ternitor\\ternitor.exe",
        "C:\\tools\\ternitor.exe",
        "\"C:\\quoted\\ternitor.exe\"",
        "",
    ] {
        assert!(entry_points_at(&run_command(exe), exe), "{exe}");
    }
    assert!(!entry_points_at(&run_command("C:\\old\\ternitor.exe"), "C:\\new\\ternitor.exe"));
}
