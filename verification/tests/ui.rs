use ternitor::ui::{
    clock_at, fit_len, counter_caption, counter_digits, grain_at, last_cut, scatter, small_print, span,
    uword, word, Grain, DIGIT_GAP, DIGIT_W, FIELDS_BOTTOM, FIELDS_TOP, FOOTER_BOTTOM, H, PAD,
    PUNCH_H, PUNCH_Y, STRIP_H, SURFACE_H, W,
};

/// The paragraph is held to a fixed measure, and that measure has to stop
/// short of the widest counter a session can realistically reach.
#[test]
fn the_paragraph_measure_stops_before_the_counter() {
    let para_right = PAD + 430;
    let housing_left = W - PAD - (3 * DIGIT_W + 2 * DIGIT_GAP);
    assert!(
        para_right < housing_left,
        "paragraph reaches {para_right}, a three-digit counter starts at {housing_left}"
    );
}

#[test]
fn the_counter_is_zero_padded_to_three_and_grows() {
    assert_eq!(counter_digits(0), "000");
    assert_eq!(counter_digits(7), "007");
    assert_eq!(counter_digits(42), "042");
    assert_eq!(counter_digits(999), "999");
    assert_eq!(counter_digits(1234), "1234");
    assert_eq!(counter_digits(u64::MAX), u64::MAX.to_string());
}

#[test]
fn elapsed_reads_in_the_largest_sensible_unit() {
    assert_eq!(span(0), "0s");
    assert_eq!(span(42), "42s");
    assert_eq!(span(60), "1m 00s");
    assert_eq!(span(187), "3m 07s");
    assert_eq!(span(3600), "1h 00m");
    assert_eq!(span(7500), "2h 05m");
    assert_eq!(span(100 * 3600 + 59), "100h 00m");
}

#[test]
fn the_start_is_a_wall_clock_time() {
    assert_eq!(clock_at(10, 30, 0, 3600), "09:30");
    assert_eq!(clock_at(0, 10, 0, 1200), "23:50");
    assert_eq!(clock_at(12, 0, 59, 0), "12:00");
    assert_eq!(clock_at(1, 0, 0, 3 * 86400 + 7200), "23:00");
}

#[test]
fn grain_is_deterministic() {
    assert_eq!(scatter(0, 0, 1), 1027641548);
    assert_eq!(scatter(1, 2, 1), 3172911702);
    assert_eq!(scatter(-3, 7, 1), 1048807479);
    assert_eq!(scatter(100, 50, 0), 2390896557);
    assert_eq!(grain_at(0, 0), Grain::Base);
    assert_eq!(grain_at(21, 0), Grain::Speck);
    assert_eq!(grain_at(145, 58), Grain::Dust);
}

#[test]
fn words_are_sign_extended() {
    assert_eq!(word(0x1234_FFFF, 0), -1);
    assert_eq!(word(0x1234_FFFF, 16), 0x1234);
    assert_eq!(word(0x8000_0005, 16), -32768);
    assert_eq!(word(-2, 0), -2);
    assert_eq!(uword(0x0000_7FFF, 0), 32767);
    assert_eq!(uword(0xABCD_0000, 16), 0xABCDu16 as i16 as i32);
}

#[test]
fn the_last_cut_line() {
    assert_eq!(last_cut(0, "C:\\x.exe"), "nothing cut yet");
    assert_eq!(last_cut(3, ""), "an untitled console");
    assert_eq!(last_cut(3, "C:\\x.exe"), "C:\\x.exe");
}

#[test]
fn the_counter_says_why_it_stands_still() {
    assert_eq!(counter_caption(false), vec!["HIDDEN THIS SESSION".to_string()]);
    assert_eq!(counter_caption(true), vec!["PAUSED".to_string(), "NOT COUNTING".to_string()]);
}

#[test]
fn a_refused_toggle_explains_itself() {
    assert_eq!(
        small_print(Some("access denied"), true),
        vec!["Couldn't change it: access denied".to_string(), "Ternitor is still ON.".to_string()]
    );
    assert_eq!(small_print(Some("x"), false)[1], "Ternitor is still OFF.");
    assert_eq!(
        small_print(None, false),
        vec![
            "Runs Ternitor when you sign in. Adds one".to_string(),
            "value to the registry, under HKCU.".to_string()
        ]
    );
}

#[test]
fn the_plate_is_720_by_344_under_the_rail() {
    assert_eq!((W, H), (720, 344));
    assert_eq!(SURFACE_H, STRIP_H + 344);
    assert!(FOOTER_BOTTOM <= H);
    assert!(STRIP_H + FIELDS_TOP <= PUNCH_Y && PUNCH_Y + PUNCH_H <= STRIP_H + FIELDS_BOTTOM);
}

#[test]
fn a_text_is_fitted_by_its_measured_widths() {
    // The whole text fits: it is kept.
    assert_eq!(fit_len(90, &vec![10, 20, 30, 40], 100), None);
    assert_eq!(fit_len(100, &vec![10, 20, 30, 40], 100), None);
    // It does not: the longest shortening that fits.
    assert_eq!(fit_len(150, &vec![10, 20, 30, 140], 100), Some(2));
    assert_eq!(fit_len(150, &vec![10, 20, 90, 100], 100), Some(3));
    // Only the first character fits alongside the ellipsis.
    assert_eq!(fit_len(150, &vec![10, 80, 120, 140], 100), Some(1));
    // Nothing but the ellipsis fits.
    assert_eq!(fit_len(150, &vec![10, 120, 130, 140], 100), Some(0));
    assert_eq!(fit_len(150, &vec![], 100), Some(0));
}
