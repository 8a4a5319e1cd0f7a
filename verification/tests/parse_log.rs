use gc_log_parser::classify::{parse_log, GcPhase, GcStats, Timing};

#[test]
fn parse_log_should_handle_scavenge_phase() {
    let input = "[19278:0x5408db0]  44 ms: Scavenge 2.3 (3.0) -> 1.9 (4.0) MB, 1.2 / 0.0 ms  (average mu = 1.000, current mu = 1.000) allocation failure";

    let stats = parse_log(input);

    assert_eq!(stats.timing, Timing::Text(String::from("44 ms")));
    assert_eq!(stats.phase, GcPhase::Scavenge);
    assert_eq!(stats.body, String::from("2.3 (3.0) -> 1.9 (4.0) MB, 1.2 / 0.0 ms  (average mu = 1.000, current mu = 1.000) allocation failure"));
}

#[test]
fn parse_log_should_handle_marksweep_phase() {
    let input = "[19278:0x5408db0]  44 ms: Mark-sweep 2.3 (3.0) -> 1.9 (4.0) MB, 1.2 / 0.0 ms  (average mu = 1.000, current mu = 1.000) allocation failure";

    let stats = parse_log(input);

    assert_eq!(stats.timing, Timing::Text(String::from("44 ms")));
    assert_eq!(stats.phase, GcPhase::MarkSweep);
    assert_eq!(stats.body, String::from("2.3 (3.0) -> 1.9 (4.0) MB, 1.2 / 0.0 ms  (average mu = 1.000, current mu = 1.000) allocation failure"));
}

#[test]
fn parse_log_should_handle_markcompact_phase() {
    let input = "[19278:0x5408db0]  44 ms: Mark-compact 2.3 (3.0) -> 1.9 (4.0) MB, 1.2 / 0.0 ms  (average mu = 1.000, current mu = 1.000) allocation failure";

    let stats = parse_log(input);

    assert_eq!(stats.timing, Timing::Text(String::from("44 ms")));
    assert_eq!(stats.phase, GcPhase::MarkCompact);
    assert_eq!(stats.body, String::from("2.3 (3.0) -> 1.9 (4.0) MB, 1.2 / 0.0 ms  (average mu = 1.000, current mu = 1.000) allocation failure"));
}

#[test]
fn parse_log_should_handle_unknown_phase() {
    let input = "[19278:0x5408db0]  44 ms: UNKNOWN 2.3 (3.0) -> 1.9 (4.0) MB, 1.2 / 0.0 ms  (average mu = 1.000, current mu = 1.000) allocation failure";

    let stats = parse_log(input);

    assert_eq!(stats.timing, Timing::Empty);
    assert_eq!(stats.phase, GcPhase::Unknown);
    assert_eq!(stats.body, String::from(input));
}

#[test]
fn parse_log_should_handle_incorrect_line_structure() {
    let input = "[19278:0x5408db0]  44 ms";

    let stats = parse_log(input);

    assert_eq!(stats.timing, Timing::Empty);
    assert_eq!(stats.phase, GcPhase::Unknown);
    assert_eq!(stats.body, String::from(input));
}

#[test]
fn parse_log_falls_back_on_three_token_legacy_line() {
    let input = "Scavenge a body";

    let stats = parse_log(input);

    assert_eq!(stats.phase, GcPhase::Unknown);
    assert_eq!(stats.timing, Timing::Empty);
    assert_eq!(stats.body, String::from("Scavenge a body"));
}

#[test]
fn parse_log_falls_back_on_empty_line() {
    let stats = parse_log("");

    assert_eq!(stats.phase, GcPhase::Unknown);
    assert_eq!(stats.timing, Timing::Empty);
    assert_eq!(stats.body, String::new());
}

#[test]
fn parse_log_handles_minimal_six_field_line() {
    let stats = parse_log("a b c d: Scavenge x");

    assert_eq!(stats.phase, GcPhase::Scavenge);
    assert_eq!(stats.timing, Timing::Text(String::from("c d")));
    assert_eq!(stats.body, String::from("x"));
}

#[test]
fn parse_log_body_absorbs_remaining_spaces_unsplit() {
    let stats = parse_log("a b c d: Mark-sweep x y  z ");

    assert_eq!(stats.phase, GcPhase::MarkSweep);
    assert_eq!(stats.timing, Timing::Text(String::from("c d")));
    assert_eq!(stats.body, String::from("x y  z "));
}

#[test]
fn parse_log_consecutive_spaces_yield_empty_fields() {
    // The double space makes field 3 empty, so joining and stripping the
    // trailing delimiter leaves only field 2.
    let stats = parse_log("a b c  Scavenge x");

    assert_eq!(stats.phase, GcPhase::Scavenge);
    assert_eq!(stats.timing, Timing::Text(String::from("c")));
    assert_eq!(stats.body, String::from("x"));
}

#[test]
fn parse_log_phase_match_is_case_sensitive() {
    let input = "a b c d: scavenge x";

    let stats = parse_log(input);

    assert_eq!(stats.phase, GcPhase::Unknown);
    assert_eq!(stats.timing, Timing::Empty);
    assert_eq!(stats.body, String::from(input));
}

#[test]
fn parse_log_phase_with_extra_text_is_not_recognized() {
    let input = "a b c d: Scavenge! x";

    let stats = parse_log(input);

    assert_eq!(stats.phase, GcPhase::Unknown);
    assert_eq!(stats.timing, Timing::Empty);
    assert_eq!(stats.body, String::from(input));
}

#[test]
fn parse_log_passes_non_ascii_body_through_verbatim() {
    let stats = parse_log("a b 44 ms: Mark-compact h\u{e9}ap \u{2603} delta");

    assert_eq!(stats.phase, GcPhase::MarkCompact);
    assert_eq!(stats.timing, Timing::Text(String::from("44 ms")));
    assert_eq!(stats.body, String::from("h\u{e9}ap \u{2603} delta"));
}

#[test]
fn parse_log_strips_one_trailing_character_even_when_multi_byte() {
    let stats = parse_log("a b 44 ms\u{e9} Scavenge x");

    assert_eq!(stats.phase, GcPhase::Scavenge);
    assert_eq!(stats.timing, Timing::Text(String::from("44 ms")));
    assert_eq!(stats.body, String::from("x"));
}

#[test]
fn parse_log_timing_empty_exactly_when_phase_unknown() {
    let inputs = [
        "",
        "too short",
        "a b c d: Scavenge x",
        "a b c d: Mark-sweep x",
        "a b c d: Mark-compact x",
        "a b c d: Nothing x",
        "[19278:0x5408db0]  44 ms: Scavenge 2.3 MB allocation failure",
    ];
    for input in inputs {
        let stats = parse_log(input);
        assert_eq!(stats.timing == Timing::Empty, stats.phase == GcPhase::Unknown);
    }
}

#[test]
fn parse_log_body_is_verbatim_suffix_of_input() {
    let inputs = [
        "",
        "too short",
        "a b c d: Scavenge x y  z",
        "a b c d: Nothing x y",
        "[19278:0x5408db0]  44 ms: Mark-sweep 2.3 MB allocation failure",
    ];
    for input in inputs {
        let stats = parse_log(input);
        assert!(input.ends_with(&stats.body));
    }
}

#[test]
fn gc_stats_new_keeps_its_fields() {
    let stats = GcStats::new(
        GcPhase::MarkSweep,
        Timing::Text(String::from("7 ms")),
        String::from("heap shrank"),
    );

    assert_eq!(stats.phase, GcPhase::MarkSweep);
    assert_eq!(stats.timing, Timing::Text(String::from("7 ms")));
    assert_eq!(stats.body, String::from("heap shrank"));
}
