use trekbot::detector::{is_game_prompt, needs_initial_response};
use trekbot::state::GameState;
use trekbot::state::Condition;
use trekbot::transport::LineAccumulator;

#[test]
fn prompt_positive_catalogue() {
    assert!(is_game_prompt("COMMAND?"));
    assert!(is_game_prompt("WARP FACTOR (0-8)?"));
    assert!(is_game_prompt("NUMBER OF UNITS TO SHIELDS"));
    assert!(is_game_prompt("  COMPUTER ACTIVE AND AWAITING COMMAND  "));
    assert!(is_game_prompt("WHAT NOW?"));
    assert!(is_game_prompt("AWAITING INPUT"));
}

#[test]
fn prompt_negative_overrides_win() {
    // Each line also satisfies the positive catalogue or the fallback,
    // yet the override silences the detector.
    assert!(!is_game_prompt("NOW ENTERING ANTARES QUADRANT...?"));
    assert!(!is_game_prompt("PLEASE ENTER"));
    assert!(!is_game_prompt("XXX  (TO RESIGN YOUR COMMAND)?"));
    assert!(!is_game_prompt("PHASERS LOCKED ON TARGET?"));
}

#[test]
fn prompt_plain_reports_are_not_prompts() {
    assert!(!is_game_prompt("TOTAL ENERGY = 3000"));
    assert!(!is_game_prompt("CONDITION RED"));
}

#[test]
fn initial_response_detection() {
    assert!(needs_initial_response("Hit any key to continue"));
    assert!(needs_initial_response("  press any key  "));
    assert!(needs_initial_response("WHEN READY"));
    assert!(needs_initial_response("COMMAND"));
    assert!(!needs_initial_response("COMMAND = 3"));
    assert!(!needs_initial_response("ALL QUIET"));
}

#[test]
fn update_reads_fields() {
    let mut gs = GameState::new();
    let batch = vec![
        "STARDATE 3200".to_string(),
        "CONDITION GREEN".to_string(),
        "QUADRANT 3,5".to_string(),
        "SECTOR  1 , 2".to_string(),
        "TOTAL ENERGY 2500".to_string(),
        "SHIELDS = 400".to_string(),
        "PHOTON TORPEDOES 8".to_string(),
        "KLINGONS REMAINING 13".to_string(),
        "TIME = 25".to_string(),
        "COMMAND?".to_string(),
    ];
    gs.update(&batch);
    assert_eq!(gs.stardate, Some(3200));
    assert_eq!(gs.condition, Some(Condition::Green));
    assert_eq!(gs.current_quadrant, Some((3, 5)));
    assert_eq!(gs.current_sector, Some((1, 2)));
    assert_eq!(gs.energy, Some(2500));
    assert_eq!(gs.shields, Some(400));
    assert_eq!(gs.torpedoes, Some(8));
    assert_eq!(gs.klingons_remaining, Some(13));
    assert_eq!(gs.time_remaining, Some(25));
    assert_eq!(gs.get_current_prompt().map(|p| p.as_str()), Some("COMMAND?"));
}

#[test]
fn update_retains_unmatched_fields() {
    let mut gs = GameState::new();
    gs.update(&vec!["TOTAL ENERGY 2500".to_string()]);
    assert_eq!(gs.energy, Some(2500));
    gs.update(&vec!["ALL QUIET ON ALL FRONTS".to_string()]);
    assert_eq!(gs.energy, Some(2500));
}

#[test]
fn update_overwrites_on_new_reading() {
    let mut gs = GameState::new();
    gs.update(&vec!["SHIELDS = 400".to_string()]);
    gs.update(&vec!["SHIELDS NOW AT 750 UNITS PER YOUR COMMAND".to_string()]);
    assert_eq!(gs.shields, Some(750));
}

#[test]
fn update_energy_available_wins_on_one_line() {
    let mut gs = GameState::new();
    gs.update(&vec!["ENERGY AVAILABLE = 3000 NUMBER OF UNITS TO SHIELDS".to_string()]);
    assert_eq!(gs.energy, Some(3000));
}

#[test]
fn update_klingon_count_both_phrasings() {
    let mut gs = GameState::new();
    gs.update(&vec!["13 KLINGONS LEFT".to_string()]);
    assert_eq!(gs.klingons_remaining, Some(13));
    gs.update(&vec!["KLINGON REMAINING 7".to_string()]);
    assert_eq!(gs.klingons_remaining, Some(7));
}

#[test]
fn update_condition_priority() {
    let mut gs = GameState::new();
    gs.update(&vec!["CONDITION YELLOW ALERT RED".to_string()]);
    assert_eq!(gs.condition, Some(Condition::Red));
    assert!(gs.is_in_combat());
}

#[test]
fn damage_report_readings() {
    let mut gs = GameState::new();
    gs.update(&vec!["WARP ENGINES DAMAGED".to_string()]);
    assert!(gs.is_system_damaged("WARP ENGINES"));
    gs.update(&vec!["SHIELD CONTROL INOPERABLE".to_string()]);
    assert!(gs.is_system_damaged("SHIELD CONTROL"));
    gs.update(&vec!["WARP ENGINES REPAIR COMPLETED".to_string()]);
    assert!(!gs.is_system_damaged("WARP ENGINES"));
    assert!(!gs.is_system_damaged("LIBRARY COMPUTER"));
}

#[test]
fn grid_fully_replaced_by_second_scan() {
    let mut gs = GameState::new();
    gs.update(&vec![
        "SHORT RANGE SENSORS".to_string(),
        "<*>+K+".to_string(),
        "".to_string(),
    ]);
    let first = gs.sector_map.clone().expect("first grid");
    assert_eq!(first[0], vec!["<*>", "+K+"]);
    gs.update(&vec![
        "SHORT RANGE SENSORS".to_string(),
        " *    ".to_string(),
        "".to_string(),
    ]);
    let second = gs.sector_map.clone().expect("second grid");
    assert_eq!(second.len(), 1);
    assert_eq!(second[0], vec![" * ", "   "]);
    // nothing of the first grid survives
    assert!(!second[0].contains(&"<*>".to_string()));
}

#[test]
fn grid_retained_without_new_scan() {
    let mut gs = GameState::new();
    gs.update(&vec![
        "SHORT RANGE SENSORS".to_string(),
        "<*>+K+".to_string(),
        "".to_string(),
    ]);
    gs.update(&vec!["NOTHING HERE".to_string()]);
    assert!(gs.sector_map.is_some());
}

#[test]
fn shields_low_threshold() {
    let mut gs = GameState::new();
    assert!(!gs.are_shields_low());
    gs.shields = Some(199);
    assert!(gs.are_shields_low());
    gs.shields = Some(200);
    assert!(!gs.are_shields_low());
}

#[test]
fn line_framing_rules() {
    let mut acc = LineAccumulator::new();
    let mut lines: Vec<String> = Vec::new();
    for b in b"AB\r\nOK? TAIL".iter() {
        if let Some(line) = acc.push_byte(*b) {
            lines.push(line);
        }
    }
    if let Some(rest) = acc.take_rest() {
        lines.push(rest);
    }
    assert_eq!(lines, vec!["AB".to_string(), "OK?".to_string(), " TAIL".to_string()]);
}

#[test]
fn time_requires_separator() {
    let mut gs = GameState::new();
    gs.update(&vec!["TIME 25".to_string()]);
    assert_eq!(gs.time_remaining, None);
    gs.update(&vec!["TIME : 25".to_string()]);
    assert_eq!(gs.time_remaining, Some(25));
}

#[test]
fn damage_name_runs_to_last_keyword() {
    let mut gs = GameState::new();
    gs.update(&vec!["A DAMAGED B REPAIR".to_string()]);
    assert!(!gs.is_system_damaged("A DAMAGED B"));
    assert!(gs.damage_report.get("A DAMAGED B") == Some(0));
}

#[test]
fn coordinate_overflow_reads_as_zero() {
    let mut gs = GameState::new();
    gs.update(&vec!["QUADRANT 99999999999,2".to_string()]);
    assert_eq!(gs.current_quadrant, Some((0, 2)));
}

#[test]
fn empty_batch_changes_nothing() {
    let mut gs = GameState::new();
    gs.update(&vec!["TOTAL ENERGY 2500".to_string()]);
    let prompt_before = gs.last_prompt.clone();
    gs.update(&Vec::<String>::new());
    assert_eq!(gs.energy, Some(2500));
    assert_eq!(gs.last_prompt, prompt_before);
}
