use trekbot::parser::{parse_energy_available, parse_warp_factor_range, parse_quadrant_name,
    parse_course_command, parse_coordinates_prompt, parse_damage_control_report,
    parse_short_range_scan, parse_long_range_scan, parse_galactic_record};

#[test]
fn test_parse_energy_available() {
    assert_eq!(
        parse_energy_available("ENERGY AVAILABLE = 3000 NUMBER OF UNITS TO SHIELDS"),
        Some(3000)
    );
    assert_eq!(parse_energy_available("ENERGY AVAILABLE = 1500"), Some(1500));
    assert_eq!(parse_energy_available("NO ENERGY INFO"), None);
}

#[test]
fn test_parse_warp_factor_range() {
    let as_f32 = |r: Option<(i64, i64)>| r.map(|(a, b)| (a as f32 / 1000.0, b as f32 / 1000.0));
    assert_eq!(as_f32(parse_warp_factor_range("WARP FACTOR (0-8)?")), Some((0.0, 8.0)));
    assert_eq!(as_f32(parse_warp_factor_range("WARP FACTOR (0-0.2)?")), Some((0.0, 0.2)));
    assert_eq!(as_f32(parse_warp_factor_range("INVALID")), None);
}

#[test]
fn test_parse_quadrant_name() {
    assert_eq!(
        parse_quadrant_name("NOW ENTERING ANTARES QUADRANT..."),
        Some("ANTARES".to_string())
    );
    assert_eq!(parse_quadrant_name("LOCATED IN RIGEL QUADRANT"), Some("RIGEL".to_string()));
    assert_eq!(parse_quadrant_name("NO QUADRANT INFO"), None);
}

#[test]
fn energy_available_spaced_forms() {
    assert_eq!(parse_energy_available("ENERGY   AVAILABLE  =  42"), Some(42));
    assert_eq!(parse_energy_available("ENERGY AVAILABLE 300"), None);
    assert_eq!(parse_energy_available("ENERGY AVAILABLE = 99999999999"), None);
}

#[test]
fn warp_range_fractional_bounds() {
    assert_eq!(parse_warp_factor_range("WARP FACTOR (0.5-7.5)?"), Some((500, 7500)));
    assert_eq!(parse_warp_factor_range("WARP FACTOR (0-8"), None);
}

#[test]
fn course_lower_bound() {
    assert_eq!(parse_course_command("COURSE (1-9)?"), Some(1000));
    assert_eq!(parse_course_command("COURSE (0-9)"), Some(0));
    assert_eq!(parse_course_command("SET COURSE NOW"), None);
}

#[test]
fn coordinates_prompt_detected() {
    assert!(parse_coordinates_prompt("INITIAL COORDINATES (X,Y)"));
    assert!(parse_coordinates_prompt("FINAL COORDINATES (X,Y)?"));
    assert!(!parse_coordinates_prompt("COORDINATES UNKNOWN"));
}

#[test]
fn damage_control_rows() {
    let lines = vec![
        "DAMAGE CONTROL REPORT".to_string(),
        "WARP ENGINES  -1".to_string(),
        "SHORT RANGE SENSORS  0.5".to_string(),
        "NO FIGURES HERE".to_string(),
    ];
    let rows = parse_damage_control_report(&lines);
    assert_eq!(rows.len(), 2);
    assert_eq!(rows[0].0, "WARP ENGINES");
    assert_eq!(rows[0].1, -1000);
    assert_eq!(rows[1].0, "SHORT RANGE SENSORS");
    assert_eq!(rows[1].1, 500);
}

#[test]
fn damage_control_skips_bad_figures() {
    let lines = vec!["WARP ENGINES  1.2.3".to_string()];
    let rows = parse_damage_control_report(&lines);
    assert_eq!(rows.len(), 0);
}

#[test]
fn short_range_scan_cells() {
    let lines = vec![
        "SHORT RANGE SENSORS".to_string(),
        "<*> +K+    ".to_string(),
        "".to_string(),
        "IGNORED LATER".to_string(),
    ];
    let grid = parse_short_range_scan(&lines).expect("a grid");
    assert_eq!(grid.len(), 1);
    assert_eq!(grid[0], vec!["<*>", " +K", "+  ", "   "]);
}

#[test]
fn short_range_scan_absent() {
    let lines = vec!["NOTHING TO SEE".to_string()];
    assert!(parse_short_range_scan(&lines).is_none());
}

#[test]
fn long_range_scan_rows() {
    let lines = vec![
        "LONG RANGE SCAN FOR QUADRANT 3,2".to_string(),
        "-------------------".to_string(),
        ": 008 : 000 : 117 :".to_string(),
        "".to_string(),
    ];
    let grid = parse_long_range_scan(&lines).expect("a grid");
    assert_eq!(grid.len(), 1);
    assert_eq!(grid[0], vec!["008"]);
}

#[test]
fn galactic_record_rows() {
    let lines = vec![
        "GALACTIC RECORD".to_string(),
        "1,2  KLINGON BASE".to_string(),
        "JUST TEXT".to_string(),
        "4,8  EMPTY".to_string(),
    ];
    let rows = parse_galactic_record(&lines).expect("records");
    assert_eq!(rows.len(), 2);
    assert_eq!(rows[0], (1, 2, "KLINGON BASE".to_string()));
    assert_eq!(rows[1], (4, 8, "EMPTY".to_string()));
}

#[test]
fn galactic_record_absent() {
    let lines = vec!["NO COORDS".to_string()];
    assert!(parse_galactic_record(&lines).is_none());
}
