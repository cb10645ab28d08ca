use trekbot::state::GameState;
use trekbot::strategy::{Command, RandomStrategy, CheatStrategy, StrategyChoice, PromptError,
    random_command};
use trekbot::engine::{GameResult, Player, TurnStep, TerminateAction, termination_action,
    is_game_over, determine_game_result};

fn state_with_prompt(prompt: &str) -> GameState {
    let mut gs = GameState::new();
    gs.last_prompt = Some(prompt.to_string());
    gs.last_output = vec![prompt.to_string()];
    gs
}

#[test]
fn command_keywords() {
    assert_eq!(Command::Navigation.to_string(), "NAV");
    assert_eq!(Command::ShortRangeScan.to_string(), "SRS");
    assert_eq!(Command::LongRangeScan.to_string(), "LRS");
    assert_eq!(Command::Phasers.to_string(), "PHA");
    assert_eq!(Command::Torpedoes.to_string(), "TOR");
    assert_eq!(Command::Shields.to_string(), "SHE");
    assert_eq!(Command::DamageControl.to_string(), "DAM");
    assert_eq!(Command::Computer.to_string(), "COM");
    assert_eq!(Command::Quit.to_string(), "XXX");
}

#[test]
fn random_command_never_quits() {
    for _ in 0..50 {
        let c = random_command().to_string();
        assert!(["NAV", "SRS", "LRS", "PHA", "TOR", "SHE", "DAM", "COM"].contains(&c.as_str()));
    }
}

#[test]
fn policy_answers_catalogue_prompts() {
    let phrases = [
        "COMMAND?",
        "COURSE (0-9)",
        "WARP FACTOR (0-8)?",
        "PHOTON TORPEDO COURSE (1-9)",
        "NUMBER OF UNITS TO SHIELDS",
        "NUMBER OF UNITS TO FIRE",
        "COMPUTER ACTIVE AND AWAITING COMMAND",
        "INITIAL COORDINATES (X,Y)",
        "FINAL COORDINATES (X,Y)",
        "LET HIM STEP FORWARD AND ENTER 'AYE'",
        "WILL YOU AUTHORIZE THE REPAIR ORDER (Y/N)",
        "?",
    ];
    let mut s = RandomStrategy::new();
    for p in phrases.iter() {
        let gs = state_with_prompt(p);
        assert!(s.get_command(&gs).is_ok(), "policy rejected {}", p);
    }
}

#[test]
fn policy_numeric_answers_in_range() {
    let mut s = RandomStrategy::new();
    let course = s.get_command(&state_with_prompt("COURSE (0-9)")).unwrap();
    let c: i32 = course.parse().unwrap();
    assert!((1..=9).contains(&c));
    let torp = s.get_command(&state_with_prompt("PHOTON TORPEDO COURSE (1-9)")).unwrap();
    let t: i32 = torp.parse().unwrap();
    assert!((1..=9).contains(&t));
    let comp = s.get_command(&state_with_prompt("COMPUTER ACTIVE AND AWAITING COMMAND")).unwrap();
    let k: i32 = comp.parse().unwrap();
    assert!((0..=5).contains(&k));
    let pha = s.get_command(&state_with_prompt("NUMBER OF UNITS TO FIRE")).unwrap();
    let u: i32 = pha.parse().unwrap();
    assert!((1..=499).contains(&u));
}

#[test]
fn policy_energy_prompt_range() {
    let mut s = RandomStrategy::new();
    let gs = state_with_prompt("PHASERS LOCKED ON TARGET; ENERGY AVAILABLE = 3000 UNITS");
    let cmd = s.get_command(&gs).unwrap();
    let u: i32 = cmd.parse().unwrap();
    assert!((1..=3000).contains(&u));
}

#[test]
fn policy_energy_prompt_unreadable() {
    let mut s = RandomStrategy::new();
    let gs = state_with_prompt("PHASERS LOCKED ON TARGET; ENERGY AVAILABLE LOW");
    match s.get_command(&gs) {
        Err(PromptError::EnergyUnparsed(_)) => {},
        _ => panic!("expected an energy parse failure"),
    }
}

#[test]
fn policy_unknown_prompt_rejected() {
    let mut s = RandomStrategy::new();
    let gs = state_with_prompt("GIBBERISH NEVER SEEN BEFORE");
    match s.get_command(&gs) {
        Err(PromptError::UnknownPrompt(p)) => assert_eq!(p, "GIBBERISH NEVER SEEN BEFORE"),
        _ => panic!("expected an unknown-prompt rejection"),
    }
}

#[test]
fn policy_blank_answers() {
    let mut s = RandomStrategy::new();
    assert_eq!(s.get_command(&state_with_prompt("ENTER ONE OF THE FOLLOWING:")).unwrap(), "");
    assert_eq!(s.get_command(&state_with_prompt("DAMAGE CONTROL REPORT")).unwrap(), "");
    assert_eq!(
        s.get_command(&state_with_prompt("NOW ENTERING ANTARES QUADRANT...")).unwrap(),
        ""
    );
}

#[test]
fn policy_repair_and_aye() {
    let mut s = RandomStrategy::new();
    let yn = s.get_command(&state_with_prompt("WILL YOU AUTHORIZE THE REPAIR ORDER (Y/N)")).unwrap();
    assert!(yn == "Y" || yn == "N");
    let aye = s.get_command(&state_with_prompt("LET HIM STEP FORWARD AND ENTER 'AYE'")).unwrap();
    assert_eq!(aye, "quit");
}

#[test]
fn policy_coordinates_form() {
    let mut s = RandomStrategy::new();
    let c = s.get_command(&state_with_prompt("INITIAL COORDINATES (X,Y)")).unwrap();
    let parts: Vec<&str> = c.split(',').collect();
    assert_eq!(parts.len(), 2);
    let x: i32 = parts[0].parse().unwrap();
    let y: i32 = parts[1].parse().unwrap();
    assert!((1..=8).contains(&x) && (1..=8).contains(&y));
}

#[test]
fn policy_warp_crawl_when_engines_damaged() {
    let mut s = RandomStrategy::new();
    let mut gs = GameState::new();
    gs.last_prompt = Some("?".to_string());
    gs.last_output = vec!["WARP FACTOR (0-0.2)?".to_string()];
    let w = s.get_command(&gs).unwrap();
    let f: f32 = w.parse().unwrap();
    assert!((0.0..0.25).contains(&f));
    assert_eq!(w.len(), 4);
}

#[test]
fn policy_warp_normal_range() {
    let mut s = RandomStrategy::new();
    let gs = state_with_prompt("WARP FACTOR (0-8)?");
    let w = s.get_command(&gs).unwrap();
    let f: f32 = w.parse().unwrap();
    assert!((0.1..=7.9).contains(&f));
}

#[test]
fn policy_shield_units_without_energy_info() {
    let mut s = RandomStrategy::new();
    let gs = state_with_prompt("NUMBER OF UNITS TO SHIELDS");
    let u: i32 = s.get_command(&gs).unwrap().parse().unwrap();
    assert!((0..=1000).contains(&u));
}

#[test]
fn policy_shield_units_with_standing_shields() {
    let mut s = RandomStrategy::new();
    let mut gs = state_with_prompt("NUMBER OF UNITS TO SHIELDS");
    gs.shields = Some(250);
    let u: i32 = s.get_command(&gs).unwrap().parse().unwrap();
    assert!((900..=2100).contains(&u));
}

#[test]
fn cheat_strategy_scans() {
    let mut s = CheatStrategy::new();
    let gs = state_with_prompt("COMMAND?");
    assert_eq!(s.get_command(&gs).unwrap(), "SRS");
}

#[test]
fn game_over_phrases() {
    assert!(is_game_over(&vec!["Mission accomplished".to_string()]));
    assert!(is_game_over(&vec!["TIME HAS RUN OUT".to_string()]));
    assert!(!is_game_over(&vec!["ALL QUIET".to_string()]));
    assert_eq!(
        determine_game_result(&vec!["YOU HAVE BEEN KILLED".to_string()]),
        GameResult::Destroyed
    );
    assert_eq!(
        determine_game_result(&vec!["FEDERATION DESTROYED".to_string()]),
        GameResult::FederationDestroyed
    );
    assert_eq!(determine_game_result(&vec!["GAME OVER".to_string()]), GameResult::Unknown);
}

#[test]
fn result_descriptions() {
    assert!(GameResult::Victory.is_success());
    assert!(!GameResult::Destroyed.is_success());
    assert_eq!(GameResult::Victory.description(), "Mission accomplished! All Klingons destroyed.");
    assert_eq!(GameResult::MaxTurnsReached.description(), "Game ended due to turn limit.");
}

#[test]
fn turn_cap_reached_after_exact_count() {
    let mut player = Player::new(StrategyChoice::Random(RandomStrategy::new()));
    player.set_max_turns(5);
    let batches: Vec<Vec<String>> = (0..10).map(|_| vec!["COMMAND?".to_string()]).collect();
    let (result, turns) = player.play_recorded(&batches).unwrap();
    assert_eq!(result, GameResult::MaxTurnsReached);
    assert_eq!(turns, 5);
}

#[test]
fn stopping_early_is_not_the_cap() {
    let mut player = Player::new(StrategyChoice::Random(RandomStrategy::new()));
    player.set_max_turns(5);
    let batches: Vec<Vec<String>> = (0..2).map(|_| vec!["COMMAND?".to_string()]).collect();
    let (result, turns) = player.play_recorded(&batches).unwrap();
    assert_eq!(result, GameResult::InterpreterStopped);
    assert_eq!(turns, 2);
}

#[test]
fn terminal_phrase_ends_the_game() {
    let mut player = Player::new(StrategyChoice::Random(RandomStrategy::new()));
    player.set_max_turns(50);
    let batches = vec![
        vec!["COMMAND?".to_string()],
        vec!["MISSION ACCOMPLISHED".to_string()],
        vec!["COMMAND?".to_string()],
    ];
    let (result, turns) = player.play_recorded(&batches).unwrap();
    assert_eq!(result, GameResult::Victory);
    assert_eq!(turns, 1);
}

#[test]
fn process_batch_steps() {
    let mut player = Player::new(StrategyChoice::Random(RandomStrategy::new()));
    player.begin_game();
    match player.process_batch(&Vec::<String>::new()) {
        TurnStep::Waiting => {},
        _ => panic!("an empty batch only waits"),
    }
    match player.process_batch(&vec!["COMMAND?".to_string()]) {
        TurnStep::Send(_) => {},
        _ => panic!("a command prompt yields a command"),
    }
    assert_eq!(player.get_turn_count(), 1);
    match player.process_batch(&vec!["WHICH DILITHIUM CRYSTAL?".to_string()]) {
        TurnStep::Fatal(PromptError::UnknownPrompt(_)) => {},
        _ => panic!("an unknown prompt is fatal"),
    }
}

#[test]
fn termination_escalation() {
    assert!(matches!(termination_action(false), TerminateAction::ForceKill));
    assert!(matches!(termination_action(true), TerminateAction::AlreadyExited));
}

#[test]
fn recorded_run_rejection_fails_the_game() {
    let mut player = Player::new(StrategyChoice::Random(RandomStrategy::new()));
    player.set_max_turns(50);
    let batches = vec![
        vec!["COMMAND?".to_string()],
        vec!["WHICH DILITHIUM CRYSTAL?".to_string()],
    ];
    assert!(player.play_recorded(&batches).is_err());
}

#[test]
fn cheat_strategy_never_rejects_a_run() {
    let mut player = Player::new(StrategyChoice::Cheat(CheatStrategy::new()));
    player.set_max_turns(4);
    let batches: Vec<Vec<String>> =
        (0..6).map(|_| vec!["WHICH DILITHIUM CRYSTAL?".to_string()]).collect();
    let (result, turns) = player.play_recorded(&batches).unwrap();
    assert_eq!(result, GameResult::MaxTurnsReached);
    assert_eq!(turns, 4);
}
