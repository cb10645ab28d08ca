//! The prompt detector: decides whether one line of the game's output is a
//! request for input. Negative overrides are consulted strictly before the
//! positive catalogue, which is consulted before the generic fallback.

use vstd::prelude::*;
use crate::text::{contains_seq, ends_with_seq, trim_seq, upper_seq, chars_of, trim_chars,
    upper_chars, contains_lit, ends_with_lit};

verus! {

/// Informational lines that must never count as prompts, although several
/// of them also contain a phrase from the positive catalogue.
pub open spec fn negative_override(t: Seq<char>) -> bool {
    ||| contains_seq(t, "NAV  (TO SET COURSE)"@)
    ||| contains_seq(t, "SRS  (FOR SHORT RANGE SENSOR SCAN)"@)
    ||| contains_seq(t, "LRS  (FOR LONG RANGE SENSOR SCAN)"@)
    ||| contains_seq(t, "PHA  (TO FIRE PHASERS)"@)
    ||| contains_seq(t, "TOR  (TO FIRE PHOTON TORPEDOES)"@)
    ||| contains_seq(t, "SHE  (TO RAISE OR LOWER SHIELDS)"@)
    ||| contains_seq(t, "DAM  (FOR DAMAGE CONTROL REPORTS)"@)
    ||| contains_seq(t, "COM  (TO CALL ON LIBRARY-COMPUTER)"@)
    ||| contains_seq(t, "XXX  (TO RESIGN YOUR COMMAND)"@)
    ||| (contains_seq(t, "NOW ENTERING"@) && contains_seq(t, "QUADRANT"@))
    ||| contains_seq(t, "PLEASE ENTER"@)
    ||| contains_seq(t, "FROM ENTERPRISE TO KLINGON BATTLE CRUSER"@)
    ||| contains_seq(t, "FROM ENTERPRISE TO STARBASE"@)
    ||| contains_seq(t, "UNIT HIT ON ENTERPRISE"@)
    ||| contains_seq(t, "THE ENTERPRISE HAS BEEN DESTROYED"@)
    ||| contains_seq(t, "PHASERS LOCKED ON TARGET"@)
}

/// The positive catalogue of known prompt phrases.
pub open spec fn positive_catalogue(t: Seq<char>) -> bool {
    ||| contains_seq(t, "COMMAND?"@)
    ||| contains_seq(t, "COURSE (0-9)"@)
    ||| contains_seq(t, "WARP FACTOR"@)
    ||| contains_seq(t, "PHOTON TORPEDO COURSE (1-9)"@)
    ||| contains_seq(t, "NUMBER OF UNITS TO SHIELDS"@)
    ||| contains_seq(t, "NUMBER OF UNITS TO FIRE"@)
    ||| contains_seq(t, "COMPUTER ACTIVE AND AWAITING COMMAND"@)
    ||| contains_seq(t, "INITIAL COORDINATES (X,Y)"@)
    ||| contains_seq(t, "FINAL COORDINATES (X,Y)"@)
    ||| contains_seq(t, "LET HIM STEP FORWARD AND ENTER 'AYE'"@)
    ||| contains_seq(t, "WILL YOU AUTHORIZE THE REPAIR ORDER (Y/N)"@)
    ||| contains_seq(t, "ENERGY AVAILABLE ="@)
    ||| contains_seq(t, "HIT ANY KEY"@)
    ||| contains_seq(t, "PRESS ANY KEY"@)
    ||| contains_seq(t, "WHEN READY"@)
    ||| contains_seq(t, "?"@)
}

/// The generic fallback: a trailing question mark, or a bare request for
/// input.
pub open spec fn generic_fallback(t: Seq<char>) -> bool {
    ||| ends_with_seq(t, "?"@)
    ||| contains_seq(t, "INPUT"@)
    ||| contains_seq(t, "ENTER"@)
}

/// What `is_game_prompt` decides about a raw line.
pub open spec fn is_prompt_spec(line: Seq<char>) -> bool {
    let t = trim_seq(line);
    !negative_override(t) && (positive_catalogue(t) || generic_fallback(t))
}

/// Whether `line` signals that the game awaits input.
pub fn is_game_prompt(line: &str) -> (r: bool)
    ensures
        r == is_prompt_spec(line@),
{
    let raw = chars_of(line);
    let t = trim_chars(&raw);
    is_game_prompt_chars(&t)
}

/// The detector, on an already trimmed line.
pub fn is_game_prompt_chars(t: &Vec<char>) -> (r: bool)
    ensures
        r == (!negative_override(t@) && (positive_catalogue(t@) || generic_fallback(t@))),
{
    if contains_lit(t, "NAV  (TO SET COURSE)") || contains_lit(t, "SRS  (FOR SHORT RANGE SENSOR SCAN)")
        || contains_lit(t, "LRS  (FOR LONG RANGE SENSOR SCAN)") || contains_lit(t, "PHA  (TO FIRE PHASERS)")
        || contains_lit(t, "TOR  (TO FIRE PHOTON TORPEDOES)") || contains_lit(t, "SHE  (TO RAISE OR LOWER SHIELDS)")
        || contains_lit(t, "DAM  (FOR DAMAGE CONTROL REPORTS)") || contains_lit(t, "COM  (TO CALL ON LIBRARY-COMPUTER)")
        || contains_lit(t, "XXX  (TO RESIGN YOUR COMMAND)") {
        return false;
    }
    if contains_lit(t, "NOW ENTERING") && contains_lit(t, "QUADRANT") {
        return false;
    }
    if contains_lit(t, "PLEASE ENTER") || contains_lit(t, "FROM ENTERPRISE TO KLINGON BATTLE CRUSER")
        || contains_lit(t, "FROM ENTERPRISE TO STARBASE") || contains_lit(t, "UNIT HIT ON ENTERPRISE")
        || contains_lit(t, "THE ENTERPRISE HAS BEEN DESTROYED") || contains_lit(t, "PHASERS LOCKED ON TARGET") {
        return false;
    }
    if contains_lit(t, "COMMAND?") || contains_lit(t, "COURSE (0-9)") || contains_lit(t, "WARP FACTOR")
        || contains_lit(t, "PHOTON TORPEDO COURSE (1-9)") || contains_lit(t, "NUMBER OF UNITS TO SHIELDS")
        || contains_lit(t, "NUMBER OF UNITS TO FIRE") || contains_lit(t, "COMPUTER ACTIVE AND AWAITING COMMAND")
        || contains_lit(t, "INITIAL COORDINATES (X,Y)") || contains_lit(t, "FINAL COORDINATES (X,Y)")
        || contains_lit(t, "LET HIM STEP FORWARD AND ENTER 'AYE'")
        || contains_lit(t, "WILL YOU AUTHORIZE THE REPAIR ORDER (Y/N)") || contains_lit(t, "ENERGY AVAILABLE =")
        || contains_lit(t, "HIT ANY KEY") || contains_lit(t, "PRESS ANY KEY") || contains_lit(t, "WHEN READY")
        || contains_lit(t, "?") {
        return true;
    }
    if ends_with_lit(t, "?") || contains_lit(t, "INPUT") || contains_lit(t, "ENTER") {
        return true;
    }
    false
}

/// A negative override silences the detector even when the line also holds
/// a phrase of the positive catalogue.
pub proof fn lemma_negative_override_wins(line: Seq<char>)
    requires
        negative_override(trim_seq(line)),
    ensures
        !is_prompt_spec(line),
{
}

/// What `needs_initial_response` decides: the test is made on the
/// upper-cased, trimmed line.
pub open spec fn needs_initial_spec(line: Seq<char>) -> bool {
    let u = upper_seq(trim_seq(line));
    ||| contains_seq(u, "HIT ANY KEY"@)
    ||| contains_seq(u, "PRESS ANY KEY"@)
    ||| contains_seq(u, "WHEN READY"@)
    ||| (contains_seq(u, "COMMAND"@) && !contains_seq(u, "="@))
    ||| contains_seq(u, "INPUT"@)
}

/// Whether the startup banner asks for an opening keypress.
pub fn needs_initial_response(line: &str) -> (r: bool)
    ensures
        r == needs_initial_spec(line@),
{
    let raw = chars_of(line);
    let t = trim_chars(&raw);
    let u = upper_chars(&t);
    if contains_lit(&u, "HIT ANY KEY") || contains_lit(&u, "PRESS ANY KEY") || contains_lit(&u, "WHEN READY") {
        return true;
    }
    if contains_lit(&u, "COMMAND") && !contains_lit(&u, "=") {
        return true;
    }
    contains_lit(&u, "INPUT")
}

} // verus!
