//! The decision policy: maps the current game state and its effective
//! prompt to the next command. Dispatch is ordered and first-match-wins;
//! a prompt outside the known catalogue is rejected, never guessed.

use vstd::prelude::*;
use crate::text::{contains_seq, matches_at, trim_seq, chars_of, trim_chars, contains_lit, eq_lit,
    starts_with_lit};
use crate::numbers::{dec_digits, digit_char, u32_dec_string, push_dec_u32, string_from_chars};
use crate::parser::{energy_available_spec, warp_range_spec, parse_energy_available,
    parse_warp_factor_range};
use crate::state::GameState;

verus! {

/// The eight top-level menu actions, and resignation.
#[derive(Debug, Clone)]
pub enum Command {
    Navigation,
    ShortRangeScan,
    LongRangeScan,
    Phasers,
    Torpedoes,
    Shields,
    DamageControl,
    Computer,
    Quit,
}

impl Command {
    /// The spec-level text of each action.
    pub open spec fn text(self) -> Seq<char> {
        match self {
            Command::Navigation => "NAV"@,
            Command::ShortRangeScan => "SRS"@,
            Command::LongRangeScan => "LRS"@,
            Command::Phasers => "PHA"@,
            Command::Torpedoes => "TOR"@,
            Command::Shields => "SHE"@,
            Command::DamageControl => "DAM"@,
            Command::Computer => "COM"@,
            Command::Quit => "XXX"@,
        }
    }

    /// The menu keyword this action sends.
    pub fn to_string(&self) -> (r: String)
        ensures
            r@ == self.text(),
    {
        match self {
            Command::Navigation => String::from_str("NAV"),
            Command::ShortRangeScan => String::from_str("SRS"),
            Command::LongRangeScan => String::from_str("LRS"),
            Command::Phasers => String::from_str("PHA"),
            Command::Torpedoes => String::from_str("TOR"),
            Command::Shields => String::from_str("SHE"),
            Command::DamageControl => String::from_str("DAM"),
            Command::Computer => String::from_str("COM"),
            Command::Quit => String::from_str("XXX"),
        }
    }
}

/// Relies on `rand::Rng::gen_range` over `lo..=hi`: it panics on an empty
/// range and otherwise returns a value within the range.
#[verifier::external_body]
fn rand_u32_inclusive(lo: u32, hi: u32) -> (r: u32)
    requires
        lo <= hi,
    ensures
        lo <= r <= hi,
{
    rand::Rng::gen_range(&mut rand::thread_rng(), lo..=hi)
}

/// One of the eight menu actions, never Quit.
pub open spec fn menu_cmd(c: Seq<char>) -> bool {
    ||| c == "NAV"@
    ||| c == "SRS"@
    ||| c == "LRS"@
    ||| c == "PHA"@
    ||| c == "TOR"@
    ||| c == "SHE"@
    ||| c == "DAM"@
    ||| c == "COM"@
}

/// A uniformly chosen menu action; resignation is never drawn.
pub fn random_command() -> (r: Command)
    ensures
        menu_cmd(r.text()),
{
    let k = rand_u32_inclusive(0, 7);
    if k == 0 {
        Command::Navigation
    } else if k == 1 {
        Command::ShortRangeScan
    } else if k == 2 {
        Command::LongRangeScan
    } else if k == 3 {
        Command::Phasers
    } else if k == 4 {
        Command::Torpedoes
    } else if k == 5 {
        Command::Shields
    } else if k == 6 {
        Command::DamageControl
    } else {
        Command::Computer
    }
}

/// A prompt the policy could not place, or an energy figure it could not
/// read; the offending prompt text is carried for diagnosis.
#[derive(Debug)]
pub enum PromptError {
    UnknownPrompt(String),
    EnergyUnparsed(String),
}

impl PromptError {
    /// The prompt text the error carries.
    pub fn prompt_text(&self) -> (r: &String)
        ensures
            r@ == self.text(),
    {
        match self {
            PromptError::UnknownPrompt(s) => s,
            PromptError::EnergyUnparsed(s) => s,
        }
    }

    pub open spec fn text(self) -> Seq<char> {
        match self {
            PromptError::UnknownPrompt(s) => s@,
            PromptError::EnergyUnparsed(s) => s@,
        }
    }
}

/// How the dispatch table places an effective prompt.
#[derive(Clone, Copy, PartialEq, Eq, Structural, Debug)]
pub enum PromptClass {
    CommandMenu,
    Blank,
    Course,
    Warp,
    Torpedo,
    Phaser,
    EnergyPrompt,
    Shields,
    Computer,
    Coordinates,
    Repair,
    Aye,
    Unknown,
}

/// The ordered dispatch: the first matching rule decides the class.
pub open spec fn class_of(ep: Seq<char>) -> PromptClass {
    if ep == "COMMAND"@ || ep == "COMMAND?"@ {
        PromptClass::CommandMenu
    } else if ep == "ENTER ONE OF THE FOLLOWING:"@ {
        PromptClass::Blank
    } else if ep == "PLEASE ENTER"@ {
        PromptClass::Blank
    } else if contains_seq(ep, "COURSE (0-9)"@) {
        PromptClass::Course
    } else if contains_seq(ep, "WARP FACTOR"@) {
        PromptClass::Warp
    } else if contains_seq(ep, "PHOTON TORPEDO COURSE"@) {
        PromptClass::Torpedo
    } else if contains_seq(ep, "NUMBER OF UNITS TO FIRE"@) {
        PromptClass::Phaser
    } else if contains_seq(ep, "PHASERS LOCKED ON TARGET"@) && contains_seq(
        ep,
        "ENERGY AVAILABLE"@,
    ) {
        PromptClass::EnergyPrompt
    } else if contains_seq(ep, "NUMBER OF UNITS TO SHIELDS"@) {
        PromptClass::Shields
    } else if matches_at(ep, "ENERGY AVAILABLE = "@, 0) {
        PromptClass::EnergyPrompt
    } else if contains_seq(ep, "COMPUTER ACTIVE AND AWAITING COMMAND"@) {
        PromptClass::Computer
    } else if contains_seq(ep, "INITIAL COORDINATES (X,Y)"@) {
        PromptClass::Coordinates
    } else if contains_seq(ep, "FINAL COORDINATES (X,Y)"@) {
        PromptClass::Coordinates
    } else if contains_seq(ep, "WILL YOU AUTHORIZE THE REPAIR ORDER"@) {
        PromptClass::Repair
    } else if contains_seq(ep, "SHIELD CONTROL INOPERABLE"@) {
        PromptClass::CommandMenu
    } else if contains_seq(ep, "LET HIM STEP FORWARD AND ENTER 'AYE'"@) {
        PromptClass::Aye
    } else if status_line(ep) {
        PromptClass::Blank
    } else if ep == "?"@ {
        PromptClass::Blank
    } else {
        PromptClass::Unknown
    }
}

/// Status and report lines that only need the turn advanced.
pub open spec fn status_line(ep: Seq<char>) -> bool {
    ||| contains_seq(ep, "LT. UHURA REPORTS MESSAGE"@)
    ||| (contains_seq(ep, "SHIELDS NOW AT"@) && contains_seq(ep, "UNITS PER YOUR COMMAND"@))
    ||| contains_seq(ep, "DEFLECTOR CONTROL ROOM REPORT"@)
    ||| contains_seq(ep, "DAMAGE CONTROL REPORT"@)
    ||| contains_seq(ep, "ENGINEERING REPORTS"@)
    ||| contains_seq(ep, "CHIEF ENGINEER SCOTT REPORTS"@)
    ||| contains_seq(ep, "STARBASE SHIELDS PROTECT"@)
    ||| contains_seq(ep, "SENSORS SHOW NO DAMAGE"@)
    ||| contains_seq(ep, "UNIT HIT ON"@)
    ||| contains_seq(ep, "KLINGON DESTROYED"@)
    ||| contains_seq(ep, "TORPEDO TRACK"@)
    ||| (contains_seq(ep, "STAR AT"@) && contains_seq(ep, "ABSORBED TORPEDO"@))
    ||| contains_seq(ep, "STARBASE DESTROYED"@)
    ||| contains_seq(ep, "TORPEDO MISSED"@)
    ||| contains_seq(ep, "SHIELDS UNCHANGED"@)
    ||| contains_seq(ep, "CONDITION RED"@)
    ||| contains_seq(ep, "WARP ENGINES SHUT DOWN"@)
    ||| contains_seq(ep, "PERMISSION TO ATTEMPT CROSSING"@)
    ||| (contains_seq(ep, "NOW ENTERING"@) && contains_seq(ep, "QUADRANT"@))
    ||| contains_seq(ep, "NAV  (TO SET COURSE)"@)
    ||| contains_seq(ep, "SRS  (FOR SHORT RANGE SENSOR SCAN)"@)
    ||| contains_seq(ep, "LRS  (FOR LONG RANGE SENSOR SCAN)"@)
    ||| contains_seq(ep, "PHA  (TO FIRE PHASERS)"@)
    ||| contains_seq(ep, "TOR  (TO FIRE PHOTON TORPEDOES)"@)
    ||| contains_seq(ep, "SHE  (TO RAISE OR LOWER SHIELDS)"@)
    ||| contains_seq(ep, "DAM  (FOR DAMAGE CONTROL REPORTS)"@)
    ||| contains_seq(ep, "COM  (TO CALL ON LIBRARY-COMPUTER)"@)
    ||| contains_seq(ep, "XXX  (TO RESIGN YOUR COMMAND)"@)
    ||| contains_seq(ep, "PLEASE ENTER"@)
}

fn status_line_exec(v: &Vec<char>) -> (r: bool)
    ensures
        r == status_line(v@),
{
    if contains_lit(v, "LT. UHURA REPORTS MESSAGE") || (contains_lit(v, "SHIELDS NOW AT")
        && contains_lit(v, "UNITS PER YOUR COMMAND")) || contains_lit(
        v,
        "DEFLECTOR CONTROL ROOM REPORT",
    ) || contains_lit(v, "DAMAGE CONTROL REPORT") || contains_lit(v, "ENGINEERING REPORTS")
        || contains_lit(v, "CHIEF ENGINEER SCOTT REPORTS") || contains_lit(
        v,
        "STARBASE SHIELDS PROTECT",
    ) || contains_lit(v, "SENSORS SHOW NO DAMAGE") || contains_lit(v, "UNIT HIT ON")
        || contains_lit(v, "KLINGON DESTROYED") || contains_lit(v, "TORPEDO TRACK") {
        return true;
    }
    if (contains_lit(v, "STAR AT") && contains_lit(v, "ABSORBED TORPEDO")) || contains_lit(
        v,
        "STARBASE DESTROYED",
    ) || contains_lit(v, "TORPEDO MISSED") || contains_lit(v, "SHIELDS UNCHANGED") || contains_lit(
        v,
        "CONDITION RED",
    ) || contains_lit(v, "WARP ENGINES SHUT DOWN") || contains_lit(
        v,
        "PERMISSION TO ATTEMPT CROSSING",
    ) || (contains_lit(v, "NOW ENTERING") && contains_lit(v, "QUADRANT")) {
        return true;
    }
    contains_lit(v, "NAV  (TO SET COURSE)") || contains_lit(v, "SRS  (FOR SHORT RANGE SENSOR SCAN)")
        || contains_lit(v, "LRS  (FOR LONG RANGE SENSOR SCAN)") || contains_lit(
        v,
        "PHA  (TO FIRE PHASERS)",
    ) || contains_lit(v, "TOR  (TO FIRE PHOTON TORPEDOES)") || contains_lit(
        v,
        "SHE  (TO RAISE OR LOWER SHIELDS)",
    ) || contains_lit(v, "DAM  (FOR DAMAGE CONTROL REPORTS)") || contains_lit(
        v,
        "COM  (TO CALL ON LIBRARY-COMPUTER)",
    ) || contains_lit(v, "XXX  (TO RESIGN YOUR COMMAND)") || contains_lit(v, "PLEASE ENTER")
}

/// The richer phrase found on one line of trailing context, if any.
pub open spec fn ctx_phrase_of_line(l: Seq<char>) -> Option<Seq<char>> {
    if contains_seq(l, "WARP FACTOR"@) {
        Some("WARP FACTOR"@)
    } else if contains_seq(l, "COURSE (0-9)"@) {
        Some("COURSE (0-9)"@)
    } else if contains_seq(l, "PHOTON TORPEDO COURSE"@) {
        Some("PHOTON TORPEDO COURSE"@)
    } else if contains_seq(l, "NUMBER OF UNITS TO SHIELDS"@) {
        Some("NUMBER OF UNITS TO SHIELDS"@)
    } else if contains_seq(l, "NUMBER OF UNITS TO FIRE"@) {
        Some("NUMBER OF UNITS TO FIRE"@)
    } else if contains_seq(l, "INITIAL COORDINATES (X,Y)"@) {
        Some("INITIAL COORDINATES (X,Y)"@)
    } else if contains_seq(l, "FINAL COORDINATES (X,Y)"@) {
        Some("FINAL COORDINATES (X,Y)"@)
    } else if contains_seq(l, "COMPUTER ACTIVE AND AWAITING COMMAND"@) {
        Some("COMPUTER ACTIVE AND AWAITING COMMAND"@)
    } else {
        None
    }
}

/// Scan the last three lines, newest first, for a richer phrase.
pub open spec fn ctx_scan(ls: Seq<Seq<char>>, k: int) -> Option<Seq<char>>
    decreases 3 - k,
{
    if k < 0 || k >= 3 || k >= ls.len() {
        None
    } else {
        match ctx_phrase_of_line(ls[ls.len() - 1 - k]) {
            Some(ph) => Some(ph),
            None => ctx_scan(ls, k + 1),
        }
    }
}

/// The effective prompt, from the recorded prompt and the last batch:
/// the trimmed prompt, except that a bare question mark is replaced by a
/// richer phrase from the last three lines of output, when one is there.
pub open spec fn effective_prompt_of(prompt: Option<Seq<char>>, ls: Seq<Seq<char>>) -> Seq<char> {
    let p = trim_seq(
        match prompt {
            Some(s) => s,
            None => Seq::empty(),
        },
    );
    if p == "?"@ {
        match ctx_scan(ls, 0) {
            Some(ph) => ph,
            None => p,
        }
    } else {
        p
    }
}

/// The effective prompt of a state.
pub open spec fn effective_prompt(gs: GameState) -> Seq<char> {
    effective_prompt_of(crate::state::opt_str(gs.last_prompt), gs.last_output.deep_view())
}

/// Whether the policy in force would reject, from the recorded prompt and
/// the last batch alone: the randomized policy rejects exactly the prompts
/// `rejects` names; the deliberate one never rejects.
pub open spec fn policy_rejects_of(
    random_policy: bool,
    prompt: Option<Seq<char>>,
    ls: Seq<Seq<char>>,
) -> bool {
    random_policy && rejects(effective_prompt_of(prompt, ls))
}

fn ctx_phrase_exec(v: &Vec<char>) -> (r: Option<Vec<char>>)
    ensures
        match r {
            Some(ph) => ctx_phrase_of_line(v@) == Some(ph@),
            None => ctx_phrase_of_line(v@) is None,
        },
{
    if contains_lit(v, "WARP FACTOR") {
        Some(chars_of("WARP FACTOR"))
    } else if contains_lit(v, "COURSE (0-9)") {
        Some(chars_of("COURSE (0-9)"))
    } else if contains_lit(v, "PHOTON TORPEDO COURSE") {
        Some(chars_of("PHOTON TORPEDO COURSE"))
    } else if contains_lit(v, "NUMBER OF UNITS TO SHIELDS") {
        Some(chars_of("NUMBER OF UNITS TO SHIELDS"))
    } else if contains_lit(v, "NUMBER OF UNITS TO FIRE") {
        Some(chars_of("NUMBER OF UNITS TO FIRE"))
    } else if contains_lit(v, "INITIAL COORDINATES (X,Y)") {
        Some(chars_of("INITIAL COORDINATES (X,Y)"))
    } else if contains_lit(v, "FINAL COORDINATES (X,Y)") {
        Some(chars_of("FINAL COORDINATES (X,Y)"))
    } else if contains_lit(v, "COMPUTER ACTIVE AND AWAITING COMMAND") {
        Some(chars_of("COMPUTER ACTIVE AND AWAITING COMMAND"))
    } else {
        None
    }
}

/// The effective prompt of the state, as characters.
pub fn effective_prompt_exec(gs: &GameState) -> (r: Vec<char>)
    ensures
        r@ == effective_prompt(*gs),
{
    let raw = match gs.get_current_prompt() {
        Some(p) => chars_of(p.as_str()),
        None => Vec::new(),
    };
    let t = trim_chars(&raw);
    if !eq_lit(&t, "?") {
        return t;
    }
    let ghost ls = gs.last_output.deep_view();
    let n = gs.last_output.len();
    let mut k: usize = 0;
    while k < 3 && k < n
        invariant
            k <= 3,
            n == ls.len(),
            ls == gs.last_output.deep_view(),
            ctx_scan(ls, 0) == ctx_scan(ls, k as int),
        decreases 3 - k,
    {
        let line = vstd::slice::slice_index_get(gs.last_output.as_slice(), n - 1 - k);
        let v = chars_of(line.as_str());
        proof {
            assert(v@ == ls[n - 1 - k]);
        }
        match ctx_phrase_exec(&v) {
            Some(ph) => {
                return ph;
            },
            None => {},
        }
        k = k + 1;
    }
    t
}

/// A line announcing combat or danger.
pub open spec fn danger_line(l: Seq<char>) -> bool {
    ||| contains_seq(l, "CONDITION RED"@)
    ||| contains_seq(l, "COMBAT AREA"@)
    ||| contains_seq(l, "SHIELDS DANGEROUSLY LOW"@)
    ||| contains_seq(l, "UNIT HIT ON ENTERPRISE"@)
}

/// The last batch carried a danger line.
pub open spec fn danger_spec(gs: GameState) -> bool {
    exists|i: int|
        0 <= i < gs.last_output.deep_view().len() && danger_line(
            #[trigger] gs.last_output.deep_view()[i],
        )
}

fn danger_exec(gs: &GameState) -> (r: bool)
    ensures
        r == danger_spec(*gs),
{
    let ghost ls = gs.last_output.deep_view();
    let n = gs.last_output.len();
    let mut i: usize = 0;
    while i < n
        invariant
            i <= n,
            n == ls.len(),
            ls == gs.last_output.deep_view(),
            forall|j: int| 0 <= j < i ==> !danger_line(#[trigger] ls[j]),
        decreases n - i,
    {
        let line = vstd::slice::slice_index_get(gs.last_output.as_slice(), i);
        let v = chars_of(line.as_str());
        proof {
            assert(v@ == ls[i as int]);
        }
        if contains_lit(&v, "CONDITION RED") || contains_lit(&v, "COMBAT AREA") || contains_lit(
            &v,
            "SHIELDS DANGEROUSLY LOW",
        ) || contains_lit(&v, "UNIT HIT ON ENTERPRISE") {
            return true;
        }
        i = i + 1;
    }
    false
}

/// The decimal numeral of some integer in `[lo, hi]`.
pub open spec fn int_cmd(c: Seq<char>, lo: int, hi: int) -> bool {
    exists|k: int| lo <= k <= hi && c == dec_digits(k)
}

/// A coordinate pair `x,y` with both parts in `[1, 8]`.
pub open spec fn pair_cmd(c: Seq<char>) -> bool {
    exists|x: int, y: int|
        1 <= x <= 8 && 1 <= y <= 8 && c == #[trigger] dec_digits(x) + seq![',']
            + #[trigger] dec_digits(y)
}

/// A fractional warp factor under 0.25, to two decimals.
pub open spec fn small_warp(c: Seq<char>) -> bool {
    exists|h: int|
        0 <= h < 25 && c == seq!['0', '.', #[trigger] digit_char(h / 10), digit_char(h % 10)]
}

/// A warp factor between 0.1 and 7.9, to one decimal.
pub open spec fn big_warp(c: Seq<char>) -> bool {
    exists|t: int|
        1 <= t <= 79 && c == #[trigger] dec_digits(t / 10) + seq!['.', digit_char(t % 10)]
}

/// The warp command fits the situation: a crawl when the last line shows a
/// damaged-engine range whose upper bound is at most 0.2, else a cruise.
pub open spec fn warp_ok(gs: GameState, c: Seq<char>) -> bool {
    let ls = gs.last_output.deep_view();
    if ls.len() > 0 && (warp_range_spec(ls.last()) matches Some(b) && b.1 <= 200) {
        small_warp(c)
    } else {
        big_warp(c)
    }
}

/// The energy figure the shields handler works from: parsed from the last
/// line, with 3000 assumed when absent.
pub open spec fn shields_energy(gs: GameState) -> int {
    let ls = gs.last_output.deep_view();
    if ls.len() > 0 && energy_available_spec(ls.last()) is Some {
        energy_available_spec(ls.last())->Some_0
    } else {
        3000
    }
}

/// The shields command fits the situation: an opening allocation up to
/// 1000 when shields stand at zero, else between three and seven tenths of
/// the available energy.
pub open spec fn shields_ok(gs: GameState, c: Seq<char>) -> bool {
    let e = shields_energy(gs);
    if gs.shields is None || gs.shields == Some(0i32) {
        int_cmd(
            c,
            0,
            if e < 1000 {
                e
            } else {
                1000
            },
        )
    } else {
        int_cmd(c, (e * 3) / 10, (e * 7) / 10)
    }
}

/// What the policy may answer, by prompt class.
pub open spec fn class_ok(gs: GameState, ep: Seq<char>, c: Seq<char>) -> bool {
    match class_of(ep) {
        PromptClass::CommandMenu => menu_cmd(c),
        PromptClass::Blank => c == Seq::<char>::empty(),
        PromptClass::Course => int_cmd(c, 1, 9),
        PromptClass::Torpedo => int_cmd(c, 1, 9),
        PromptClass::Warp => warp_ok(gs, c),
        PromptClass::Phaser => int_cmd(c, 1, 499),
        PromptClass::EnergyPrompt => energy_available_spec(ep) matches Some(e) && e >= 1 && int_cmd(
            c,
            1,
            e,
        ),
        PromptClass::Shields => shields_ok(gs, c),
        PromptClass::Computer => int_cmd(c, 0, 5),
        PromptClass::Coordinates => pair_cmd(c),
        PromptClass::Repair => c == "Y"@ || c == "N"@,
        PromptClass::Aye => c == "quit"@,
        PromptClass::Unknown => false,
    }
}

/// When the policy rejects: an unplaceable prompt, or an energy prompt
/// whose figure cannot be read or is not positive.
pub open spec fn rejects(ep: Seq<char>) -> bool {
    ||| class_of(ep) is Unknown
    ||| (class_of(ep) is EnergyPrompt && !(energy_available_spec(ep) matches Some(e) && e >= 1))
}

/// A random decimal numeral within `[lo, hi]`.
fn rand_int_cmd(lo: u32, hi: u32) -> (s: String)
    requires
        lo <= hi,
    ensures
        int_cmd(s@, lo as int, hi as int),
{
    let k = rand_u32_inclusive(lo, hi);
    let s = u32_dec_string(k);
    proof {
        assert(s@ == dec_digits(k as int));
    }
    s
}

/// Place an effective prompt in the dispatch table.
pub fn classify(v: &Vec<char>) -> (c: PromptClass)
    ensures
        c == class_of(v@),
{
    if eq_lit(v, "COMMAND") || eq_lit(v, "COMMAND?") {
        return PromptClass::CommandMenu;
    }
    if eq_lit(v, "ENTER ONE OF THE FOLLOWING:") || eq_lit(v, "PLEASE ENTER") {
        return PromptClass::Blank;
    }
    if contains_lit(v, "COURSE (0-9)") {
        return PromptClass::Course;
    }
    if contains_lit(v, "WARP FACTOR") {
        return PromptClass::Warp;
    }
    if contains_lit(v, "PHOTON TORPEDO COURSE") {
        return PromptClass::Torpedo;
    }
    if contains_lit(v, "NUMBER OF UNITS TO FIRE") {
        return PromptClass::Phaser;
    }
    if contains_lit(v, "PHASERS LOCKED ON TARGET") && contains_lit(v, "ENERGY AVAILABLE") {
        return PromptClass::EnergyPrompt;
    }
    if contains_lit(v, "NUMBER OF UNITS TO SHIELDS") {
        return PromptClass::Shields;
    }
    if starts_with_lit(v, "ENERGY AVAILABLE = ") {
        return PromptClass::EnergyPrompt;
    }
    if contains_lit(v, "COMPUTER ACTIVE AND AWAITING COMMAND") {
        return PromptClass::Computer;
    }
    if contains_lit(v, "INITIAL COORDINATES (X,Y)") || contains_lit(v, "FINAL COORDINATES (X,Y)") {
        return PromptClass::Coordinates;
    }
    if contains_lit(v, "WILL YOU AUTHORIZE THE REPAIR ORDER") {
        return PromptClass::Repair;
    }
    if contains_lit(v, "SHIELD CONTROL INOPERABLE") {
        return PromptClass::CommandMenu;
    }
    if contains_lit(v, "LET HIM STEP FORWARD AND ENTER 'AYE'") {
        return PromptClass::Aye;
    }
    if status_line_exec(v) {
        return PromptClass::Blank;
    }
    if eq_lit(v, "?") {
        return PromptClass::Blank;
    }
    PromptClass::Unknown
}

/// The randomized policy: legal answers drawn at random, with shields and
/// phasers favoured under danger.
pub struct RandomStrategy {
    pub first_turn: bool,
}

impl RandomStrategy {
    pub fn new() -> (r: RandomStrategy)
        ensures
            r.first_turn,
    {
        RandomStrategy { first_turn: true }
    }

    fn handle_command_prompt(&mut self, game_state: &GameState) -> (r: String)
        ensures
            menu_cmd(r@),
    {
        if danger_exec(game_state) {
            if rand_u32_inclusive(0, 999) < 500 {
                return Command::Shields.to_string();
            }
            if rand_u32_inclusive(0, 999) < 300 {
                return Command::Phasers.to_string();
            }
        }
        random_command().to_string()
    }

    fn handle_warp_factor(&mut self, game_state: &GameState) -> (r: String)
        ensures
            warp_ok(*game_state, r@),
    {
        let n = game_state.last_output.len();
        let mut crawl = false;
        if n > 0 {
            let last = vstd::slice::slice_index_get(game_state.last_output.as_slice(), n - 1);
            proof {
                assert(last@ == game_state.last_output.deep_view().last());
            }
            match parse_warp_factor_range(last.as_str()) {
                Some(b) => {
                    if b.1 <= 200 {
                        crawl = true;
                    }
                },
                None => {},
            }
        }
        if crawl {
            let h = rand_u32_inclusive(0, 24);
            let mut out: Vec<char> = Vec::new();
            out.push('0');
            out.push('.');
            out.push((48 + (h / 10) as u8) as char);
            out.push((48 + (h % 10) as u8) as char);
            proof {
                assert(out@ =~= seq![
                    '0',
                    '.',
                    digit_char(h as int / 10),
                    digit_char(h as int % 10),
                ]);
                assert(small_warp(out@));
            }
            string_from_chars(&out)
        } else {
            let t = rand_u32_inclusive(1, 79);
            let mut out: Vec<char> = Vec::new();
            push_dec_u32(t / 10, &mut out);
            out.push('.');
            out.push((48 + (t % 10) as u8) as char);
            proof {
                assert(out@ =~= dec_digits(t as int / 10) + seq!['.', digit_char(t as int % 10)]);
                assert(big_warp(out@));
            }
            string_from_chars(&out)
        }
    }

    fn handle_shield_units(&mut self, game_state: &GameState) -> (r: String)
        ensures
            shields_ok(*game_state, r@),
    {
        let n = game_state.last_output.len();
        let energy: i32 = if n > 0 {
            let last = vstd::slice::slice_index_get(game_state.last_output.as_slice(), n - 1);
            proof {
                assert(last@ == game_state.last_output.deep_view().last());
            }
            match parse_energy_available(last.as_str()) {
                Some(x) => {
                    proof {
                        crate::parser::lemma_energy_available_nonneg(last@);
                    }
                    x
                },
                None => 3000,
            }
        } else {
            3000
        };
        let zero_now = match game_state.shields {
            Some(s) => s == 0,
            None => true,
        };
        if zero_now {
            let cap: u32 = if energy < 1000 {
                energy as u32
            } else {
                1000
            };
            rand_int_cmd(0, cap)
        } else {
            let lo = ((energy as u64) * 3 / 10) as u32;
            let hi = ((energy as u64) * 7 / 10) as u32;
            rand_int_cmd(lo, hi)
        }
    }

    fn handle_coordinates(&mut self) -> (r: String)
        ensures
            pair_cmd(r@),
    {
        let x = rand_u32_inclusive(1, 8);
        let y = rand_u32_inclusive(1, 8);
        let mut out: Vec<char> = Vec::new();
        push_dec_u32(x, &mut out);
        out.push(',');
        push_dec_u32(y, &mut out);
        proof {
            assert(out@ =~= dec_digits(x as int) + seq![','] + dec_digits(y as int));
            assert(pair_cmd(out@));
        }
        string_from_chars(&out)
    }

    /// Decide the next command from the state and its effective prompt;
    /// an unknown prompt is rejected, never guessed.
    pub fn get_command(&mut self, game_state: &GameState) -> (r: Result<String, PromptError>)
        ensures
            ({
                let ep = effective_prompt(*game_state);
                match r {
                    Ok(c) => !rejects(ep) && class_ok(*game_state, ep, c@),
                    Err(e) => rejects(ep) && (class_of(ep) is Unknown ==> e is UnknownPrompt
                        && e.text() == trim_seq(
                        match game_state.last_prompt {
                            Some(s) => s@,
                            None => Seq::<char>::empty(),
                        },
                    )) && (class_of(ep) is EnergyPrompt ==> e is EnergyUnparsed && e.text() == ep),
                }
            }),
    {
        let raw = match game_state.get_current_prompt() {
            Some(p) => chars_of(p.as_str()),
            None => Vec::new(),
        };
        let trimmed = trim_chars(&raw);
        let ep = effective_prompt_exec(game_state);
        let cls = classify(&ep);
        match cls {
            PromptClass::CommandMenu => Ok(self.handle_command_prompt(game_state)),
            PromptClass::Blank => Ok(String::new()),
            PromptClass::Course => Ok(rand_int_cmd(1, 9)),
            PromptClass::Torpedo => Ok(rand_int_cmd(1, 9)),
            PromptClass::Warp => Ok(self.handle_warp_factor(game_state)),
            PromptClass::Phaser => Ok(rand_int_cmd(1, 499)),
            PromptClass::EnergyPrompt => {
                match crate::parser::energy_available_chars(&ep) {
                    Some(e) => {
                        if e >= 1 {
                            Ok(rand_int_cmd(1, e as u32))
                        } else {
                            Err(PromptError::EnergyUnparsed(string_from_chars(&ep)))
                        }
                    },
                    None => Err(PromptError::EnergyUnparsed(string_from_chars(&ep))),
                }
            },
            PromptClass::Shields => Ok(self.handle_shield_units(game_state)),
            PromptClass::Computer => Ok(rand_int_cmd(0, 5)),
            PromptClass::Coordinates => Ok(self.handle_coordinates()),
            PromptClass::Repair => {
                if rand_u32_inclusive(0, 999) < 500 {
                    Ok(String::from_str("Y"))
                } else {
                    Ok(String::from_str("N"))
                }
            },
            PromptClass::Aye => Ok(String::from_str("quit")),
            PromptClass::Unknown => Err(PromptError::UnknownPrompt(string_from_chars(&trimmed))),
        }
    }

    /// Begin a new game.
    pub fn reset(&mut self)
        ensures
            final(self).first_turn,
    {
        self.first_turn = true;
    }

    pub fn name(&self) -> (r: &'static str)
        ensures
            r@ == "Random"@,
    {
        "Random"
    }
}

/// A placeholder deliberate strategy: it always asks for a short-range
/// scan.
pub struct CheatStrategy {}

impl CheatStrategy {
    pub fn new() -> (r: CheatStrategy) {
        CheatStrategy {  }
    }

    /// Always a short-range scan.
    pub fn get_command(&mut self, _game_state: &GameState) -> (r: Result<String, PromptError>)
        ensures
            r matches Ok(c) && c@ == "SRS"@,
    {
        Ok(String::from_str("SRS"))
    }

    pub fn reset(&mut self) {
    }

    pub fn name(&self) -> (r: &'static str)
        ensures
            r@ == "Cheat"@,
    {
        "Cheat"
    }
}

/// The strategy in play.
pub enum StrategyChoice {
    Random(RandomStrategy),
    Cheat(CheatStrategy),
}

impl StrategyChoice {
    /// What the chosen strategy may answer.
    pub open spec fn choice_ok(self, gs: GameState, c: Seq<char>) -> bool {
        match self {
            StrategyChoice::Random(_) => class_ok(gs, effective_prompt(gs), c),
            StrategyChoice::Cheat(_) => c == "SRS"@,
        }
    }

    /// When the chosen strategy rejects: a function of the recorded
    /// prompt and the last batch alone.
    pub open spec fn choice_rejects(self, gs: GameState) -> bool {
        policy_rejects_of(
            self is Random,
            crate::state::opt_str(gs.last_prompt),
            gs.last_output.deep_view(),
        )
    }

    /// Ask the chosen strategy for the next command.
    pub fn get_command(&mut self, game_state: &GameState) -> (r: Result<String, PromptError>)
        ensures
            match r {
                Ok(c) => old(self).choice_ok(*game_state, c@),
                Err(_) => old(self).choice_rejects(*game_state),
            },
            (r is Err) == old(self).choice_rejects(*game_state),
            (*final(self) is Random) == (*old(self) is Random),
    {
        match self {
            StrategyChoice::Random(s) => s.get_command(game_state),
            StrategyChoice::Cheat(s) => s.get_command(game_state),
        }
    }

    /// Begin a new game: the randomized policy is back on its first turn.
    pub fn reset(&mut self)
        ensures
            (*final(self) is Random) == (*old(self) is Random),
            *final(self) is Random ==> final(self)->Random_0.first_turn,
    {
        match self {
            StrategyChoice::Random(s) => s.reset(),
            StrategyChoice::Cheat(s) => s.reset(),
        }
    }

    pub fn name(&self) -> &'static str {
        match self {
            StrategyChoice::Random(_) => "Random",
            StrategyChoice::Cheat(_) => "Cheat",
        }
    }
}

/// A pattern with a character the line nowhere holds cannot occur in it.
proof fn lemma_absent_char(s: Seq<char>, pat: Seq<char>, j: int)
    requires
        0 <= j < pat.len(),
        forall|x: int| 0 <= x < s.len() ==> s[x] != pat[j],
    ensures
        !contains_seq(s, pat),
{
    if contains_seq(s, pat) {
        let i = choose|i: int| matches_at(s, pat, i);
        assert(s.subrange(i, i + pat.len())[j] == s[i + j]);
        assert(s[i + j] == pat[j]);
    }
}

/// A class the policy answers rather than rejects.
pub open spec fn answered(c: PromptClass) -> bool {
    !(c is Unknown) && !(c is EnergyPrompt)
}

/// Totality over the prompt catalogue: every catalogue phrase that can
/// reach the policy as an effective prompt is placed in a class the policy
/// answers. The startup phrases and the bare energy header are the known
/// exceptions.
pub proof fn lemma_prompt_catalogue_total()
    ensures
        answered(class_of("COMMAND?"@)),
        answered(class_of("COURSE (0-9)"@)),
        answered(class_of("WARP FACTOR"@)),
        answered(class_of("PHOTON TORPEDO COURSE (1-9)"@)),
        answered(class_of("NUMBER OF UNITS TO SHIELDS"@)),
        answered(class_of("NUMBER OF UNITS TO FIRE"@)),
        answered(class_of("COMPUTER ACTIVE AND AWAITING COMMAND"@)),
        answered(class_of("INITIAL COORDINATES (X,Y)"@)),
        answered(class_of("FINAL COORDINATES (X,Y)"@)),
        answered(class_of("LET HIM STEP FORWARD AND ENTER 'AYE'"@)),
        answered(class_of("WILL YOU AUTHORIZE THE REPAIR ORDER (Y/N)"@)),
        answered(class_of("?"@)),
{
    lemma_self_contains("COMMAND?"@);
    assert(class_of("COMMAND?"@) is CommandMenu);
    lemma_self_contains("COURSE (0-9)"@);
    lemma_self_contains("WARP FACTOR"@);
    reveal_strlit("PHOTON TORPEDO COURSE (1-9)");
    reveal_strlit("PHOTON TORPEDO COURSE");
    assert("PHOTON TORPEDO COURSE"@ =~= "PHOTON TORPEDO COURSE (1-9)"@.subrange(0, 21));
    lemma_contains_prefix("PHOTON TORPEDO COURSE (1-9)"@, "PHOTON TORPEDO COURSE"@);
    lemma_self_contains("NUMBER OF UNITS TO FIRE"@);
    lemma_catalogue_late("NUMBER OF UNITS TO SHIELDS"@);
    lemma_self_contains("NUMBER OF UNITS TO SHIELDS"@);
    lemma_catalogue_late("COMPUTER ACTIVE AND AWAITING COMMAND"@);
    lemma_self_contains("COMPUTER ACTIVE AND AWAITING COMMAND"@);
    lemma_catalogue_late("INITIAL COORDINATES (X,Y)"@);
    lemma_self_contains("INITIAL COORDINATES (X,Y)"@);
    lemma_catalogue_late("FINAL COORDINATES (X,Y)"@);
    lemma_self_contains("FINAL COORDINATES (X,Y)"@);
    lemma_catalogue_late("LET HIM STEP FORWARD AND ENTER 'AYE'"@);
    lemma_self_contains("LET HIM STEP FORWARD AND ENTER 'AYE'"@);
    lemma_catalogue_late("WILL YOU AUTHORIZE THE REPAIR ORDER (Y/N)"@);
    reveal_strlit("WILL YOU AUTHORIZE THE REPAIR ORDER (Y/N)");
    reveal_strlit("WILL YOU AUTHORIZE THE REPAIR ORDER");
    assert("WILL YOU AUTHORIZE THE REPAIR ORDER"@ =~= "WILL YOU AUTHORIZE THE REPAIR ORDER (Y/N)"@.subrange(
        0,
        35,
    ));
    lemma_contains_prefix(
        "WILL YOU AUTHORIZE THE REPAIR ORDER (Y/N)"@,
        "WILL YOU AUTHORIZE THE REPAIR ORDER"@,
    );
    lemma_catalogue_late("?"@);
}

/// Every sequence occurs in itself.
proof fn lemma_self_contains(s: Seq<char>)
    ensures
        contains_seq(s, s),
{
    assert(s.subrange(0, s.len() as int) =~= s);
    assert(matches_at(s, s, 0));
}

/// A sequence contains each of its prefixes.
proof fn lemma_contains_prefix(s: Seq<char>, pat: Seq<char>)
    requires
        pat.len() <= s.len(),
        pat =~= s.subrange(0, pat.len() as int),
    ensures
        contains_seq(s, pat),
{
    assert(matches_at(s, pat, 0));
}

/// Neither energy-prompt rule fires on these catalogue phrases: none of
/// them holds the letter K of the phaser-lock pattern, and none opens with
/// the energy header.
proof fn lemma_catalogue_late(ep: Seq<char>)
    requires
        ({
            ||| ep == "NUMBER OF UNITS TO SHIELDS"@
            ||| ep == "COMPUTER ACTIVE AND AWAITING COMMAND"@
            ||| ep == "INITIAL COORDINATES (X,Y)"@
            ||| ep == "FINAL COORDINATES (X,Y)"@
            ||| ep == "LET HIM STEP FORWARD AND ENTER 'AYE'"@
            ||| ep == "WILL YOU AUTHORIZE THE REPAIR ORDER (Y/N)"@
            ||| ep == "?"@
        }),
    ensures
        !contains_seq(ep, "PHASERS LOCKED ON TARGET"@),
        !matches_at(ep, "ENERGY AVAILABLE = "@, 0),
{
    reveal_strlit("PHASERS LOCKED ON TARGET");
    reveal_strlit("ENERGY AVAILABLE = ");
    reveal_strlit("NUMBER OF UNITS TO SHIELDS");
    reveal_strlit("COMPUTER ACTIVE AND AWAITING COMMAND");
    reveal_strlit("INITIAL COORDINATES (X,Y)");
    reveal_strlit("FINAL COORDINATES (X,Y)");
    reveal_strlit("LET HIM STEP FORWARD AND ENTER 'AYE'");
    reveal_strlit("WILL YOU AUTHORIZE THE REPAIR ORDER (Y/N)");
    reveal_strlit("?");
    assert("PHASERS LOCKED ON TARGET"@[11] == 'K');
    lemma_absent_char(ep, "PHASERS LOCKED ON TARGET"@, 11);
    if matches_at(ep, "ENERGY AVAILABLE = "@, 0) {
        assert(ep.subrange(0, 19)[0] == ep[0]);
        assert(ep[0] == 'E');
    }
}

} // verus!
