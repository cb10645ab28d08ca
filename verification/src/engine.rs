//! The turn orchestrator: feed each batch of output to the extractor,
//! watch for terminal phrases, ask the policy for a command, count turns,
//! and classify the outcome when the game ends or the turn cap is hit.

use vstd::prelude::*;
use crate::text::{contains_seq, upper_seq, chars_of, upper_chars, contains_lit};
use crate::state::{GameState, updated_by, prompt_after, opt_str};
use crate::strategy::{StrategyChoice, PromptError, policy_rejects_of};

verus! {

/// The outcome of one game.
#[derive(Debug, Clone, PartialEq, Eq, Structural)]
pub enum GameResult {
    Victory,
    Destroyed,
    TimeUp,
    FederationDestroyed,
    MaxTurnsReached,
    InterpreterStopped,
    Unknown,
}

impl GameResult {
    /// Only a completed mission counts as success.
    pub fn is_success(&self) -> (r: bool)
        ensures
            r == (*self == GameResult::Victory),
    {
        match self {
            GameResult::Victory => true,
            _ => false,
        }
    }

    /// A one-line account of the outcome.
    pub fn description(&self) -> (r: &'static str)
        ensures
            match self {
                GameResult::Victory => r@ == "Mission accomplished! All Klingons destroyed."@,
                GameResult::Destroyed => r@ == "Enterprise destroyed in battle."@,
                GameResult::TimeUp => r@ == "Time ran out before mission completion."@,
                GameResult::FederationDestroyed => r@ == "Federation headquarters destroyed."@,
                GameResult::MaxTurnsReached => r@ == "Game ended due to turn limit."@,
                GameResult::InterpreterStopped => r@ == "Interpreter process stopped."@,
                GameResult::Unknown => r@ == "Game ended for unknown reasons."@,
            },
    {
        match self {
            GameResult::Victory => "Mission accomplished! All Klingons destroyed.",
            GameResult::Destroyed => "Enterprise destroyed in battle.",
            GameResult::TimeUp => "Time ran out before mission completion.",
            GameResult::FederationDestroyed => "Federation headquarters destroyed.",
            GameResult::MaxTurnsReached => "Game ended due to turn limit.",
            GameResult::InterpreterStopped => "Interpreter process stopped.",
            GameResult::Unknown => "Game ended for unknown reasons.",
        }
    }
}

/// A line, upper-cased, announcing the end of the game.
pub open spec fn game_over_line(l: Seq<char>) -> bool {
    let u = upper_seq(l);
    ||| contains_seq(u, "MISSION ACCOMPLISHED"@)
    ||| contains_seq(u, "YOU HAVE BEEN KILLED"@)
    ||| contains_seq(u, "GAME OVER"@)
    ||| contains_seq(u, "FEDERATION DESTROYED"@)
    ||| contains_seq(u, "TIME HAS RUN OUT"@)
}

/// Some line of the batch announces the end of the game.
pub open spec fn is_game_over_spec(ls: Seq<Seq<char>>) -> bool {
    exists|i: int| 0 <= i < ls.len() && game_over_line(#[trigger] ls[i])
}

/// The outcome one line announces, if any; phrase priority is fixed.
pub open spec fn result_of_line(l: Seq<char>) -> Option<GameResult> {
    let u = upper_seq(l);
    if contains_seq(u, "MISSION ACCOMPLISHED"@) {
        Some(GameResult::Victory)
    } else if contains_seq(u, "YOU HAVE BEEN KILLED"@) {
        Some(GameResult::Destroyed)
    } else if contains_seq(u, "TIME HAS RUN OUT"@) {
        Some(GameResult::TimeUp)
    } else if contains_seq(u, "FEDERATION DESTROYED"@) {
        Some(GameResult::FederationDestroyed)
    } else {
        None
    }
}

/// The outcome the batch announces: the first line with a known phrase
/// decides; with none, the outcome is unknown.
pub open spec fn result_scan(ls: Seq<Seq<char>>, i: int) -> GameResult
    decreases ls.len() - i,
{
    if i < 0 || i >= ls.len() {
        GameResult::Unknown
    } else {
        match result_of_line(ls[i]) {
            Some(r) => r,
            None => result_scan(ls, i + 1),
        }
    }
}

pub open spec fn game_result_spec(ls: Seq<Seq<char>>) -> GameResult {
    result_scan(ls, 0)
}

/// The scan never yields a loop-control outcome.
proof fn lemma_result_scan_range(ls: Seq<Seq<char>>, i: int)
    ensures
        result_scan(ls, i) != GameResult::MaxTurnsReached,
        result_scan(ls, i) != GameResult::InterpreterStopped,
    decreases ls.len() - i,
{
    if 0 <= i < ls.len() {
        lemma_result_scan_range(ls, i + 1);
    }
}

/// Whether the batch announces the end of the game.
pub fn is_game_over(output: &[String]) -> (r: bool)
    ensures
        r == is_game_over_spec(output.deep_view()),
{
    let ghost ls = output.deep_view();
    let n = output.len();
    let mut i: usize = 0;
    while i < n
        invariant
            i <= n,
            n == ls.len(),
            ls == output.deep_view(),
            forall|j: int| 0 <= j < i ==> !game_over_line(#[trigger] ls[j]),
        decreases n - i,
    {
        let line = vstd::slice::slice_index_get(output, i);
        let v = chars_of(line.as_str());
        let u = upper_chars(&v);
        proof {
            assert(v@ == ls[i as int]);
            assert(u@ == upper_seq(ls[i as int]));
        }
        if contains_lit(&u, "MISSION ACCOMPLISHED") || contains_lit(&u, "YOU HAVE BEEN KILLED")
            || contains_lit(&u, "GAME OVER") || contains_lit(&u, "FEDERATION DESTROYED")
            || contains_lit(&u, "TIME HAS RUN OUT") {
            return true;
        }
        i = i + 1;
    }
    false
}

/// The outcome the batch announces.
pub fn determine_game_result(output: &[String]) -> (r: GameResult)
    ensures
        r == game_result_spec(output.deep_view()),
{
    let ghost ls = output.deep_view();
    let n = output.len();
    let mut i: usize = 0;
    while i < n
        invariant
            i <= n,
            n == ls.len(),
            ls == output.deep_view(),
            result_scan(ls, 0) == result_scan(ls, i as int),
        decreases n - i,
    {
        let line = vstd::slice::slice_index_get(output, i);
        let v = chars_of(line.as_str());
        let u = upper_chars(&v);
        proof {
            assert(v@ == ls[i as int]);
            assert(u@ == upper_seq(ls[i as int]));
        }
        if contains_lit(&u, "MISSION ACCOMPLISHED") {
            return GameResult::Victory;
        }
        if contains_lit(&u, "YOU HAVE BEEN KILLED") {
            return GameResult::Destroyed;
        }
        if contains_lit(&u, "TIME HAS RUN OUT") {
            return GameResult::TimeUp;
        }
        if contains_lit(&u, "FEDERATION DESTROYED") {
            return GameResult::FederationDestroyed;
        }
        i = i + 1;
    }
    GameResult::Unknown
}

/// What the orchestrator does with one batch.
#[derive(Debug)]
pub enum TurnStep {
    Waiting,
    Finished(GameResult),
    Send(String),
    Fatal(PromptError),
}

/// The orchestrator: one game, one policy, a turn cap.
pub struct Player {
    pub strategy: StrategyChoice,
    pub game_state: GameState,
    pub max_turns: usize,
    pub turn_count: usize,
}

impl Player {
    /// A fresh orchestrator with the default turn cap.
    pub fn new(strategy: StrategyChoice) -> (r: Player)
        ensures
            r.game_state.wf(),
            r.max_turns == 1000,
            r.turn_count == 0,
    {
        Player { strategy, game_state: GameState::new(), max_turns: 1000, turn_count: 0 }
    }

    /// Cap the number of turns, against runaway sessions.
    pub fn set_max_turns(&mut self, max_turns: usize)
        ensures
            final(self).max_turns == max_turns,
            final(self).strategy == old(self).strategy,
            final(self).game_state == old(self).game_state,
            final(self).turn_count == old(self).turn_count,
    {
        self.max_turns = max_turns;
    }

    /// The current snapshot of observed facts.
    pub fn get_game_state(&self) -> (r: &GameState)
        ensures
            r == self.game_state,
    {
        &self.game_state
    }

    /// How many commands this game has sent.
    pub fn get_turn_count(&self) -> (r: usize)
        ensures
            r == self.turn_count,
    {
        self.turn_count
    }

    /// Start a fresh game: reset the policy, the snapshot and the count.
    pub fn begin_game(&mut self)
        ensures
            final(self).game_state.wf(),
            final(self).game_state.is_fresh(),
            final(self).turn_count == 0,
            final(self).max_turns == old(self).max_turns,
            (final(self).strategy is Random) == (old(self).strategy is Random),
            final(self).strategy is Random ==> final(self).strategy->Random_0.first_turn,
    {
        self.strategy.reset();
        self.game_state = GameState::new();
        self.turn_count = 0;
    }

    /// Whether the loop should run another turn.
    pub fn should_continue(&self, running: bool) -> (r: bool)
        ensures
            r == (running && self.turn_count < self.max_turns),
    {
        running && self.turn_count < self.max_turns
    }

    /// Handle one batch: an empty batch only waits; a terminal phrase ends
    /// the game with its outcome; otherwise the updated state is put to
    /// the policy, and a command answer counts one turn.
    pub fn process_batch(&mut self, output: &[String]) -> (r: TurnStep)
        requires
            old(self).game_state.wf(),
            old(self).turn_count < old(self).max_turns,
        ensures
            final(self).game_state.wf(),
            final(self).max_turns == old(self).max_turns,
            (final(self).strategy is Random) == (old(self).strategy is Random),
            (r is Waiting) == (output.deep_view().len() == 0),
            !(r is Waiting) ==> updated_by(
                old(self).game_state,
                output.deep_view(),
                final(self).game_state,
            ),
            match r {
                TurnStep::Waiting => *final(self) == *old(self),
                TurnStep::Finished(res) => is_game_over_spec(output.deep_view()) && res
                    == game_result_spec(output.deep_view())
                    && final(self).turn_count == old(self).turn_count,
                TurnStep::Send(c) => !is_game_over_spec(output.deep_view())
                    && final(self).turn_count == old(self).turn_count + 1
                    && old(self).strategy.choice_ok(final(self).game_state, c@)
                    && !old(self).strategy.choice_rejects(final(self).game_state),
                TurnStep::Fatal(_) => !is_game_over_spec(output.deep_view())
                    && old(self).strategy.choice_rejects(final(self).game_state)
                    && final(self).turn_count == old(self).turn_count,
            },
    {
        if output.len() == 0 {
            return TurnStep::Waiting;
        }
        self.game_state.update(output);
        if is_game_over(output) {
            return TurnStep::Finished(determine_game_result(output));
        }
        match self.strategy.get_command(&self.game_state) {
            Ok(c) => {
                self.turn_count = self.turn_count + 1;
                TurnStep::Send(c)
            },
            Err(e) => TurnStep::Fatal(e),
        }
    }

    /// The outcome when the loop stops without a terminal phrase: the cap
    /// was hit, or the child stopped first.
    pub fn finish_result(&self) -> (r: GameResult)
        ensures
            r == (if self.turn_count >= self.max_turns {
                GameResult::MaxTurnsReached
            } else {
                GameResult::InterpreterStopped
            }),
    {
        if self.turn_count >= self.max_turns {
            GameResult::MaxTurnsReached
        } else {
            GameResult::InterpreterStopped
        }
    }

    /// Play one game against a recorded transcript of batches: the pure
    /// core of the turn loop. The result is exactly what `recorded_run`
    /// computes from the transcript: the first terminal batch's outcome,
    /// the cap outcome after exactly `max_turns` sends, the stopped
    /// outcome when the transcript runs out first, or the policy's
    /// rejection.
    pub fn play_recorded(&mut self, batches: &[Vec<String>]) -> (r: Result<
        (GameResult, usize),
        PromptError,
    >)
        ensures
            final(self).max_turns == old(self).max_turns,
            final(self).game_state.wf(),
            ({
                let run = recorded_run(
                    old(self).strategy is Random,
                    batches.deep_view(),
                    0,
                    None::<Seq<char>>,
                    0,
                    old(self).max_turns as int,
                );
                match r {
                    Ok(p) => run == Ok::<(GameResult, int), ()>((p.0, p.1 as int)),
                    Err(_) => run is Err,
                }
            }),
            match r {
                Ok(p) => p.1 == final(self).turn_count && p.1 <= final(self).max_turns && ((p.0
                    == GameResult::MaxTurnsReached) <==> (p.1 == final(self).max_turns)),
                Err(_) => true,
            },
    {
        self.begin_game();
        let ghost rp = old(self).strategy is Random;
        let ghost dbatches = batches.deep_view();
        let ghost max = old(self).max_turns as int;
        let n = batches.len();
        let mut i: usize = 0;
        while i < n && self.turn_count < self.max_turns
            invariant
                i <= n,
                n == dbatches.len(),
                dbatches == batches.deep_view(),
                self.game_state.wf(),
                self.turn_count <= self.max_turns,
                self.max_turns == old(self).max_turns,
                max == old(self).max_turns as int,
                rp == (old(self).strategy is Random),
                (self.strategy is Random) == rp,
                recorded_run(rp, dbatches, 0, None::<Seq<char>>, 0, max) == recorded_run(
                    rp,
                    dbatches,
                    i as int,
                    opt_str(self.game_state.last_prompt),
                    self.turn_count as int,
                    max,
                ),
            decreases n - i,
        {
            let ghost prompt0 = opt_str(self.game_state.last_prompt);
            let ghost count0 = self.turn_count as int;
            let batch = vstd::slice::slice_index_get(batches, i);
            let batch_slice = batch.as_slice();
            proof {
                assert(batch_slice.deep_view() =~= dbatches[i as int]);
            }
            match self.process_batch(batch_slice) {
                TurnStep::Waiting => {
                    proof {
                        assert(recorded_run(rp, dbatches, i as int, prompt0, count0, max)
                            == recorded_run(rp, dbatches, i + 1, prompt0, count0, max));
                    }
                },
                TurnStep::Finished(res) => {
                    proof {
                        lemma_result_scan_range(batch_slice.deep_view(), 0);
                        assert(recorded_run(rp, dbatches, i as int, prompt0, count0, max)
                            == Ok::<(GameResult, int), ()>((res, count0)));
                    }
                    return Ok((res, self.turn_count));
                },
                TurnStep::Send(_) => {
                    proof {
                        let p2 = prompt_after(prompt0, dbatches[i as int]);
                        assert(opt_str(self.game_state.last_prompt) == p2);
                        assert(!policy_rejects_of(rp, p2, dbatches[i as int]));
                        assert(recorded_run(rp, dbatches, i as int, prompt0, count0, max)
                            == recorded_run(rp, dbatches, i + 1, p2, count0 + 1, max));
                    }
                },
                TurnStep::Fatal(e) => {
                    proof {
                        let p2 = prompt_after(prompt0, dbatches[i as int]);
                        assert(policy_rejects_of(rp, p2, dbatches[i as int]));
                        assert(recorded_run(rp, dbatches, i as int, prompt0, count0, max) is Err);
                    }
                    return Err(e);
                },
            }
            i = i + 1;
        }
        proof {
            assert(recorded_run(
                rp,
                dbatches,
                i as int,
                opt_str(self.game_state.last_prompt),
                self.turn_count as int,
                max,
            ) == (if self.turn_count as int >= max {
                Ok::<(GameResult, int), ()>((GameResult::MaxTurnsReached, self.turn_count as int))
            } else {
                Ok::<(GameResult, int), ()>((
                    GameResult::InterpreterStopped,
                    self.turn_count as int,
                ))
            }));
        }
        if self.turn_count >= self.max_turns {
            Ok((GameResult::MaxTurnsReached, self.turn_count))
        } else {
            Ok((GameResult::InterpreterStopped, self.turn_count))
        }
    }
}

/// The deterministic run of the orchestrator over a recorded transcript,
/// stepped exactly as `process_batch` steps: an empty batch waits, a
/// terminal batch ends the game with its scanned outcome, a rejected
/// prompt fails the run, and any other batch costs one send; the cap
/// outcome is reached exactly when the send count reaches the cap.
pub open spec fn recorded_run(
    random_policy: bool,
    batches: Seq<Seq<Seq<char>>>,
    i: int,
    prompt: Option<Seq<char>>,
    count: int,
    max: int,
) -> Result<(GameResult, int), ()>
    decreases batches.len() - i,
{
    if count >= max {
        Ok((GameResult::MaxTurnsReached, count))
    } else if i < 0 || i >= batches.len() {
        Ok((GameResult::InterpreterStopped, count))
    } else {
        let b = batches[i];
        if b.len() == 0 {
            recorded_run(random_policy, batches, i + 1, prompt, count, max)
        } else if is_game_over_spec(b) {
            Ok((game_result_spec(b), count))
        } else if policy_rejects_of(random_policy, prompt_after(prompt, b), b) {
            Err(())
        } else {
            recorded_run(random_policy, batches, i + 1, prompt_after(prompt, b), count + 1, max)
        }
    }
}

/// The turn cap, in general: a transcript whose batches are all nonempty,
/// never announce the end of the game and are never rejected by the
/// policy drives the run to the cap outcome, with exactly `max` sends,
/// as soon as it holds enough batches.
pub proof fn lemma_turn_cap_reached(
    random_policy: bool,
    batches: Seq<Seq<Seq<char>>>,
    i: int,
    prompt: Option<Seq<char>>,
    count: int,
    max: int,
)
    requires
        0 <= i,
        0 <= count <= max,
        batches.len() - i >= max - count,
        forall|j: int| i <= j < batches.len() ==> (#[trigger] batches[j]).len() > 0,
        forall|j: int| i <= j < batches.len() ==> !is_game_over_spec(#[trigger] batches[j]),
        forall|j: int, p: Option<Seq<char>>|
            i <= j < batches.len() ==> !#[trigger] policy_rejects_of(
                random_policy,
                prompt_after(p, batches[j]),
                batches[j],
            ),
    ensures
        recorded_run(random_policy, batches, i, prompt, count, max) == Ok::<
            (GameResult, int),
            (),
        >((GameResult::MaxTurnsReached, max)),
    decreases max - count,
{
    if count < max {
        assert(i < batches.len());
        assert(!policy_rejects_of(random_policy, prompt_after(prompt, batches[i]), batches[i]));
        lemma_turn_cap_reached(
            random_policy,
            batches,
            i + 1,
            prompt_after(prompt, batches[i]),
            count + 1,
            max,
        );
    }
}

/// The escalation step of a two-phase terminate.
pub enum TerminateAction {
    AlreadyExited,
    ForceKill,
}

/// After the cooperative quit message and the grace period, the child is
/// forcibly killed exactly when it has not exited by itself.
pub fn termination_action(exited_after_grace: bool) -> (r: TerminateAction)
    ensures
        (r is ForceKill) == !exited_after_grace,
{
    if exited_after_grace {
        TerminateAction::AlreadyExited
    } else {
        TerminateAction::ForceKill
    }
}

} // verus!
