//! The game state: a snapshot of observed facts, each field optional until
//! first observed. A batch of output lines updates it field by field; a
//! field is overwritten only when a line yields a new reading, and a
//! successful scan replaces its grid wholesale.

use vstd::prelude::*;
use crate::text::{contains_seq, chars_of, contains_lit};
use crate::scan::{field_step, field_fold};
use crate::detector::is_prompt_spec;
use crate::extract::{energy_of_line, shields_of_line, torpedoes_of_line, stardate_of_line,
    time_of_line, klingons_of_line, quadrant_of_line, sector_of_line, dmg_sys_line, lit_num_exec,
    extract_energy, extract_shields, extract_time, extract_klingons, extract_damage,
    lit_pair_exec};
use crate::parser::{short_range_spec, long_range_spec, parse_short_range_scan,
    parse_long_range_scan};

verus! {

/// The alert condition, when known.
#[derive(Clone, Copy, PartialEq, Eq, Structural, Debug)]
pub enum Condition {
    Red,
    Green,
    Yellow,
}

/// What one line says about the alert condition: the first of RED, GREEN,
/// YELLOW found beside the word CONDITION wins.
pub open spec fn condition_of_line(l: Seq<char>) -> Option<Condition> {
    if contains_seq(l, "CONDITION"@) && contains_seq(l, "RED"@) {
        Some(Condition::Red)
    } else if contains_seq(l, "CONDITION"@) && contains_seq(l, "GREEN"@) {
        Some(Condition::Green)
    } else if contains_seq(l, "CONDITION"@) && contains_seq(l, "YELLOW"@) {
        Some(Condition::Yellow)
    } else {
        None
    }
}

fn extract_condition(v: &Vec<char>) -> (r: Option<Condition>)
    ensures
        r == condition_of_line(v@),
{
    if !contains_lit(v, "CONDITION") {
        return None;
    }
    if contains_lit(v, "RED") {
        Some(Condition::Red)
    } else if contains_lit(v, "GREEN") {
        Some(Condition::Green)
    } else if contains_lit(v, "YELLOW") {
        Some(Condition::Yellow)
    } else {
        None
    }
}

/// The per-system damage table, keyed by system name; keys are unique.
pub struct DamageMap {
    pub entries: Vec<(String, i32)>,
}

impl DamageMap {
    /// No two entries name the same system.
    pub open spec fn wf(self) -> bool {
        forall|i: int, j: int|
            0 <= i < j < self.entries@.len() ==> (#[trigger] self.entries@[i]).0@ != (
            #[trigger] self.entries@[j]).0@
    }

    pub open spec fn contains_name(self, k: Seq<char>) -> bool {
        exists|i: int| 0 <= i < self.entries@.len() && (#[trigger] self.entries@[i]).0@ == k
    }

    pub open spec fn index_of(self, k: Seq<char>) -> int {
        choose|i: int| 0 <= i < self.entries@.len() && (#[trigger] self.entries@[i]).0@ == k
    }

    /// The table as a mathematical map from system name to damage value.
    pub open spec fn as_map(self) -> Map<Seq<char>, int> {
        Map::new(
            |k: Seq<char>| self.contains_name(k),
            |k: Seq<char>| self.entries@[self.index_of(k)].1 as int,
        )
    }

    /// Under uniqueness, any entry with key `k` gives the map's value.
    pub proof fn lemma_value_at(self, k: Seq<char>, i: int)
        requires
            self.wf(),
            0 <= i < self.entries@.len(),
            self.entries@[i].0@ == k,
        ensures
            self.as_map().contains_key(k),
            self.as_map()[k] == self.entries@[i].1 as int,
    {
        assert(self.contains_name(k));
        let j = self.index_of(k);
        if j != i {
            if j < i {
                assert(self.entries@[j].0@ != self.entries@[i].0@);
            } else {
                assert(self.entries@[i].0@ != self.entries@[j].0@);
            }
        }
    }

    pub fn new() -> (r: DamageMap)
        ensures
            r.wf(),
            r.as_map() == Map::<Seq<char>, int>::empty(),
    {
        let r = DamageMap { entries: Vec::new() };
        proof {
            assert(r.as_map() =~= Map::<Seq<char>, int>::empty());
        }
        r
    }

    /// The first entry naming `name`, if any.
    fn find(&self, name: &String) -> (r: Option<usize>)
        ensures
            match r {
                Some(i) => i < self.entries@.len() && self.entries@[i as int].0@ == name@,
                None => !self.contains_name(name@),
            },
{
        let n = self.entries.len();
        let mut i: usize = 0;
        while i < n
            invariant
                i <= n,
                n == self.entries@.len(),
                forall|j: int| 0 <= j < i ==> (#[trigger] self.entries@[j]).0@ != name@,
            decreases n - i,
        {
            let e = vstd::slice::slice_index_get(self.entries.as_slice(), i);
            if e.0.eq(name) {
                return Some(i);
            }
            i = i + 1;
        }
        None
    }

    /// Record a reading: a new name is added, a known one overwritten.
    pub fn set(&mut self, name: String, value: i32)
        requires
            old(self).wf(),
        ensures
            final(self).wf(),
            final(self).as_map() == old(self).as_map().insert(name@, value as int),
    {
        let ghost m0 = old(self).as_map();
        match self.find(&name) {
            Some(i) => {
                let ghost e0 = self.entries@;
                self.entries.remove(i);
                self.entries.insert(i, (name, value));
                proof {
                    assert(self.entries@ =~= e0.update(i as int, self.entries@[i as int]));
                    assert(self.entries@[i as int].0@ == e0[i as int].0@);
                    assert forall|a: int, b: int|
                        0 <= a < b < self.entries@.len() implies (#[trigger] self.entries@[a]).0@
                        != (#[trigger] self.entries@[b]).0@ by {
                        assert(self.entries@[a].0@ == e0[a].0@);
                        assert(self.entries@[b].0@ == e0[b].0@);
                        assert(e0[a].0@ != e0[b].0@);
                    }
                    assert(self.as_map() =~= m0.insert(name@, value as int)) by {
                        assert forall|k: Seq<char>| #[trigger]
                            self.contains_name(k) == (k == name@ || old(
                            self,
                        ).contains_name(k)) by {
                            if self.contains_name(k) {
                                let w = choose|w: int|
                                    0 <= w < self.entries@.len() && (#[trigger] self.entries@[w]).0@
                                        == k;
                                assert(e0[w].0@ == self.entries@[w].0@ || w == i as int);
                            }
                            if k == name@ {
                                assert(self.entries@[i as int].0@ == k);
                            }
                            if old(self).contains_name(k) && k != name@ {
                                let w = choose|w: int|
                                    0 <= w < e0.len() && (#[trigger] e0[w]).0@ == k;
                                assert(w != i as int);
                                assert(self.entries@[w].0@ == k);
                            }
                        }
                        assert forall|k: Seq<char>|
                            self.contains_name(k) implies #[trigger] self.as_map()[k] == m0.insert(
                            name@,
                            value as int,
                        )[k] by {
                            if k == name@ {
                                self.lemma_value_at(k, i as int);
                            } else {
                                let w = choose|w: int|
                                    0 <= w < e0.len() && (#[trigger] e0[w]).0@ == k;
                                assert(w != i as int);
                                assert(self.entries@[w].0@ == k);
                                self.lemma_value_at(k, w);
                                old(self).lemma_value_at(k, w);
                                assert(self.entries@[w].1 == e0[w].1);
                            }
                        }
                    }
                }
            },
            None => {
                let ghost e0 = self.entries@;
                self.entries.push((name, value));
                proof {
                    assert forall|a: int, b: int|
                        0 <= a < b < self.entries@.len() implies (#[trigger] self.entries@[a]).0@
                        != (#[trigger] self.entries@[b]).0@ by {
                        if b < e0.len() {
                            assert(e0[a].0@ != e0[b].0@);
                        } else {
                            assert(self.entries@[b].0@ == name@);
                            assert(self.entries@[a].0@ == e0[a].0@);
                            assert(!old(self).contains_name(name@));
                        }
                    }
                    assert(self.as_map() =~= m0.insert(name@, value as int)) by {
                        assert forall|k: Seq<char>| #[trigger]
                            self.contains_name(k) == (k == name@ || old(
                            self,
                        ).contains_name(k)) by {
                            if self.contains_name(k) {
                                let w = choose|w: int|
                                    0 <= w < self.entries@.len() && (#[trigger] self.entries@[w]).0@
                                        == k;
                                if w < e0.len() {
                                    assert(e0[w].0@ == k);
                                }
                            }
                            if k == name@ {
                                assert(self.entries@[e0.len() as int].0@ == k);
                            }
                            if old(self).contains_name(k) {
                                let w = choose|w: int|
                                    0 <= w < e0.len() && (#[trigger] e0[w]).0@ == k;
                                assert(self.entries@[w].0@ == k);
                            }
                        }
                        assert forall|k: Seq<char>|
                            self.contains_name(k) implies #[trigger] self.as_map()[k] == m0.insert(
                            name@,
                            value as int,
                        )[k] by {
                            if k == name@ {
                                self.lemma_value_at(k, e0.len() as int);
                            } else {
                                let w = choose|w: int|
                                    0 <= w < e0.len() && (#[trigger] e0[w]).0@ == k;
                                self.lemma_value_at(k, w);
                                old(self).lemma_value_at(k, w);
                            }
                        }
                    }
                }
            },
        }
    }

    /// Look a system up.
    pub fn get(&self, name: &str) -> (r: Option<i32>)
        requires
            self.wf(),
        ensures
            match r {
                Some(x) => self.as_map().contains_key(name@) && x as int == self.as_map()[name@],
                None => !self.as_map().contains_key(name@),
            },
    {
        let n = self.entries.len();
        let mut i: usize = 0;
        while i < n
            invariant
                i <= n,
                n == self.entries@.len(),
                self.wf(),
                forall|j: int| 0 <= j < i ==> (#[trigger] self.entries@[j]).0@ != name@,
            decreases n - i,
        {
            let e = vstd::slice::slice_index_get(self.entries.as_slice(), i);
            let ec = chars_of(e.0.as_str());
            if crate::text::eq_lit(&ec, name) {
                proof {
                    self.lemma_value_at(name@, i as int);
                }
                return Some(e.1);
            }
            i = i + 1;
        }
        assert(!self.contains_name(name@));
        None
    }
}

/// The damage table after a batch of lines has been applied in order.
pub open spec fn damage_fold(ls: Seq<Seq<char>>, init: Map<Seq<char>, int>) -> Map<Seq<char>, int>
    decreases ls.len(),
{
    if ls.len() == 0 {
        init
    } else {
        let m = damage_fold(ls.drop_last(), init);
        match dmg_sys_line(ls.last()) {
            Some(e) => m.insert(e.0, e.1),
            None => m,
        }
    }
}

/// Retention for the damage table: a batch without damage rows leaves it
/// exactly as it was.
pub proof fn lemma_damage_retention(ls: Seq<Seq<char>>, init: Map<Seq<char>, int>)
    requires
        forall|i: int| 0 <= i < ls.len() ==> dmg_sys_line(#[trigger] ls[i]) is None,
    ensures
        damage_fold(ls, init) == init,
    decreases ls.len(),
{
    if ls.len() > 0 {
        assert(dmg_sys_line(ls.last()) is None);
        lemma_damage_retention(ls.drop_last(), init);
    }
}

/// An optional machine integer as an optional mathematical one.
pub open spec fn opt_int(o: Option<i32>) -> Option<int> {
    match o {
        Some(x) => Some(x as int),
        None => None,
    }
}

/// An optional coordinate pair, likewise.
pub open spec fn opt_pair(o: Option<(i32, i32)>) -> Option<(int, int)> {
    match o {
        Some(x) => Some((x.0 as int, x.1 as int)),
        None => None,
    }
}

/// An optional string as its character sequence.
pub open spec fn opt_str(o: Option<String>) -> Option<Seq<char>> {
    match o {
        Some(s) => Some(s@),
        None => None,
    }
}

/// An optional grid as its nested character sequences.
pub open spec fn opt_grid(o: Option<Vec<Vec<String>>>) -> Option<Seq<Seq<Seq<char>>>> {
    match o {
        Some(g) => Some(g.deep_view()),
        None => None,
    }
}

/// The prompt on record after one batch: a trailing prompt line replaces
/// it, anything else leaves it.
pub open spec fn prompt_after(prev: Option<Seq<char>>, ls: Seq<Seq<char>>) -> Option<Seq<char>> {
    if ls.len() > 0 && is_prompt_spec(ls.last()) {
        Some(ls.last())
    } else {
        prev
    }
}

/// A snapshot of observed game facts.
pub struct GameState {
    pub current_quadrant: Option<(i32, i32)>,
    pub current_sector: Option<(i32, i32)>,
    pub energy: Option<i32>,
    pub shields: Option<i32>,
    pub torpedoes: Option<i32>,
    pub klingons_remaining: Option<i32>,
    pub time_remaining: Option<i32>,
    pub starbases: Option<i32>,
    pub stardate: Option<i32>,
    pub last_prompt: Option<String>,
    pub last_output: Vec<String>,
    pub condition: Option<Condition>,
    pub damage_report: DamageMap,
    pub galaxy_map: Option<Vec<Vec<String>>>,
    pub sector_map: Option<Vec<Vec<String>>>,
}

impl GameState {
    /// The state's invariant: the damage table's keys are unique.
    pub open spec fn wf(self) -> bool {
        self.damage_report.wf()
    }

    /// Nothing observed yet: every field still unknown, nothing recorded.
    pub open spec fn is_fresh(self) -> bool {
        &&& self.current_quadrant is None
        &&& self.current_sector is None
        &&& self.energy is None
        &&& self.shields is None
        &&& self.torpedoes is None
        &&& self.klingons_remaining is None
        &&& self.time_remaining is None
        &&& self.starbases is None
        &&& self.stardate is None
        &&& self.last_prompt is None
        &&& self.last_output@.len() == 0
        &&& self.condition is None
        &&& self.damage_report.as_map() == Map::<Seq<char>, int>::empty()
        &&& self.galaxy_map is None
        &&& self.sector_map is None
    }

    /// A fresh snapshot.
    pub fn new() -> (r: GameState)
        ensures
            r.wf(),
            r.is_fresh(),
    {
        GameState {
            current_quadrant: None,
            current_sector: None,
            energy: None,
            shields: None,
            torpedoes: None,
            klingons_remaining: None,
            time_remaining: None,
            starbases: None,
            stardate: None,
            last_prompt: None,
            last_output: Vec::new(),
            condition: None,
            damage_report: DamageMap::new(),
            galaxy_map: None,
            sector_map: None,
        }
    }

    /// Apply one batch of output: record it, note a trailing prompt, read
    /// every field from every line in order, and replace a grid wholesale
    /// when its scan succeeds. A field with no reading in the batch keeps
    /// its value.
    #[verifier::rlimit(80)]
    pub fn update(&mut self, output: &[String])
        requires
            old(self).wf(),
        ensures
            final(self).wf(),
            updated_by(*old(self), output.deep_view(), *final(self)),
    {
        let ghost ls = output.deep_view();
        let n = output.len();
        let mut lo: Vec<String> = Vec::new();
        let mut i: usize = 0;
        while i < n
            invariant
                i <= n,
                n == ls.len(),
                ls == output.deep_view(),
                lo.deep_view() =~= ls.subrange(0, i as int),
            decreases n - i,
        {
            let ghost lo0 = lo.deep_view();
            let line = vstd::slice::slice_index_get(output, i);
            lo.push(line.clone());
            proof {
                assert(lo.deep_view() =~= lo0.push(ls[i as int]));
                assert(lo.deep_view() =~= ls.subrange(0, i + 1));
            }
            i = i + 1;
        }
        proof {
            assert(lo.deep_view() =~= ls);
        }
        self.last_output = lo;
        if n > 0 {
            let last = vstd::slice::slice_index_get(output, n - 1);
            if crate::detector::is_game_prompt(last.as_str()) {
                self.last_prompt = Some(last.clone());
            }
        }
        let ghost c0 = *self;
        let mut i: usize = 0;
        while i < n
            invariant
                i <= n,
                n == ls.len(),
                ls == output.deep_view(),
                self.wf(),
                opt_int(self.energy) == field_fold(
                    ls.subrange(0, i as int),
                    opt_int(c0.energy),
                    |l: Seq<char>| energy_of_line(l),
                ),
                opt_int(self.shields) == field_fold(
                    ls.subrange(0, i as int),
                    opt_int(c0.shields),
                    |l: Seq<char>| shields_of_line(l),
                ),
                opt_int(self.torpedoes) == field_fold(
                    ls.subrange(0, i as int),
                    opt_int(c0.torpedoes),
                    |l: Seq<char>| torpedoes_of_line(l),
                ),
                opt_int(self.klingons_remaining) == field_fold(
                    ls.subrange(0, i as int),
                    opt_int(c0.klingons_remaining),
                    |l: Seq<char>| klingons_of_line(l),
                ),
                opt_int(self.time_remaining) == field_fold(
                    ls.subrange(0, i as int),
                    opt_int(c0.time_remaining),
                    |l: Seq<char>| time_of_line(l),
                ),
                opt_int(self.stardate) == field_fold(
                    ls.subrange(0, i as int),
                    opt_int(c0.stardate),
                    |l: Seq<char>| stardate_of_line(l),
                ),
                opt_pair(self.current_quadrant) == field_fold(
                    ls.subrange(0, i as int),
                    opt_pair(c0.current_quadrant),
                    |l: Seq<char>| quadrant_of_line(l),
                ),
                opt_pair(self.current_sector) == field_fold(
                    ls.subrange(0, i as int),
                    opt_pair(c0.current_sector),
                    |l: Seq<char>| sector_of_line(l),
                ),
                self.condition == field_fold(
                    ls.subrange(0, i as int),
                    c0.condition,
                    |l: Seq<char>| condition_of_line(l),
                ),
                self.damage_report.as_map() == damage_fold(
                    ls.subrange(0, i as int),
                    c0.damage_report.as_map(),
                ),
                self.last_output == c0.last_output,
                self.last_prompt == c0.last_prompt,
                self.galaxy_map == c0.galaxy_map,
                self.sector_map == c0.sector_map,
                self.starbases == c0.starbases,
            decreases n - i,
        {
            let line = vstd::slice::slice_index_get(output, i);
            let v = chars_of(line.as_str());
            proof {
                assert(v@ == ls[i as int]);
            }
            let ghost pre = ls.subrange(0, i as int);
            match extract_energy(&v, line.as_str()) {
                Some(x) => {
                    self.energy = Some(x);
                },
                None => {},
            }
            match extract_shields(&v) {
                Some(x) => {
                    self.shields = Some(x);
                },
                None => {},
            }
            let torp_lit = chars_of("TORPEDOES");
            match lit_num_exec(&v, &torp_lit) {
                Some(x) => {
                    self.torpedoes = Some(x);
                },
                None => {},
            }
            match extract_klingons(&v) {
                Some(x) => {
                    self.klingons_remaining = Some(x);
                },
                None => {},
            }
            match extract_time(&v) {
                Some(x) => {
                    self.time_remaining = Some(x);
                },
                None => {},
            }
            match extract_condition(&v) {
                Some(c) => {
                    self.condition = Some(c);
                },
                None => {},
            }
            let quad_lit = chars_of("QUADRANT");
            match lit_pair_exec(&v, &quad_lit) {
                Some(x) => {
                    self.current_quadrant = Some(x);
                },
                None => {},
            }
            let sect_lit = chars_of("SECTOR");
            match lit_pair_exec(&v, &sect_lit) {
                Some(x) => {
                    self.current_sector = Some(x);
                },
                None => {},
            }
            let sd_lit = chars_of("STARDATE");
            match lit_num_exec(&v, &sd_lit) {
                Some(x) => {
                    self.stardate = Some(x);
                },
                None => {},
            }
            match extract_damage(&v) {
                Some(e) => {
                    self.damage_report.set(e.0, e.1);
                },
                None => {},
            }
            proof {
                assert(ls.subrange(0, i + 1).drop_last() =~= pre);
                assert(ls.subrange(0, i + 1).last() == ls[i as int]);
            }
            i = i + 1;
        }
        proof {
            assert(ls.subrange(0, n as int) =~= ls);
        }
        match parse_short_range_scan(output) {
            Some(g) => {
                self.sector_map = Some(g);
            },
            None => {},
        }
        match parse_long_range_scan(output) {
            Some(g) => {
                self.galaxy_map = Some(g);
            },
            None => {},
        }
    }

    /// The most recent prompt, if one was seen.
    pub fn get_current_prompt(&self) -> (r: Option<&String>)
        ensures
            match r {
                Some(p) => self.last_prompt matches Some(q) && p@ == q@,
                None => self.last_prompt is None,
            },
    {
        match &self.last_prompt {
            Some(p) => Some(p),
            None => None,
        }
    }

    /// Whether the ship stands in combat: the alert condition is RED.
    pub fn is_in_combat(&self) -> (r: bool)
        ensures
            r == (self.condition == Some(Condition::Red)),
    {
        match self.condition {
            Some(Condition::Red) => true,
            _ => false,
        }
    }

    /// Whether the shields are dangerously low: known and under 200.
    pub fn are_shields_low(&self) -> (r: bool)
        ensures
            r == match self.shields {
                Some(s) => s < 200,
                None => false,
            },
    {
        match self.shields {
            Some(s) => s < 200,
            None => false,
        }
    }

    /// Whether a system was reported damaged: a negative value is on
    /// record for it.
    pub fn is_system_damaged(&self, system: &str) -> (r: bool)
        requires
            self.wf(),
        ensures
            r == (self.damage_report.as_map().contains_key(system@)
                && self.damage_report.as_map()[system@] < 0),
    {
        match self.damage_report.get(system) {
            Some(x) => x < 0,
            None => false,
        }
    }
}

/// How one batch of lines carries an old snapshot to a new one: each
/// field is the fold of its extractor over the lines, the batch itself is
/// recorded, a trailing prompt replaces the one on record, and a
/// successful scan replaces its grid wholesale.
pub open spec fn updated_by(pre: GameState, ls: Seq<Seq<char>>, post: GameState) -> bool {
    &&& opt_int(post.energy) == field_fold(ls, opt_int(pre.energy), |l: Seq<char>| energy_of_line(l))
    &&& opt_int(post.shields) == field_fold(
        ls,
        opt_int(pre.shields),
        |l: Seq<char>| shields_of_line(l),
    )
    &&& opt_int(post.torpedoes) == field_fold(
        ls,
        opt_int(pre.torpedoes),
        |l: Seq<char>| torpedoes_of_line(l),
    )
    &&& opt_int(post.klingons_remaining) == field_fold(
        ls,
        opt_int(pre.klingons_remaining),
        |l: Seq<char>| klingons_of_line(l),
    )
    &&& opt_int(post.time_remaining) == field_fold(
        ls,
        opt_int(pre.time_remaining),
        |l: Seq<char>| time_of_line(l),
    )
    &&& opt_int(post.stardate) == field_fold(
        ls,
        opt_int(pre.stardate),
        |l: Seq<char>| stardate_of_line(l),
    )
    &&& opt_pair(post.current_quadrant) == field_fold(
        ls,
        opt_pair(pre.current_quadrant),
        |l: Seq<char>| quadrant_of_line(l),
    )
    &&& opt_pair(post.current_sector) == field_fold(
        ls,
        opt_pair(pre.current_sector),
        |l: Seq<char>| sector_of_line(l),
    )
    &&& post.condition == field_fold(ls, pre.condition, |l: Seq<char>| condition_of_line(l))
    &&& post.damage_report.as_map() == damage_fold(ls, pre.damage_report.as_map())
    &&& post.last_output.deep_view() == ls
    &&& opt_str(post.last_prompt) == prompt_after(opt_str(pre.last_prompt), ls)
    &&& opt_grid(post.sector_map) == field_step(opt_grid(pre.sector_map), short_range_spec(ls))
    &&& opt_grid(post.galaxy_map) == field_step(opt_grid(pre.galaxy_map), long_range_spec(ls))
    &&& post.starbases == pre.starbases
}

/// Replacement: a successful scan installs its grid whole; after two
/// successful scans of the same kind nothing of the first remains.
pub proof fn lemma_grid_replacement(
    init: Option<Seq<Seq<Seq<char>>>>,
    b1: Seq<Seq<char>>,
    b2: Seq<Seq<char>>,
)
    requires
        short_range_spec(b1) is Some,
        short_range_spec(b2) is Some,
    ensures
        field_step(field_step(init, short_range_spec(b1)), short_range_spec(b2))
            == short_range_spec(b2),
{
}

} // verus!
