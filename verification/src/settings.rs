//! Game settings, and the choices that a user makes by typing a line.

use vstd::prelude::*;
use crate::input::lowered;
use crate::text::{chars_of, parse_u32, parse_u32_spec, trim, trimmed};

verus! {

/// Who plays.
#[derive(Debug, Clone, Copy, PartialEq, Eq, Structural)]
pub enum GameMode {
    HumanVsHuman,
    HumanVsEngine,
    EngineVsEngine,
    Analysis,
}

/// How much time the players have, in milliseconds.
#[derive(Debug, Clone, Copy)]
pub enum TimeControl {
    Unlimited,
    FixedTime(u64),
    TimeAndIncrement { time: u64, increment: u64 },
    MovesInTime { moves: u32, time: u64 },
}

/// How strong the engine plays.
#[derive(Debug, Clone, Copy, PartialEq, Eq, Structural)]
pub enum EngineStrength {
    Beginner,
    Intermediate,
    Advanced,
    Expert,
    Master,
}

pub struct GameSettings {
    pub time_control: TimeControl,
    pub engine_strength: EngineStrength,
    pub show_hints: bool,
    pub auto_save: bool,
    pub sound_enabled: bool,
}

impl Default for GameSettings {
    /// Unlimited time, an intermediate engine, hints shown, nothing saved,
    /// no sound.
    fn default() -> (s: GameSettings)
        ensures
            s.time_control is Unlimited,
            s.engine_strength == EngineStrength::Intermediate,
            s.show_hints,
            !s.auto_save,
            !s.sound_enabled,
    {
        GameSettings {
            time_control: TimeControl::Unlimited,
            engine_strength: EngineStrength::Intermediate,
            show_hints: true,
            auto_save: false,
            sound_enabled: false,
        }
    }
}

/// The depth to which an engine of the given strength searches.
pub open spec fn depth_for(strength: EngineStrength) -> i32 {
    match strength {
        EngineStrength::Beginner => 3,
        EngineStrength::Intermediate => 5,
        EngineStrength::Advanced => 7,
        EngineStrength::Expert => 9,
        EngineStrength::Master => 12,
    }
}

impl GameSettings {
    pub fn get_search_depth(&self) -> (d: i32)
        ensures
            d == depth_for(self.engine_strength),
            3 <= d <= 12,
    {
        match self.engine_strength {
            EngineStrength::Beginner => 3,
            EngineStrength::Intermediate => 5,
            EngineStrength::Advanced => 7,
            EngineStrength::Expert => 9,
            EngineStrength::Master => 12,
        }
    }
}

/// Whether a line, without the white space around it, is the one
/// character `c`.
pub open spec fn chooses(line: Seq<char>, c: char) -> bool {
    trimmed(line) == seq![c]
}

fn line_is(v: &Vec<char>, c: char) -> (b: bool)
    ensures
        b == (v@ == seq![c]),
{
    let b = v.len() == 1 && v[0] == c;
    proof {
        if b {
            assert(v@ =~= seq![c]);
        } else if v@.len() == 1 {
            assert(seq![c][0] == c);
        } else {
            assert(seq![c].len() == 1);
        }
    }
    b
}

/// The time control that a typed choice stands for: `2` five seconds a
/// move, `3` five minutes and three seconds a move, `4` forty moves in
/// ninety minutes, anything else no limit.
pub fn time_control_for_choice(line: &str) -> (t: TimeControl)
    ensures
        t == (if chooses(line@, '2') {
            TimeControl::FixedTime(5000)
        } else if chooses(line@, '3') {
            TimeControl::TimeAndIncrement { time: 300000, increment: 3000 }
        } else if chooses(line@, '4') {
            TimeControl::MovesInTime { moves: 40, time: 5400000 }
        } else {
            TimeControl::Unlimited
        }),
{
    let v = trim(&chars_of(line));
    if line_is(&v, '2') {
        TimeControl::FixedTime(5000)
    } else if line_is(&v, '3') {
        TimeControl::TimeAndIncrement { time: 300000, increment: 3000 }
    } else if line_is(&v, '4') {
        TimeControl::MovesInTime { moves: 40, time: 5400000 }
    } else {
        TimeControl::Unlimited
    }
}

/// The engine strength that a typed choice stands for: `1` beginner, `3`
/// advanced, `4` expert, `5` master, anything else intermediate.
pub fn strength_for_choice(line: &str) -> (s: EngineStrength)
    ensures
        s == (if chooses(line@, '1') {
            EngineStrength::Beginner
        } else if chooses(line@, '3') {
            EngineStrength::Advanced
        } else if chooses(line@, '4') {
            EngineStrength::Expert
        } else if chooses(line@, '5') {
            EngineStrength::Master
        } else {
            EngineStrength::Intermediate
        }),
{
    let v = trim(&chars_of(line));
    if line_is(&v, '1') {
        EngineStrength::Beginner
    } else if line_is(&v, '3') {
        EngineStrength::Advanced
    } else if line_is(&v, '4') {
        EngineStrength::Expert
    } else if line_is(&v, '5') {
        EngineStrength::Master
    } else {
        EngineStrength::Intermediate
    }
}

/// The index of the option that a typed number selects among `count`
/// options numbered from one; none if the line is no such number.
pub open spec fn selected_option(line: Seq<char>, count: u32) -> Option<u32> {
    match parse_u32_spec(trimmed(line)) {
        Some(n) => if 1 <= n <= count {
            Some((n - 1) as u32)
        } else {
            None
        },
        None => None,
    }
}

/// The index of the option that a typed number selects.
pub fn select_option(line: &str, count: u32) -> (r: Option<u32>)
    ensures
        r == selected_option(line@, count),
{
    let v = trim(&chars_of(line));
    match parse_u32(&v) {
        Some(n) => if 1 <= n && n <= count {
            Some(n - 1)
        } else {
            None
        },
        None => None,
    }
}

/// Whether a typed line says yes: `y` or `yes`, in either case, with white
/// space around it.
pub open spec fn says_yes(line: Seq<char>) -> bool {
    let t = lowered(trimmed(line));
    t == seq!['y'] || t == seq!['y', 'e', 's']
}

/// Whether a typed line says yes.
pub fn is_yes(line: &str) -> (b: bool)
    ensures
        b == says_yes(line@),
{
    let v = trim(&chars_of(line));
    let ghost t = lowered(v@);
    let b = if v.len() == 1 {
        v[0] == 'y' || v[0] == 'Y'
    } else if v.len() == 3 {
        (v[0] == 'y' || v[0] == 'Y') && (v[1] == 'e' || v[1] == 'E') && (v[2] == 's' || v[2] == 'S')
    } else {
        false
    };
    proof {
        if v@.len() == 1 {
            assert(t =~= seq![crate::input::lower(v@[0])]);
            assert(seq!['y'][0] == 'y');
            assert(seq!['y', 'e', 's'].len() == 3);
            if b {
                assert(t =~= seq!['y']);
            }
        } else if v@.len() == 3 {
            assert(seq!['y'].len() == 1);
            assert(seq!['y', 'e', 's'][0] == 'y');
            assert(seq!['y', 'e', 's'][1] == 'e');
            assert(seq!['y', 'e', 's'][2] == 's');
            assert(t[0] == crate::input::lower(v@[0]));
            assert(t[1] == crate::input::lower(v@[1]));
            assert(t[2] == crate::input::lower(v@[2]));
            if b {
                assert(t =~= seq!['y', 'e', 's']);
            }
        } else {
            assert(seq!['y'].len() == 1);
            assert(seq!['y', 'e', 's'].len() == 3);
        }
    }
    b
}

} // verus!
