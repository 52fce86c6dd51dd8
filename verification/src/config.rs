//! Run configuration: tick pacing, bounded-vs-unbounded mode, and the
//! generation ceiling used when bounded.

use vstd::prelude::*;
use vstd::string::StringExecFns;

use crate::digits::{spec_digits, u64_string};

verus! {

/// The game's configuration, created once at startup and mutated only
/// through the explicit setters below.
pub struct GameConfig {
    /// Milliseconds between generations; cooperative pacing for a display.
    pub tick_rate: u32,
    /// When true the run has no generation ceiling.
    pub infinite_game: bool,
    /// The generation ceiling; read only when `infinite_game` is false.
    pub max_generations: u32,
    /// The default grid dimensions offered at startup.
    pub map_size: (u32, u32),
}

impl GameConfig {
    /// The default configuration.
    pub fn get_config() -> (c: GameConfig)
        ensures
            c.tick_rate == 75,
            c.infinite_game == true,
            c.max_generations == 9999,
            c.map_size == (10u32, 10u32),
    {
        GameConfig { tick_rate: 75, infinite_game: true, max_generations: 9999, map_size: (10, 10) }
    }
}

/// Accepts a new generation ceiling and describes it.
pub fn set_generations(generations: u32) -> (r: (u32, String))
    ensures
        r.0 == generations,
        r.1@ == "Generations = "@ + spec_digits(generations as int),
{
    let mut msg = String::from_str("Generations = ");
    let ds = u64_string(generations as u64);
    msg.append(ds.as_str());
    (generations, msg)
}

/// Accepts a new tick rate in milliseconds and describes it.
pub fn set_tick_rate(rate: u32) -> (r: (u32, String))
    ensures
        r.0 == rate,
        r.1@ == "Tick rate = "@ + spec_digits(rate as int) + " ms"@,
{
    let mut msg = String::from_str("Tick rate = ");
    let ds = u64_string(rate as u64);
    msg.append(ds.as_str());
    msg.append(" ms");
    (rate, msg)
}

/// Toggles the unbounded-run flag and describes the new state.
pub fn set_infinite_game(prev_state: &bool) -> (r: (bool, String))
    ensures
        r.0 == !*prev_state,
        r.0 ==> r.1@ == "Infinite game Enabled"@,
        !r.0 ==> r.1@ == "Infinite game Disabled"@,
{
    let new_state: bool = !*prev_state;

    let message: String = match new_state {
        true => String::from_str("Infinite game Enabled"),
        false => String::from_str("Infinite game Disabled"),
    };

    (new_state, message)
}

} // verus!
