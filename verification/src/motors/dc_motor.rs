//! The words that a DC motor's attributes take, and what its state says.

use vstd::prelude::*;
use vstd::string::*;
use crate::error::texts;
use crate::text::list_holds;

verus! {

pub const RUN_FOREVER: &'static str = "run-forever";

pub const RUN_TIMED: &'static str = "run-timed";

pub const RUN_DIRECT: &'static str = "run-direct";

pub const STOP: &'static str = "stop";

pub const POLARITY_NORMAL: &'static str = "normal";

pub const POLARITY: &'static str = "reversed";

pub const STATE_RUNNING: &'static str = "running";

pub const STATE_RAMPING: &'static str = "ramping";

pub const STOP_ACTION_COAST: &'static str = "coast";

pub const STOP_ACTION_BRAKE: &'static str = "brake";

/// Whether the motor runs: whether `running` is among the words of its `state`.
pub fn is_running(states: &Vec<String>) -> (running: bool)
    ensures
        running == texts(states@).contains(STATE_RUNNING@),
{
    let wanted = String::from_str(STATE_RUNNING);
    list_holds(states, &wanted)
}

/// Whether the motor ramps up or down: whether `ramping` is among the words
/// of its `state`.
pub fn is_ramping(states: &Vec<String>) -> (ramping: bool)
    ensures
        ramping == texts(states@).contains(STATE_RAMPING@),
{
    let wanted = String::from_str(STATE_RAMPING);
    list_holds(states, &wanted)
}

} // verus!
