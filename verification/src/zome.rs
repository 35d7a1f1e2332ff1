//! The callbacks that the conductor asks of every application.

use vstd::prelude::*;

verus! {

/// Accepts the start of the application: nothing has to be prepared.
pub fn init() -> (outcome: Result<(), String>)
    ensures
        outcome is Ok,
{
    Ok(())
}

/// Accepts every agent that asks to join, whatever its key.
pub fn validate_agent(agent_key: &String) -> (outcome: Result<(), String>)
    ensures
        outcome is Ok,
{
    Ok(())
}

} // verus!
