//! The commands the bot understands.
use vstd::prelude::*;

verus! {

/// A command sent to the bot.
#[derive(Clone, Copy, PartialEq, Eq, Structural, Debug)]
pub enum Command {
    /// Start registration.
    Start,
    /// Ask for help.
    Help,
}

} // verus!
