//! The bot: a client handle, the registry of its commands and the prefix
//! that marks a message as a command; and the context of one call.

use crate::dispatch::{spec_step, step, Action, DispatchState, Event};
use crate::registry::Registry;
use vstd::prelude::*;

verus! {

/// A bot. `C` is the handle of the chat platform's client and `H` the type
/// of the handlers; this library carries both and uses neither.
pub struct Bot<C, H> {
    pub client: C,
    pub commands: Registry<H>,
    pub command_prefix: String,
}

/// What a handler is given besides its arguments: the client, the
/// conversation in which the message came, and the caller. It is made for
/// one call and dropped after it.
pub struct CallingContext<'a, C, R, M> {
    pub client: &'a C,
    pub room: &'a R,
    pub caller: M,
}

impl<'a, C, R, M> CallingContext<'a, C, R, M> {
    /// Makes the context of one call.
    pub fn new(client: &'a C, room: &'a R, caller: M) -> (context: Self)
        ensures
            context.client == client,
            context.room == room,
            context.caller == caller,
    {
        CallingContext { client, room, caller }
    }
}

impl<C, H> Bot<C, H> {
    /// Makes a bot of a client handle, a command prefix and a finished
    /// registry.
    pub fn new(client: C, command_prefix: String, commands: Registry<H>) -> (bot: Self)
        ensures
            bot.client == client,
            bot.command_prefix == command_prefix,
            bot.commands == commands,
    {
        Bot { client, commands, command_prefix }
    }

    /// Takes the pipeline of one message one step on, for a bot that
    /// started at `started_at`.
    pub fn step(&self, started_at: u64, state: DispatchState, event: Event) -> (r: (
        DispatchState,
        Action,
    ))
        ensures
            (r.0@, r.1@) == spec_step(
                self.commands.names(),
                self.commands.levels(),
                self.command_prefix@,
                started_at,
                state@,
                event@,
            ),
    {
        step(&self.commands, self.command_prefix.as_str(), started_at, state, event)
    }
}

} // verus!
