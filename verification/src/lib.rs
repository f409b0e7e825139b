//! Message dispatch for a chat bot: decide whether a text message invokes a
//! registered command, pick the command, authorize the caller, parse the
//! arguments and turn failures into replies.
//!
//! The library decides and never waits: the network, the handlers and the
//! clock belong to whoever drives it.

pub mod args;
pub mod bot;
pub mod command;
pub mod dispatch;
pub mod registry;
pub mod reply;
pub mod resolve;
pub mod text;

pub use args::TryFromStr;
pub use bot::{Bot, CallingContext};
pub use command::{
    bot_command, parse_arg, Command, CommandArgHint, CommandError, Declaration, Parameter,
    RegistrationError,
};
pub use dispatch::{Action, DispatchState, Event};
pub use registry::Registry;
pub use reply::ReplyContent;
pub use resolve::MatchCandidate;
