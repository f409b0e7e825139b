//! The dispatch pipeline: what becomes of one message, from its arrival to
//! the reply, as a state machine. The machine decides; whoever drives it
//! does the outside work that an action names and hands back the event that
//! came of it.

use crate::command::{CommandError, CommandErrorView};
use crate::registry::Registry;
use crate::resolve::{remainder, spec_remainder, spec_resolve};
use crate::reply::{
    compose, internal_error_text, operator_note, parse_error_text, refusal_text, spec_compose,
    spec_internal_error_text, spec_operator_note, spec_parse_error_text, spec_refusal_text,
    ReplyContent, ReplyView,
};
use crate::text::{spec_split_words, strip_prefix};
use vstd::prelude::*;

verus! {

/// Where the pipeline stands with a message.
#[derive(Debug, Clone, PartialEq, Eq)]
pub enum DispatchState {
    /// No message is at hand.
    Idle,
    /// A message has come in time and with the prefix; `candidate` is what
    /// follows the prefix.
    Resolving { candidate: String },
    /// A command matched; the caller's level is being looked up.
    Authorizing { command_index: usize, arguments: String },
    /// The caller may run the command; its handler is at work.
    Invoking { command_index: usize, arguments: String },
    /// A reply is being sent.
    Replying,
}

/// A `DispatchState` with its texts as characters.
pub enum StateView {
    Idle,
    Resolving { candidate: Seq<char> },
    Authorizing { command_index: int, arguments: Seq<char> },
    Invoking { command_index: int, arguments: Seq<char> },
    Replying,
}

impl View for DispatchState {
    type V = StateView;

    open spec fn view(&self) -> StateView {
        match self {
            DispatchState::Idle => StateView::Idle,
            DispatchState::Resolving { candidate } => StateView::Resolving {
                candidate: candidate@,
            },
            DispatchState::Authorizing { command_index, arguments } => StateView::Authorizing {
                command_index: *command_index as int,
                arguments: arguments@,
            },
            DispatchState::Invoking { command_index, arguments } => StateView::Invoking {
                command_index: *command_index as int,
                arguments: arguments@,
            },
            DispatchState::Replying => StateView::Replying,
        }
    }
}

/// What happened outside the pipeline.
#[derive(Debug, PartialEq, Eq)]
pub enum Event {
    /// A message arrived; `sent_at` and the bot's start are in the same
    /// unit, counted from the same instant.
    Message { body: String, sent_at: u64 },
    /// The caller's level was found.
    CallerLevel(i64),
    /// The caller could not be resolved.
    CallerUnknown,
    /// The handler returned.
    HandlerReturned(Result<(), CommandError>),
    /// The reply was handed to the channel, which delivered it or not.
    Replied { delivered: bool },
}

/// An `Event` with its texts as characters.
pub enum EventView {
    Message { body: Seq<char>, sent_at: u64 },
    CallerLevel(i64),
    CallerUnknown,
    HandlerReturned(Result<(), CommandErrorView>),
    Replied { delivered: bool },
}

impl View for Event {
    type V = EventView;

    open spec fn view(&self) -> EventView {
        match self {
            Event::Message { body, sent_at } => EventView::Message { body: body@, sent_at: *sent_at },
            Event::CallerLevel(level) => EventView::CallerLevel(*level),
            Event::CallerUnknown => EventView::CallerUnknown,
            Event::HandlerReturned(outcome) => EventView::HandlerReturned(
                match outcome {
                    Ok(_) => Ok(()),
                    Err(error) => Err(error@),
                },
            ),
            Event::Replied { delivered } => EventView::Replied { delivered: *delivered },
        }
    }
}

/// What the driver is to do next.
#[derive(Debug, Clone, PartialEq, Eq)]
pub enum Action {
    /// Nothing: the pipeline is done with the message.
    Finish,
    /// Ask the reply channel for the caller's level.
    LookupCaller,
    /// Call the handler of the command at `command_index` with `arguments`.
    Invoke { command_index: usize, arguments: String },
    /// Send `content` to the conversation. Where `operator_note` is given,
    /// record it for the operator first; it is not for the caller.
    Reply { content: ReplyContent, operator_note: Option<String> },
}

/// An `Action` with its texts as characters.
pub enum ActionView {
    Finish,
    LookupCaller,
    Invoke { command_index: int, arguments: Seq<char> },
    Reply { content: ReplyView, operator_note: Option<Seq<char>> },
}

impl View for Action {
    type V = ActionView;

    open spec fn view(&self) -> ActionView {
        match self {
            Action::Finish => ActionView::Finish,
            Action::LookupCaller => ActionView::LookupCaller,
            Action::Invoke { command_index, arguments } => ActionView::Invoke {
                command_index: *command_index as int,
                arguments: arguments@,
            },
            Action::Reply { content, operator_note } => ActionView::Reply {
                content: content@,
                operator_note: match operator_note {
                    Some(note) => Some(note@),
                    None => None,
                },
            },
        }
    }
}

/// Tells whether a caller of `level` may run a command that requires
/// `required`: the level is not below what is required.
pub fn authorized(level: i64, required: usize) -> (allowed: bool)
    ensures
        allowed == (level >= required),
{
    level >= 0 && level as u64 >= required as u64
}

/// The first millisecond that is not before the instant `secs` seconds and
/// `subsec_nanos` nanoseconds.
pub open spec fn spec_startup_millis(secs: nat, subsec_nanos: nat) -> nat {
    ((secs * 1_000_000_000 + subsec_nanos + 999_999) / 1_000_000) as nat
}

/// Turns the instant at which the bot started, `secs` seconds and
/// `subsec_nanos` nanoseconds, into the millisecond count that the time of a
/// message is held against: the first millisecond that is not before the
/// instant, or the largest count that there is where that one does not fit.
pub fn startup_millis(secs: u64, subsec_nanos: u32) -> (millis: u64)
    ensures
        spec_startup_millis(secs as nat, subsec_nanos as nat) <= u64::MAX ==> millis
            == spec_startup_millis(secs as nat, subsec_nanos as nat),
        spec_startup_millis(secs as nat, subsec_nanos as nat) > u64::MAX ==> millis == u64::MAX,
{
    let nanos: u128 = secs as u128 * 1_000_000_000 + subsec_nanos as u128;
    let millis: u128 = (nanos + 999_999) / 1_000_000;
    if millis > u64::MAX as u128 {
        u64::MAX
    } else {
        millis as u64
    }
}

/// A message, whose time is a count of milliseconds, was sent before the
/// bot started exactly if its count is below `spec_startup_millis` of the
/// start.
pub proof fn law_startup_millis(secs: nat, subsec_nanos: nat, sent_at: nat)
    ensures
        sent_at < spec_startup_millis(secs, subsec_nanos) <==> sent_at * 1_000_000 < secs
            * 1_000_000_000 + subsec_nanos,
{
    let nanos = secs * 1_000_000_000 + subsec_nanos;
    let millis = spec_startup_millis(secs, subsec_nanos);
    assert(millis * 1_000_000 >= nanos && (millis - 1) * 1_000_000 < nanos) by (nonlinear_arith)
        requires
            millis == (nanos + 999_999) / 1_000_000,
            nanos >= 0,
    ;
    assert(sent_at < millis <==> sent_at * 1_000_000 < nanos) by (nonlinear_arith)
        requires
            millis * 1_000_000 >= nanos,
            (millis - 1) * 1_000_000 < nanos,
    ;
}

/// The state after a message has arrived: `Idle` again where the message
/// was sent before the bot started or does not begin with `prefix`, else
/// `Resolving` with what follows the prefix.
pub open spec fn spec_receive(
    prefix: Seq<char>,
    started_at: u64,
    body: Seq<char>,
    sent_at: u64,
) -> StateView {
    if sent_at < started_at || !prefix.is_prefix_of(body) {
        StateView::Idle
    } else {
        StateView::Resolving { candidate: body.skip(prefix.len() as int) }
    }
}

/// The state and action after resolution: `Idle` where no command matches
/// `candidate`, else `Authorizing` for the command that matches, with the
/// text that the matched name leaves, and the request for the caller's
/// level.
pub open spec fn spec_resolved(table: Seq<Seq<Seq<char>>>, candidate: Seq<char>) -> (
    StateView,
    ActionView,
) {
    match spec_resolve(table, candidate) {
        None => (StateView::Idle, ActionView::Finish),
        Some(found) => (
            StateView::Authorizing {
                command_index: found.command_index,
                arguments: spec_remainder(candidate, spec_split_words(found.alias).len()),
            },
            ActionView::LookupCaller,
        ),
    }
}

/// The state and action once the caller's level is known, or known to be
/// unknown: `Idle` without a reply for an unknown caller; the refusal for a
/// caller below the command's level; else the call of the handler.
pub open spec fn spec_authorized(
    levels: Seq<nat>,
    command_index: int,
    arguments: Seq<char>,
    level: Option<i64>,
) -> (StateView, ActionView) {
    if 0 <= command_index < levels.len() && level is Some {
        if level->0 < levels[command_index] {
            (
                StateView::Replying,
                ActionView::Reply {
                    content: spec_compose(spec_refusal_text(levels[command_index])),
                    operator_note: None,
                },
            )
        } else {
            (
                StateView::Invoking { command_index, arguments },
                ActionView::Invoke { command_index, arguments },
            )
        }
    } else {
        (StateView::Idle, ActionView::Finish)
    }
}

/// The state and action once the handler has returned: no reply after a
/// success; the parser's detail after an `ArgParseError`; after an
/// `InternalError` the same reply whatever the detail, and the detail in a
/// note for the operator.
pub open spec fn spec_concluded(
    table: Seq<Seq<Seq<char>>>,
    command_index: int,
    arguments: Seq<char>,
    outcome: Result<(), CommandErrorView>,
) -> (StateView, ActionView) {
    if 0 <= command_index < table.len() && table[command_index].len() > 0 {
        match outcome {
            Ok(_) => (StateView::Idle, ActionView::Finish),
            Err(CommandErrorView::ArgParseError(detail)) => (
                StateView::Replying,
                ActionView::Reply {
                    content: spec_compose(spec_parse_error_text(detail)),
                    operator_note: None,
                },
            ),
            Err(CommandErrorView::InternalError(detail)) => (
                StateView::Replying,
                ActionView::Reply {
                    content: spec_compose(spec_internal_error_text()),
                    operator_note: Some(
                        spec_operator_note(detail, table[command_index][0], arguments),
                    ),
                },
            ),
        }
    } else {
        (StateView::Idle, ActionView::Finish)
    }
}

/// The pipeline's transition function. `table` holds the names of the
/// commands and `levels` the levels that they require.
///
/// A message starts the pipeline from `Idle`, and resolution follows at
/// once. `Resolving` waits for nothing, so that any event resolves.
/// `Authorizing` waits for the caller's level, `Invoking` for the handler,
/// `Replying` for the reply to be handed over, delivered or not. Any other
/// pair of state and event ends the pipeline.
pub open spec fn spec_step(
    table: Seq<Seq<Seq<char>>>,
    levels: Seq<nat>,
    prefix: Seq<char>,
    started_at: u64,
    state: StateView,
    event: EventView,
) -> (StateView, ActionView) {
    match state {
        StateView::Idle => match event {
            EventView::Message { body, sent_at } => match spec_receive(
                prefix,
                started_at,
                body,
                sent_at,
            ) {
                StateView::Resolving { candidate } => spec_resolved(table, candidate),
                _ => (StateView::Idle, ActionView::Finish),
            },
            _ => (StateView::Idle, ActionView::Finish),
        },
        StateView::Resolving { candidate } => spec_resolved(table, candidate),
        StateView::Authorizing { command_index, arguments } => match event {
            EventView::CallerLevel(level) => spec_authorized(
                levels,
                command_index,
                arguments,
                Some(level),
            ),
            EventView::CallerUnknown => spec_authorized(levels, command_index, arguments, None),
            _ => (StateView::Idle, ActionView::Finish),
        },
        StateView::Invoking { command_index, arguments } => match event {
            EventView::HandlerReturned(outcome) => spec_concluded(
                table,
                command_index,
                arguments,
                outcome,
            ),
            _ => (StateView::Idle, ActionView::Finish),
        },
        StateView::Replying => (StateView::Idle, ActionView::Finish),
    }
}

/// Takes in a message: drops it if it was sent before the bot started or
/// does not begin with `prefix`, else hands what follows the prefix on to
/// resolution.
pub fn receive(prefix: &str, started_at: u64, body: &str, sent_at: u64) -> (state: DispatchState)
    ensures
        state@ == spec_receive(prefix@, started_at, body@, sent_at),
{
    if sent_at < started_at {
        return DispatchState::Idle;
    }
    match strip_prefix(body, prefix) {
        Some(candidate) => DispatchState::Resolving { candidate: candidate.to_owned() },
        None => DispatchState::Idle,
    }
}

/// Resolves `candidate`: finds the command that it invokes and the text
/// that is left for the arguments.
pub fn resolved<H>(registry: &Registry<H>, candidate: &str) -> (r: (DispatchState, Action))
    ensures
        (r.0@, r.1@) == spec_resolved(registry.names(), candidate@),
{
    match registry.resolve(candidate) {
        None => (DispatchState::Idle, Action::Finish),
        Some(found) => {
            let arguments = remainder(candidate, found.alias.as_str()).to_owned();
            (
                DispatchState::Authorizing { command_index: found.command_index, arguments },
                Action::LookupCaller,
            )
        },
    }
}

/// Decides on the caller: `level` is the caller's level, or nothing where
/// the caller could not be resolved.
pub fn authorize<H>(
    registry: &Registry<H>,
    command_index: usize,
    arguments: String,
    level: Option<i64>,
) -> (r: (DispatchState, Action))
    ensures
        (r.0@, r.1@) == spec_authorized(registry.levels(), command_index as int, arguments@, level),
{
    let command = match registry.get(command_index) {
        Some(command) => command,
        None => {
            return (DispatchState::Idle, Action::Finish);
        },
    };
    match level {
        None => (DispatchState::Idle, Action::Finish),
        Some(level) => {
            if authorized(level, command.power_level_required) {
                let handed = arguments.clone();
                (
                    DispatchState::Invoking { command_index, arguments },
                    Action::Invoke { command_index, arguments: handed },
                )
            } else {
                (
                    DispatchState::Replying,
                    Action::Reply {
                        content: compose(refusal_text(command.power_level_required)),
                        operator_note: None,
                    },
                )
            }
        },
    }
}

/// Decides on the handler's outcome.
pub fn conclude<H>(
    registry: &Registry<H>,
    command_index: usize,
    arguments: &str,
    outcome: Result<(), CommandError>,
) -> (r: (DispatchState, Action))
    ensures
        (r.0@, r.1@) == spec_concluded(
            registry.names(),
            command_index as int,
            arguments@,
            match outcome {
                Ok(_) => Ok(()),
                Err(error) => Err(error@),
            },
        ),
{
    let command = match registry.get(command_index) {
        Some(command) => command,
        None => {
            return (DispatchState::Idle, Action::Finish);
        },
    };
    assert(registry.names()[command_index as int] == command.names());
    match outcome {
        Ok(_) => (DispatchState::Idle, Action::Finish),
        Err(CommandError::ArgParseError(detail)) => (
            DispatchState::Replying,
            Action::Reply {
                content: compose(parse_error_text(detail.as_str())),
                operator_note: None,
            },
        ),
        Err(CommandError::InternalError(detail)) => (
            DispatchState::Replying,
            Action::Reply {
                content: compose(internal_error_text()),
                operator_note: Some(
                    operator_note(detail.as_str(), command.name.as_str(), arguments),
                ),
            },
        ),
    }
}

/// Takes the pipeline one step on: from `state`, on `event`, to the next
/// state and the action that the driver owes.
pub fn step<H>(
    registry: &Registry<H>,
    prefix: &str,
    started_at: u64,
    state: DispatchState,
    event: Event,
) -> (r: (DispatchState, Action))
    ensures
        (r.0@, r.1@) == spec_step(
            registry.names(),
            registry.levels(),
            prefix@,
            started_at,
            state@,
            event@,
        ),
{
    match state {
        DispatchState::Idle => match event {
            Event::Message { body, sent_at } => match receive(
                prefix,
                started_at,
                body.as_str(),
                sent_at,
            ) {
                DispatchState::Resolving { candidate } => resolved(registry, candidate.as_str()),
                _ => (DispatchState::Idle, Action::Finish),
            },
            _ => (DispatchState::Idle, Action::Finish),
        },
        DispatchState::Resolving { candidate } => resolved(registry, candidate.as_str()),
        DispatchState::Authorizing { command_index, arguments } => match event {
            Event::CallerLevel(level) => authorize(registry, command_index, arguments, Some(level)),
            Event::CallerUnknown => authorize(registry, command_index, arguments, None),
            _ => (DispatchState::Idle, Action::Finish),
        },
        DispatchState::Invoking { command_index, arguments } => match event {
            Event::HandlerReturned(outcome) => conclude(
                registry,
                command_index,
                arguments.as_str(),
                outcome,
            ),
            _ => (DispatchState::Idle, Action::Finish),
        },
        DispatchState::Replying => (DispatchState::Idle, Action::Finish),
    }
}

/// Whether `needle` stands somewhere in `text`, character for character.
pub open spec fn occurs_in(needle: Seq<char>, text: Seq<char>) -> bool {
    exists|at: int|
        0 <= at && at + needle.len() <= text.len() && #[trigger] text.subrange(
            at,
            at + needle.len(),
        ) == needle
}

/// A message that was sent before the bot started is dropped, whatever it
/// holds: nothing is resolved, nobody is asked and nothing is replied.
pub proof fn law_early_message_is_dropped(
    table: Seq<Seq<Seq<char>>>,
    levels: Seq<nat>,
    prefix: Seq<char>,
    started_at: u64,
    body: Seq<char>,
    sent_at: u64,
)
    requires
        sent_at < started_at,
    ensures
        spec_receive(prefix, started_at, body, sent_at) == StateView::Idle,
        spec_step(
            table,
            levels,
            prefix,
            started_at,
            StateView::Idle,
            EventView::Message { body, sent_at },
        ) == (StateView::Idle, ActionView::Finish),
{
}

/// A caller whose level is below the level that the command requires gets
/// the refusal and nothing else, and the handler is not called.
pub proof fn law_caller_below_level_is_refused(
    table: Seq<Seq<Seq<char>>>,
    levels: Seq<nat>,
    prefix: Seq<char>,
    started_at: u64,
    command_index: int,
    arguments: Seq<char>,
    level: i64,
)
    requires
        0 <= command_index < levels.len(),
        level < levels[command_index],
    ensures
        spec_step(
            table,
            levels,
            prefix,
            started_at,
            StateView::Authorizing { command_index, arguments },
            EventView::CallerLevel(level),
        ) == (
            StateView::Replying,
            ActionView::Reply {
                content: spec_compose(spec_refusal_text(levels[command_index])),
                operator_note: None,
            },
        ),
{
}

/// The handler is called in one case only: the pipeline was waiting for the
/// level of the caller of that command, and the level that came is not
/// below the level that the command requires. The handler gets the text
/// that resolution left.
pub proof fn law_handler_runs_only_for_authorized(
    table: Seq<Seq<Seq<char>>>,
    levels: Seq<nat>,
    prefix: Seq<char>,
    started_at: u64,
    state: StateView,
    event: EventView,
)
    ensures
        spec_step(table, levels, prefix, started_at, state, event).1 matches ActionView::Invoke {
            command_index,
            arguments,
        } ==> {
            &&& state == StateView::Authorizing { command_index, arguments }
            &&& event matches EventView::CallerLevel(level)
            &&& 0 <= command_index < levels.len()
            &&& level >= levels[command_index]
        },
        spec_step(table, levels, prefix, started_at, state, event).0 is Invoking <==> spec_step(
            table,
            levels,
            prefix,
            started_at,
            state,
            event,
        ).1 is Invoke,
{
}

/// The reply to an `InternalError` is the same whatever the detail: the
/// fixed text and what it reads as. The detail stands in the reply's text
/// only where it stands in that fixed text.
pub proof fn law_internal_detail_is_not_replied(
    table: Seq<Seq<Seq<char>>>,
    command_index: int,
    arguments: Seq<char>,
    detail: Seq<char>,
    other: Seq<char>,
)
    ensures
        spec_concluded(
            table,
            command_index,
            arguments,
            Err(CommandErrorView::InternalError(detail)),
        ).0 == spec_concluded(
            table,
            command_index,
            arguments,
            Err(CommandErrorView::InternalError(other)),
        ).0,
        match spec_concluded(
            table,
            command_index,
            arguments,
            Err(CommandErrorView::InternalError(detail)),
        ).1 {
            ActionView::Reply { content, operator_note } => {
                &&& content == spec_compose(spec_internal_error_text())
                &&& !occurs_in(detail, spec_internal_error_text()) ==> !occurs_in(
                    detail,
                    content.body,
                )
                &&& spec_concluded(
                    table,
                    command_index,
                    arguments,
                    Err(CommandErrorView::InternalError(other)),
                ).1 matches ActionView::Reply { content: other_content, .. } && other_content
                    == content
            },
            ActionView::Finish => spec_concluded(
                table,
                command_index,
                arguments,
                Err(CommandErrorView::InternalError(other)),
            ).1 is Finish,
            _ => false,
        },
{
}

/// The text of the reply to an `ArgParseError` of a registered command ends
/// with the detail, character for character, and nothing is noted for the
/// operator.
pub proof fn law_parse_detail_is_replied(
    table: Seq<Seq<Seq<char>>>,
    command_index: int,
    arguments: Seq<char>,
    detail: Seq<char>,
)
    requires
        0 <= command_index < table.len(),
        table[command_index].len() > 0,
    ensures
        spec_concluded(
            table,
            command_index,
            arguments,
            Err(CommandErrorView::ArgParseError(detail)),
        ) == (
            StateView::Replying,
            ActionView::Reply {
                content: spec_compose(spec_parse_error_text(detail)),
                operator_note: None,
            },
        ),
        spec_compose(spec_parse_error_text(detail)).body == spec_parse_error_text(detail),
        detail.is_suffix_of(spec_parse_error_text(detail)),
        occurs_in(detail, spec_parse_error_text(detail)),
{
    let text = spec_parse_error_text(detail);
    let at = text.len() - detail.len();
    assert(text.subrange(at, at + detail.len()) == detail);
}

} // verus!
