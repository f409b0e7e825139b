use matrix_commands::bot::{Bot, CallingContext};
use matrix_commands::command::{Command, CommandError};
use matrix_commands::dispatch::{
    authorize, authorized, conclude, receive, resolved, startup_millis, step, Action,
    DispatchState, Event,
};
use matrix_commands::registry::Registry;
use matrix_commands::reply::ReplyContent;

fn command(name: &str, aliases: &[&str], level: usize) -> Command<u32> {
    Command {
        name: name.to_string(),
        aliases: aliases.iter().map(|a| a.to_string()).collect(),
        arg_hints: Vec::new(),
        power_level_required: level,
        handler: 0,
    }
}

fn registry() -> Registry<u32> {
    Registry::new(vec![command("ban", &["block"], 50), command("ban user", &[], 100), command("ping", &[], 0)])
        .unwrap()
}

fn message(body: &str, sent_at: u64) -> Event {
    Event::Message { body: body.to_string(), sent_at }
}

fn authorizing(command_index: usize, arguments: &str) -> DispatchState {
    DispatchState::Authorizing { command_index, arguments: arguments.to_string() }
}

fn invoking(command_index: usize, arguments: &str) -> DispatchState {
    DispatchState::Invoking { command_index, arguments: arguments.to_string() }
}

fn reply(text: &str) -> Action {
    Action::Reply {
        content: ReplyContent { body: text.to_string(), formatted_body: None },
        operator_note: None,
    }
}

#[test]
fn message_in_time_with_prefix_is_resolved() {
    let reg = registry();
    let (state, action) = step(&reg, "!", 1000, DispatchState::Idle, message("!ban user bob", 1000));
    assert_eq!(state, authorizing(1, "bob"));
    assert_eq!(action, Action::LookupCaller);
    let (state, action) = step(&reg, "!", 1000, DispatchState::Idle, message("!ban bob", 2000));
    assert_eq!(state, authorizing(0, "bob"));
    assert_eq!(action, Action::LookupCaller);
}

#[test]
fn message_before_startup_is_dropped() {
    let reg = registry();
    let (state, action) = step(&reg, "!", 1000, DispatchState::Idle, message("!ban bob", 999));
    assert_eq!(state, DispatchState::Idle);
    assert_eq!(action, Action::Finish);
    let (state, action) = step(&reg, "!", u64::MAX, DispatchState::Idle, message("!ping", 0));
    assert_eq!(state, DispatchState::Idle);
    assert_eq!(action, Action::Finish);
    assert_eq!(receive("!", 1000, "!ban", 999), DispatchState::Idle);
}

#[test]
fn message_without_prefix_is_dropped() {
    let reg = registry();
    let (state, action) = step(&reg, "!", 0, DispatchState::Idle, message("ban bob", 5));
    assert_eq!(state, DispatchState::Idle);
    assert_eq!(action, Action::Finish);
    assert_eq!(receive("!", 0, " !ban", 5), DispatchState::Idle);
}

#[test]
fn receive_hands_on_what_follows_the_prefix() {
    assert_eq!(
        receive("!", 10, "! ban bob ", 10),
        DispatchState::Resolving { candidate: " ban bob ".to_string() }
    );
    assert_eq!(receive("bot:", 10, "bot:", 11), DispatchState::Resolving { candidate: String::new() });
}

#[test]
fn message_without_a_match_is_dropped() {
    let reg = registry();
    let (state, action) = step(&reg, "!", 0, DispatchState::Idle, message("!help", 5));
    assert_eq!(state, DispatchState::Idle);
    assert_eq!(action, Action::Finish);
    assert_eq!(resolved(&reg, "help me"), (DispatchState::Idle, Action::Finish));
    assert_eq!(resolved(&reg, ""), (DispatchState::Idle, Action::Finish));
}

#[test]
fn resolving_resolves_on_any_event() {
    let reg = registry();
    let resolving = DispatchState::Resolving { candidate: "block  bob now ".to_string() };
    let (state, action) = step(&reg, "!", 0, resolving, Event::CallerUnknown);
    assert_eq!(state, authorizing(0, "bob now"));
    assert_eq!(action, Action::LookupCaller);
    assert_eq!(resolved(&reg, "ping"), (authorizing(2, ""), Action::LookupCaller));
}

#[test]
fn caller_of_sufficient_level_invokes() {
    let reg = registry();
    let (state, action) = step(&reg, "!", 0, authorizing(0, "bob"), Event::CallerLevel(50));
    assert_eq!(state, invoking(0, "bob"));
    assert_eq!(action, Action::Invoke { command_index: 0, arguments: "bob".to_string() });
    let (state, action) = step(&reg, "!", 0, authorizing(2, ""), Event::CallerLevel(0));
    assert_eq!(state, invoking(2, ""));
    assert_eq!(action, Action::Invoke { command_index: 2, arguments: String::new() });
    let (state, _) = step(&reg, "!", 0, authorizing(1, "x"), Event::CallerLevel(i64::MAX));
    assert_eq!(state, invoking(1, "x"));
}

#[test]
fn caller_below_level_is_refused() {
    let reg = registry();
    let (state, action) = step(&reg, "!", 0, authorizing(0, "bob"), Event::CallerLevel(49));
    assert_eq!(state, DispatchState::Replying);
    assert_eq!(action, reply("insufficient authorization, required level 50"));
    let (state, action) = step(&reg, "!", 0, authorizing(1, "bob"), Event::CallerLevel(0));
    assert_eq!(state, DispatchState::Replying);
    assert_eq!(action, reply("insufficient authorization, required level 100"));
    let (state, action) = step(&reg, "!", 0, authorizing(2, ""), Event::CallerLevel(-1));
    assert_eq!(state, DispatchState::Replying);
    assert_eq!(action, reply("insufficient authorization, required level 0"));
    let (state, action) = step(&reg, "!", 0, state, Event::Replied { delivered: true });
    assert_eq!(state, DispatchState::Idle);
    assert_eq!(action, Action::Finish);
}

#[test]
fn refused_caller_never_reaches_the_handler() {
    let reg = registry();
    let mut state = DispatchState::Idle;
    let mut event = message("!ban user bob", 7);
    let mut invoked: u32 = 0;
    let mut replies: Vec<String> = Vec::new();
    loop {
        let (next, action) = step(&reg, "!", 0, state, event);
        state = next;
        event = match action {
            Action::Finish => break,
            Action::LookupCaller => Event::CallerLevel(99),
            Action::Invoke { .. } => {
                invoked += 1;
                Event::HandlerReturned(Ok(()))
            },
            Action::Reply { content, .. } => {
                replies.push(content.body);
                Event::Replied { delivered: true }
            },
        };
    }
    assert_eq!(state, DispatchState::Idle);
    assert_eq!(invoked, 0);
    assert_eq!(replies, vec!["insufficient authorization, required level 100"]);
}

#[test]
fn authorized_caller_reaches_the_handler_once() {
    let reg = registry();
    let mut state = DispatchState::Idle;
    let mut event = message("!ban user bob  for spam", 7);
    let mut calls: Vec<(usize, String)> = Vec::new();
    let mut replies: Vec<String> = Vec::new();
    loop {
        let (next, action) = step(&reg, "!", 0, state, event);
        state = next;
        event = match action {
            Action::Finish => break,
            Action::LookupCaller => Event::CallerLevel(100),
            Action::Invoke { command_index, arguments } => {
                calls.push((command_index, arguments));
                Event::HandlerReturned(Ok(()))
            },
            Action::Reply { content, .. } => {
                replies.push(content.body);
                Event::Replied { delivered: true }
            },
        };
    }
    assert_eq!(state, DispatchState::Idle);
    assert_eq!(calls, vec![(1, "bob  for spam".to_string())]);
    assert!(replies.is_empty());
}

#[test]
fn unknown_caller_is_dropped_without_reply() {
    let reg = registry();
    let (state, action) = step(&reg, "!", 0, authorizing(0, "bob"), Event::CallerUnknown);
    assert_eq!(state, DispatchState::Idle);
    assert_eq!(action, Action::Finish);
    assert_eq!(authorize(&reg, 0, "bob".to_string(), None), (DispatchState::Idle, Action::Finish));
}

#[test]
fn command_index_out_of_range_ends_the_pipeline() {
    let reg = registry();
    assert_eq!(
        authorize(&reg, 3, "bob".to_string(), Some(1000)),
        (DispatchState::Idle, Action::Finish)
    );
    assert_eq!(
        conclude(&reg, 3, "bob", Err(CommandError::InternalError("x".to_string()))),
        (DispatchState::Idle, Action::Finish)
    );
}

#[test]
fn success_sends_no_reply() {
    let reg = registry();
    let (state, action) = step(&reg, "!", 0, invoking(0, "bob"), Event::HandlerReturned(Ok(())));
    assert_eq!(state, DispatchState::Idle);
    assert_eq!(action, Action::Finish);
}

#[test]
fn parse_error_detail_is_replied() {
    let reg = registry();
    let outcome = Err(CommandError::ArgParseError("not a number: x".to_string()));
    let (state, action) = step(&reg, "!", 0, invoking(0, "x"), Event::HandlerReturned(outcome));
    assert_eq!(state, DispatchState::Replying);
    assert_eq!(action, reply("Error parsing arguments: not a number: x"));
}

#[test]
fn internal_error_detail_is_not_replied() {
    let reg = registry();
    let outcome = Err(CommandError::InternalError("database password rejected".to_string()));
    let (state, action) = step(&reg, "!", 0, invoking(1, "bob x"), Event::HandlerReturned(outcome));
    assert_eq!(state, DispatchState::Replying);
    match action {
        Action::Reply { content, operator_note } => {
            assert_eq!(content.body, "internal error, operator notified");
            assert_eq!(content.formatted_body, None);
            assert!(!content.body.contains("database password rejected"));
            assert_eq!(
                operator_note,
                Some(
                    "Internal error running command: database password rejected. Command name: ban user. Arguments passed: bob x"
                        .to_string()
                )
            );
        },
        other => panic!("unexpected action {:?}", other),
    }
}

#[test]
fn internal_error_reply_is_the_same_for_every_detail() {
    let reg = registry();
    for detail in ["", "a", "disk full", "# *loud*", "internal error, operator notified"] {
        let outcome = Err(CommandError::InternalError(detail.to_string()));
        match conclude(&reg, 0, "", outcome).1 {
            Action::Reply { content, .. } => {
                assert_eq!(content.body, "internal error, operator notified");
                assert_eq!(content.formatted_body, None);
            },
            other => panic!("unexpected action {:?}", other),
        }
    }
}

#[test]
fn reply_ends_the_pipeline_delivered_or_not() {
    let reg = registry();
    let (state, action) = step(&reg, "!", 0, DispatchState::Replying, Event::Replied { delivered: true });
    assert_eq!((state, action), (DispatchState::Idle, Action::Finish));
    let (state, action) = step(&reg, "!", 0, DispatchState::Replying, Event::Replied { delivered: false });
    assert_eq!((state, action), (DispatchState::Idle, Action::Finish));
}

#[test]
fn unexpected_events_end_the_pipeline() {
    let reg = registry();
    let (state, action) = step(&reg, "!", 0, DispatchState::Idle, Event::CallerLevel(100));
    assert_eq!((state, action), (DispatchState::Idle, Action::Finish));
    let (state, action) = step(&reg, "!", 0, authorizing(0, "x"), Event::HandlerReturned(Ok(())));
    assert_eq!((state, action), (DispatchState::Idle, Action::Finish));
    let (state, action) = step(&reg, "!", 0, invoking(0, "x"), Event::CallerLevel(100));
    assert_eq!((state, action), (DispatchState::Idle, Action::Finish));
    let (state, action) = step(&reg, "!", 0, invoking(0, "x"), message("!ping", 1));
    assert_eq!((state, action), (DispatchState::Idle, Action::Finish));
}

#[test]
fn authorized_compares_levels() {
    assert!(authorized(0, 0));
    assert!(authorized(50, 50));
    assert!(authorized(51, 50));
    assert!(!authorized(49, 50));
    assert!(!authorized(-1, 0));
    assert!(!authorized(i64::MIN, 0));
    assert!(authorized(i64::MAX, 0));
    assert!(!authorized(i64::MAX, usize::MAX));
}

#[test]
fn parse_error_detail_with_markdown_is_formatted() {
    let reg = registry();
    let outcome = Err(CommandError::ArgParseError("use *stars* here".to_string()));
    let (state, action) = step(&reg, "!", 0, invoking(0, "x"), Event::HandlerReturned(outcome));
    assert_eq!(state, DispatchState::Replying);
    assert_eq!(
        action,
        Action::Reply {
            content: ReplyContent {
                body: "Error parsing arguments: use *stars* here".to_string(),
                formatted_body: Some(
                    "<p>Error parsing arguments: use <em>stars</em> here</p>\n".to_string()
                ),
            },
            operator_note: None,
        }
    );
}

#[test]
fn startup_millis_rounds_up() {
    assert_eq!(startup_millis(0, 0), 0);
    assert_eq!(startup_millis(0, 1), 1);
    assert_eq!(startup_millis(0, 999_999), 1);
    assert_eq!(startup_millis(0, 1_000_000), 1);
    assert_eq!(startup_millis(0, 1_000_001), 2);
    assert_eq!(startup_millis(1, 0), 1000);
    assert_eq!(startup_millis(1_700_000_000, 500_000_000), 1_700_000_000_500);
    assert_eq!(startup_millis(1_700_000_000, 500_000_001), 1_700_000_000_501);
    assert_eq!(startup_millis(1, 999_999_999), 2000);
    assert_eq!(startup_millis(u64::MAX, 0), u64::MAX);
    assert_eq!(startup_millis(u64::MAX / 1000, 614_000_001), u64::MAX);
    assert_eq!(startup_millis(u64::MAX / 1000, 614_000_000), u64::MAX - 1);
    assert_eq!(startup_millis(u64::MAX / 1000, 999_999_999), u64::MAX);
    assert_eq!(startup_millis(u64::MAX / 1000 + 1, 0), u64::MAX);
}

#[test]
fn message_of_the_startup_millisecond() {
    let reg = registry();
    let started_at = startup_millis(5, 0);
    let (state, _) = step(&reg, "!", started_at, DispatchState::Idle, message("!ping", 5000));
    assert_eq!(state, authorizing(2, ""));
    let started_at = startup_millis(5, 1);
    let (state, _) = step(&reg, "!", started_at, DispatchState::Idle, message("!ping", 5000));
    assert_eq!(state, DispatchState::Idle);
    let (state, _) = step(&reg, "!", started_at, DispatchState::Idle, message("!ping", 5001));
    assert_eq!(state, authorizing(2, ""));
}

#[test]
fn bot_steps_with_its_own_prefix_and_registry() {
    let bot = Bot::new("client", "bot: ".to_string(), registry());
    assert_eq!(bot.client, "client");
    assert_eq!(bot.command_prefix, "bot: ");
    assert_eq!(bot.commands.len(), 3);
    let (state, action) = bot.step(10, DispatchState::Idle, message("bot: block bob", 10));
    assert_eq!(state, authorizing(0, "bob"));
    assert_eq!(action, Action::LookupCaller);
    let (state, action) = bot.step(10, DispatchState::Idle, message("!block bob", 10));
    assert_eq!((state, action), (DispatchState::Idle, Action::Finish));
    let (state, action) = bot.step(11, DispatchState::Idle, message("bot: block bob", 10));
    assert_eq!((state, action), (DispatchState::Idle, Action::Finish));
}

#[test]
fn calling_context_bundles_its_parts() {
    let client = "client".to_string();
    let room: u32 = 17;
    let context = CallingContext::new(&client, &room, "caller");
    assert_eq!(context.client, "client");
    assert_eq!(*context.room, 17);
    assert_eq!(context.caller, "caller");
}
