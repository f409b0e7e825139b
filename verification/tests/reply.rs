use matrix_commands::reply::{
    compose, internal_error_text, operator_note, parse_error_text, refusal_text, ReplyContent,
};
use matrix_sdk::ruma::events::room::message::{MessageType, RoomMessageEventContent};

#[test]
fn reply_texts() {
    assert_eq!(refusal_text(0), "insufficient authorization, required level 0");
    assert_eq!(refusal_text(100), "insufficient authorization, required level 100");
    assert_eq!(internal_error_text(), "internal error, operator notified");
    assert_eq!(parse_error_text("missing user"), "Error parsing arguments: missing user");
    assert_eq!(parse_error_text(""), "Error parsing arguments: ");
    assert_eq!(
        operator_note("boom", "ban", "bob"),
        "Internal error running command: boom. Command name: ban. Arguments passed: bob"
    );
}

#[test]
fn refusal_text_names_the_level() {
    assert_eq!(
        refusal_text(usize::MAX),
        format!("insufficient authorization, required level {}", usize::MAX)
    );
}

#[test]
fn plain_text_has_no_formatted_form() {
    assert_eq!(
        compose("insufficient authorization, required level 50".to_string()),
        ReplyContent {
            body: "insufficient authorization, required level 50".to_string(),
            formatted_body: None,
        }
    );
    assert_eq!(compose(String::new()), ReplyContent { body: String::new(), formatted_body: None });
}

#[test]
fn markdown_has_a_formatted_form() {
    assert_eq!(
        compose("# Internal error\nBot admin has been notified".to_string()),
        ReplyContent {
            body: "# Internal error\nBot admin has been notified".to_string(),
            formatted_body: Some(
                "<h1>Internal error</h1>\n<p>Bot admin has been notified</p>\n".to_string()
            ),
        }
    );
    assert_eq!(
        compose("level **50**".to_string()).formatted_body,
        Some("<p>level <strong>50</strong></p>\n".to_string())
    );
}

#[test]
fn content_is_what_the_markdown_constructor_gives() {
    let samples = [
        "",
        "plain words",
        "two\nlines",
        "some *emphasis*",
        "# heading",
        "a `code` span",
        "1 < 2 & 3 > 2",
        "Error parsing arguments: <b>not a number</b>",
        "- one\n- two",
    ];
    for sample in samples {
        let content = compose(sample.to_string());
        let expected = match RoomMessageEventContent::text_markdown(sample).msgtype {
            MessageType::Text(text) => text,
            other => panic!("unexpected message type {:?}", other),
        };
        assert_eq!(content.body, expected.body, "{:?}", sample);
        assert_eq!(content.formatted_body, expected.formatted.map(|f| f.body), "{:?}", sample);
    }
}

#[test]
fn new_keeps_its_parts() {
    let content = ReplyContent::new("a".to_string(), Some("<p>a</p>".to_string()));
    assert_eq!(content.body, "a");
    assert_eq!(content.formatted_body, Some("<p>a</p>".to_string()));
}
