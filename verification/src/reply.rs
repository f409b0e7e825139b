//! Replies: the texts that the pipeline sends, and the content that a text
//! becomes on its way to the conversation.

use crate::text::{push_decimal, spec_decimal};
use matrix_sdk::ruma::events::room::message::FormattedBody;
use vstd::prelude::*;

verus! {

/// The reply to a caller whose level is below `required`.
pub open spec fn spec_refusal_text(required: nat) -> Seq<char> {
    "insufficient authorization, required level "@ + spec_decimal(required)
}

/// The reply to a caller whose command failed for a reason that is not the
/// caller's.
pub open spec fn spec_internal_error_text() -> Seq<char> {
    "internal error, operator notified"@
}

/// The reply to a caller whose arguments could not be read, for the reason
/// `detail`.
pub open spec fn spec_parse_error_text(detail: Seq<char>) -> Seq<char> {
    "Error parsing arguments: "@ + detail
}

/// What is recorded for the operator when the command `name`, called with
/// `arguments`, fails for the reason `detail`.
pub open spec fn spec_operator_note(detail: Seq<char>, name: Seq<char>, arguments: Seq<char>) -> Seq<
    char,
> {
    "Internal error running command: "@ + detail + ". Command name: "@ + name
        + ". Arguments passed: "@ + arguments
}

/// Writes the reply to a caller whose level is below `required`.
pub fn refusal_text(required: usize) -> (text: String)
    ensures
        text@ == spec_refusal_text(required as nat),
{
    let mut text = String::from_str("insufficient authorization, required level ");
    push_decimal(&mut text, required);
    text
}

/// Writes the reply to a caller whose command failed for a reason that is
/// not the caller's.
pub fn internal_error_text() -> (text: String)
    ensures
        text@ == spec_internal_error_text(),
{
    String::from_str("internal error, operator notified")
}

/// Writes the reply to a caller whose arguments could not be read.
pub fn parse_error_text(detail: &str) -> (text: String)
    ensures
        text@ == spec_parse_error_text(detail@),
{
    let mut text = String::from_str("Error parsing arguments: ");
    text.append(detail);
    text
}

/// Writes what is recorded for the operator when a command fails for a
/// reason that is not the caller's.
pub fn operator_note(detail: &str, name: &str, arguments: &str) -> (note: String)
    ensures
        note@ == spec_operator_note(detail@, name@, arguments@),
{
    let mut note = String::from_str("Internal error running command: ");
    note.append(detail);
    note.append(". Command name: ");
    note.append(name);
    note.append(". Arguments passed: ");
    note.append(arguments);
    note
}

/// What `FormattedBody::markdown` makes of a text: the HTML that the text
/// gives when it is read as Markdown, or nothing where it holds no Markdown
/// formatting.
pub uninterp spec fn markdown_html(text: Seq<char>) -> Option<Seq<char>>;

/// Reads `text` as Markdown, with `FormattedBody::markdown` of ruma, and
/// hands out the HTML that it made, or nothing where it found no
/// formatting. The contract names that outcome `markdown_html` and says no
/// more of it.
#[verifier::external_body]
fn render_markdown(text: &str) -> (html: Option<String>)
    ensures
        match html {
            Some(html) => markdown_html(text@) == Some(html@),
            None => markdown_html(text@) is None,
        },
{
    match FormattedBody::markdown(text) {
        Some(formatted) => Some(formatted.body),
        None => None,
    }
}

/// What is sent to the conversation: a text, and its formatted form where
/// it has one.
#[derive(Debug, Clone, PartialEq, Eq)]
pub struct ReplyContent {
    /// The text as it was written.
    pub body: String,
    /// The text as HTML, where it holds formatting.
    pub formatted_body: Option<String>,
}

/// A `ReplyContent` with its texts as characters.
pub struct ReplyView {
    pub body: Seq<char>,
    pub formatted_body: Option<Seq<char>>,
}

impl View for ReplyContent {
    type V = ReplyView;

    open spec fn view(&self) -> ReplyView {
        ReplyView {
            body: self.body@,
            formatted_body: match self.formatted_body {
                Some(html) => Some(html@),
                None => None,
            },
        }
    }
}

impl ReplyContent {
    /// Makes the content of the text `body` and of what it reads as.
    pub fn new(body: String, formatted_body: Option<String>) -> (content: ReplyContent)
        ensures
            content.body == body,
            content.formatted_body == formatted_body,
    {
        ReplyContent { body, formatted_body }
    }
}

/// The content that `text` becomes: `text` itself and what it reads as.
pub open spec fn spec_compose(text: Seq<char>) -> ReplyView {
    ReplyView { body: text, formatted_body: markdown_html(text) }
}

/// Makes the content of a reply of `text`: the text itself, read as
/// Markdown for its formatted form.
pub fn compose(text: String) -> (content: ReplyContent)
    ensures
        content@ == spec_compose(text@),
{
    let html = render_markdown(text.as_str());
    ReplyContent::new(text, html)
}

} // verus!
