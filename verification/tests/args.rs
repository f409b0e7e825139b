use matrix_commands::args::TryFromStr;
use matrix_commands::command::{parse_arg, CommandError};

#[test]
fn token_round_trip() {
    let (value, rest) = String::try_from_str("foo bar").unwrap();
    assert_eq!(value, "foo");
    assert_eq!(rest, "bar");
    let (value, rest) = String::try_from_str(rest).unwrap();
    assert_eq!(value, "bar");
    assert_eq!(rest, "");
}

#[test]
fn token_of_a_single_word() {
    assert_eq!(String::try_from_str("foo"), Ok(("foo".to_string(), "")));
}

#[test]
fn token_of_empty_text() {
    assert_eq!(String::try_from_str(""), Ok((String::new(), "")));
}

#[test]
fn token_of_blank_text() {
    assert_eq!(String::try_from_str("   "), Ok((String::new(), "")));
}

#[test]
fn token_skips_leading_whitespace() {
    assert_eq!(String::try_from_str("  foo bar"), Ok(("foo".to_string(), "bar")));
    assert_eq!(String::try_from_str("\t\nfoo"), Ok(("foo".to_string(), "")));
}

#[test]
fn token_ends_at_any_whitespace() {
    assert_eq!(String::try_from_str("foo\tbar"), Ok(("foo".to_string(), "bar")));
    assert_eq!(String::try_from_str("foo\nbar baz"), Ok(("foo".to_string(), "bar baz")));
    assert_eq!(String::try_from_str("foo\u{a0}bar"), Ok(("foo".to_string(), "bar")));
}

#[test]
fn token_leaves_everything_behind_the_boundary() {
    assert_eq!(String::try_from_str("foo  bar"), Ok(("foo".to_string(), " bar")));
    assert_eq!(String::try_from_str("foo bar "), Ok(("foo".to_string(), "bar ")));
    assert_eq!(String::try_from_str("foo "), Ok(("foo".to_string(), "")));
    assert_eq!(String::try_from_str("foo bar baz"), Ok(("foo".to_string(), "bar baz")));
}

#[test]
fn token_keeps_characters_beyond_ascii() {
    assert_eq!(
        String::try_from_str(" h\u{e9}llo w\u{f6}rld"),
        Ok(("h\u{e9}llo".to_string(), "w\u{f6}rld"))
    );
}

#[test]
fn tokens_in_turn_give_the_words() {
    let text = "  one two\tthree  four ";
    let mut rest = text;
    let mut tokens: Vec<String> = Vec::new();
    while !rest.is_empty() {
        let (token, left) = String::try_from_str(rest).unwrap();
        if !token.is_empty() {
            tokens.push(token);
        }
        rest = left;
    }
    assert_eq!(tokens, vec!["one", "two", "three", "four"]);
}

#[test]
fn optional_on_empty_text_is_absent() {
    let parsed: Result<(Option<String>, &str), String> = Option::<String>::try_from_str("");
    assert_eq!(parsed, Ok((None, "")));
}

#[test]
fn optional_on_text_reads_the_inner_type() {
    let parsed = Option::<String>::try_from_str("foo bar");
    assert_eq!(parsed, Ok((Some("foo".to_string()), "bar")));
    let parsed = Option::<String>::try_from_str("foo");
    assert_eq!(parsed, Ok((Some("foo".to_string()), "")));
}

#[test]
fn optional_on_blank_text_reads_the_inner_type() {
    let parsed = Option::<String>::try_from_str(" ");
    assert_eq!(parsed, Ok((Some(String::new()), "")));
}

#[test]
fn optional_of_optional() {
    let parsed = Option::<Option<String>>::try_from_str("");
    assert_eq!(parsed, Ok((None, "")));
    let parsed = Option::<Option<String>>::try_from_str("x y");
    assert_eq!(parsed, Ok((Some(Some("x".to_string())), "y")));
}

#[test]
fn required_then_optional_argument() {
    let (first, rest) = String::try_from_str("bob").unwrap();
    let (second, rest) = Option::<String>::try_from_str(rest).unwrap();
    assert_eq!(first, "bob");
    assert_eq!(second, None);
    assert_eq!(rest, "");
    let (first, rest) = String::try_from_str("bob spam").unwrap();
    let (second, rest) = Option::<String>::try_from_str(rest).unwrap();
    assert_eq!(first, "bob");
    assert_eq!(second, Some("spam".to_string()));
    assert_eq!(rest, "");
}

#[test]
fn parse_arg_reads_a_token() {
    let parsed: Result<(String, &str), CommandError> = parse_arg("foo bar");
    assert_eq!(parsed, Ok(("foo".to_string(), "bar")));
}

#[test]
fn parse_arg_reads_an_optional() {
    let parsed: Result<(Option<String>, &str), CommandError> = parse_arg("");
    assert_eq!(parsed, Ok((None, "")));
    let parsed: Result<(Option<String>, &str), CommandError> = parse_arg("x");
    assert_eq!(parsed, Ok((Some("x".to_string()), "")));
}

#[derive(Debug, PartialEq)]
struct Count(u32);

impl TryFromStr for Count {
    fn try_from_str(input: &str) -> Result<(Self, &str), String> {
        let (token, rest) = String::try_from_str(input)?;
        match token.parse::<u32>() {
            Ok(n) => Ok((Count(n), rest)),
            Err(_) => Err(format!("not a number: {}", token)),
        }
    }
}

#[test]
fn parse_arg_carries_the_failure_detail() {
    let parsed: Result<(Count, &str), CommandError> = parse_arg("12 rest");
    assert_eq!(parsed, Ok((Count(12), "rest")));
    let parsed: Result<(Count, &str), CommandError> = parse_arg("twelve rest");
    assert_eq!(parsed, Err(CommandError::ArgParseError("not a number: twelve".to_string())));
}

#[test]
fn optional_passes_the_failure_on() {
    let parsed = Option::<Count>::try_from_str("x");
    assert_eq!(parsed, Err("not a number: x".to_string()));
    let parsed = Option::<Count>::try_from_str("");
    assert_eq!(parsed, Ok((None, "")));
    let parsed = Option::<Count>::try_from_str("3");
    assert_eq!(parsed, Ok((Some(Count(3)), "")));
}

#[test]
fn chain_stops_at_the_first_failure() {
    fn read(input: &str) -> Result<(Count, Count), CommandError> {
        let (first, rest) = parse_arg::<Count>(input)?;
        let (second, _) = parse_arg::<Count>(rest)?;
        Ok((first, second))
    }
    assert_eq!(read("1 2"), Ok((Count(1), Count(2))));
    assert_eq!(read("a b"), Err(CommandError::ArgParseError("not a number: a".to_string())));
    assert_eq!(read("1 b"), Err(CommandError::ArgParseError("not a number: b".to_string())));
}
