use irc_bot::grammar::DecodeError;
use irc_bot::utterance::deserialize_text;

#[test]
fn parse_mention_command_and_parameters() {
    let p = deserialize_text("bot: sum 1 2 3").unwrap();
    assert_eq!(p.mention, Some("bot"));
    assert_eq!(p.command, "sum");
    assert_eq!(p.parameters, vec!["1", "2", "3"]);
}

#[test]
fn parse_without_mention() {
    let p = deserialize_text("echo hello world").unwrap();
    assert_eq!(p.mention, None);
    assert_eq!(p.command, "echo");
    assert_eq!(p.parameters, vec!["hello", "world"]);
}

#[test]
fn parse_rest_of_line_parameter() {
    let p = deserialize_text("bot: echo a :b  c d").unwrap();
    assert_eq!(p.mention, Some("bot"));
    assert_eq!(p.command, "echo");
    assert_eq!(p.parameters, vec!["a", "b  c d"]);
}

#[test]
fn parse_mention_may_hold_colons() {
    let p = deserialize_text("a:b: cmd x").unwrap();
    assert_eq!(p.mention, Some("a:b"));
    assert_eq!(p.command, "cmd");
    assert_eq!(p.parameters, vec!["x"]);
}

#[test]
fn parse_sentinel_after_a_space_is_no_mention() {
    let p = deserialize_text("tell bot: hello").unwrap();
    assert_eq!(p.mention, None);
    assert_eq!(p.command, "tell");
    assert_eq!(p.parameters, vec!["bot:", "hello"]);
}

#[test]
fn parse_empty_mention_is_no_mention() {
    let p = deserialize_text(": cmd x").unwrap();
    assert_eq!(p.mention, None);
    assert_eq!(p.command, ":");
    assert_eq!(p.parameters, vec!["cmd", "x"]);
}

#[test]
fn parse_colon_without_space_is_no_mention() {
    let p = deserialize_text("bot:sum 1").unwrap();
    assert_eq!(p.mention, None);
    assert_eq!(p.command, "bot:sum");
    assert_eq!(p.parameters, vec!["1"]);
}

#[test]
fn parse_rejects_what_does_not_fit() {
    let malformed = ["", "bot: ", "bot: sum", "bot: sum ", "sum", "bot:  sum 1", "sum 1  2", " sum 1"];
    for text in malformed {
        assert_eq!(deserialize_text(text).err(), Some(DecodeError::Malformed), "{:?}", text);
    }
}
