use irc_bot::command::{message_from_command, privmsg_to, random_bound, reply_to_command};
use irc_bot::message::Message;
use irc_bot::number::{decimal_string, parse_number};
use irc_bot::utterance::{deserialize_text, ParsedText};

fn parsed<'a>(command: &'a str, parameters: &[&'a str]) -> ParsedText<'a> {
    ParsedText { mention: None, command, parameters: parameters.to_vec() }
}

fn text_of(reply: Option<Message>) -> String {
    let m = reply.expect("a reply");
    assert_eq!(m.prefix, None);
    assert_eq!(m.command, "PRIVMSG");
    assert_eq!(m.parameters.len(), 2);
    assert_eq!(m.parameters[0], "#chan");
    m.parameters[1].clone()
}

#[test]
fn sum_of_parsed_utterance() {
    let p = deserialize_text("bot: sum 1 2 3").unwrap();
    assert_eq!(text_of(message_from_command("#chan", p)), "The sum is 6");
}

#[test]
fn sum_skips_what_is_no_number() {
    assert_eq!(text_of(message_from_command("#chan", parsed("sum", &["1", "x", "-4", "2.5", "+10", ""]))), "The sum is 7");
    assert_eq!(text_of(message_from_command("#chan", parsed("sum", &[]))), "The sum is 0");
    assert_eq!(text_of(message_from_command("#chan", parsed("sum", &["a b"]))), "The sum is 0");
}

#[test]
fn sum_is_held_to_64_bits() {
    let max = "9223372036854775807";
    let min = "-9223372036854775808";
    assert_eq!(text_of(message_from_command("#chan", parsed("sum", &[max, "1"]))), format!("The sum is {}", max));
    assert_eq!(text_of(message_from_command("#chan", parsed("sum", &[min, "-1"]))), format!("The sum is {}", min));
    assert_eq!(text_of(message_from_command("#chan", parsed("sum", &[max, max, min, min]))), "The sum is -2");
    assert_eq!(text_of(message_from_command("#chan", parsed("sum", &[max, "1", "-1"]))), format!("The sum is {}", max));
    assert_eq!(text_of(message_from_command("#chan", parsed("sum", &[max, "5", "-10"]))), "The sum is 9223372036854775802");
    // one digit too many writes no 64-bit number and counts for nothing
    assert_eq!(text_of(message_from_command("#chan", parsed("sum", &["9223372036854775808", "2"]))), "The sum is 2");
}

#[test]
fn echo_joins_with_one_space() {
    assert_eq!(text_of(message_from_command("#chan", parsed("echo", &["a", "b", "c"]))), "a b c");
    assert_eq!(text_of(message_from_command("#chan", parsed("echo", &["one"]))), "one");
    assert_eq!(text_of(message_from_command("#chan", parsed("echo", &[]))), "");
    assert_eq!(text_of(message_from_command("#chan", parsed("echo", &["a", "b  c "]))), "a b  c ");
}

#[test]
fn random_stays_in_range() {
    for _ in 0..500 {
        let text = text_of(message_from_command("#chan", parsed("random", &["5"])));
        let n: i64 = text.parse().expect("a number");
        assert!((0..=5).contains(&n), "{}", n);
    }
}

#[test]
fn random_of_zero_is_zero() {
    for _ in 0..50 {
        assert_eq!(text_of(message_from_command("#chan", parsed("random", &["0"]))), "0");
    }
}

#[test]
fn random_draws_more_than_one_number() {
    let mut seen = std::collections::BTreeSet::new();
    for _ in 0..200 {
        let text = text_of(message_from_command("#chan", parsed("random", &["1000000"])));
        let n: i64 = text.parse().expect("a number");
        assert!((0..=1000000).contains(&n));
        seen.insert(n);
    }
    assert!(seen.len() > 1);
}

#[test]
fn random_of_the_largest_number() {
    for _ in 0..50 {
        let text = text_of(message_from_command("#chan", parsed("random", &["9223372036854775807"])));
        let n: i64 = text.parse().expect("a number");
        assert!(n >= 0 && n < i64::MAX);
    }
}

#[test]
fn random_below_zero() {
    assert_eq!(text_of(message_from_command("#chan", parsed("random", &["-3"]))), "-3 is below 0");
    assert_eq!(text_of(message_from_command("#chan", parsed("random", &["-003"]))), "-3 is below 0");
}

#[test]
fn random_not_a_number() {
    assert_eq!(text_of(message_from_command("#chan", parsed("random", &["x"]))), "x is not a number");
    assert_eq!(text_of(message_from_command("#chan", parsed("random", &[""]))), " is not a number");
    assert_eq!(
        text_of(message_from_command("#chan", parsed("random", &["9223372036854775808"]))),
        "9223372036854775808 is not a number"
    );
}

#[test]
fn random_wrong_arity() {
    assert_eq!(text_of(message_from_command("#chan", parsed("random", &["1", "2"]))), "Random take one parameter");
    assert_eq!(text_of(message_from_command("#chan", parsed("random", &[]))), "Random take one parameter");
}

#[test]
fn unknown_commands_get_no_reply() {
    for command in ["", "Sum", "SUM", "sum ", "echoo", "rand", "help", "PING"] {
        assert_eq!(message_from_command("#chan", parsed(command, &["1", "2"])), None, "{:?}", command);
        assert_eq!(message_from_command("#chan", parsed(command, &[])), None, "{:?}", command);
    }
}

#[test]
fn reply_with_a_given_draw() {
    let p = parsed("random", &["5"]);
    assert_eq!(text_of(reply_to_command("#chan", &p, 4)), "4");
    assert_eq!(text_of(reply_to_command("#chan", &p, 0)), "0");
    let p = parsed("random", &["+12"]);
    assert_eq!(text_of(reply_to_command("#chan", &p, 12)), "12");
    // the number is not looked at where none is asked for
    assert_eq!(text_of(reply_to_command("#chan", &parsed("sum", &["1", "2"]), 99)), "The sum is 3");
    assert_eq!(text_of(reply_to_command("#chan", &parsed("echo", &["a"]), 99)), "a");
    assert_eq!(text_of(reply_to_command("#chan", &parsed("random", &["-1"]), 99)), "-1 is below 0");
    assert_eq!(reply_to_command("#chan", &parsed("other", &["1"]), 99), None);
}

#[test]
fn bound_of_a_draw() {
    assert_eq!(random_bound(&parsed("random", &["5"])), Some(5));
    assert_eq!(random_bound(&parsed("random", &["0"])), Some(0));
    assert_eq!(random_bound(&parsed("random", &["9223372036854775807"])), Some(9223372036854775806));
    assert_eq!(random_bound(&parsed("random", &["-1"])), None);
    assert_eq!(random_bound(&parsed("random", &["x"])), None);
    assert_eq!(random_bound(&parsed("random", &["1", "2"])), None);
    assert_eq!(random_bound(&parsed("sum", &["5"])), None);
}

#[test]
fn privmsg_has_target_and_text() {
    let m = privmsg_to("nick", "some text");
    assert_eq!(m, Message::new("PRIVMSG", &["nick", "some text"]));
}

#[test]
fn numbers_are_read_as_std_reads_them() {
    let texts = [
        "0", "-0", "+0", "7", "+7", "-7", "007", "-007", "42", "1234567890",
        "9223372036854775807", "9223372036854775808", "-9223372036854775808",
        "-9223372036854775809", "+9223372036854775807", "99999999999999999999999",
        "000000000000000000000000000000000012", "", "+", "-", "--1", "+-1", "1+", "1-1", " 1", "1 ",
        "1_000", "0x10", "1.0", "1e3", "a", "١٢٣", "１２",
    ];
    for t in texts {
        assert_eq!(parse_number(t), t.parse::<i64>().ok(), "{:?}", t);
    }
}

#[test]
fn numbers_are_written_as_std_writes_them() {
    let numbers = [
        0i64, 1, -1, 9, 10, -10, 11, 99, 100, 101, 12345, -12345, 1000000007,
        i64::MAX, i64::MIN, i64::MAX - 1, i64::MIN + 1,
    ];
    for n in numbers {
        assert_eq!(decimal_string(n), n.to_string());
        assert_eq!(parse_number(&decimal_string(n)), Some(n));
    }
}
