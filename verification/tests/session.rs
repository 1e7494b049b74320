use irc_bot::message::Message;
use irc_bot::session::IRCApp;

fn app() -> IRCApp {
    IRCApp {
        nick: "bot".to_string(),
        channels: "#botters-test,#bot-test".to_string(),
        join_message: "Hello World!!!".to_string(),
    }
}

fn from(prefix: &str, command: &str, parameters: &[&str]) -> Message {
    Message {
        prefix: Some(prefix.to_string()),
        command: command.to_string(),
        parameters: parameters.iter().map(|p| p.to_string()).collect(),
    }
}

#[test]
fn ping_is_answered_by_pong() {
    let out = app().incoming(Message::new("PING", &["tag1", "tag2"]));
    assert_eq!(out, vec![Message::new("PONG", &["tag1", "tag2"])]);
    let out = app().incoming(Message::new("PING", &[]));
    assert_eq!(out, vec![Message::new("PONG", &[])]);
    let out = app().incoming(from("server", "PING", &["a b"]));
    assert_eq!(out, vec![Message::new("PONG", &["a b"])]);
}

#[test]
fn end_of_greeting_is_answered_by_join() {
    let out = app().incoming(from("server", "376", &["bot", "End of /MOTD command."]));
    assert_eq!(out, vec![Message::new("JOIN", &["#botters-test,#bot-test"])]);
    assert_eq!(out[0].serialize(), "JOIN :#botters-test,#bot-test");
    let out = app().incoming(Message::new("376", &[]));
    assert_eq!(out, vec![Message::new("JOIN", &["#botters-test,#bot-test"])]);
}

#[test]
fn mention_in_a_channel_is_answered_there() {
    let out = app().incoming(from("nick!u@h", "PRIVMSG", &["#chan", "bot: sum 1 2 3"]));
    assert_eq!(out, vec![Message::new("PRIVMSG", &["#chan", "The sum is 6"])]);
}

#[test]
fn private_text_is_answered_to_the_sender() {
    let out = app().incoming(from("nick!u@h", "PRIVMSG", &["bot", "echo hi there"]));
    assert_eq!(out, vec![Message::new("PRIVMSG", &["nick", "hi there"])]);
    // whomever the text addresses
    let out = app().incoming(from("nick!u@h", "PRIVMSG", &["bot", "other: echo hi"]));
    assert_eq!(out, vec![Message::new("PRIVMSG", &["nick", "hi"])]);
    let out = app().incoming(from("nick!u@h", "PRIVMSG", &["bot", "bot: echo hi"]));
    assert_eq!(out, vec![Message::new("PRIVMSG", &["nick", "hi"])]);
}

#[test]
fn private_text_without_sender_is_answered_where_it_was_sent() {
    let out = app().incoming(Message::new("PRIVMSG", &["bot", "bot: echo hi"]));
    assert_eq!(out, vec![Message::new("PRIVMSG", &["bot", "hi"])]);
    let out = app().incoming(Message::new("PRIVMSG", &["bot", "echo hi"]));
    assert_eq!(out, vec![]);
}

#[test]
fn text_for_others_is_not_answered() {
    assert_eq!(app().incoming(from("nick!u@h", "PRIVMSG", &["#chan", "sum 1 2 3"])), vec![]);
    assert_eq!(app().incoming(from("nick!u@h", "PRIVMSG", &["#chan", "other: sum 1 2 3"])), vec![]);
    assert_eq!(app().incoming(from("nick!u@h", "PRIVMSG", &["#chan", "Bot: sum 1 2 3"])), vec![]);
    assert_eq!(app().incoming(from("nick!u@h", "PRIVMSG", &["other", "echo hi"])), vec![]);
}

#[test]
fn text_that_does_not_fit_is_not_answered() {
    assert_eq!(app().incoming(from("nick!u@h", "PRIVMSG", &["bot", ""])), vec![]);
    assert_eq!(app().incoming(from("nick!u@h", "PRIVMSG", &["bot", "echo"])), vec![]);
    assert_eq!(app().incoming(from("nick!u@h", "PRIVMSG", &["#chan", "bot: sum"])), vec![]);
    assert_eq!(app().incoming(from("nick!u@h", "PRIVMSG", &["#chan", "bot: sum 1  2"])), vec![]);
}

#[test]
fn unknown_chat_commands_send_nothing() {
    for text in ["bot: help me", "bot: Sum 1 2", "bot: quit now", "bot: PING x"] {
        assert_eq!(app().incoming(from("nick!u@h", "PRIVMSG", &["#chan", text])), vec![], "{:?}", text);
        assert_eq!(app().incoming(from("nick!u@h", "PRIVMSG", &["bot", text])), vec![], "{:?}", text);
    }
}

#[test]
fn privmsg_without_text_sends_nothing() {
    assert_eq!(app().incoming(from("nick!u@h", "PRIVMSG", &["bot"])), vec![]);
    assert_eq!(app().incoming(from("nick!u@h", "PRIVMSG", &[])), vec![]);
}

#[test]
fn privmsg_looks_at_target_and_text_only() {
    let out = app().incoming(from("nick!u@h", "PRIVMSG", &["#chan", "bot: echo a", "bot: echo b"]));
    assert_eq!(out, vec![Message::new("PRIVMSG", &["#chan", "a"])]);
}

#[test]
fn random_through_the_session() {
    for _ in 0..100 {
        let out = app().incoming(from("nick!u@h", "PRIVMSG", &["#chan", "bot: random 5"]));
        assert_eq!(out.len(), 1);
        assert_eq!(out[0].command, "PRIVMSG");
        assert_eq!(out[0].parameters[0], "#chan");
        let n: i64 = out[0].parameters[1].parse().expect("a number");
        assert!((0..=5).contains(&n));
    }
    let out = app().incoming(from("nick!u@h", "PRIVMSG", &["#chan", "bot: random -3"]));
    assert_eq!(out, vec![Message::new("PRIVMSG", &["#chan", "-3 is below 0"])]);
    let out = app().incoming(from("nick!u@h", "PRIVMSG", &["#chan", "bot: random x"]));
    assert_eq!(out, vec![Message::new("PRIVMSG", &["#chan", "x is not a number"])]);
    let out = app().incoming(from("nick!u@h", "PRIVMSG", &["#chan", "bot: random 1 2"]));
    assert_eq!(out, vec![Message::new("PRIVMSG", &["#chan", "Random take one parameter"])]);
}

#[test]
fn own_join_is_announced_in_each_channel() {
    let out = app().incoming(from("bot!u@h", "JOIN", &["#a,#b,#c"]));
    assert_eq!(
        out,
        vec![
            Message::new("PRIVMSG", &["#a", "Hello World!!!"]),
            Message::new("PRIVMSG", &["#b", "Hello World!!!"]),
            Message::new("PRIVMSG", &["#c", "Hello World!!!"]),
        ]
    );
    let out = app().incoming(from("bot!u@h", "JOIN", &["#only"]));
    assert_eq!(out, vec![Message::new("PRIVMSG", &["#only", "Hello World!!!"])]);
}

#[test]
fn channel_list_is_split_at_every_comma() {
    let out = app().incoming(from("bot", "JOIN", &["#a,,#b,"]));
    let targets: Vec<&str> = out.iter().map(|m| m.parameters[0].as_str()).collect();
    assert_eq!(targets, vec!["#a", "", "#b", ""]);
    let out = app().incoming(from("bot", "JOIN", &[""]));
    assert_eq!(out, vec![Message::new("PRIVMSG", &["", "Hello World!!!"])]);
    let list = "#x,#y,,z";
    let out = app().incoming(from("bot", "JOIN", &[list]));
    let targets: Vec<&str> = out.iter().map(|m| m.parameters[0].as_str()).collect();
    assert_eq!(targets, list.split(',').collect::<Vec<_>>());
}

#[test]
fn join_of_others_is_not_announced() {
    assert_eq!(app().incoming(from("nick!u@h", "JOIN", &["#a"])), vec![]);
    assert_eq!(app().incoming(from("bot2!u@h", "JOIN", &["#a"])), vec![]);
    assert_eq!(app().incoming(Message::new("JOIN", &["#a"])), vec![]);
    assert_eq!(app().incoming(from("bot!u@h", "JOIN", &[])), vec![]);
}

#[test]
fn unknown_records_send_nothing() {
    assert_eq!(app().incoming(from("server", "001", &["bot", "Welcome"])), vec![]);
    assert_eq!(app().incoming(from("server", "NOTICE", &["bot", "bot: sum 1 2"])), vec![]);
    assert_eq!(app().incoming(Message::new("ping", &["x"])), vec![]);
    assert_eq!(app().incoming(Message::new("", &[])), vec![]);
    assert_eq!(app().incoming(Message::new("PONG", &["x"])), vec![]);
}

#[test]
fn react_to_text_picks_the_target() {
    let a = app();
    assert_eq!(
        a.react_to_text(Some("nick"), "bot", "sum 1 2 3"),
        Some(Message::new("PRIVMSG", &["nick", "The sum is 6"]))
    );
    assert_eq!(
        a.react_to_text(Some("nick"), "#chan", "bot: sum 1 2 3"),
        Some(Message::new("PRIVMSG", &["#chan", "The sum is 6"]))
    );
    assert_eq!(
        a.react_to_text(None, "#chan", "bot: echo :a  b"),
        Some(Message::new("PRIVMSG", &["#chan", "a  b"]))
    );
    assert_eq!(a.react_to_text(Some("nick"), "#chan", "sum 1 2 3"), None);
    assert_eq!(a.react_to_text(None, "bot", "sum 1 2 3"), None);
    assert_eq!(a.react_to_text(Some("nick"), "bot", "dance 1"), None);
}

#[test]
fn decode_dispatch_encode() {
    let a = app();
    let lines = [
        ("PING :irc.example.net", vec!["PONG :irc.example.net"]),
        (":irc.example.net 376 bot :End of /MOTD command.", vec!["JOIN :#botters-test,#bot-test"]),
        (":bot!b@h JOIN :#botters-test,#bot-test", vec![
            "PRIVMSG #botters-test :Hello World!!!",
            "PRIVMSG #bot-test :Hello World!!!",
        ]),
        (":nick!u@h PRIVMSG #bot-test :bot: sum 20 22", vec!["PRIVMSG #bot-test :The sum is 42"]),
        (":nick!u@h PRIVMSG bot :echo :hello  there", vec!["PRIVMSG nick :hello  there"]),
        (":nick!u@h PRIVMSG #bot-test :just talking", vec![]),
    ];
    for (line, expected) in lines {
        let msg = irc_bot::codec::deserialize_message(line.as_bytes()).unwrap();
        let sent: Vec<String> = a.incoming(msg).iter().map(|m| m.serialize()).collect();
        assert_eq!(sent, expected, "{:?}", line);
    }
}
