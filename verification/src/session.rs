//! The session: what the bot sends back for each record that comes in.

use vstd::prelude::*;
use vstd::string::StrSliceExecFns;
use crate::command::{
    draw_fits, is_known_command, lemma_unknown_command_gets_no_reply, message_from_command,
    privmsg, privmsg_to, reply_view, spec_reply,
};
use crate::message::{Message, MessageView};
use crate::text::{chars_of, lemma_skip_skip, run_end, split_on};
use crate::utterance::{deserialize_text, spec_deserialize_text};

verus! {

/// The bot's side of one connection: the nickname it goes by, the channels it
/// joins once the server is ready, and what it says on joining one.
#[derive(Debug, PartialEq, Eq)]
pub struct IRCApp {
    pub nick: String,
    /// The channels to join, separated by commas.
    pub channels: String,
    pub join_message: String,
}

/// What an `IRCApp` holds, as character sequences.
pub ghost struct IRCAppView {
    pub nick: Seq<char>,
    pub channels: Seq<char>,
    pub join_message: Seq<char>,
}

impl View for IRCApp {
    type V = IRCAppView;

    open spec fn view(&self) -> IRCAppView {
        IRCAppView { nick: self.nick@, channels: self.channels@, join_message: self.join_message@ }
    }
}

impl Clone for IRCApp {
    fn clone(&self) -> (copy: Self)
        ensures
            copy@ == self@,
    {
        IRCApp {
            nick: self.nick.clone(),
            channels: self.channels.clone(),
            join_message: self.join_message.clone(),
        }
    }
}

/// What a list of messages holds.
pub open spec fn message_views(messages: Seq<Message>) -> Seq<MessageView> {
    Seq::new(messages.len(), |i: int| messages[i]@)
}

/// To whom the bot `nick` answers a chat text that `from` sent to `chan` and
/// that addresses `mention`.
///
/// A text sent to the bot itself is answered to its sender, whomever it
/// addresses, where the sender is known. Any other text that addresses the
/// bot is answered where it was sent. The rest is not answered.
pub open spec fn reply_target(
    nick: Seq<char>,
    from: Option<Seq<char>>,
    chan: Seq<char>,
    mention: Option<Seq<char>>,
) -> Option<Seq<char>> {
    if chan == nick && from is Some {
        from
    } else if mention == Some(nick) {
        Some(chan)
    } else {
        None
    }
}

/// The answer of `app` to the chat text `text` that `from` sent to `chan`,
/// where `draw` is the number drawn for it. A text that does not fit the
/// grammar is not answered.
pub open spec fn spec_react_to_text(
    app: IRCAppView,
    from: Option<Seq<char>>,
    chan: Seq<char>,
    text: Seq<char>,
    draw: int,
) -> Option<MessageView> {
    match spec_deserialize_text(text) {
        Some(parsed) => match reply_target(app.nick, from, chan, parsed.mention) {
            Some(target) => spec_reply(target, parsed, draw),
            None => None,
        },
        None => None,
    }
}

/// `draw` is a number that may be drawn for the chat text `text`.
pub open spec fn text_draw_fits(text: Seq<char>, draw: int) -> bool {
    match spec_deserialize_text(text) {
        Some(parsed) => draw_fits(parsed, draw),
        None => draw == 0,
    }
}

/// The channel-joined announcements: one chat message with `text` for each
/// of `channels`.
pub open spec fn announcements(channels: Seq<Seq<char>>, text: Seq<char>) -> Seq<MessageView> {
    Seq::new(channels.len(), |i: int| privmsg(channels[i], text))
}

/// What `app` sends back for the record `msg`, where `draw` is the number
/// drawn for it.
///
/// - `PING` is answered by `PONG` with the same parameters.
/// - `376`, the end of the server's greeting, is answered by `JOIN` with the
///   channels of `app`.
/// - `PRIVMSG` with a target and a text is answered as `spec_react_to_text`
///   says; what follows the text is not looked at.
/// - `JOIN` by the bot itself is answered by the join message, once to each
///   channel of the list in its first parameter.
/// - Nothing is sent for any other record, nor for a `PRIVMSG` or `JOIN`
///   that lacks the parameters named here.
pub open spec fn spec_incoming(app: IRCAppView, msg: MessageView, draw: int) -> Seq<MessageView> {
    if msg.command == "PING"@ {
        seq![MessageView { prefix: None, command: "PONG"@, parameters: msg.parameters }]
    } else if msg.command == "376"@ {
        seq![MessageView { prefix: None, command: "JOIN"@, parameters: seq![app.channels] }]
    } else if msg.command == "PRIVMSG"@ {
        if msg.parameters.len() >= 2 {
            match spec_react_to_text(
                app,
                msg.nickname(),
                msg.parameters[0],
                msg.parameters[1],
                draw,
            ) {
                Some(reply) => seq![reply],
                None => Seq::empty(),
            }
        } else {
            Seq::empty()
        }
    } else if msg.command == "JOIN"@ {
        if msg.nickname() == Some(app.nick) && msg.parameters.len() >= 1 {
            announcements(split_on(msg.parameters[0], ','), app.join_message)
        } else {
            Seq::empty()
        }
    } else {
        Seq::empty()
    }
}

/// `draw` is a number that may be drawn for the record `msg`.
pub open spec fn event_draw_fits(msg: MessageView, draw: int) -> bool {
    if msg.command == "PRIVMSG"@ && msg.parameters.len() >= 2 {
        text_draw_fits(msg.parameters[1], draw)
    } else {
        draw == 0
    }
}

/// Nothing is sent for a chat text whose command the table does not hold,
/// whoever sent it, wherever it was sent and whatever number is drawn.
pub proof fn lemma_unknown_command_sends_nothing(app: IRCAppView, msg: MessageView, draw: int)
    requires
        msg.command == "PRIVMSG"@,
        msg.parameters.len() >= 2,
        spec_deserialize_text(msg.parameters[1]) matches Some(parsed) && !is_known_command(
            parsed.command,
        ),
    ensures
        spec_incoming(app, msg, draw) == Seq::<MessageView>::empty(),
{
    reveal_strlit("PRIVMSG");
    reveal_strlit("PING");
    reveal_strlit("376");
    assert("PRIVMSG"@.len() == 7 && "PING"@.len() == 4 && "376"@.len() == 3);
    let parsed = spec_deserialize_text(msg.parameters[1])->0;
    assert forall|target: Seq<char>| spec_reply(target, parsed, draw) is None by {
        lemma_unknown_command_gets_no_reply(target, parsed, draw);
    }
}

/// Nothing is sent for a record whose command the session does not know,
/// whatever else the record holds.
pub proof fn lemma_unknown_record_sends_nothing(app: IRCAppView, msg: MessageView, draw: int)
    requires
        msg.command != "PING"@,
        msg.command != "376"@,
        msg.command != "PRIVMSG"@,
        msg.command != "JOIN"@,
    ensures
        spec_incoming(app, msg, draw) == Seq::<MessageView>::empty(),
{
}

impl IRCApp {
    /// Answers the chat text `text` that `from` sent to `chan`.
    ///
    /// The answer is the one that `spec_react_to_text` names for some number
    /// that may be drawn for `text`.
    pub fn react_to_text(&self, from: Option<&str>, chan: &str, text: &str) -> (reply: Option<
        Message,
    >)
        ensures
            exists|draw: int| #[trigger]
                text_draw_fits(text@, draw) && reply_view(reply) == spec_react_to_text(
                    self@,
                    match from {
                        Some(f) => Some(f@),
                        None => None,
                    },
                    chan@,
                    text@,
                    draw,
                ),
    {
        match deserialize_text(text) {
            Ok(parsed) => {
                let target: Option<&str> = match from {
                    Some(sender) if chan.eq(self.nick.as_str()) => Some(sender),
                    _ => match parsed.mention {
                        Some(mention) if mention.eq(self.nick.as_str()) => Some(chan),
                        _ => None,
                    },
                };
                match target {
                    Some(t) => {
                        let ghost p = parsed@;
                        let reply = message_from_command(t, parsed);
                        proof {
                            let draw = choose|draw: int| #[trigger]
                                draw_fits(p, draw) && reply_view(reply) == spec_reply(
                                    t@,
                                    p,
                                    draw,
                                );
                            assert(text_draw_fits(text@, draw));
                        }
                        reply
                    },
                    None => {
                        assert(text_draw_fits(text@, 0));
                        None
                    },
                }
            },
            Err(_) => {
                assert(text_draw_fits(text@, 0));
                None
            },
        }
    }

    /// The join message, once for each channel of the comma-separated list
    /// `channels`.
    fn announce(&self, channels: &str) -> (out: Vec<Message>)
        ensures
            message_views(out@) == announcements(split_on(channels@, ','), self@.join_message),
    {
        let cs = chars_of(channels);
        let n = cs.len();
        let ghost text = self@.join_message;
        let mut out: Vec<Message> = Vec::new();
        let mut i: usize = 0;
        assert(channels@.skip(0) =~= channels@);
        loop
            invariant
                cs@ == channels@,
                n == cs.len(),
                i <= n,
                text == self@.join_message,
                announcements(split_on(channels@, ','), text) == message_views(out@)
                    + announcements(split_on(channels@.skip(i as int), ','), text),
            decreases n - i,
        {
            let ghost here = channels@.skip(i as int);
            let end = run_end(&cs, i, ',');
            let chan = channels.substring_char(i, end);
            out.push(privmsg_to(chan, self.join_message.as_str()));
            proof {
                lemma_skip_skip(channels@, i as int, end - i);
            }
            if end == n {
                return out;
            }
            proof {
                lemma_skip_skip(channels@, i as int, end - i + 1);
                let rest = split_on(channels@.skip(end + 1), ',');
                assert(announcements(split_on(here, ','), text) =~= seq![
                    privmsg(here.take(end - i), text),
                ] + announcements(rest, text));
            }
            i = end + 1;
        }
    }

    /// What to send back for the record `msg`.
    ///
    /// The messages are those that `spec_incoming` names for some number that
    /// may be drawn for `msg`, in the order in which they are to be sent.
    pub fn incoming(&self, msg: Message) -> (out: Vec<Message>)
        ensures
            exists|draw: int| #[trigger]
                event_draw_fits(msg@, draw) && message_views(out@) == spec_incoming(
                    self@,
                    msg@,
                    draw,
                ),
    {
        let mut out: Vec<Message> = Vec::new();
        if msg.command.as_str().eq("PING") {
            let pong = Message { prefix: None, command: "PONG".to_owned(), parameters: msg.parameters };
            out.push(pong);
            assert(event_draw_fits(msg@, 0));
        } else if msg.command.as_str().eq("376") {
            let mut parameters: Vec<String> = Vec::new();
            parameters.push(self.channels.clone());
            let join = Message { prefix: None, command: "JOIN".to_owned(), parameters };
            assert(join@.parameters =~= seq![self@.channels]);
            out.push(join);
            assert(event_draw_fits(msg@, 0));
        } else if msg.command.as_str().eq("PRIVMSG") {
            if msg.parameters.len() >= 2 {
                let reply = self.react_to_text(
                    msg.nickname(),
                    msg.parameters[0].as_str(),
                    msg.parameters[1].as_str(),
                );
                let ghost draw = choose|draw: int| #[trigger]
                    text_draw_fits(msg@.parameters[1], draw) && reply_view(reply)
                        == spec_react_to_text(
                        self@,
                        msg@.nickname(),
                        msg@.parameters[0],
                        msg@.parameters[1],
                        draw,
                    );
                match reply {
                    Some(m) => {
                        out.push(m);
                    },
                    None => {},
                }
                assert(event_draw_fits(msg@, draw));
            } else {
                assert(event_draw_fits(msg@, 0));
            }
        } else if msg.command.as_str().eq("JOIN") {
            let joined = match msg.nickname() {
                Some(nick) => nick.eq(self.nick.as_str()),
                None => false,
            };
            if joined && msg.parameters.len() >= 1 {
                out = self.announce(msg.parameters[0].as_str());
            }
            assert(event_draw_fits(msg@, 0));
        } else {
            assert(event_draw_fits(msg@, 0));
        }
        out
    }
}

} // verus!
