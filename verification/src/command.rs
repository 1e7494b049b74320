//! The command table: what the bot answers to a chat command.

use vstd::prelude::*;
use vstd::string::StringExecFns;
use crate::message::{slice_texts, Message, MessageView};
use crate::number::{decimal, decimal_string, lemma_parse_decimal, parse_i64, parse_number};
use crate::text::join_spaced;
use crate::utterance::{ParsedText, ParsedTextView};

verus! {

/// A chat message with the given text for `target`.
pub open spec fn privmsg(target: Seq<char>, text: Seq<char>) -> MessageView {
    MessageView { prefix: None, command: "PRIVMSG"@, parameters: seq![target, text] }
}

/// The sum of the parameters that write a 64-bit number; the others count
/// for nothing.
pub open spec fn sum_of(parameters: Seq<Seq<char>>) -> int
    decreases parameters.len(),
{
    if parameters.len() == 0 {
        0
    } else {
        sum_of(parameters.drop_last()) + match parse_i64(parameters.last()) {
            Some(v) => v as int,
            None => 0,
        }
    }
}

/// `v`, or the nearest number of 64 bits where `v` has more.
pub open spec fn clamp_i64(v: int) -> int {
    if v < i64::MIN {
        i64::MIN as int
    } else if v > i64::MAX {
        i64::MAX as int
    } else {
        v
    }
}

/// The largest number that `random` may answer to `parsed`, where `parsed`
/// asks for a number at all: the command is `random` and its one parameter
/// writes a number that is not negative. The answer is at most that
/// parameter, and less than the largest number of 64 bits.
pub open spec fn draw_bound(parsed: ParsedTextView) -> Option<int> {
    if parsed.command == "random"@ && parsed.parameters.len() == 1 {
        match parse_i64(parsed.parameters[0]) {
            Some(max) => if max < 0 {
                None
            } else if max == i64::MAX {
                Some(max - 1)
            } else {
                Some(max as int)
            },
            None => None,
        }
    } else {
        None
    }
}

/// `draw` is a number that may be drawn for `parsed`: one from zero to the
/// bound where `parsed` asks for a number, and zero (which is then not
/// looked at) where it does not.
pub open spec fn draw_fits(parsed: ParsedTextView, draw: int) -> bool {
    match draw_bound(parsed) {
        Some(max) => 0 <= draw <= max,
        None => draw == 0,
    }
}

/// The answer to the command `parsed`, sent to `reply_chan`, where `draw` is
/// the number drawn for it.
///
/// - `sum` answers with the sum of its numeric parameters, held to 64 bits.
/// - `echo` answers with its parameters, one space between them.
/// - `random` answers with `draw` where its one parameter writes a number
///   that is not negative, and else says what is wrong.
/// - Any other command gets no answer.
pub open spec fn spec_reply(reply_chan: Seq<char>, parsed: ParsedTextView, draw: int) -> Option<
    MessageView,
> {
    if parsed.command == "sum"@ {
        Some(privmsg(reply_chan, "The sum is "@ + decimal(clamp_i64(sum_of(parsed.parameters)))))
    } else if parsed.command == "echo"@ {
        Some(privmsg(reply_chan, join_spaced(parsed.parameters)))
    } else if parsed.command == "random"@ {
        if parsed.parameters.len() != 1 {
            Some(privmsg(reply_chan, "Random take one parameter"@))
        } else {
            match parse_i64(parsed.parameters[0]) {
                None => Some(privmsg(reply_chan, parsed.parameters[0] + " is not a number"@)),
                Some(max) => if max < 0 {
                    Some(privmsg(reply_chan, decimal(max as int) + " is below 0"@))
                } else {
                    Some(privmsg(reply_chan, decimal(draw)))
                },
            }
        }
    } else {
        None
    }
}

/// The commands that the table holds.
pub open spec fn is_known_command(command: Seq<char>) -> bool {
    command == "sum"@ || command == "echo"@ || command == "random"@
}

/// A command that the table does not hold gets no answer, whatever its
/// parameters are and whatever number is drawn.
pub proof fn lemma_unknown_command_gets_no_reply(
    reply_chan: Seq<char>,
    parsed: ParsedTextView,
    draw: int,
)
    requires
        !is_known_command(parsed.command),
    ensures
        spec_reply(reply_chan, parsed, draw) is None,
{
}

/// Where `random` has a number to give, its answer is a text that reads back
/// as a number from zero to the number that its parameter writes.
pub proof fn lemma_random_reply_is_in_range(
    reply_chan: Seq<char>,
    parsed: ParsedTextView,
    draw: int,
)
    requires
        draw_bound(parsed) is Some,
        draw_fits(parsed, draw),
    ensures
        spec_reply(reply_chan, parsed, draw) == Some(privmsg(reply_chan, decimal(draw))),
        parse_i64(decimal(draw)) == Some(draw as i64),
        parse_i64(parsed.parameters[0]) matches Some(max) && 0 <= draw <= max,
{
    reveal_strlit("sum");
    reveal_strlit("echo");
    reveal_strlit("random");
    assert("sum"@.len() == 3 && "echo"@.len() == 4 && "random"@.len() == 6);
    lemma_parse_decimal(draw);
}

/// What an optional message holds.
pub open spec fn reply_view(reply: Option<Message>) -> Option<MessageView> {
    match reply {
        Some(m) => Some(m@),
        None => None,
    }
}

/// A chat message with the given text for `target`.
pub fn privmsg_to(target: &str, text: &str) -> (m: Message)
    ensures
        m@ == privmsg(target@, text@),
{
    let mut parameters: Vec<String> = Vec::new();
    parameters.push(target.to_owned());
    parameters.push(text.to_owned());
    let m = Message { prefix: None, command: "PRIVMSG".to_owned(), parameters };
    assert(m@.parameters =~= seq![target@, text@]);
    m
}

/// The sum of the numeric parameters, held to 64 bits.
fn sum_parameters(parameters: &Vec<&str>) -> (total: i64)
    ensures
        total == clamp_i64(sum_of(slice_texts(parameters@))),
{
    let ghost all = slice_texts(parameters@);
    let mut acc: i128 = 0;
    let mut i: usize = 0;
    while i < parameters.len()
        invariant
            i <= parameters.len(),
            all == slice_texts(parameters@),
            acc == sum_of(all.take(i as int)),
            -(i * 0x8000_0000_0000_0000) <= acc <= i * 0x8000_0000_0000_0000,
        decreases parameters.len() - i,
    {
        proof {
            assert(all.take(i + 1).drop_last() =~= all.take(i as int));
        }
        match parse_number(parameters[i]) {
            Some(v) => {
                acc = acc + v as i128;
            },
            None => {},
        }
        i += 1;
    }
    assert(all.take(i as int) =~= all);
    if acc < i64::MIN as i128 {
        i64::MIN
    } else if acc > i64::MAX as i128 {
        i64::MAX
    } else {
        acc as i64
    }
}

/// The parameters in order, with one space between neighbours.
fn join_parameters(parameters: &Vec<&str>) -> (joined: String)
    ensures
        joined@ == join_spaced(slice_texts(parameters@)),
{
    let ghost all = slice_texts(parameters@);
    let mut joined = String::new();
    let mut i: usize = 0;
    while i < parameters.len()
        invariant
            i <= parameters.len(),
            all == slice_texts(parameters@),
            joined@ == join_spaced(all.take(i as int)),
        decreases parameters.len() - i,
    {
        proof {
            reveal_strlit(" ");
            assert(all.take(i + 1).drop_last() =~= all.take(i as int));
        }
        if i > 0 {
            joined.append(" ");
        }
        joined.append(parameters[i]);
        i += 1;
    }
    assert(all.take(i as int) =~= all);
    joined
}

/// Answers the command `parsed` with a message for `reply_chan`. `draw` is the
/// number that `random` answers with where it has a number to give.
pub fn reply_to_command(reply_chan: &str, parsed: &ParsedText, draw: i64) -> (reply: Option<
    Message,
>)
    ensures
        reply_view(reply) == spec_reply(reply_chan@, parsed@, draw as int),
        reply is Some <==> is_known_command(parsed@.command),
{
    if parsed.command.eq("sum") {
        let total = sum_parameters(&parsed.parameters);
        let mut text = String::from_str("The sum is ");
        text.append(decimal_string(total).as_str());
        Some(privmsg_to(reply_chan, text.as_str()))
    } else if parsed.command.eq("echo") {
        let text = join_parameters(&parsed.parameters);
        Some(privmsg_to(reply_chan, text.as_str()))
    } else if parsed.command.eq("random") {
        if parsed.parameters.len() != 1 {
            return Some(privmsg_to(reply_chan, "Random take one parameter"));
        }
        match parse_number(parsed.parameters[0]) {
            None => {
                let mut text = String::from_str(parsed.parameters[0]);
                text.append(" is not a number");
                Some(privmsg_to(reply_chan, text.as_str()))
            },
            Some(max) => {
                if max < 0 {
                    let mut text = decimal_string(max);
                    text.append(" is below 0");
                    Some(privmsg_to(reply_chan, text.as_str()))
                } else {
                    Some(privmsg_to(reply_chan, decimal_string(draw).as_str()))
                }
            },
        }
    } else {
        None
    }
}

/// The largest number that `random` may answer to `parsed`, where `parsed`
/// asks for a number.
pub fn random_bound(parsed: &ParsedText) -> (bound: Option<i64>)
    ensures
        match draw_bound(parsed@) {
            Some(max) => bound == Some(max as i64) && 0 <= max < i64::MAX,
            None => bound is None,
        },
{
    if parsed.command.eq("random") && parsed.parameters.len() == 1 {
        match parse_number(parsed.parameters[0]) {
            Some(max) => {
                if max < 0 {
                    None
                } else if max == i64::MAX {
                    Some(max - 1)
                } else {
                    Some(max)
                }
            },
            None => None,
        }
    } else {
        None
    }
}

/// One number from `low` up to, but not including, `high`, drawn by
/// `rand::distributions::Range::new(low, high)` from the generator of
/// `rand::thread_rng()`.
///
/// Trusted: the crate builds the range for any `low < high` (and panics for
/// any other), and its integer sampler returns `low` plus a remainder of the
/// division by `high - low`. Nothing is claimed of how the numbers are
/// spread, and the same call may give another number each time.
#[verifier::external_body]
fn draw_between(low: i64, high: i64) -> (drawn: i64)
    requires
        low < high,
    ensures
        low <= drawn < high,
{
    let range = rand::distributions::Range::new(low, high);
    rand::distributions::IndependentSample::ind_sample(&range, &mut rand::thread_rng())
}

/// Answers the command `parsed` with a message for `reply_chan`, drawing the
/// number that `random` asks for.
///
/// The answer is the one that `spec_reply` names for some number that fits:
/// for `random` with a bound, any number from zero to the bound; for every
/// other command the answer does not depend on a number.
pub fn message_from_command(reply_chan: &str, parsed: ParsedText) -> (reply: Option<Message>)
    ensures
        exists|draw: int| #[trigger]
            draw_fits(parsed@, draw) && reply_view(reply) == spec_reply(
                reply_chan@,
                parsed@,
                draw,
            ),
        reply is Some <==> is_known_command(parsed@.command),
{
    let draw = match random_bound(&parsed) {
        Some(max) => draw_between(0, max + 1),
        None => 0,
    };
    assert(draw_fits(parsed@, draw as int));
    reply_to_command(reply_chan, &parsed, draw)
}

} // verus!
