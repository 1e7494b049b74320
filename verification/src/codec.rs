//! Reading a record from its line.
//!
//! ```text
//! record = [ ":" prefix " " ] command-line
//! ```
//!
//! A line comes as bytes, which have to be UTF-8, and is read as text. It has
//! a prefix where it starts with `:`, at least one more character follows
//! before its first space, and that space is not its last character. The
//! prefix is what stands between the `:` and that space, and the command line
//! is read after the space. Any other line is read as a command line from its
//! start.
//!
//! What `Message::serialize` writes is read back, as far as it can be: the
//! laws at the end of this file say for which records.

use vstd::prelude::*;
use vstd::string::{StrSliceExecFns, StringSliceAdditionalSpecFns};
use vstd::utf8::{
    decode_utf8, encode_utf8, encode_utf8_decode_utf8, encode_utf8_valid_utf8, valid_utf8,
};
use crate::grammar::{
    lemma_command_line_is_tokens, lemma_parameters_are_tokens, parse_command_line,
    spec_command_line, spec_parameters, DecodeError,
};
use crate::message::{
    each_spaced, parameters_text, prefix_text, slice_texts, spec_serialize, texts, Message,
    MessageView,
};
use crate::text::{chars_of, is_token, lemma_run_len, lemma_run_len_is, run_end, token_len};

verus! {

/// The position of the space that ends the prefix of the line `s`, where `s`
/// has a prefix.
pub open spec fn prefix_end(s: Seq<char>) -> Option<int> {
    let e = token_len(s) as int;
    if s.len() > 0 && s[0] == ':' && 2 <= e < s.len() {
        Some(e)
    } else {
        None
    }
}

/// The record that the line `s` stands for, or `None` where `s` does not fit
/// the grammar.
pub open spec fn spec_deserialize_message(s: Seq<char>) -> Option<MessageView> {
    match prefix_end(s) {
        Some(e) => match spec_command_line(s.skip(e + 1)) {
            Some((command, parameters)) => Some(
                MessageView { prefix: Some(s.subrange(1, e)), command, parameters },
            ),
            None => None,
        },
        None => match spec_command_line(s) {
            Some((command, parameters)) => Some(MessageView { prefix: None, command, parameters }),
            None => None,
        },
    }
}

/// The record that the bytes of a line stand for: the record of the text
/// that they encode in UTF-8, and `None` where they encode no text.
pub open spec fn spec_deserialize_bytes(line: Seq<u8>) -> Option<MessageView> {
    if valid_utf8(line) {
        spec_deserialize_message(decode_utf8(line))
    } else {
        None
    }
}

/// The error of `std::str::from_utf8`. Nothing is read from it.
#[verifier::external_type_specification]
#[verifier::external_body]
pub struct ExUtf8Error(core::str::Utf8Error);

/// `std::str::from_utf8` takes bytes as a string slice. Trusted: it succeeds
/// exactly where the bytes are valid UTF-8, and the slice then holds these
/// very bytes.
pub assume_specification[ core::str::from_utf8 ](bytes: &[u8]) -> (r: Result<
    &str,
    core::str::Utf8Error,
>)
    ensures
        r is Ok <==> valid_utf8(bytes@),
        r matches Ok(text) ==> text.spec_bytes() == bytes@,
;

/// Reads a record from the bytes of its line, given without a line
/// terminator.
///
/// Succeeds exactly on the lines that are UTF-8 text and fit the grammar,
/// with the prefix, the command and the parameters that
/// `spec_deserialize_bytes` names.
pub fn deserialize_message(line: &[u8]) -> (r: Result<Message, DecodeError>)
    ensures
        match spec_deserialize_bytes(line@) {
            Some(m) => r matches Ok(read) && read@ == m,
            None => r matches Err(DecodeError::Malformed),
        },
        r matches Ok(read) ==> read@.well_formed(),
{
    match core::str::from_utf8(line) {
        Ok(text) => {
            proof {
                encode_utf8_decode_utf8(text@);
            }
            deserialize_line(text)
        },
        Err(_) => Err(DecodeError::Malformed),
    }
}

/// Reads a record from the text of its line, given without a line
/// terminator.
///
/// Succeeds exactly on the lines that fit the grammar, with the prefix, the
/// command and the parameters that `spec_deserialize_message` names.
pub fn deserialize_line(line: &str) -> (r: Result<Message, DecodeError>)
    ensures
        match spec_deserialize_message(line@) {
            Some(m) => r matches Ok(read) && read@ == m,
            None => r matches Err(DecodeError::Malformed),
        },
        r matches Ok(read) ==> read@.well_formed(),
{
    proof {
        lemma_read_is_well_formed(line@);
    }
    let cs = chars_of(line);
    let n = cs.len();
    let end = run_end(&cs, 0, ' ');
    assert(line@.skip(0) =~= line@);
    if n > 0 && cs[0] == ':' && 2 <= end && end < n {
        match parse_command_line(line, &cs, end + 1) {
            Some((command, parameters)) => Ok(
                Message {
                    prefix: Some(line.substring_char(1, end).to_owned()),
                    command: command.to_owned(),
                    parameters: owned_texts(&parameters),
                },
            ),
            None => Err(DecodeError::Malformed),
        }
    } else {
        match parse_command_line(line, &cs, 0) {
            Some((command, parameters)) => Ok(
                Message {
                    prefix: None,
                    command: command.to_owned(),
                    parameters: owned_texts(&parameters),
                },
            ),
            None => Err(DecodeError::Malformed),
        }
    }
}

/// Owned copies of the given slices.
fn owned_texts(parts: &Vec<&str>) -> (owned: Vec<String>)
    ensures
        texts(owned@) == slice_texts(parts@),
{
    let mut owned: Vec<String> = Vec::new();
    let mut i: usize = 0;
    while i < parts.len()
        invariant
            i <= parts.len(),
            owned.len() == i,
            forall|j: int| 0 <= j < i ==> owned[j]@ == parts[j]@,
        decreases parts.len() - i,
    {
        owned.push(parts[i].to_owned());
        i += 1;
    }
    assert(texts(owned@) =~= slice_texts(parts@));
    owned
}

/// Reading the UTF-8 bytes of a text is reading the text.
pub proof fn lemma_bytes_of_text(line: Seq<char>)
    ensures
        spec_deserialize_bytes(encode_utf8(line)) == spec_deserialize_message(line),
{
    encode_utf8_valid_utf8(line);
    encode_utf8_decode_utf8(line);
}

/// A record that was read is well formed; it has a parameter, its command is
/// a token, and so is its prefix where it has one.
pub proof fn lemma_read_is_well_formed(s: Seq<char>)
    ensures
        spec_deserialize_message(s) matches Some(m) ==> {
            &&& m.well_formed()
            &&& m.parameters.len() >= 1
            &&& is_token(m.command)
            &&& m.prefix matches Some(p) ==> is_token(p)
        },
{
    lemma_run_len(s, ' ');
    match prefix_end(s) {
        Some(e) => {
            lemma_command_line_is_tokens(s.skip(e + 1));
            let p = s.subrange(1, e);
            if p.contains(' ') {
                let j = choose|j: int| 0 <= j < p.len() && p[j] == ' ';
                assert(s[j + 1] == ' ');
            }
        },
        None => {
            lemma_command_line_is_tokens(s);
        },
    }
}

/// The line of a record as the grammar has it: a `:` before the prefix, and
/// the last parameter after a `:` where `marked` says so. `serialize` writes
/// the second and leaves out the first.
pub open spec fn line_of(m: MessageView, marked: bool) -> Seq<char> {
    let origin = match m.prefix {
        Some(p) => seq![':'] + p + seq![' '],
        None => Seq::empty(),
    };
    let mark = if marked {
        seq![':']
    } else {
        Seq::empty()
    };
    origin + m.command + seq![' '] + each_spaced(m.parameters.drop_last()) + mark
        + m.parameters.last()
}

/// A line that was read is the line of its record, with or without a `:`
/// before the last parameter.
pub proof fn lemma_read_is_line_of(s: Seq<char>)
    ensures
        spec_deserialize_message(s) matches Some(m) ==> s == line_of(m, true) || s == line_of(
            m,
            false,
        ),
{
    lemma_run_len(s, ' ');
    match prefix_end(s) {
        Some(e) => {
            let after = s.skip(e + 1);
            let k = token_len(after) as int;
            lemma_run_len(after, ' ');
            if 0 < k < after.len() {
                lemma_parameters_text(after.skip(k + 1));
                match spec_deserialize_message(s) {
                    Some(m) => {
                        assert(after =~= after.take(k) + seq![' '] + after.skip(k + 1));
                        assert(s =~= seq![':'] + s.subrange(1, e) + seq![' '] + after);
                        let tail = after.skip(k + 1);
                        if tail == each_spaced(m.parameters.drop_last()) + seq![':']
                            + m.parameters.last() {
                            assert(s =~= line_of(m, true));
                        } else {
                            assert(s =~= line_of(m, false));
                        }
                    },
                    None => {},
                }
            }
        },
        None => {
            let k = token_len(s) as int;
            if 0 < k < s.len() {
                lemma_parameters_text(s.skip(k + 1));
                match spec_deserialize_message(s) {
                    Some(m) => {
                        assert(s =~= s.take(k) + seq![' '] + s.skip(k + 1));
                        let tail = s.skip(k + 1);
                        if tail == each_spaced(m.parameters.drop_last()) + seq![':']
                            + m.parameters.last() {
                            assert(s =~= line_of(m, true));
                        } else {
                            assert(s =~= line_of(m, false));
                        }
                    },
                    None => {},
                }
            }
        },
    }
}

/// A text that can stand before the last parameter of a list and be read
/// back as one parameter: a token that does not start with `:`.
pub open spec fn is_middle(s: Seq<char>) -> bool {
    is_token(s) && s[0] != ':'
}

/// The records whose command and parameters come back when the line that
/// `serialize` writes for them is read again.
///
/// They have a parameter; the command is a token, and so is every parameter
/// but the last, none of which starts with `:`. `serialize` writes no `:`
/// before a prefix, so a prefix is read back as the command, unless it
/// brings its own `:`; and a command that starts with `:` is read back as a
/// prefix, unless it is the `:` alone or follows a prefix.
pub open spec fn round_trips(m: MessageView) -> bool {
    &&& m.parameters.len() >= 1
    &&& forall|i: int| 0 <= i < m.parameters.len() - 1 ==> is_middle(#[trigger] m.parameters[i])
    &&& is_token(m.command)
    &&& match m.prefix {
        Some(p) => p.len() >= 2 && p[0] == ':' && !p.contains(' '),
        None => m.command[0] != ':' || m.command.len() == 1,
    }
}

/// Reading the line that `serialize` writes for a record gives the command
/// and the parameters of that record back, for every record of
/// `round_trips`, from the text of the line and from its bytes.
pub proof fn lemma_serialize_round_trip(m: MessageView)
    requires
        round_trips(m),
    ensures
        spec_deserialize_message(spec_serialize(m)) matches Some(read) && read.command
            == m.command && read.parameters == m.parameters,
        spec_deserialize_bytes(encode_utf8(spec_serialize(m))) matches Some(read) && read.command
            == m.command && read.parameters == m.parameters,
{
    let line = spec_serialize(m);
    lemma_bytes_of_text(line);
    let tail = parameters_text(m.parameters);
    lemma_command_line_round_trip(m.command, m.parameters);
    match m.prefix {
        Some(p) => {
            assert(line =~= p + seq![' '] + (m.command + seq![' '] + tail));
            lemma_token_then_space(p, m.command + seq![' '] + tail);
            assert(line[0] == p[0]);
        },
        None => {
            assert(line =~= m.command + seq![' '] + tail);
            lemma_token_then_space(m.command, tail);
            assert(line[0] == m.command[0]);
        },
    }
}

/// No other record comes back: where reading the line that `serialize`
/// writes for a record gives its command and its parameters back, the record
/// is one of `round_trips`.
pub proof fn lemma_round_trip_only(m: MessageView)
    requires
        spec_deserialize_message(spec_serialize(m)) matches Some(read) && read.command
            == m.command && read.parameters == m.parameters,
    ensures
        round_trips(m),
{
    let line = spec_serialize(m);
    let size = m.command.len() + each_spaced(m.parameters).len();
    lemma_read_is_well_formed(line);
    lemma_run_len(line, ' ');
    assert(line.len() == prefix_text(m.prefix).len() + size + 1);
    assert forall|i: int| 0 <= i < m.parameters.len() - 1 implies is_middle(
        #[trigger] m.parameters[i],
    ) by {
        match prefix_end(line) {
            Some(e) => lemma_command_line_is_tokens(line.skip(e + 1)),
            None => lemma_command_line_is_tokens(line),
        }
    }
    let tail = parameters_text(m.parameters);
    match prefix_end(line) {
        Some(e) => {
            lemma_command_line_len(line.skip(e + 1));
            match m.prefix {
                Some(p) => {
                    assert(line =~= p + seq![' '] + (m.command + seq![' '] + tail));
                    assert(line[p.len() as int] == ' ');
                    assert(e == p.len());
                    if p.contains(' ') {
                        let j = choose|j: int| 0 <= j < p.len() && p[j] == ' ';
                        assert(line[j] == ' ');
                    }
                    assert(line[0] == p[0]);
                },
                None => {},
            }
        },
        None => {
            lemma_command_line_len(line);
            match m.prefix {
                Some(p) => {},
                None => {
                    assert(line =~= m.command + seq![' '] + tail);
                    lemma_token_then_space(m.command, tail);
                    assert(line[0] == m.command[0]);
                },
            }
        },
    }
}

/// A parameter list that `serialize` wrote reads back as it was.
pub proof fn lemma_parameters_round_trip(parameters: Seq<Seq<char>>)
    requires
        parameters.len() >= 1,
        forall|i: int| 0 <= i < parameters.len() - 1 ==> is_middle(#[trigger] parameters[i]),
    ensures
        spec_parameters(parameters_text(parameters)) == Some(parameters),
    decreases parameters.len(),
{
    let line = parameters_text(parameters);
    if parameters.len() == 1 {
        assert(parameters.drop_last() =~= Seq::<Seq<char>>::empty());
        assert(line =~= seq![':'] + parameters[0]);
        assert(line.skip(1) =~= parameters[0]);
        assert(seq![line.skip(1)] =~= parameters);
    } else {
        let first = parameters[0];
        let others = parameters.skip(1);
        assert(is_middle(first));
        lemma_each_spaced_front(parameters.drop_last());
        assert(parameters.drop_last().skip(1) =~= others.drop_last());
        assert(others.last() == parameters.last());
        assert(line =~= first + seq![' '] + parameters_text(others));
        lemma_token_then_space(first, parameters_text(others));
        assert(line[0] == first[0]);
        assert forall|i: int| 0 <= i < others.len() - 1 implies is_middle(
            #[trigger] others[i],
        ) by {
            assert(others[i] == parameters[i + 1]);
        }
        lemma_parameters_round_trip(others);
        assert(seq![first] + others =~= parameters);
    }
}

/// A command line that `serialize` wrote reads back as it was.
pub proof fn lemma_command_line_round_trip(command: Seq<char>, parameters: Seq<Seq<char>>)
    requires
        is_token(command),
        parameters.len() >= 1,
        forall|i: int| 0 <= i < parameters.len() - 1 ==> is_middle(#[trigger] parameters[i]),
    ensures
        spec_command_line(command + seq![' '] + parameters_text(parameters)) == Some(
            (command, parameters),
        ),
{
    lemma_token_then_space(command, parameters_text(parameters));
    lemma_parameters_round_trip(parameters);
}

/// A text without a space, followed by a space, is a run that ends at that
/// space.
proof fn lemma_token_then_space(token: Seq<char>, rest: Seq<char>)
    requires
        !token.contains(' '),
    ensures
        token_len(token + seq![' '] + rest) == token.len(),
        (token + seq![' '] + rest).take(token.len() as int) == token,
        (token + seq![' '] + rest).skip(token.len() as int + 1) == rest,
{
    let s = token + seq![' '] + rest;
    assert forall|j: int| 0 <= j < token.len() implies s[j] != ' ' by {
        assert(s[j] == token[j]);
        assert(token.contains(token[j]));
    }
    lemma_run_len_is(s, ' ', token.len() as int);
    assert(s.take(token.len() as int) =~= token);
    assert(s.skip(token.len() as int + 1) =~= rest);
}

/// `each_spaced` taken from the front.
proof fn lemma_each_spaced_front(parts: Seq<Seq<char>>)
    requires
        parts.len() >= 1,
    ensures
        each_spaced(parts) == parts[0] + seq![' '] + each_spaced(parts.skip(1)),
    decreases parts.len(),
{
    if parts.len() == 1 {
        assert(parts.drop_last() =~= Seq::<Seq<char>>::empty());
        assert(parts.skip(1) =~= Seq::<Seq<char>>::empty());
        assert(each_spaced(parts) =~= parts[0] + seq![' '] + each_spaced(parts.skip(1)));
    } else {
        let init = parts.drop_last();
        lemma_each_spaced_front(init);
        assert(init.skip(1) =~= parts.skip(1).drop_last());
        assert(parts.skip(1).last() == parts.last());
        assert(each_spaced(parts) =~= parts[0] + seq![' '] + each_spaced(parts.skip(1)));
    }
}

/// A parameter list that was read is the text of its parameters: each but
/// the last followed by a space, and the last one with or without a `:`
/// before it.
proof fn lemma_parameters_text(s: Seq<char>)
    ensures
        spec_parameters(s) matches Some(parameters) ==> {
            ||| s == each_spaced(parameters.drop_last()) + seq![':'] + parameters.last()
            ||| s == each_spaced(parameters.drop_last()) + parameters.last()
        },
    decreases s.len(),
{
    assert(each_spaced(Seq::<Seq<char>>::empty()) =~= Seq::<char>::empty());
    if s.len() > 0 && s[0] == ':' {
        let parameters = seq![s.skip(1)];
        assert(parameters.drop_last() =~= Seq::<Seq<char>>::empty());
        assert(s =~= each_spaced(parameters.drop_last()) + seq![':'] + parameters.last());
    } else {
        let k = token_len(s) as int;
        lemma_run_len(s, ' ');
        if k == 0 {
        } else if k >= s.len() {
            let parameters = seq![s];
            assert(parameters.drop_last() =~= Seq::<Seq<char>>::empty());
            assert(s =~= each_spaced(parameters.drop_last()) + parameters.last());
        } else {
            let after = s.skip(k + 1);
            lemma_parameters_text(after);
            lemma_parameters_are_tokens(after);
            match spec_parameters(after) {
                Some(rest) => {
                    let parameters = seq![s.take(k)] + rest;
                    let init = parameters.drop_last();
                    lemma_each_spaced_front(init);
                    assert(init.skip(1) =~= rest.drop_last());
                    assert(parameters.last() == rest.last());
                    assert(s =~= s.take(k) + seq![' '] + after);
                    if after == each_spaced(rest.drop_last()) + seq![':'] + rest.last() {
                        assert(s =~= each_spaced(init) + seq![':'] + parameters.last());
                    } else {
                        assert(s =~= each_spaced(init) + parameters.last());
                    }
                },
                None => {},
            }
        }
    }
}

/// How long a command line is that was read.
proof fn lemma_command_line_len(s: Seq<char>)
    ensures
        spec_command_line(s) matches Some((command, parameters)) ==> command.len()
            + each_spaced(parameters).len() <= s.len() <= command.len() + each_spaced(
            parameters,
        ).len() + 1,
{
    let k = token_len(s) as int;
    lemma_run_len(s, ' ');
    if 0 < k < s.len() {
        lemma_parameters_text(s.skip(k + 1));
        lemma_parameters_are_tokens(s.skip(k + 1));
    }
}

} // verus!
