//! The part of the line grammar that records and chat commands share: a
//! command token, one space, and a list of parameters.
//!
//! ```text
//! command-line = command " " parameters
//! parameters   = ":" rest-of-line
//!              | token
//!              | token " " parameters
//! ```
//!
//! A token is a longest run of one or more characters other than a space. A
//! parameter that starts with `:` is read as the rest of the line, spaces
//! included, and so is always the last one; the `:` itself is not part of it.
//! The whole text has to fit: an empty token (two spaces in a row, or a space
//! at the end) fits nowhere.

use vstd::prelude::*;
use vstd::string::StrSliceExecFns;
use crate::message::slice_texts;
use crate::text::{is_token, lemma_run_len, lemma_skip_skip, run_end, token_len};

verus! {

/// Why a line could not be read.
#[derive(Debug, Clone, Copy, PartialEq, Eq)]
pub enum DecodeError {
    /// The line is no text, or the text does not fit the grammar.
    Malformed,
}

/// The parameters that the text `s` lists, or `None` where `s` is not a
/// parameter list.
pub open spec fn spec_parameters(s: Seq<char>) -> Option<Seq<Seq<char>>>
    decreases s.len(),
{
    if s.len() > 0 && s[0] == ':' {
        Some(seq![s.skip(1)])
    } else {
        let k = token_len(s) as int;
        if k == 0 {
            None
        } else if k >= s.len() {
            Some(seq![s])
        } else {
            match spec_parameters(s.skip(k + 1)) {
                Some(rest) => Some(seq![s.take(k)] + rest),
                None => None,
            }
        }
    }
}

/// The command and the parameters that the text `s` holds, or `None` where
/// `s` is not a command, a space and a parameter list.
pub open spec fn spec_command_line(s: Seq<char>) -> Option<(Seq<char>, Seq<Seq<char>>)> {
    let k = token_len(s) as int;
    if k == 0 || k >= s.len() {
        None
    } else {
        match spec_parameters(s.skip(k + 1)) {
            Some(parameters) => Some((s.take(k), parameters)),
            None => None,
        }
    }
}

/// A non-empty prefix of a text that stops before its first space is a token.
pub(crate) proof fn lemma_leading_token(s: Seq<char>)
    requires
        token_len(s) > 0,
    ensures
        is_token(s.take(token_len(s) as int)),
{
    lemma_run_len(s, ' ');
}

/// A parameter list that was read has a parameter, and each of its parameters
/// but the last is a token that does not start with `:`.
pub proof fn lemma_parameters_are_tokens(s: Seq<char>)
    ensures
        spec_parameters(s) matches Some(parameters) ==> {
            &&& parameters.len() >= 1
            &&& forall|i: int|
                0 <= i < parameters.len() - 1 ==> is_token(#[trigger] parameters[i])
                    && parameters[i][0] != ':'
        },
    decreases s.len(),
{
    if s.len() > 0 && s[0] == ':' {
    } else {
        let k = token_len(s) as int;
        lemma_run_len(s, ' ');
        if k == 0 || k >= s.len() {
        } else {
            lemma_parameters_are_tokens(s.skip(k + 1));
            lemma_leading_token(s);
        }
    }
}

/// A command line that was read has a token for its command, and parameters
/// as `lemma_parameters_are_tokens` says.
pub proof fn lemma_command_line_is_tokens(s: Seq<char>)
    ensures
        spec_command_line(s) matches Some((command, parameters)) ==> {
            &&& is_token(command)
            &&& parameters.len() >= 1
            &&& forall|i: int|
                0 <= i < parameters.len() - 1 ==> is_token(#[trigger] parameters[i])
                    && parameters[i][0] != ':'
        },
{
    let k = token_len(s) as int;
    if k > 0 {
        lemma_leading_token(s);
        lemma_parameters_are_tokens(s.skip(k + 1));
    }
}

/// Reads the parameter list that starts at character `from` of `text`.
/// `cs` holds the characters of `text`.
pub(crate) fn parse_parameters<'a>(text: &'a str, cs: &Vec<char>, from: usize) -> (r: Option<
    Vec<&'a str>,
>)
    requires
        cs@ == text@,
        from <= cs.len(),
    ensures
        match spec_parameters(text@.skip(from as int)) {
            Some(parameters) => r matches Some(found) && slice_texts(found@) == parameters,
            None => r is None,
        },
{
    let n = cs.len();
    let ghost whole = spec_parameters(text@.skip(from as int));
    let mut found: Vec<&'a str> = Vec::new();
    let mut i: usize = from;
    loop
        invariant
            cs@ == text@,
            n == cs.len(),
            from <= i <= n,
            whole == spec_parameters(text@.skip(from as int)),
            whole == match spec_parameters(text@.skip(i as int)) {
                Some(rest) => Some(slice_texts(found@) + rest),
                None => None,
            },
        decreases n - i,
    {
        let ghost here = text@.skip(i as int);
        let ghost before = slice_texts(found@);
        if i < n && cs[i] == ':' {
            let last = text.substring_char(i + 1, n);
            found.push(last);
            proof {
                assert(here.skip(1) =~= text@.subrange(i + 1, n as int));
            }
            return Some(found);
        }
        let end = run_end(cs, i, ' ');
        if end == i {
            return None;
        }
        let token = text.substring_char(i, end);
        found.push(token);
        proof {
            lemma_skip_skip(text@, i as int, end - i);
        }
        if end == n {
            return Some(found);
        }
        proof {
            lemma_skip_skip(text@, i as int, end - i + 1);
            let next = text@.skip(end + 1);
            match spec_parameters(next) {
                Some(rest) => {
                    assert(before + (seq![here.take(end - i)] + rest) =~= slice_texts(found@)
                        + rest);
                },
                None => {},
            }
        }
        i = end + 1;
    }
}

/// Reads the command and the parameter list that start at character `from` of
/// `text`. `cs` holds the characters of `text`.
pub(crate) fn parse_command_line<'a>(text: &'a str, cs: &Vec<char>, from: usize) -> (r: Option<
    (&'a str, Vec<&'a str>),
>)
    requires
        cs@ == text@,
        from <= cs.len(),
    ensures
        match spec_command_line(text@.skip(from as int)) {
            Some((command, parameters)) => r matches Some((c, p)) && c@ == command
                && slice_texts(p@) == parameters,
            None => r is None,
        },
{
    let n = cs.len();
    let end = run_end(cs, from, ' ');
    if end == from || end == n {
        return None;
    }
    let command = text.substring_char(from, end);
    proof {
        lemma_skip_skip(text@, from as int, end - from);
        lemma_skip_skip(text@, from as int, end - from + 1);
    }
    match parse_parameters(text, cs, end + 1) {
        Some(parameters) => Some((command, parameters)),
        None => None,
    }
}

} // verus!
