//! Chat text addressed to the bot: an optional mention, then a command and
//! its parameters.
//!
//! ```text
//! utterance = [ mention ": " ] command-line
//! ```
//!
//! The text holds a mention where its first `": "` comes before any other
//! space and after at least one character; the mention is what stands before
//! that `": "`. The command line is then read after it, and otherwise from the
//! start of the text.

use vstd::prelude::*;
use vstd::string::StrSliceExecFns;
use crate::grammar::{parse_command_line, spec_command_line, DecodeError};
use crate::message::slice_texts;
use crate::text::{chars_of, lemma_run_len, lemma_run_len_is, run_end, token_len};

verus! {

/// One chat text, taken apart. The parts borrow from the text.
#[derive(Debug)]
pub struct ParsedText<'a> {
    /// Whom the text addresses, where it names someone.
    pub mention: Option<&'a str>,
    pub command: &'a str,
    pub parameters: Vec<&'a str>,
}

/// What a `ParsedText` holds, as character sequences.
pub ghost struct ParsedTextView {
    pub mention: Option<Seq<char>>,
    pub command: Seq<char>,
    pub parameters: Seq<Seq<char>>,
}

impl<'a> View for ParsedText<'a> {
    type V = ParsedTextView;

    open spec fn view(&self) -> ParsedTextView {
        ParsedTextView {
            mention: match self.mention {
                Some(m) => Some(m@),
                None => None,
            },
            command: self.command@,
            parameters: slice_texts(self.parameters@),
        }
    }
}

/// The length of the mention that `s` starts with, where it starts with one:
/// the first space of `s` follows a `:` that is not the first character.
pub open spec fn mention_len(s: Seq<char>) -> Option<int> {
    let k = token_len(s) as int;
    if 2 <= k < s.len() && s[k - 1] == ':' {
        Some(k - 1)
    } else {
        None
    }
}

/// What the chat text `s` says, or `None` where it does not fit the grammar.
pub open spec fn spec_deserialize_text(s: Seq<char>) -> Option<ParsedTextView> {
    match mention_len(s) {
        Some(m) => match spec_command_line(s.skip(m + 2)) {
            Some((command, parameters)) => Some(
                ParsedTextView { mention: Some(s.take(m)), command, parameters },
            ),
            None => None,
        },
        None => match spec_command_line(s) {
            Some((command, parameters)) => Some(
                ParsedTextView { mention: None, command, parameters },
            ),
            None => None,
        },
    }
}

/// The two characters `": "` stand at position `i` of `s`.
pub open spec fn sentinel_at(s: Seq<char>, i: int) -> bool {
    0 <= i && i + 1 < s.len() && s[i] == ':' && s[i + 1] == ' '
}

/// `s` has a mention of length `m` exactly when `m` is not the start of `s`,
/// the first `": "` of `s` stands at `m`, and no space stands before `m`.
pub proof fn lemma_mention_is_first_sentinel(s: Seq<char>, m: int)
    ensures
        mention_len(s) == Some(m) <==> {
            &&& 0 < m
            &&& sentinel_at(s, m)
            &&& forall|i: int| 0 <= i < m ==> !sentinel_at(s, i)
            &&& forall|i: int| 0 <= i < m ==> s[i] != ' '
        },
{
    lemma_run_len(s, ' ');
    if 0 < m && sentinel_at(s, m) && (forall|i: int| 0 <= i < m ==> s[i] != ' ') {
        lemma_run_len_is(s, ' ', m + 1);
    }
}

/// Takes a chat text apart.
///
/// Succeeds exactly on the texts that fit the grammar, with the mention, the
/// command and the parameters that `spec_deserialize_text` names.
pub fn deserialize_text<'a>(text: &'a str) -> (r: Result<ParsedText<'a>, DecodeError>)
    ensures
        match spec_deserialize_text(text@) {
            Some(parsed) => r matches Ok(p) && p@ == parsed,
            None => r matches Err(DecodeError::Malformed),
        },
{
    let cs = chars_of(text);
    let k = run_end(&cs, 0, ' ');
    assert(text@.skip(0) =~= text@);
    if 2 <= k && k < cs.len() && cs[k - 1] == ':' {
        let mention = text.substring_char(0, k - 1);
        match parse_command_line(text, &cs, k + 1) {
            Some((command, parameters)) => Ok(
                ParsedText { mention: Some(mention), command, parameters },
            ),
            None => Err(DecodeError::Malformed),
        }
    } else {
        match parse_command_line(text, &cs, 0) {
            Some((command, parameters)) => Ok(ParsedText { mention: None, command, parameters }),
            None => Err(DecodeError::Malformed),
        }
    }
}

} // verus!
