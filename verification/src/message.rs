//! One protocol record, inbound or outbound.

use vstd::prelude::*;
use vstd::string::StringExecFns;
use vstd::string::StrSliceExecFns;
use crate::text::{chars_of, is_token, join_spaced, run_end, run_len};

verus! {

/// One protocol record.
///
/// `prefix` names the origin of an inbound record (`nick!user@host`, or a
/// server name) and is absent on records built locally. `command` is the
/// protocol verb or a three-digit reply code. Of `parameters` only the last
/// may hold spaces or be empty on the wire.
#[derive(Debug, PartialEq, Eq)]
pub struct Message {
    pub prefix: Option<String>,
    pub command: String,
    pub parameters: Vec<String>,
}

/// What a `Message` holds, as character sequences.
pub ghost struct MessageView {
    pub prefix: Option<Seq<char>>,
    pub command: Seq<char>,
    pub parameters: Seq<Seq<char>>,
}

/// The character sequences held by a list of owned strings.
pub open spec fn texts(v: Seq<String>) -> Seq<Seq<char>> {
    Seq::new(v.len(), |i: int| v[i]@)
}

/// The character sequences held by a list of string slices.
pub open spec fn slice_texts(v: Seq<&str>) -> Seq<Seq<char>> {
    Seq::new(v.len(), |i: int| v[i]@)
}

impl MessageView {
    /// Only the last parameter may hold a space or be empty: every parameter
    /// before it is a token.
    pub open spec fn well_formed(self) -> bool {
        forall|i: int| 0 <= i < self.parameters.len() - 1 ==> is_token(#[trigger] self.parameters[i])
    }

    /// The nickname of the origin: the prefix up to its first `!`, or all of
    /// it where it has none. A record without a prefix has no nickname.
    pub open spec fn nickname(self) -> Option<Seq<char>> {
        match self.prefix {
            Some(p) => Some(p.take(run_len(p, '!') as int)),
            None => None,
        }
    }
}

/// The texts in order, each followed by one space.
pub open spec fn each_spaced(parts: Seq<Seq<char>>) -> Seq<char>
    decreases parts.len(),
{
    if parts.len() == 0 {
        Seq::empty()
    } else {
        each_spaced(parts.drop_last()) + parts.last() + seq![' ']
    }
}

/// The prefix as `serialize` writes it: followed by one space, and with
/// nothing in front of it.
pub open spec fn prefix_text(prefix: Option<Seq<char>>) -> Seq<char> {
    match prefix {
        Some(p) => p + seq![' '],
        None => Seq::empty(),
    }
}

/// A parameter list of one or more parameters as `serialize` writes it: each
/// parameter but the last followed by one space, then a `:` and the last one.
pub open spec fn parameters_text(parameters: Seq<Seq<char>>) -> Seq<char> {
    each_spaced(parameters.drop_last()) + seq![':'] + parameters.last()
}

/// The line that stands for `m` on the wire.
///
/// The prefix, where there is one, and the command are each followed by one
/// space, and so is every parameter but the last; the last parameter is
/// written after a `:` and taken as it is, so that it may hold spaces or be
/// empty. A record without parameters is its prefix and its command, with
/// nothing after the command.
pub open spec fn spec_serialize(m: MessageView) -> Seq<char> {
    if m.parameters.len() == 0 {
        prefix_text(m.prefix) + m.command
    } else {
        prefix_text(m.prefix) + m.command + seq![' '] + parameters_text(m.parameters)
    }
}

/// The line that shows `m` to a reader: the prefix in round brackets where
/// there is one, the command, a colon, and the parameters with one space
/// between them.
pub open spec fn spec_display(m: MessageView) -> Seq<char> {
    let origin = match m.prefix {
        Some(p) => seq!['('] + p + seq![')', ' '],
        None => Seq::empty(),
    };
    origin + m.command + seq![':', ' '] + join_spaced(m.parameters)
}

impl View for Message {
    type V = MessageView;

    open spec fn view(&self) -> MessageView {
        MessageView {
            prefix: match self.prefix {
                Some(p) => Some(p@),
                None => None,
            },
            command: self.command@,
            parameters: texts(self.parameters@),
        }
    }
}

impl Clone for Message {
    fn clone(&self) -> (copy: Self)
        ensures
            copy@ == self@,
    {
        let mut parameters: Vec<String> = Vec::new();
        let mut i: usize = 0;
        while i < self.parameters.len()
            invariant
                i <= self.parameters.len(),
                parameters.len() == i,
                forall|j: int| 0 <= j < i ==> parameters[j]@ == self.parameters[j]@,
            decreases self.parameters.len() - i,
        {
            parameters.push(self.parameters[i].clone());
            i += 1;
        }
        assert(texts(parameters@) =~= texts(self.parameters@));
        let prefix = match &self.prefix {
            Some(p) => Some(p.clone()),
            None => None,
        };
        Message { prefix, command: self.command.clone(), parameters }
    }
}

impl Message {
    /// A locally built record: no prefix, the given command and parameters.
    pub fn new(command: &str, parameters: &[&str]) -> (m: Message)
        ensures
            m@ == (MessageView {
                prefix: None,
                command: command@,
                parameters: slice_texts(parameters@),
            }),
    {
        let mut params: Vec<String> = Vec::new();
        let mut i: usize = 0;
        while i < parameters.len()
            invariant
                i <= parameters.len(),
                params.len() == i,
                forall|j: int| 0 <= j < i ==> params[j]@ == parameters[j]@,
            decreases parameters.len() - i,
        {
            params.push(parameters[i].to_owned());
            i += 1;
        }
        assert(texts(params@) =~= slice_texts(parameters@));
        Message { prefix: None, command: command.to_owned(), parameters: params }
    }

    /// The nickname of the origin: the prefix up to its first `!`.
    pub fn nickname(&self) -> (nick: Option<&str>)
        ensures
            match nick {
                Some(n) => self@.nickname() == Some(n@),
                None => self@.nickname() is None,
            },
    {
        match &self.prefix {
            Some(prefix) => {
                let cs = chars_of(prefix.as_str());
                let end = run_end(&cs, 0, '!');
                assert(cs@.skip(0) =~= prefix@);
                Some(prefix.as_str().substring_char(0, end))
            },
            None => None,
        }
    }

    /// The line that stands for this record on the wire, without a line
    /// terminator.
    pub fn serialize(&self) -> (line: String)
        ensures
            line@ == spec_serialize(self@),
    {
        proof {
            reveal_strlit(" ");
            reveal_strlit(":");
        }
        let mut res = String::new();
        match &self.prefix {
            Some(prefix) => {
                res.append(prefix.as_str());
                res.append(" ");
            },
            None => {},
        }
        res.append(self.command.as_str());
        let n = self.parameters.len();
        if n == 0 {
            return res;
        }
        res.append(" ");
        let ghost head = res@;
        let ghost all = self@.parameters;
        let mut i: usize = 0;
        while i < n - 1
            invariant
                n == self.parameters.len(),
                n > 0,
                i <= n - 1,
                all == self@.parameters,
                " "@ == seq![' '],
                res@ == head + each_spaced(all.take(i as int)),
            decreases n - 1 - i,
        {
            proof {
                assert(all.take(i + 1).drop_last() =~= all.take(i as int));
            }
            res.append(self.parameters[i].as_str());
            res.append(" ");
            i += 1;
        }
        res.append(":");
        res.append(self.parameters[n - 1].as_str());
        res
    }

    /// The line that shows this record to a reader.
    pub fn to_string(&self) -> (line: String)
        ensures
            line@ == spec_display(self@),
    {
        proof {
            reveal_strlit("(");
            reveal_strlit(") ");
            reveal_strlit(": ");
            reveal_strlit(" ");
        }
        let mut res = String::new();
        match &self.prefix {
            Some(prefix) => {
                res.append("(");
                res.append(prefix.as_str());
                res.append(") ");
            },
            None => {},
        }
        res.append(self.command.as_str());
        res.append(": ");
        let ghost head = res@;
        let ghost all = self@.parameters;
        let mut i: usize = 0;
        while i < self.parameters.len()
            invariant
                i <= self.parameters.len(),
                all == self@.parameters,
                " "@ == seq![' '],
                res@ == head + join_spaced(all.take(i as int)),
            decreases self.parameters.len() - i,
        {
            proof {
                assert(all.take(i + 1).drop_last() =~= all.take(i as int));
            }
            if i > 0 {
                res.append(" ");
            }
            res.append(self.parameters[i].as_str());
            i += 1;
        }
        assert(all.take(i as int) =~= all);
        res
    }
}

} // verus!
