//! Character sequences: the runs, tokens and joins that the line grammars are
//! stated over, and the executable scanning primitives that compute them.

use vstd::prelude::*;

verus! {

/// `==` on string slices (`str::eq` of std) holds exactly when both slices
/// hold the same characters. Trusted: std compares the UTF-8 bytes, and the
/// encoding of a character sequence is unique.
pub assume_specification[ <str as PartialEq>::eq ](a: &str, b: &str) -> (r: bool)
    ensures
        r == (a@ == b@),
;

/// Length of the longest prefix of `s` that does not contain `stop`.
pub open spec fn run_len(s: Seq<char>, stop: char) -> nat
    decreases s.len(),
{
    if s.len() == 0 || s[0] == stop {
        0
    } else {
        1 + run_len(s.skip(1), stop)
    }
}

/// Length of the leading token of `s`: its longest prefix without a space.
pub open spec fn token_len(s: Seq<char>) -> nat {
    run_len(s, ' ')
}

/// A token is a non-empty text without a space.
pub open spec fn is_token(s: Seq<char>) -> bool {
    s.len() > 0 && !s.contains(' ')
}

/// The parts of `s` between occurrences of `sep`. A text without `sep` is one
/// part; `n` separators always give `n + 1` parts, some of which may be empty.
pub open spec fn split_on(s: Seq<char>, sep: char) -> Seq<Seq<char>>
    decreases s.len(),
{
    let k = run_len(s, sep) as int;
    if k >= s.len() {
        seq![s]
    } else {
        seq![s.take(k)] + split_on(s.skip(k + 1), sep)
    }
}

/// The parts in order, with one space between neighbours.
pub open spec fn join_spaced(parts: Seq<Seq<char>>) -> Seq<char>
    decreases parts.len(),
{
    if parts.len() == 0 {
        Seq::empty()
    } else if parts.len() == 1 {
        parts[0]
    } else {
        join_spaced(parts.drop_last()) + seq![' '] + parts.last()
    }
}

/// `run_len` is the position of the first `stop` in `s`, or the length of `s`
/// where there is none.
pub proof fn lemma_run_len(s: Seq<char>, stop: char)
    ensures
        run_len(s, stop) <= s.len(),
        forall|j: int| 0 <= j < run_len(s, stop) ==> s[j] != stop,
        run_len(s, stop) < s.len() ==> s[run_len(s, stop) as int] == stop,
    decreases s.len(),
{
    if s.len() == 0 || s[0] == stop {
    } else {
        let t = s.skip(1);
        lemma_run_len(t, stop);
        assert forall|j: int| 0 <= j < run_len(s, stop) implies s[j] != stop by {
            if j > 0 {
                assert(s[j] == t[j - 1]);
            }
        }
    }
}

/// The position of the first `stop` determines `run_len`.
pub proof fn lemma_run_len_is(s: Seq<char>, stop: char, k: int)
    requires
        0 <= k <= s.len(),
        forall|j: int| 0 <= j < k ==> s[j] != stop,
        k < s.len() ==> s[k] == stop,
    ensures
        run_len(s, stop) == k,
{
    lemma_run_len(s, stop);
}

/// A run seen through a suffix of a longer text.
pub(crate) proof fn lemma_skip_skip(s: Seq<char>, a: int, b: int)
    requires
        0 <= a,
        0 <= b,
        a + b <= s.len(),
    ensures
        s.skip(a).skip(b) == s.skip(a + b),
        s.skip(a).take(b) == s.subrange(a, a + b),
{
}

/// The characters of `s`, in order.
pub(crate) fn chars_of(s: &str) -> (v: Vec<char>)
    ensures
        v@ == s@,
{
    let mut v: Vec<char> = Vec::new();
    for c in it: s.chars()
        invariant
            v@ == it.seq().take(it.index() as int),
            it.seq() == s@,
    {
        v.push(c);
    }
    v
}

/// The position at which the run of characters other than `stop` that starts
/// at `from` ends: the position of the next `stop`, or the end of the text.
pub(crate) fn run_end(cs: &Vec<char>, from: usize, stop: char) -> (end: usize)
    requires
        from <= cs.len(),
    ensures
        from <= end <= cs.len(),
        end - from == run_len(cs@.skip(from as int), stop),
{
    let mut i: usize = from;
    while i < cs.len() && cs[i] != stop
        invariant
            from <= i <= cs.len(),
            forall|j: int| from <= j < i ==> cs[j] != stop,
        decreases cs.len() - i,
    {
        i += 1;
    }
    proof {
        lemma_run_len_is(cs@.skip(from as int), stop, i - from);
    }
    i
}

} // verus!
