//! The scale a scoring prompt names, as it is written there.

use crate::text::{between, is_white, second_piece, trim_start, trimmed_start, white};
use vstd::prelude::*;
use vstd::string::*;

verus! {

/// How long the word is that a text opens with.
pub open spec fn word_len(s: Seq<char>) -> nat
    decreases s.len(),
{
    if s.len() == 0 || white(s[0]) {
        0
    } else {
        1 + word_len(s.drop_first())
    }
}

/// The word number `n`, where there are as many.
pub open spec fn word(s: Seq<char>, n: nat) -> Option<Seq<char>>
    decreases n,
{
    let rest = trimmed_start(s);
    if rest.len() == 0 {
        None
    } else if n == 0 {
        Some(rest.take(word_len(rest) as int))
    } else {
        word(rest.skip(word_len(rest) as int), (n - 1) as nat)
    }
}

/// A text without the full stops and commas at its end.
pub open spec fn unpunctuated(s: Seq<char>) -> Seq<char>
    decreases s.len(),
{
    if s.len() > 0 && (s.last() == '.' || s.last() == ',') {
        unpunctuated(s.drop_last())
    } else {
        s
    }
}

/// The two ends of the scale in a `scale from X to Y` phrase, as they are written.
pub open spec fn scale_in(prompt: Seq<char>) -> Option<(Seq<char>, Seq<char>)> {
    match second_piece(prompt, "scale from "@) {
        Some(tail) => match (word(tail, 0), word(tail, 2)) {
            (Some(low), Some(high)) => Some((low, unpunctuated(high))),
            _ => None,
        },
        None => None,
    }
}

proof fn lemma_word_len(s: Seq<char>)
    ensures
        word_len(s) <= s.len(),
    decreases s.len(),
{
    if s.len() > 0 && !white(s[0]) {
        lemma_word_len(s.drop_first());
    }
}

fn measure(s: &str) -> (n: usize)
    ensures
        n == word_len(s@),
{
    let total: usize = s.unicode_len();
    let mut n: usize = 0;
    proof {
        assert(s@.skip(0) =~= s@);
    }
    while n < total
        invariant
            n <= total,
            total == s@.len(),
            word_len(s@) == n + word_len(s@.skip(n as int)),
        decreases total - n,
    {
        proof {
            assert(s@.skip(n as int)[0] == s@[n as int]);
            assert(s@.skip(n as int).drop_first() =~= s@.skip(n + 1));
        }
        if is_white(s.get_char(n)) {
            return n;
        }
        n = n + 1;
    }
    n
}

fn find_word(s: &str, n: usize) -> (r: Option<&str>)
    ensures
        crate::text::opt_str(r) == word(s@, n as nat),
    decreases n,
{
    let rest = trim_start(s);
    if rest.is_empty() {
        return None;
    }
    proof {
        lemma_word_len(rest@);
    }
    let len: usize = measure(rest);
    if n == 0 {
        proof {
            assert(rest@.subrange(0, len as int) =~= rest@.take(len as int));
        }
        Some(rest.substring_char(0, len))
    } else {
        let total: usize = rest.unicode_len();
        proof {
            assert(rest@.subrange(len as int, total as int) =~= rest@.skip(len as int));
        }
        find_word(rest.substring_char(len, total), n - 1)
    }
}

fn strip(s: &str) -> (r: &str)
    ensures
        r@ == unpunctuated(s@),
{
    let mut n: usize = s.unicode_len();
    proof {
        assert(s@.take(n as int) =~= s@);
    }
    while n > 0
        invariant
            n <= s@.len(),
            unpunctuated(s@) == unpunctuated(s@.take(n as int)),
        decreases n,
    {
        let c = s.get_char(n - 1);
        proof {
            assert(s@.take(n as int).drop_last() =~= s@.take(n - 1));
        }
        if c != '.' && c != ',' {
            proof {
                assert(s@.subrange(0, n as int) =~= s@.take(n as int));
            }
            return s.substring_char(0, n);
        }
        n = n - 1;
    }
    proof {
        assert(s@.subrange(0, 0) =~= s@.take(0));
    }
    s.substring_char(0, 0)
}

/// The two ends of the scale a prompt names, as they are written.
pub fn scale(prompt: &str) -> (r: Option<(&str, &str)>)
    ensures
        match r {
            Some((low, high)) => scale_in(prompt@) == Some((low@, high@)),
            None => scale_in(prompt@) is None,
        },
{
    let tail = match between(prompt, "scale from ") {
        Some(tail) => tail,
        None => return None,
    };
    match (find_word(tail, 0), find_word(tail, 2)) {
        (Some(low), Some(high)) => Some((low, strip(high))),
        _ => None,
    }
}

} // verus!
