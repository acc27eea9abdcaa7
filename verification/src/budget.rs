//! The prompt's character budget: a byte allowance that pieces of text are
//! taken from, truncating at a character boundary instead of dropping a piece.

use vstd::prelude::*;
use crate::text::{byte_len, char_width, chars_of, lemma_utf8_len_concat, lemma_utf8_len_push, owned, push_char, utf8_len, utf8_width};

verus! {

/// How many leading characters of `t` fit, whole, in `room` bytes.
pub open spec fn fitting_chars(t: Seq<char>, room: nat) -> nat
    decreases t.len(),
{
    if t.len() == 0 {
        0
    } else if utf8_width(t[0]) <= room {
        1 + fitting_chars(t.drop_first(), (room - utf8_width(t[0])) as nat)
    } else {
        0
    }
}

/// What taking `t` from a budget with `remaining` bytes gives back, and what is
/// left of the budget afterwards.
///
/// An exhausted budget yields nothing. A piece that fits is taken whole and
/// paid for. A piece that does not fit is cut to the longest prefix that fits
/// on a character boundary, and the budget is spent; a cut that keeps nothing
/// yields nothing.
pub open spec fn take_outcome(remaining: nat, t: Seq<char>) -> (Option<Seq<char>>, nat) {
    if remaining == 0 {
        (None, 0)
    } else if utf8_len(t) <= remaining {
        (Some(t), (remaining - utf8_len(t)) as nat)
    } else {
        let k = fitting_chars(t, remaining);
        if k == 0 {
            (None, 0)
        } else {
            (Some(t.take(k as int)), 0)
        }
    }
}

pub proof fn lemma_fitting_chars_bound(t: Seq<char>, room: nat)
    ensures
        fitting_chars(t, room) <= t.len(),
        utf8_len(t.take(fitting_chars(t, room) as int)) <= room,
        utf8_len(t) <= room ==> fitting_chars(t, room) == t.len(),
    decreases t.len(),
{
    if t.len() > 0 {
        let w = utf8_width(t[0]);
        if w <= room {
            lemma_fitting_chars_bound(t.drop_first(), (room - w) as nat);
            let k = fitting_chars(t.drop_first(), (room - w) as nat);
            assert(t.take(k + 1 as int) =~= seq![t[0]] + t.drop_first().take(k as int));
            lemma_utf8_len_concat(seq![t[0]], t.drop_first().take(k as int));
            assert(seq![t[0]].drop_first() =~= Seq::<char>::empty());
            assert(utf8_len(seq![t[0]]) == w + utf8_len(Seq::<char>::empty()));
        } else {
            assert(t.take(0) =~= Seq::<char>::empty());
        }
    } else {
        assert(t.take(0) =~= Seq::<char>::empty());
    }
}

/// What is left of a budget that `t` was taken from never exceeds what was
/// there, and what was taken never costs more than what was there.
pub proof fn lemma_take_within_budget(remaining: nat, t: Seq<char>)
    ensures
        take_outcome(remaining, t).1 <= remaining,
        take_outcome(remaining, t).0 matches Some(p) ==> utf8_len(p) + take_outcome(remaining, t).1 <= remaining,
        take_outcome(remaining, t).0 matches Some(p) ==> t.take(p.len() as int) == p,
{
    lemma_fitting_chars_bound(t, remaining);
    assert(t.take(t.len() as int) =~= t);
}

/// Bytes still available for prompt text.
pub struct Budget {
    pub remaining: usize,
}

impl Budget {
    /// Takes what fits and truncates the rest, instead of dropping a whole
    /// piece: a partially included document still answers questions.
    pub fn take(&mut self, text: &str) -> (taken: Option<String>)
        ensures
            ({
                let (expected, left) = take_outcome(old(self).remaining as nat, text@);
                &&& final(self).remaining == left
                &&& match taken {
                    Some(s) => expected == Some(s@),
                    None => expected is None,
                }
            }),
    {
        if self.remaining == 0 {
            return None;
        }
        let len = byte_len(text);
        if len <= self.remaining {
            self.remaining = self.remaining - len;
            return Some(owned(text));
        }
        let room = self.remaining;
        let chars = chars_of(text);
        let ghost t = text@;
        let mut used: usize = 0;
        let mut i: usize = 0;
        let mut out = String::new();
        let mut stopped = false;
        proof {
            assert(t.skip(0) =~= t);
            assert(t.take(0) =~= Seq::<char>::empty());
        }
        while !stopped && i < chars.len()
            invariant
                chars@ == t,
                i <= t.len(),
                used <= room,
                out@ == t.take(i as int),
                used == utf8_len(t.take(i as int)),
                fitting_chars(t, room as nat) == i + fitting_chars(t.skip(i as int), (room - used) as nat),
                stopped ==> i < t.len() && utf8_width(t[i as int]) > room - used,
            decreases t.len() - i, (if stopped { 0int } else { 1int }),
        {
            let c = chars[i];
            let w = char_width(c);
            if w > room - used {
                stopped = true;
            } else {
                proof {
                    assert(t.skip(i as int)[0] == c);
                    assert(t.skip(i as int).drop_first() =~= t.skip(i + 1));
                    assert(t.take(i as int).push(c) =~= t.take(i + 1));
                    lemma_utf8_len_push(t.take(i as int), c);
                }
                push_char(&mut out, c);
                used = used + w;
                i = i + 1;
            }
        }
        proof {
            if i < t.len() {
                assert(t.skip(i as int)[0] == t[i as int]);
            } else {
                assert(t.skip(i as int) =~= Seq::<char>::empty());
            }
            assert(fitting_chars(t, room as nat) == i);
        }
        self.remaining = 0;
        if i == 0 {
            None
        } else {
            Some(out)
        }
    }
}

} // verus!
