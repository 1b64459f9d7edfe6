use std::collections::VecDeque;
use vstd::prelude::*;

verus! {

/// True when `s` begins with `pat`: `pat` is no longer than `s` and the first
/// `pat.len()` characters of `s` equal `pat`. A pattern never matches against
/// a shorter sequence.
pub open spec fn starts_with(s: Seq<char>, pat: Seq<char>) -> bool {
    pat.len() <= s.len() && s.subrange(0, pat.len() as int) == pat
}

/// The lookahead buffer: a bounded queue of pending input characters, with
/// capacity fixed at construction to the longest configured pattern length.
/// It provides a constant-size window of upcoming characters so delimiter
/// patterns can be tested by prefix comparison while input is still consumed
/// one character at a time.
pub struct Buf {
    chars: VecDeque<char>,
    cap: usize,
}

impl View for Buf {
    type V = Seq<char>;

    closed spec fn view(&self) -> Seq<char> {
        self.chars@
    }
}

impl Buf {
    /// The fixed capacity chosen at construction.
    pub closed spec fn cap(self) -> nat {
        self.cap as nat
    }

    /// Constructs an empty buffer with the given maximum length.
    pub fn new(max_len: usize) -> (r: Self)
        ensures
            r@ == Seq::<char>::empty(),
            r.cap() == max_len,
    {
        Buf { chars: VecDeque::with_capacity(max_len), cap: max_len }
    }

    /// True when the buffer holds as many characters as its capacity.
    pub fn is_full(&self) -> (r: bool)
        ensures
            r == (self@.len() == self.cap()),
    {
        self.chars.len() == self.cap
    }

    /// The number of characters currently buffered.
    pub fn len(&self) -> (r: usize)
        ensures
            r == self@.len(),
    {
        self.chars.len()
    }

    /// Pulls characters from `src` (starting at `*pos`) until the buffer is
    /// full or the source is exhausted, advancing `*pos` past what was taken.
    #[verifier::loop_isolation(false)]
    pub fn fill_up(&mut self, src: &Vec<char>, pos: &mut usize)
        requires
            *old(pos) <= src@.len(),
            old(self)@.len() <= old(self).cap(),
        ensures
            final(self).cap() == old(self).cap(),
            *old(pos) <= *final(pos) <= src@.len(),
            final(self)@ == old(self)@ + src@.subrange(*old(pos) as int, *final(pos) as int),
            final(self)@.len() <= final(self).cap(),
            final(self)@.len() == final(self).cap() || *final(pos) == src@.len(),
            final(self)@.len() - old(self)@.len() == *final(pos) - *old(pos),
    {
        let ghost pos0: int = *pos as int;
        let ghost init: Seq<char> = self@;
        let ghost cap0: usize = self.cap;
        while !self.is_full() && *pos < src.len()
            invariant
                pos0 <= *pos <= src@.len(),
                self.cap == cap0,
                init.len() <= cap0,
                self@ == init + src@.subrange(pos0, *pos as int),
                self@.len() <= self.cap,
            decreases src@.len() - *pos,
        {
            let c: char = src[*pos];
            let ghost before: Seq<char> = self@;
            self.chars.push_back(c);
            *pos = *pos + 1;
            proof {
                assert(self@ == before.push(c));
                assert(src@.subrange(pos0, *pos as int) =~= src@.subrange(pos0, *pos - 1).push(
                    src@[*pos - 1],
                ));
                assert(self@ =~= init + src@.subrange(pos0, *pos as int));
            }
        }
    }

    /// True iff the buffer's first `pat.len()` characters equal `pat`; false
    /// whenever the buffer holds fewer characters than the pattern.
    #[verifier::loop_isolation(false)]
    pub fn matches(&self, pat: &Vec<char>) -> (r: bool)
        ensures
            r == starts_with(self@, pat@),
    {
        if pat.len() > self.chars.len() {
            return false;
        }
        let n: usize = pat.len();
        let mut i: usize = 0;
        while i < n
            invariant
                0 <= i <= n,
                n == pat@.len(),
                n <= self@.len(),
                forall|j: int| 0 <= j < i ==> self@[j] == pat@[j],
            decreases n - i,
        {
            if self.chars[i] != pat[i] {
                proof {
                    assert(self@.subrange(0, n as int)[i as int] != pat@[i as int]);
                }
                return false;
            }
            i += 1;
        }
        proof {
            assert(self@.subrange(0, n as int) =~= pat@);
        }
        true
    }

    /// The first buffered character, without removing it; the buffer must be
    /// non-empty.
    pub fn front(&self) -> (r: char)
        requires
            self@.len() > 0,
        ensures
            r == self@[0],
    {
        self.chars[0]
    }

    /// Removes and returns the first character; the buffer must be non-empty.
    pub fn pop_front(&mut self) -> (r: char)
        requires
            old(self)@.len() > 0,
        ensures
            r == old(self)@[0],
            final(self)@ == old(self)@.drop_first(),
            final(self).cap() == old(self).cap(),
    {
        match self.chars.pop_front() {
            Some(c) => c,
            None => {
                // unreachable: the precondition makes the buffer non-empty
                proof {
                    assert(false);
                }
                ' '
            },
        }
    }

    /// Removes the first `n` characters without returning them.
    #[verifier::loop_isolation(false)]
    pub fn pop_front_n(&mut self, n: usize)
        requires
            n <= old(self)@.len(),
        ensures
            final(self)@ == old(self)@.skip(n as int),
            final(self).cap() == old(self).cap(),
    {
        let mut i: usize = 0;
        while i < n
            invariant
                0 <= i <= n,
                n <= old(self)@.len(),
                self.cap == old(self).cap,
                self@ == old(self)@.skip(i as int),
            decreases n - i,
        {
            self.chars.pop_front();
            i += 1;
            proof {
                assert(self@ =~= old(self)@.skip(i as int));
            }
        }
    }
}

} // verus!
