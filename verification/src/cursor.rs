//! The lookahead cursor over the source text.

use vstd::prelude::*;

verus! {

use crate::errors::SyntaxError;

/// The number of characters `until` consumes from `s` while looking for
/// `c`: everything through the first occurrence of `c`, or all of `s`
/// when `c` never appears.
pub open spec fn consumed_until(s: Seq<char>, c: char) -> nat
    decreases s.len(),
{
    if s.len() == 0 {
        0
    } else if s[0] == c {
        1
    } else {
        (1 + consumed_until(s.skip(1), c)) as nat
    }
}

/// `until` never consumes more characters than there are.
pub proof fn lemma_consumed_until_bound(s: Seq<char>, c: char)
    ensures
        consumed_until(s, c) <= s.len(),
    decreases s.len(),
{
    if s.len() > 0 && s[0] != c {
        lemma_consumed_until_bound(s.skip(1), c);
    }
}

/// A cursor over the characters of a source string: single-character
/// lookahead without consuming, and bulk skip. Its view is the sequence
/// of characters not yet consumed.
pub struct FutureStr<'a> {
    s: &'a str,
    pos: usize,
    len: usize,
}

impl<'a> View for FutureStr<'a> {
    type V = Seq<char>;

    closed spec fn view(&self) -> Seq<char> {
        self.s@.skip(self.pos as int)
    }
}

impl<'a> FutureStr<'a> {
    #[verifier::type_invariant]
    spec fn wf(&self) -> bool {
        self.len == self.s@.len() && self.pos <= self.len
    }

    /// Opens a cursor over the whole of `s`.
    pub fn from_str(s: &'a str) -> (r: Self)
        ensures
            r@ == s@,
    {
        let len = s.unicode_len();
        let r = Self { s, pos: 0, len };
        proof {
            assert(r@ =~= s@);
        }
        r
    }

    /// Returns the next character and advances past it; `None` once the
    /// text is exhausted.
    pub fn next(&mut self) -> (r: Option<char>)
        ensures
            old(self)@.len() > 0 ==> r == Some(old(self)@[0]) && final(self)@ == old(self)@.skip(1),
            old(self)@.len() == 0 ==> r == None::<char> && final(self)@ == old(self)@,
    {
        proof {
            use_type_invariant(&*self);
        }
        if self.pos < self.len {
            let c = self.s.get_char(self.pos);
            self.pos = self.pos + 1;
            proof {
                assert(self@ =~= old(self)@.skip(1));
            }
            Some(c)
        } else {
            None
        }
    }

    /// Returns the next character without advancing; idempotent.
    pub fn peek(&mut self) -> (r: Option<char>)
        ensures
            final(self)@ == old(self)@,
            old(self)@.len() > 0 ==> r == Some(old(self)@[0]),
            old(self)@.len() == 0 ==> r == None::<char>,
    {
        proof {
            use_type_invariant(&*self);
        }
        if self.pos < self.len {
            Some(self.s.get_char(self.pos))
        } else {
            None
        }
    }

    /// Advances until a character equal to `c` has been consumed,
    /// inclusive; stops at the end of the text if `c` never appears.
    pub fn until(&mut self, c: char)
        ensures
            final(self)@ == old(self)@.skip(consumed_until(old(self)@, c) as int),
    {
        proof {
            lemma_consumed_until_bound(old(self)@, c);
        }
        loop
            invariant
                old(self)@.skip(consumed_until(old(self)@, c) as int) == self@.skip(
                    consumed_until(self@, c) as int,
                ),
            decreases self@.len(),
        {
            proof {
                lemma_consumed_until_bound(self@, c);
            }
            let ghost pre = self@;
            match self.next() {
                Some(x) => {
                    proof {
                        if x != c {
                            lemma_consumed_until_bound(pre.skip(1), c);
                            assert(pre.skip(1).skip(consumed_until(pre.skip(1), c) as int) =~= pre
                                .skip(consumed_until(pre, c) as int));
                        }
                    }
                    if x == c {
                        return ;
                    }
                },
                None => {
                    return ;
                },
            }
        }
    }

    /// Constructs a syntax error for the current scan.
    pub fn gen_error(&self, reason: &'static str) -> (r: SyntaxError)
        ensures
            r.line_of() == 0,
            r.reason_of() == reason@,
    {
        SyntaxError::new(0, reason)
    }
}

} // verus!
