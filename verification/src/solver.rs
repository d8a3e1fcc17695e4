//! Incremental solver state: the plaintext buffer grows by exactly one byte
//! per round, never shrinks, and the solve loop ends once the buffer ends
//! with the terminator byte.

use crate::candidate::TERMINATOR;
use vstd::prelude::*;

verus! {

/// The solve loop's terminal condition: the buffer ends with the terminator.
pub open spec fn finished(buf: Seq<u8>) -> bool {
    buf.len() > 0 && buf.last() == TERMINATOR
}

/// Owns the current best guess of the secret; append-only.
pub struct Solver {
    plaintext: Vec<u8>,
}

impl Solver {
    /// The current plaintext buffer.
    pub closed spec fn text(self) -> Seq<u8> {
        self.plaintext@
    }

    /// Starts a solve from a known prefix (possibly empty).
    pub fn new(prefix: Vec<u8>) -> (s: Self)
        ensures
            s.text() == prefix@,
    {
        Solver { plaintext: prefix }
    }

    /// Appends one round's winning byte. The buffer grows by exactly one byte
    /// and no earlier byte is removed or altered.
    pub fn advance(&mut self, byte: u8)
        ensures
            final(self).text() == old(self).text().push(byte),
            final(self).text().len() == old(self).text().len() + 1,
            old(self).text().is_prefix_of(final(self).text()),
    {
        self.plaintext.push(byte);
        proof {
            lemma_round_extends(old(self).text(), byte);
        }
    }

    /// Whether the terminal condition holds.
    pub fn is_done(&self) -> (r: bool)
        ensures
            r == finished(self.text()),
    {
        let n = self.plaintext.len();
        n > 0 && self.plaintext[n - 1] == TERMINATOR
    }

    /// Read access to the buffer, for reporting the recovered plaintext.
    pub fn plaintext(&self) -> (r: &Vec<u8>)
        ensures
            r@ == self.text(),
    {
        &self.plaintext
    }
}

/// Monotonic growth: appending a byte extends the buffer by exactly one and
/// keeps every existing byte in place.
pub proof fn lemma_round_extends(buf: Seq<u8>, byte: u8)
    ensures
        buf.push(byte).len() == buf.len() + 1,
        buf.is_prefix_of(buf.push(byte)),
{
    assert(buf.push(byte).subrange(0, buf.len() as int) =~= buf);
}

/// A secret in flag shape: non-empty, ends with the terminator, and contains
/// the terminator nowhere else.
pub open spec fn flag_shaped(secret: Seq<u8>) -> bool {
    &&& secret.len() > 0
    &&& secret.last() == TERMINATOR
    &&& forall|i: int| 0 <= i < secret.len() - 1 ==> secret[i] != TERMINATOR
}

/// The solve loop under an oracle that always names the secret's next byte:
/// each round appends `secret[buf.len()]` until the terminal condition holds.
pub open spec fn solve_from(secret: Seq<u8>, buf: Seq<u8>) -> Seq<u8>
    decreases secret.len() - buf.len(),
{
    if finished(buf) || buf.len() >= secret.len() {
        buf
    } else {
        solve_from(secret, buf.push(secret[buf.len() as int]))
    }
}

/// Termination: started from any prefix of a flag-shaped secret, the solve
/// loop reproduces the whole secret and stops exactly on appending the
/// terminator byte.
pub proof fn lemma_solver_terminates(secret: Seq<u8>, buf: Seq<u8>)
    requires
        flag_shaped(secret),
        buf.is_prefix_of(secret),
    ensures
        solve_from(secret, buf) == secret,
        finished(solve_from(secret, buf)),
    decreases secret.len() - buf.len(),
{
    if buf.len() == secret.len() {
        assert(buf =~= secret);
    } else {
        assert(!finished(buf)) by {
            if buf.len() > 0 {
                assert(buf.last() == buf.subrange(0, buf.len() as int).last());
                assert(buf.last() == secret[buf.len() - 1]);
            }
        }
        let next = buf.push(secret[buf.len() as int]);
        assert(next.is_prefix_of(secret)) by {
            assert(next =~= secret.subrange(0, next.len() as int));
        }
        lemma_solver_terminates(secret, next);
    }
}

} // verus!
