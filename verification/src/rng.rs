//! The deterministic xorshift generator that drives the procedural tree.

use vstd::prelude::*;

verus! {

/// One xorshift64 step (shifts 13, 7, 17), as a function of the state.
pub open spec fn xorshift(x: u64) -> u64 {
    let a = x ^ (x << 13u64);
    let b = a ^ (a >> 7u64);
    b ^ (b << 17u64)
}

/// A xorshift64 generator; its view is the current state word.
pub struct Rng {
    pub state: u64,
}

impl View for Rng {
    type V = u64;

    open spec fn view(&self) -> u64 {
        self.state
    }
}

/// The state a generator is seeded with: zero is replaced by one.
pub open spec fn seed_state(seed: u64) -> u64 {
    if seed == 0 { 1 } else { seed }
}

/// The value `range` draws from a generator whose next word is `word`.
pub open spec fn range_value(word: u64, lo: i32, hi: i32) -> i32 {
    if hi <= lo {
        lo
    } else {
        (lo + (word % ((hi - lo) as u64))) as i32
    }
}

/// Whether `chance` succeeds when the next word is `word`.
pub open spec fn chance_value(word: u64, n: u64, d: u64) -> bool {
    word % d < n
}

impl Rng {
    /// A generator seeded with `seed` (a zero seed becomes one).
    pub fn new(seed: u64) -> (r: Rng)
        ensures
            r@ == seed_state(seed),
            r@ != 0,
    {
        Rng { state: if seed < 1 { 1 } else { seed } }
    }

    /// Advances the state by one xorshift step and returns the new state.
    pub fn next(&mut self) -> (x: u64)
        ensures
            x == xorshift(old(self)@),
            final(self)@ == x,
    {
        let mut x = self.state;
        x = x ^ (x << 13u64);
        x = x ^ (x >> 7u64);
        x = x ^ (x << 17u64);
        self.state = x;
        x
    }

    /// Draws a value in `lo..hi`, or returns `lo` without drawing when the
    /// range is empty.
    pub fn range(&mut self, lo: i32, hi: i32) -> (r: i32)
        requires
            hi - lo <= i32::MAX,
        ensures
            hi <= lo ==> r == lo && final(self)@ == old(self)@,
            lo < hi ==> final(self)@ == xorshift(old(self)@) && r == range_value(
                final(self)@,
                lo,
                hi,
            ),
            lo < hi ==> lo <= r < hi,
    {
        if hi <= lo {
            return lo;
        }
        let span: u64 = (hi - lo) as u64;
        let w = self.next();
        let off: u64 = w % span;
        (lo as i64 + off as i64) as i32
    }

    /// Draws one word and succeeds with odds `n` in `d`.
    pub fn chance(&mut self, n: u64, d: u64) -> (b: bool)
        requires
            d > 0,
        ensures
            final(self)@ == xorshift(old(self)@),
            b == chance_value(final(self)@, n, d),
    {
        let w = self.next();
        w % d < n
    }
}

/// A nonzero state never steps to zero, so a seeded generator never gets
/// stuck on the zero fixed point.
pub proof fn lemma_xorshift_nonzero(x: u64)
    requires
        x != 0,
    ensures
        xorshift(x) != 0,
{
    let a = x ^ (x << 13u64);
    assert(a != 0) by (bit_vector)
        requires
            x != 0,
            a == x ^ (x << 13u64),
    ;
    let b = a ^ (a >> 7u64);
    assert(b != 0) by (bit_vector)
        requires
            a != 0,
            b == a ^ (a >> 7u64),
    ;
    let c = b ^ (b << 17u64);
    assert(c != 0) by (bit_vector)
        requires
            b != 0,
            c == b ^ (b << 17u64),
    ;
}

} // verus!
