//! Small items shared by the renderer's parts.

use vstd::prelude::*;
use crate::fixed::SCALE;

verus! {

/// The kind of surface a material describes.
#[derive(Clone, Copy, Debug, PartialEq, Eq, Structural)]
pub enum MaterialType {
    Diffuse,
}

/// `v` held between `lo` and `hi`: `lo` where `hi` is below it.
pub open spec fn clamp_spec(lo: i64, hi: i64, v: i64) -> i64 {
    let upper = if hi <= v { hi } else { v };
    if lo >= upper { lo } else { upper }
}

/// `v` held between `lo` and `hi`.
pub fn clamp(lo: i64, hi: i64, v: i64) -> (r: i64)
    ensures
        r == clamp_spec(lo, hi, v),
        lo <= hi ==> lo <= r <= hi,
{
    let upper = if hi <= v { hi } else { v };
    if lo >= upper { lo } else { upper }
}

/// The source of the values that the sampling routines draw: a table of
/// uniform values and a table of points of the unit circle, each read in
/// turn and from its start again once its end is reached.
#[derive(Debug)]
pub struct SampleStream {
    pub values: Vec<i64>,
    pub turns: Vec<(i64, i64)>,
    pub cursor: usize,
    pub turn_cursor: usize,
}

/// The index after `cursor` in a table of `len` entries.
pub open spec fn next_index(cursor: usize, len: nat) -> usize {
    if len == 0 {
        0
    } else {
        ((cursor as nat % len + 1) % len) as usize
    }
}

impl SampleStream {
    /// The uniform value that is drawn next: at least zero and less than
    /// one; zero from an empty table.
    pub open spec fn peek(self) -> i64 {
        if self.values.len() == 0 {
            0
        } else {
            clamp_spec(0, (SCALE - 1) as i64, self.values[self.cursor as int % self.values.len() as int])
        }
    }

    /// The point of the unit circle that is drawn next; `(1, 0)` from an
    /// empty table.
    pub open spec fn peek_turn(self) -> (i64, i64) {
        if self.turns.len() == 0 {
            (SCALE, 0)
        } else {
            self.turns[self.turn_cursor as int % self.turns.len() as int]
        }
    }

    /// The stream after one uniform value was drawn.
    pub open spec fn advanced(self) -> SampleStream {
        SampleStream {
            values: self.values,
            turns: self.turns,
            cursor: next_index(self.cursor, self.values.len() as nat),
            turn_cursor: self.turn_cursor,
        }
    }

    /// The stream after one point of the unit circle was drawn.
    pub open spec fn turned(self) -> SampleStream {
        SampleStream {
            values: self.values,
            turns: self.turns,
            cursor: self.cursor,
            turn_cursor: next_index(self.turn_cursor, self.turns.len() as nat),
        }
    }

    /// A stream that starts at the head of both tables.
    pub fn new(values: Vec<i64>, turns: Vec<(i64, i64)>) -> (s: SampleStream)
        ensures
            s == (SampleStream { values, turns, cursor: 0, turn_cursor: 0 }),
    {
        SampleStream { values, turns, cursor: 0, turn_cursor: 0 }
    }

    /// Draws the next uniform value.
    pub fn get_random_float(&mut self) -> (v: i64)
        ensures
            v == old(self).peek(),
            0 <= v < SCALE,
            *final(self) == old(self).advanced(),
    {
        let len = self.values.len();
        if len == 0 {
            self.cursor = 0;
            return 0;
        }
        let at = self.cursor % len;
        let v = clamp(0, SCALE - 1, self.values[at]);
        self.cursor = (at + 1) % len;
        v
    }

    /// Draws the next point of the unit circle.
    pub fn get_random_turn(&mut self) -> (t: (i64, i64))
        ensures
            t == old(self).peek_turn(),
            *final(self) == old(self).turned(),
    {
        let len = self.turns.len();
        if len == 0 {
            self.turn_cursor = 0;
            return (SCALE, 0);
        }
        let at = self.turn_cursor % len;
        let t = self.turns[at];
        self.turn_cursor = (at + 1) % len;
        t
    }
}

/// A generator of uniform numbers: a shift-register sequence of 64 bits.
#[derive(Clone, Copy, Debug)]
pub struct Generator {
    pub state: u64,
}

/// The state after `x` in the sequence.
pub open spec fn next_state(x: u64) -> u64 {
    let a = x ^ (x << 13);
    let b = a ^ (a >> 7);
    b ^ (b << 17)
}

/// The state `n` steps after `x`.
pub open spec fn state_after(x: u64, n: nat) -> u64
    decreases n,
{
    if n == 0 {
        x
    } else {
        next_state(state_after(x, (n - 1) as nat))
    }
}

/// The first `n` uniform values that a generator in state `x` gives.
pub open spec fn uniform_values(x: u64, n: nat) -> Seq<i64>
    decreases n,
{
    if n == 0 {
        Seq::empty()
    } else {
        uniform_values(x, (n - 1) as nat).push((state_after(x, n) >> 48) as i64)
    }
}

impl Generator {
    /// A generator that starts from `seed`; from one where the seed is
    /// zero, the one state that the sequence never leaves.
    pub fn new(seed: u64) -> (g: Generator)
        ensures
            g.state == (if seed == 0 { 1u64 } else { seed }),
    {
        Generator { state: if seed == 0 { 1 } else { seed } }
    }

    /// The next uniform value: the upper 16 bits of the next state, a
    /// fixed-point value of at least zero and less than one.
    pub fn get_random_float(&mut self) -> (v: i64)
        ensures
            final(self).state == next_state(old(self).state),
            v == (final(self).state >> 48) as i64,
            0 <= v < SCALE,
    {
        let x = self.state;
        let a = x ^ (x << 13);
        let b = a ^ (a >> 7);
        let c = b ^ (b << 17);
        self.state = c;
        let v = c >> 48;
        assert(v < 65536) by (bit_vector)
            requires
                v == c >> 48,
        ;
        v as i64
    }

    /// The next `n` uniform values, in the order in which they are drawn.
    pub fn table(&mut self, n: usize) -> (t: Vec<i64>)
        ensures
            t@ == uniform_values(old(self).state, n as nat),
            final(self).state == state_after(old(self).state, n as nat),
    {
        let mut t: Vec<i64> = Vec::new();
        let mut k: usize = 0;
        while k < n
            invariant
                0 <= k <= n,
                t@ == uniform_values(old(self).state, k as nat),
                self.state == state_after(old(self).state, k as nat),
            decreases n - k,
        {
            let v = self.get_random_float();
            t.push(v);
            k += 1;
        }
        t
    }
}

} // verus!
