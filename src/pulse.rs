//! One protocol bit as a high pulse followed by a low pulse, and one byte as
//! eight such bits, most significant first.
use vstd::prelude::*;

verus! {

/// One thing done on the data line: a level change or a busy wait.
#[derive(Clone, Copy, Debug, PartialEq, Eq, Structural)]
pub enum Step {
    /// Drive the line to logic high.
    High,
    /// Drive the line to logic low.
    Low,
    /// Block for the given number of nanoseconds.
    DelayNs(u32),
    /// Block for the given number of microseconds.
    DelayUs(u32),
}

/// The timing table in use: how long the line stays high and then low for a
/// one bit and for a zero bit.
#[derive(Clone, Copy, Debug, PartialEq, Eq, Structural)]
pub enum Timing {
    /// Bit one: 600 ns high, 600 ns low. Bit zero: 300 ns high, 800 ns low.
    Standard,
    /// Bit one: 600 ns high, 600 ns low. Bit zero: raised and lowered at once,
    /// then 800 ns low. For hosts too slow to hit the short 300 ns pulse.
    Slow,
}

/// High time of a one bit, in nanoseconds, in both tables.
pub const ONE_HIGH_NS: u32 = 600;

/// Low time of a one bit, in nanoseconds, in both tables.
pub const ONE_LOW_NS: u32 = 600;

/// High time of a zero bit, in nanoseconds, in the standard table.
pub const ZERO_HIGH_NS: u32 = 300;

/// Low time of a zero bit, in nanoseconds, in both tables.
pub const ZERO_LOW_NS: u32 = 800;

/// The idle time after a frame that latches the colors, in microseconds.
pub const RESET_US: u32 = 300;

impl Timing {
    /// How long the line is held high for `bit` (zero: no wait at all).
    pub open spec fn high_spec(self, bit: bool) -> u32 {
        if bit {
            ONE_HIGH_NS
        } else {
            match self {
                Timing::Standard => ZERO_HIGH_NS,
                Timing::Slow => 0,
            }
        }
    }

    /// How long the line is held low for `bit`.
    pub open spec fn low_spec(self, bit: bool) -> u32 {
        if bit {
            ONE_LOW_NS
        } else {
            ZERO_LOW_NS
        }
    }

    /// How long the line is held high for `bit`, in nanoseconds.
    pub fn high_ns(self, bit: bool) -> (r: u32)
        ensures
            r == self.high_spec(bit),
    {
        if bit {
            ONE_HIGH_NS
        } else {
            match self {
                Timing::Standard => ZERO_HIGH_NS,
                Timing::Slow => 0,
            }
        }
    }

    /// How long the line is held low for `bit`, in nanoseconds.
    pub fn low_ns(self, bit: bool) -> (r: u32)
        ensures
            r == self.low_spec(bit),
    {
        if bit {
            ONE_LOW_NS
        } else {
            ZERO_LOW_NS
        }
    }
}

/// The steps of one pulse: high, wait, low, wait. A high time of zero means
/// the line is lowered right after it was raised, with no wait between.
pub open spec fn pulse_steps(high_ns: u32, low_ns: u32) -> Seq<Step> {
    if high_ns == 0 {
        seq![Step::High, Step::Low, Step::DelayNs(low_ns)]
    } else {
        seq![Step::High, Step::DelayNs(high_ns), Step::Low, Step::DelayNs(low_ns)]
    }
}

/// The steps that carry one bit under a timing table.
pub open spec fn bit_steps(t: Timing, bit: bool) -> Seq<Step> {
    pulse_steps(t.high_spec(bit), t.low_spec(bit))
}

/// Bit `i` of `v`, counting from the most significant (`i == 0`) down.
pub open spec fn msb_bit(v: u8, i: int) -> bool {
    (v >> ((7 - i) as u8)) & 1 == 1
}

/// The steps of the first `n` bits of `v`, most significant first.
pub open spec fn bits_steps(t: Timing, v: u8, n: nat) -> Seq<Step>
    decreases n,
{
    if n == 0 {
        seq![]
    } else {
        bits_steps(t, v, (n - 1) as nat) + bit_steps(t, msb_bit(v, n - 1))
    }
}

/// The steps that carry one byte: its eight bits, most significant first.
pub open spec fn byte_steps(t: Timing, v: u8) -> Seq<Step> {
    bits_steps(t, v, 8)
}

/// Appends the steps of one bit to `out`.
pub fn emit_bit(t: Timing, bit: bool, out: &mut Vec<Step>)
    ensures
        final(out)@ == old(out)@ + bit_steps(t, bit),
{
    let high = t.high_ns(bit);
    let low = t.low_ns(bit);
    out.push(Step::High);
    if high != 0 {
        out.push(Step::DelayNs(high));
    }
    out.push(Step::Low);
    out.push(Step::DelayNs(low));
    assert(out@ =~= old(out)@ + bit_steps(t, bit));
}

/// Appends the steps of one byte to `out`, most significant bit first.
pub fn write_byte(t: Timing, data: u8, out: &mut Vec<Step>)
    ensures
        final(out)@ == old(out)@ + byte_steps(t, data),
{
    let mut i: u8 = 0;
    while i < 8
        invariant
            i <= 8,
            out@ == old(out)@ + bits_steps(t, data, i as nat),
        decreases 8 - i,
    {
        let bit = (data >> (7 - i)) & 1 == 1;
        emit_bit(t, bit, out);
        assert(bit == msb_bit(data, i as int));
        assert(out@ =~= old(out)@ + bits_steps(t, data, (i + 1) as nat));
        i = i + 1;
    }
}

/// The two timing tables as steps. In both, a one bit is 600 ns high then
/// 600 ns low. A zero bit is 300 ns high then 800 ns low in the standard
/// table; in the slow table the line is raised and lowered with no wait
/// between, then held low for 800 ns.
pub proof fn lemma_bit_tables()
    ensures
        bit_steps(Timing::Standard, true)
            == seq![Step::High, Step::DelayNs(600), Step::Low, Step::DelayNs(600)],
        bit_steps(Timing::Standard, false)
            == seq![Step::High, Step::DelayNs(300), Step::Low, Step::DelayNs(800)],
        bit_steps(Timing::Slow, true)
            == seq![Step::High, Step::DelayNs(600), Step::Low, Step::DelayNs(600)],
        bit_steps(Timing::Slow, false) == seq![Step::High, Step::Low, Step::DelayNs(800)],
{
}

proof fn lemma_standard_bits_pulses(v: u8, n: nat)
    requires
        n <= 8,
    ensures
        bits_steps(Timing::Standard, v, n).len() == 4 * n,
        forall|i: int|
            0 <= i < n ==> #[trigger] bits_steps(Timing::Standard, v, n).subrange(4 * i, 4 * i + 4)
                == bit_steps(Timing::Standard, msb_bit(v, i)),
    decreases n,
{
    if n > 0 {
        let t = Timing::Standard;
        let m = (n - 1) as nat;
        lemma_standard_bits_pulses(v, m);
        let prev = bits_steps(t, v, m);
        let last = bit_steps(t, msb_bit(v, m as int));
        assert(bits_steps(t, v, n) == prev + last);
        assert forall|i: int| 0 <= i < n implies #[trigger] bits_steps(t, v, n).subrange(4 * i, 4 * i + 4)
            == bit_steps(t, msb_bit(v, i)) by {
            if i < m {
                assert(bits_steps(t, v, n).subrange(4 * i, 4 * i + 4) =~= prev.subrange(4 * i, 4 * i + 4));
            } else {
                assert(bits_steps(t, v, n).subrange(4 * i, 4 * i + 4) =~= last);
            }
        }
    }
}

/// Under the standard table a byte is exactly eight pulses of four steps
/// each, and pulse `i` carries bit `i` of the byte counted from the most
/// significant end.
pub proof fn lemma_standard_byte_pulses(v: u8)
    ensures
        byte_steps(Timing::Standard, v).len() == 32,
        forall|i: int|
            0 <= i < 8 ==> #[trigger] byte_steps(Timing::Standard, v).subrange(4 * i, 4 * i + 4)
                == bit_steps(Timing::Standard, msb_bit(v, i)),
{
    lemma_standard_bits_pulses(v, 8);
}

/// The eight pulses of a byte under a timing table: pulse `i` carries bit `i`
/// counted from the most significant end.
pub open spec fn byte_pulses(t: Timing, v: u8) -> Seq<Seq<Step>> {
    Seq::new(8, |i: int| bit_steps(t, msb_bit(v, i)))
}

proof fn lemma_bits_flatten(t: Timing, v: u8, n: nat)
    ensures
        bits_steps(t, v, n) == Seq::new(n, |i: int| bit_steps(t, msb_bit(v, i))).flatten(),
    decreases n,
{
    let pulses = Seq::new(n, |i: int| bit_steps(t, msb_bit(v, i)));
    if n == 0 {
        assert(pulses =~= Seq::<Seq<Step>>::empty());
    } else {
        let m = (n - 1) as nat;
        let init = Seq::new(m, |i: int| bit_steps(t, msb_bit(v, i)));
        lemma_bits_flatten(t, v, m);
        assert(pulses =~= init.push(bit_steps(t, msb_bit(v, m as int))));
        init.lemma_flatten_push(bit_steps(t, msb_bit(v, m as int)));
    }
}

/// Under any timing table a byte is its eight pulses one after the other,
/// most significant bit first, and nothing else.
pub proof fn lemma_byte_pulses(t: Timing, v: u8)
    ensures
        byte_steps(t, v) == byte_pulses(t, v).flatten(),
        byte_pulses(t, v).len() == 8,
        forall|i: int|
            0 <= i < 8 ==> #[trigger] byte_pulses(t, v)[i] == bit_steps(t, msb_bit(v, i)),
{
    lemma_bits_flatten(t, v, 8);
}

/// The level the line is at after `s` is played, starting at `start`
/// (`true` is high).
pub open spec fn level_after(s: Seq<Step>, start: bool) -> bool
    decreases s.len(),
{
    if s.len() == 0 {
        start
    } else {
        match s.last() {
            Step::High => true,
            Step::Low => false,
            _ => level_after(s.drop_last(), start),
        }
    }
}

/// Playing `a` then `b` leaves the line where `b` leaves it from the level
/// that `a` left.
pub proof fn lemma_level_concat(a: Seq<Step>, b: Seq<Step>, start: bool)
    ensures
        level_after(a + b, start) == level_after(b, level_after(a, start)),
    decreases b.len(),
{
    if b.len() > 0 {
        assert((a + b).drop_last() =~= a + b.drop_last());
        assert((a + b).last() == b.last());
        lemma_level_concat(a, b.drop_last(), start);
    } else {
        assert(a + b =~= a);
    }
}

/// Every bit ends with the line low.
proof fn lemma_bit_ends_low(t: Timing, bit: bool, start: bool)
    ensures
        !level_after(bit_steps(t, bit), start),
{
    let s = bit_steps(t, bit);
    assert(s.last() is DelayNs);
    assert(s.drop_last().last() == Step::Low);
    assert(!level_after(s.drop_last(), start));
}

/// A byte ends with the line low.
pub(crate) proof fn lemma_bits_end_low(t: Timing, v: u8, n: nat, start: bool)
    requires
        n > 0,
    ensures
        !level_after(bits_steps(t, v, n), start),
{
    let m = (n - 1) as nat;
    let b = bit_steps(t, msb_bit(v, m as int));
    lemma_level_concat(bits_steps(t, v, m), b, start);
    lemma_bit_ends_low(t, msb_bit(v, m as int), level_after(bits_steps(t, v, m), start));
}

} // verus!
