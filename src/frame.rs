//! A frame: every color's green, red and blue bytes in turn, then the reset
//! wait that latches them.
use vstd::prelude::*;
use crate::pulse::{
    bit_steps, bits_steps, byte_steps, lemma_bits_end_low, lemma_level_concat, level_after, msb_bit,
    write_byte, Step, Timing, RESET_US,
};

verus! {

/// A color of one LED, one byte per channel.
#[derive(Clone, Copy, Debug, PartialEq, Eq, Structural)]
pub struct Color {
    pub r: u8,
    pub g: u8,
    pub b: u8,
}

impl Color {
    /// The color with the given red, green and blue intensities.
    pub fn new(r: u8, g: u8, b: u8) -> (c: Color)
        ensures
            c == (Color { r, g, b }),
    {
        Color { r, g, b }
    }
}

/// The bytes of one color in wire order: green, red, blue.
pub open spec fn color_bytes(c: Color) -> Seq<u8> {
    seq![c.g, c.r, c.b]
}

/// The bytes of a sequence of colors in wire order, color after color.
pub open spec fn wire_bytes(cs: Seq<Color>) -> Seq<u8>
    decreases cs.len(),
{
    if cs.len() == 0 {
        seq![]
    } else {
        wire_bytes(cs.drop_last()) + color_bytes(cs.last())
    }
}

/// The steps of a sequence of bytes, byte after byte.
pub open spec fn bytes_steps(t: Timing, bs: Seq<u8>) -> Seq<Step>
    decreases bs.len(),
{
    if bs.len() == 0 {
        seq![]
    } else {
        bytes_steps(t, bs.drop_last()) + byte_steps(t, bs.last())
    }
}

/// The steps of one color: its green, red and blue bytes.
pub open spec fn color_steps(t: Timing, c: Color) -> Seq<Step> {
    byte_steps(t, c.g) + byte_steps(t, c.r) + byte_steps(t, c.b)
}

/// The steps of a sequence of colors, color after color.
pub open spec fn colors_steps(t: Timing, cs: Seq<Color>) -> Seq<Step>
    decreases cs.len(),
{
    if cs.len() == 0 {
        seq![]
    } else {
        colors_steps(t, cs.drop_last()) + color_steps(t, cs.last())
    }
}

/// A whole frame: the colors' steps, then one reset wait.
pub open spec fn frame_steps(t: Timing, cs: Seq<Color>) -> Seq<Step> {
    colors_steps(t, cs).push(Step::DelayUs(RESET_US))
}

/// Appends the steps of one color to `out`: green, red, blue.
pub fn write_color(t: Timing, c: Color, out: &mut Vec<Step>)
    ensures
        final(out)@ == old(out)@ + color_steps(t, c),
{
    write_byte(t, c.g, out);
    write_byte(t, c.r, out);
    write_byte(t, c.b, out);
    assert(out@ =~= old(out)@ + color_steps(t, c));
}

/// Appends a whole frame for `colors` to `out`: each color in order, then the
/// reset wait.
pub fn write_frame(t: Timing, colors: &[Color], out: &mut Vec<Step>)
    ensures
        final(out)@ == old(out)@ + frame_steps(t, colors@),
{
    let mut i: usize = 0;
    while i < colors.len()
        invariant
            i <= colors@.len(),
            out@ == old(out)@ + colors_steps(t, colors@.subrange(0, i as int)),
        decreases colors@.len() - i,
    {
        write_color(t, colors[i], out);
        assert(colors@.subrange(0, i + 1).drop_last() =~= colors@.subrange(0, i as int));
        assert(out@ =~= old(out)@ + colors_steps(t, colors@.subrange(0, i + 1)));
        i = i + 1;
    }
    assert(colors@.subrange(0, colors@.len() as int) =~= colors@);
    out.push(Step::DelayUs(RESET_US));
    assert(out@ =~= old(out)@ + frame_steps(t, colors@));
}

/// No step of `s` is a microsecond wait.
pub open spec fn no_reset(s: Seq<Step>) -> bool {
    forall|i: int| 0 <= i < s.len() ==> !(#[trigger] s[i] is DelayUs)
}

proof fn lemma_no_reset_concat(a: Seq<Step>, b: Seq<Step>)
    requires
        no_reset(a),
        no_reset(b),
    ensures
        no_reset(a + b),
{
    assert forall|i: int| 0 <= i < (a + b).len() implies !(#[trigger] (a + b)[i] is DelayUs) by {
        if i < a.len() {
            assert((a + b)[i] == a[i]);
        } else {
            assert((a + b)[i] == b[i - a.len()]);
        }
    }
}

proof fn lemma_bits_no_reset(t: Timing, v: u8, n: nat)
    ensures
        no_reset(bits_steps(t, v, n)),
    decreases n,
{
    if n > 0 {
        lemma_bits_no_reset(t, v, (n - 1) as nat);
        let b = bit_steps(t, msb_bit(v, n - 1));
        assert(no_reset(b));
        lemma_no_reset_concat(bits_steps(t, v, (n - 1) as nat), b);
    }
}

proof fn lemma_bytes_no_reset(t: Timing, bs: Seq<u8>)
    ensures
        no_reset(bytes_steps(t, bs)),
    decreases bs.len(),
{
    if bs.len() > 0 {
        lemma_bytes_no_reset(t, bs.drop_last());
        lemma_bits_no_reset(t, bs.last(), 8);
        lemma_no_reset_concat(bytes_steps(t, bs.drop_last()), byte_steps(t, bs.last()));
    }
}

proof fn lemma_colors_as_bytes(t: Timing, cs: Seq<Color>)
    ensures
        colors_steps(t, cs) == bytes_steps(t, wire_bytes(cs)),
        wire_bytes(cs).len() == 3 * cs.len(),
        forall|k: int|
            0 <= k < cs.len() ==> {
                &&& wire_bytes(cs)[3 * k] == (#[trigger] cs[k]).g
                &&& wire_bytes(cs)[3 * k + 1] == cs[k].r
                &&& wire_bytes(cs)[3 * k + 2] == cs[k].b
            },
    decreases cs.len(),
{
    if cs.len() > 0 {
        let init = cs.drop_last();
        let c = cs.last();
        lemma_colors_as_bytes(t, init);
        let w = wire_bytes(init);
        let w1 = w.push(c.g);
        let w2 = w1.push(c.r);
        let w3 = w2.push(c.b);
        assert(wire_bytes(cs) =~= w3);
        assert(w3.drop_last() =~= w2);
        assert(w2.drop_last() =~= w1);
        assert(w1.drop_last() =~= w);
        assert(bytes_steps(t, w3) == bytes_steps(t, w2) + byte_steps(t, c.b));
        assert(bytes_steps(t, w2) == bytes_steps(t, w1) + byte_steps(t, c.r));
        assert(bytes_steps(t, w1) == bytes_steps(t, w) + byte_steps(t, c.g));
        assert(colors_steps(t, cs) =~= bytes_steps(t, wire_bytes(cs)));
        assert forall|k: int| 0 <= k < cs.len() implies {
            &&& wire_bytes(cs)[3 * k] == (#[trigger] cs[k]).g
            &&& wire_bytes(cs)[3 * k + 1] == cs[k].r
            &&& wire_bytes(cs)[3 * k + 2] == cs[k].b
        } by {
            if k < init.len() {
                assert(init[k] == cs[k]);
            }
        }
    }
}

/// A frame is the colors' bytes in wire order, three per color (green, red,
/// blue, color after color, as given), each sent as a byte, then exactly one
/// microsecond wait: the reset of `RESET_US`, as the last step.
pub proof fn lemma_frame_wire_order(t: Timing, cs: Seq<Color>)
    ensures
        frame_steps(t, cs) == bytes_steps(t, wire_bytes(cs)).push(Step::DelayUs(RESET_US)),
        wire_bytes(cs).len() == 3 * cs.len(),
        forall|k: int|
            0 <= k < cs.len() ==> {
                &&& wire_bytes(cs)[3 * k] == (#[trigger] cs[k]).g
                &&& wire_bytes(cs)[3 * k + 1] == cs[k].r
                &&& wire_bytes(cs)[3 * k + 2] == cs[k].b
            },
        no_reset(frame_steps(t, cs).drop_last()),
        frame_steps(t, cs).last() == Step::DelayUs(RESET_US),
{
    lemma_colors_as_bytes(t, cs);
    lemma_bytes_no_reset(t, wire_bytes(cs));
    assert(frame_steps(t, cs).drop_last() =~= colors_steps(t, cs));
}

/// A frame leaves the line low after at least one color, and where it was
/// with none: the reset wait changes no level.
pub proof fn lemma_frame_level(t: Timing, cs: Seq<Color>, start: bool)
    ensures
        level_after(frame_steps(t, cs), start) == if cs.len() == 0 {
            start
        } else {
            false
        },
{
    let body = colors_steps(t, cs);
    assert(frame_steps(t, cs).drop_last() =~= body);
    assert(frame_steps(t, cs).last() is DelayUs);
    assert(level_after(frame_steps(t, cs), start) == level_after(body, start));
    if cs.len() > 0 {
        let init = colors_steps(t, cs.drop_last());
        let c = cs.last();
        let gr = byte_steps(t, c.g) + byte_steps(t, c.r);
        assert(body =~= init + gr + byte_steps(t, c.b));
        lemma_level_concat(init + gr, byte_steps(t, c.b), start);
        lemma_bits_end_low(t, c.b, 8, level_after(init + gr, start));
    } else {
        assert(body =~= Seq::<Step>::empty());
    }
}

} // verus!
