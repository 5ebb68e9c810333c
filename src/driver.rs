//! The driver: owns the output pin and the delay source, and collects the
//! steps that the pin and the delay source are to carry out.
use vstd::prelude::*;
use crate::frame::{frame_steps, lemma_frame_level, write_frame, Color};
use crate::pulse::{lemma_level_concat, level_after, Step, Timing};

verus! {

/// A WS2812 driver over an output pin and a delay source.
///
/// Every operation appends the steps it needs to a queue of pending steps;
/// whoever holds the pin and the delay source plays them back in order, with
/// nothing else touching the line in between.
pub struct Ws2812<DELAY, PIN> {
    pub delay: DELAY,
    pub pin: PIN,
    timing: Timing,
    pending: Vec<Step>,
}

impl<DELAY, PIN> Ws2812<DELAY, PIN> {
    /// The steps queued and not yet taken.
    pub closed spec fn pending_steps(&self) -> Seq<Step> {
        self.pending@
    }

    /// The output pin the driver holds.
    pub closed spec fn held_pin(&self) -> PIN {
        self.pin
    }

    /// The delay source the driver holds.
    pub closed spec fn held_delay(&self) -> DELAY {
        self.delay
    }

    /// The timing table this driver encodes bits with.
    pub closed spec fn timing_table(&self) -> Timing {
        self.timing
    }

    /// `after` is `before` with one frame for `cs` queued and the same timing table.
    pub open spec fn wrote(before: Self, cs: Seq<Color>, after: Self) -> bool {
        &&& after.pending_steps() == before.pending_steps() + frame_steps(before.timing_table(), cs)
        &&& after.timing_table() == before.timing_table()
    }

    /// A driver with the standard timing table. The line is driven low first:
    /// that single step is all that is queued.
    pub fn new(delay: DELAY, pin: PIN) -> (d: Ws2812<DELAY, PIN>)
        ensures
            d.pending_steps() == seq![Step::Low],
            d.timing_table() == Timing::Standard,
            d.held_delay() == delay,
            d.held_pin() == pin,
    {
        Self::with_timing(delay, pin, Timing::Standard)
    }

    /// A driver with the given timing table. The line is driven low first:
    /// that single step is all that is queued.
    pub fn with_timing(delay: DELAY, pin: PIN, timing: Timing) -> (d: Ws2812<DELAY, PIN>)
        ensures
            d.pending_steps() == seq![Step::Low],
            d.timing_table() == timing,
            d.held_delay() == delay,
            d.held_pin() == pin,
    {
        let mut pending: Vec<Step> = Vec::new();
        pending.push(Step::Low);
        Ws2812 { delay, pin, timing, pending }
    }

    /// The timing table this driver encodes bits with.
    pub fn timing(&self) -> (t: Timing)
        ensures
            t == self.timing_table(),
    {
        self.timing
    }

    /// Queues one frame: the green, red and blue bytes of each color in
    /// order, then the reset wait. Always succeeds.
    pub fn write(&mut self, colors: &[Color]) -> (r: Result<(), ()>)
        ensures
            r is Ok,
            Self::wrote(*old(self), colors@, *final(self)),
            final(self).held_pin() == old(self).held_pin(),
            final(self).held_delay() == old(self).held_delay(),
    {
        write_frame(self.timing, colors, &mut self.pending);
        Ok(())
    }

    /// Hands out the queued steps, in order, and empties the queue.
    pub fn take_steps(&mut self) -> (r: Vec<Step>)
        ensures
            r@ == old(self).pending_steps(),
            final(self).pending_steps() == Seq::<Step>::empty(),
            final(self).timing_table() == old(self).timing_table(),
            final(self).held_pin() == old(self).held_pin(),
            final(self).held_delay() == old(self).held_delay(),
    {
        let mut r: Vec<Step> = Vec::new();
        std::mem::swap(&mut r, &mut self.pending);
        r
    }
}

/// Two writes of the same colors in a row queue two identical frames, each
/// fixed by the timing table and the colors alone: nothing of the first write
/// carries over into the second.
pub proof fn lemma_write_twice<DELAY, PIN>(
    a: Ws2812<DELAY, PIN>,
    b: Ws2812<DELAY, PIN>,
    c: Ws2812<DELAY, PIN>,
    cs: Seq<Color>,
)
    requires
        Ws2812::wrote(a, cs, b),
        Ws2812::wrote(b, cs, c),
    ensures
        c.pending_steps() == a.pending_steps() + frame_steps(a.timing_table(), cs) + frame_steps(
            a.timing_table(),
            cs,
        ),
        c.timing_table() == a.timing_table(),
{
}

/// Once the queued steps are played the line is low, whatever level it was
/// at before: right after construction, and again after every write that
/// follows a state with that property.
pub proof fn lemma_line_idle_low<DELAY, PIN>(
    a: Ws2812<DELAY, PIN>,
    b: Ws2812<DELAY, PIN>,
    cs: Seq<Color>,
    start: bool,
)
    requires
        !level_after(a.pending_steps(), start),
        Ws2812::wrote(a, cs, b),
    ensures
        !level_after(seq![Step::Low], start),
        !level_after(b.pending_steps(), start),
{
    lemma_level_concat(a.pending_steps(), frame_steps(a.timing_table(), cs), start);
    lemma_frame_level(a.timing_table(), cs, level_after(a.pending_steps(), start));
}

} // verus!
