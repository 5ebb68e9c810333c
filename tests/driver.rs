use ws2812_delay::{Color, Step, Timing, Ws2812};

fn standard_bit(one: bool) -> Vec<Step> {
    if one {
        vec![Step::High, Step::DelayNs(600), Step::Low, Step::DelayNs(600)]
    } else {
        vec![Step::High, Step::DelayNs(300), Step::Low, Step::DelayNs(800)]
    }
}

fn slow_bit(one: bool) -> Vec<Step> {
    if one {
        vec![Step::High, Step::DelayNs(600), Step::Low, Step::DelayNs(600)]
    } else {
        vec![Step::High, Step::Low, Step::DelayNs(800)]
    }
}

fn expected_byte(v: u8, bit: fn(bool) -> Vec<Step>) -> Vec<Step> {
    let mut out = Vec::new();
    for i in 0..8u32 {
        out.extend(bit((v >> (7 - i)) & 1 == 1));
    }
    out
}

fn fresh(timing: Timing) -> Ws2812<(), ()> {
    let mut d = Ws2812::with_timing((), (), timing);
    assert_eq!(d.take_steps(), vec![Step::Low]);
    d
}

#[test]
fn new_drives_line_low_once() {
    let mut d = Ws2812::new((), ());
    assert_eq!(d.timing(), Timing::Standard);
    assert_eq!(d.take_steps(), vec![Step::Low]);
    assert_eq!(d.take_steps(), Vec::<Step>::new());
}

#[test]
fn with_timing_keeps_table() {
    let d = Ws2812::with_timing(7u8, 9u16, Timing::Slow);
    assert_eq!(d.timing(), Timing::Slow);
    assert_eq!(d.delay, 7u8);
    assert_eq!(d.pin, 9u16);
}

#[test]
fn timing_table_values() {
    assert_eq!(Timing::Standard.high_ns(true), 600);
    assert_eq!(Timing::Standard.low_ns(true), 600);
    assert_eq!(Timing::Standard.high_ns(false), 300);
    assert_eq!(Timing::Standard.low_ns(false), 800);
    assert_eq!(Timing::Slow.high_ns(true), 600);
    assert_eq!(Timing::Slow.low_ns(true), 600);
    assert_eq!(Timing::Slow.high_ns(false), 0);
    assert_eq!(Timing::Slow.low_ns(false), 800);
}

#[test]
fn standard_bits_as_steps() {
    let mut out = Vec::new();
    ws2812_delay::pulse::emit_bit(Timing::Standard, true, &mut out);
    assert_eq!(out, standard_bit(true));
    let mut out = Vec::new();
    ws2812_delay::pulse::emit_bit(Timing::Standard, false, &mut out);
    assert_eq!(out, standard_bit(false));
}

#[test]
fn slow_zero_bit_has_no_high_wait() {
    let mut out = Vec::new();
    ws2812_delay::pulse::emit_bit(Timing::Slow, false, &mut out);
    assert_eq!(out, vec![Step::High, Step::Low, Step::DelayNs(800)]);
    let mut out = Vec::new();
    ws2812_delay::pulse::emit_bit(Timing::Slow, true, &mut out);
    assert_eq!(out, slow_bit(true));
}

#[test]
fn byte_is_eight_pulses_msb_first() {
    let mut out = vec![Step::Low];
    ws2812_delay::pulse::write_byte(Timing::Standard, 0b1010_0001, &mut out);
    let mut expected = vec![Step::Low];
    for one in [true, false, true, false, false, false, false, true] {
        expected.extend(standard_bit(one));
    }
    assert_eq!(out, expected);
    assert_eq!(out.len(), 1 + 32);
}

#[test]
fn every_byte_matches_table() {
    for v in 0..=255u8 {
        let mut out = Vec::new();
        ws2812_delay::pulse::write_byte(Timing::Standard, v, &mut out);
        assert_eq!(out, expected_byte(v, standard_bit));
        let mut out = Vec::new();
        ws2812_delay::pulse::write_byte(Timing::Slow, v, &mut out);
        assert_eq!(out, expected_byte(v, slow_bit));
    }
}

#[test]
fn pure_red_frame() {
    let mut d = fresh(Timing::Standard);
    assert_eq!(d.write(&[Color::new(255, 0, 0)]), Ok(()));
    let steps = d.take_steps();
    let mut expected = Vec::new();
    expected.extend(expected_byte(0x00, standard_bit));
    expected.extend(expected_byte(0xFF, standard_bit));
    expected.extend(expected_byte(0x00, standard_bit));
    expected.push(Step::DelayUs(300));
    assert_eq!(steps, expected);
    let highs = steps.iter().filter(|s| **s == Step::High).count();
    assert_eq!(highs, 24);
    assert_eq!(steps[0..32], standard_bit(false).repeat(8)[..]);
    assert_eq!(steps[32..64], standard_bit(true).repeat(8)[..]);
}

#[test]
fn empty_frame_is_one_reset() {
    let mut d = fresh(Timing::Standard);
    assert_eq!(d.write(&[]), Ok(()));
    assert_eq!(d.take_steps(), vec![Step::DelayUs(300)]);
}

#[test]
fn frame_sends_green_red_blue_in_order() {
    let colors = [Color::new(1, 2, 3), Color::new(0x10, 0x20, 0x30)];
    let mut d = fresh(Timing::Slow);
    assert_eq!(d.write(&colors), Ok(()));
    let mut expected = Vec::new();
    for b in [2u8, 1, 3, 0x20, 0x10, 0x30] {
        expected.extend(expected_byte(b, slow_bit));
    }
    expected.push(Step::DelayUs(300));
    let steps = d.take_steps();
    assert_eq!(steps, expected);
    let resets = steps.iter().filter(|s| matches!(s, Step::DelayUs(_))).count();
    assert_eq!(resets, 1);
}

#[test]
fn writing_twice_gives_identical_traces() {
    let colors = vec![Color::new(9, 200, 17), Color::new(0, 0, 0), Color::new(255, 255, 255)];
    let mut d = fresh(Timing::Standard);
    assert_eq!(d.write(&colors), Ok(()));
    let first = d.take_steps();
    assert_eq!(d.write(&colors), Ok(()));
    let second = d.take_steps();
    assert_eq!(first, second);

    let mut e = fresh(Timing::Standard);
    assert_eq!(e.write(&colors), Ok(()));
    assert_eq!(e.write(&colors), Ok(()));
    let both = e.take_steps();
    assert_eq!(both.len(), 2 * first.len());
    assert_eq!(both[..first.len()], first[..]);
    assert_eq!(both[first.len()..], first[..]);
}

#[test]
fn write_queues_after_construction_step() {
    let mut d = Ws2812::new((), ());
    assert_eq!(d.write(&[Color::new(0, 0, 0)]), Ok(()));
    let steps = d.take_steps();
    assert_eq!(steps[0], Step::Low);
    assert_eq!(steps.len(), 1 + 3 * 32 + 1);
    assert_eq!(steps.iter().filter(|s| **s == Step::Low).count(), 1 + 24);
}

#[test]
fn color_new_keeps_channels() {
    let c = Color::new(1, 2, 3);
    assert_eq!((c.r, c.g, c.b), (1, 2, 3));
}

#[test]
fn line_ends_low_after_each_frame() {
    let mut d = Ws2812::new((), ());
    assert_eq!(d.write(&[Color::new(255, 255, 255), Color::new(0, 1, 2)]), Ok(()));
    assert_eq!(d.write(&[]), Ok(()));
    let steps = d.take_steps();
    let last_level = steps
        .iter()
        .rev()
        .find(|s| matches!(s, Step::High | Step::Low))
        .copied();
    assert_eq!(last_level, Some(Step::Low));
    assert_eq!(steps.last(), Some(&Step::DelayUs(300)));
}
