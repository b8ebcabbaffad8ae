use unidecim::decimator::{pass_through, Decimator, SampleLatch, DIVISION_RATE_INDEX};
use unidecim::interface::CallbackResult;

#[test]
fn pass_through_copies() {
    let inb = [0.25f32, -0.5, 1.0, 0.0];
    let mut out = [9.0f32; 4];
    pass_through(&inb, &mut out);
    assert_eq!(out, inb);
}

#[test]
fn hold_mono_schedule() {
    let mut latch: SampleLatch<f32> = SampleLatch::new();
    let inb = [1.0f32, 2.0, 3.0, 4.0, 5.0];
    let mut out = [0.0f32; 5];
    let schedule = [true, false, true, false, false];
    latch.hold(&schedule, &inb, &mut out, 5, 1, 0.0);
    assert_eq!(out, [1.0, 1.0, 3.0, 3.0, 3.0]);
    assert_eq!(latch.len(), 1);
}

#[test]
fn hold_stereo_schedule() {
    let mut latch: SampleLatch<i32> = SampleLatch::new();
    let inb = [10, 11, 20, 21, 30, 31];
    let mut out = [0; 6];
    latch.hold(&[true, false, true], &inb, &mut out, 3, 2, 0);
    assert_eq!(out, [10, 11, 10, 11, 30, 31]);
}

#[test]
fn hold_carries_latch_across_blocks() {
    let mut latch: SampleLatch<i32> = SampleLatch::new();
    let mut out = [0; 4];
    latch.hold(&[true, false], &[1, 2, 3, 4], &mut out, 2, 2, 0);
    assert_eq!(out, [1, 2, 1, 2]);
    let mut out2 = [0; 4];
    latch.hold(&[false, true], &[5, 6, 7, 8], &mut out2, 2, 2, 0);
    assert_eq!(out2, [1, 2, 7, 8]);
}

#[test]
fn hold_without_latch_uses_fill() {
    let mut latch: SampleLatch<i32> = SampleLatch::new();
    let mut out = [0; 4];
    latch.hold(&[false, false], &[1, 2, 3, 4], &mut out, 2, 2, -7);
    assert_eq!(out, [-7, -7, -7, -7]);
    assert_eq!(latch.len(), 2);
}

#[test]
fn hold_every_frame_is_identity() {
    let mut latch: SampleLatch<f32> = SampleLatch::new();
    let inb = [0.1f32, 0.2, 0.3, 0.4, 0.5, 0.6];
    let mut out = [0.0f32; 6];
    latch.hold(&[true; 3], &inb, &mut out, 3, 2, 0.0);
    assert_eq!(out, inb);
}

#[test]
fn hold_leaves_tail_of_output() {
    let mut latch: SampleLatch<i32> = SampleLatch::new();
    let mut out = [9; 5];
    latch.hold(&[true, true], &[1, 2, 3, 4, 5], &mut out, 2, 2, 0);
    assert_eq!(out, [1, 2, 3, 4, 9]);
}

#[test]
fn hold_fewer_channels_without_latch() {
    let mut latch: SampleLatch<i32> = SampleLatch::new();
    let mut out = [0; 3];
    latch.hold(&[true], &[1, 2, 3], &mut out, 1, 3, 0);
    let mut out2 = [0; 2];
    latch.hold(&[false, false], &[8, 9], &mut out2, 2, 1, 0);
    assert_eq!(out2, [1, 1]);
    assert_eq!(latch.len(), 3);
}

#[test]
fn hold_empty_block() {
    let mut latch: SampleLatch<i32> = SampleLatch::new();
    let mut out: [i32; 0] = [];
    latch.hold(&[], &[], &mut out, 0, 2, 4);
    assert_eq!(latch.len(), 2);
    let mut out2 = [0; 2];
    latch.hold(&[false], &[1, 2], &mut out2, 1, 2, 0);
    assert_eq!(out2, [4, 4]);
}

#[test]
fn division_rate_set_then_get() {
    let mut d: Decimator<f32> = Decimator::new(1.0);
    assert_eq!(d.division_rate(), 1.0);
    assert_eq!(d.set_float_parameter(DIVISION_RATE_INDEX, 12.5), CallbackResult::Success);
    let mut value = 0.0f32;
    assert_eq!(d.get_float_parameter(0, &mut value), CallbackResult::Success);
    assert_eq!(value, 12.5);
    assert_eq!(d.division_rate(), 12.5);
}

#[test]
fn unknown_parameter_index() {
    let mut d: Decimator<f32> = Decimator::new(3.0);
    assert_eq!(d.set_float_parameter(1, 7.0), CallbackResult::Unsupported);
    assert_eq!(d.division_rate(), 3.0);
    let mut value = -1.0f32;
    assert_eq!(d.get_float_parameter(5, &mut value), CallbackResult::Unsupported);
    assert_eq!(value, -1.0);
}

#[test]
fn rate_survives_processing() {
    let mut d: Decimator<u32> = Decimator::new(1);
    assert_eq!(d.set_float_parameter(0, 4), CallbackResult::Success);
    let mut out = [0u32; 4];
    d.process_block(&[true, false], &[1, 2, 3, 4], &mut out, 2, 2, 0);
    assert_eq!(out, [1, 2, 1, 2]);
    d.process_block(&[true], &[5, 6], &mut out, 1, 2, 0);
    let mut value = 0u32;
    assert_eq!(d.get_float_parameter(0, &mut value), CallbackResult::Success);
    assert_eq!(value, 4);
    assert_eq!(d.latch_len(), 2);
}

#[test]
fn channel_drop_at_a_latch_frame() {
    let mut latch: SampleLatch<f32> = SampleLatch::new();
    let mut out = [0.0f32; 4];
    latch.hold(&[true, false], &[1.0, 10.0, 2.0, 20.0], &mut out, 2, 2, 0.0);
    assert_eq!(out, [1.0, 10.0, 1.0, 10.0]);
    let mut out2 = [0.0f32; 1];
    latch.hold(&[true], &[5.0], &mut out2, 1, 1, 0.0);
    assert_eq!(out2, [5.0]);
    assert_eq!(latch.len(), 1);
}

#[test]
fn channel_drop_without_latch_keeps_first_channels() {
    let mut latch: SampleLatch<i32> = SampleLatch::new();
    let mut out = [0; 3];
    latch.hold(&[true], &[4, 5, 6], &mut out, 1, 3, 0);
    let mut out2 = [0; 2];
    latch.hold(&[false, true], &[7, 8], &mut out2, 2, 1, 0);
    assert_eq!(out2, [4, 8]);
    assert_eq!(latch.len(), 1);
}

#[test]
fn each_frame_latches_or_repeats() {
    let mut latch: SampleLatch<i32> = SampleLatch::new();
    let inb = [1, 2, 3, 4, 5, 6, 7, 8];
    let schedule = [false, true, false, true];
    let mut out = [0; 8];
    latch.hold(&schedule, &inb, &mut out, 4, 2, -1);
    for f in 0..4 {
        let frame = &out[2 * f..2 * f + 2];
        if schedule[f] {
            assert_eq!(frame, &inb[2 * f..2 * f + 2]);
        } else if f == 0 {
            assert_eq!(frame, &[-1, -1]);
        } else {
            assert_eq!(frame, &out[2 * (f - 1)..2 * f]);
        }
    }
}

#[test]
fn split_blocks_match_one_block() {
    let inb = [1, 2, 3, 4, 5, 6, 7, 8, 9, 10];
    let schedule = [true, false, false, true, false];
    let mut whole: SampleLatch<i32> = SampleLatch::new();
    let mut out_whole = [0; 10];
    whole.hold(&schedule, &inb, &mut out_whole, 5, 2, 0);
    assert_eq!(out_whole, [1, 2, 1, 2, 1, 2, 7, 8, 7, 8]);

    let mut split: SampleLatch<i32> = SampleLatch::new();
    let mut out_a = [0; 4];
    let mut out_b = [0; 6];
    split.hold(&schedule[..2], &inb[..4], &mut out_a, 2, 2, 0);
    split.hold(&schedule[2..], &inb[4..], &mut out_b, 3, 2, 0);
    assert_eq!([&out_a[..], &out_b[..]].concat(), out_whole.to_vec());

    let mut out_next_whole = [0; 2];
    let mut out_next_split = [0; 2];
    whole.hold(&[false], &[0, 0], &mut out_next_whole, 1, 2, 0);
    split.hold(&[false], &[0, 0], &mut out_next_split, 1, 2, 0);
    assert_eq!(out_next_whole, out_next_split);
    assert_eq!(out_next_whole, [7, 8]);
}
