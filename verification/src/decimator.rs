use vstd::prelude::*;
use crate::interface::CallbackResult;

verus! {

/// Index of the one parameter of the decimator, its division rate.
pub const DIVISION_RATE_INDEX: usize = 0;

/// Sample of channel `c` in frame `f` of an interleaved buffer with
/// `channels` channels.
pub open spec fn frame_sample<T>(buf: Seq<T>, f: int, c: int, channels: int) -> T {
    buf[f * channels + c]
}

/// Index of the last frame at or before `f` at which the schedule latches a
/// new input frame, or -1 when there is none.
pub open spec fn last_latch(schedule: Seq<bool>, f: int) -> int
    decreases f + 1,
{
    if f < 0 {
        -1
    } else if schedule[f] {
        f
    } else {
        last_latch(schedule, f - 1)
    }
}

/// The latch as a block starts: the held frame, extended with `fill` up to
/// `channels` samples when it holds fewer.
pub open spec fn grown_latch<T>(latch: Seq<T>, channels: int, fill: T) -> Seq<T> {
    if latch.len() >= channels {
        latch
    } else {
        latch + Seq::new((channels - latch.len()) as nat, |_i: int| fill)
    }
}

/// The latch after frame `f` of a block: the most recently latched input
/// frame, or the latch as the block started when none was latched yet.
pub open spec fn latch_after<T>(start: Seq<T>, inbuf: Seq<T>, schedule: Seq<bool>, f: int, channels: int) -> Seq<T> {
    let g = last_latch(schedule, f);
    if g < 0 {
        start
    } else {
        inbuf.subrange(g * channels, g * channels + channels)
    }
}

/// The sample that frame `f`, channel `c` of the output holds: channel `c`
/// of the latch after frame `f`.
pub open spec fn held_sample<T>(start: Seq<T>, inbuf: Seq<T>, schedule: Seq<bool>, f: int, c: int, channels: int) -> T {
    latch_after(start, inbuf, schedule, f, channels)[c]
}

/// Extending the latch to a block's channel count keeps every sample it held
/// and adds `fill` only for the channels it lacked.
pub proof fn lemma_grown_latch_keeps_held<T>(latch: Seq<T>, channels: int, fill: T)
    ensures
        grown_latch(latch, channels, fill).len() == if latch.len() >= channels { latch.len() as int } else { channels },
        forall|c: int| 0 <= c < latch.len() ==> #[trigger] grown_latch(latch, channels, fill)[c] == latch[c],
        forall|c: int| latch.len() <= c < channels ==> #[trigger] grown_latch(latch, channels, fill)[c] == fill,
{
}

proof fn lemma_frame_bounds(f: int, channels: int, frames: int)
    requires
        0 <= f < frames,
        0 <= channels,
    ensures
        0 <= f * channels,
        f * channels + channels == (f + 1) * channels <= frames * channels,
{
    assert(0 <= f * channels) by (nonlinear_arith)
        requires
            0 <= f,
            0 <= channels,
    ;
    assert((f + 1) * channels == f * channels + channels) by (nonlinear_arith);
    assert((f + 1) * channels <= frames * channels) by (nonlinear_arith)
        requires
            f + 1 <= frames,
            0 <= channels,
    ;
}

proof fn lemma_last_latch_range(schedule: Seq<bool>, f: int)
    ensures
        -1 <= last_latch(schedule, f) <= f || f < 0,
        f < 0 ==> last_latch(schedule, f) == -1,
        last_latch(schedule, f) >= 0 ==> schedule[last_latch(schedule, f)],
    decreases f + 1,
{
    if f >= 0 && !schedule[f] {
        lemma_last_latch_range(schedule, f - 1);
    }
}

/// A decimator whose schedule latches every frame holds each input frame for
/// exactly that frame: its output is its input.
pub proof fn lemma_full_schedule_passes_input<T>(start: Seq<T>, inbuf: Seq<T>, schedule: Seq<bool>, frames: int, channels: int)
    requires
        0 <= channels,
        frames * channels <= inbuf.len(),
        frames <= schedule.len(),
        forall|f: int| 0 <= f < frames ==> #[trigger] schedule[f],
    ensures
        forall|f: int, c: int|
            0 <= f < frames && 0 <= c < channels ==> #[trigger] held_sample(start, inbuf, schedule, f, c, channels)
                == frame_sample(inbuf, f, c, channels),
{
    assert forall|f: int, c: int| 0 <= f < frames && 0 <= c < channels implies #[trigger] held_sample(
        start,
        inbuf,
        schedule,
        f,
        c,
        channels,
    ) == frame_sample(inbuf, f, c, channels) by {
        assert(schedule[f]);
        assert(last_latch(schedule, f) == f);
        lemma_frame_bounds(f, channels, frames);
    }
}

proof fn lemma_last_latch_prefix(s1: Seq<bool>, s2: Seq<bool>, f: int)
    requires
        f < s1.len(),
    ensures
        last_latch(s1 + s2, f) == last_latch(s1, f),
    decreases f + 1,
{
    if f >= 0 {
        assert((s1 + s2)[f] == s1[f]);
        lemma_last_latch_prefix(s1, s2, f - 1);
    }
}

proof fn lemma_last_latch_suffix(s1: Seq<bool>, s2: Seq<bool>, f: int)
    requires
        -1 <= f < s2.len(),
    ensures
        last_latch(s1 + s2, s1.len() + f) == if last_latch(s2, f) >= 0 {
            s1.len() + last_latch(s2, f)
        } else {
            last_latch(s1, s1.len() - 1)
        },
    decreases f + 1,
{
    if f < 0 {
        lemma_last_latch_prefix(s1, s2, s1.len() - 1);
    } else {
        assert((s1 + s2)[s1.len() + f] == s2[f]);
        lemma_last_latch_suffix(s1, s2, f - 1);
    }
}

proof fn lemma_latch_in_prefix<T>(start: Seq<T>, in1: Seq<T>, in2: Seq<T>, s1: Seq<bool>, s2: Seq<bool>, f: int, ch: int)
    requires
        0 <= ch,
        -1 <= f < s1.len(),
        in1.len() == s1.len() * ch,
    ensures
        latch_after(start, in1 + in2, s1 + s2, f, ch) == latch_after(start, in1, s1, f, ch),
        latch_after(start, in1, s1, f, ch).len() == if last_latch(s1, f) >= 0 { ch } else { start.len() as int },
{
    lemma_last_latch_prefix(s1, s2, f);
    lemma_last_latch_range(s1, f);
    let g = last_latch(s1, f);
    if g >= 0 {
        lemma_frame_bounds(g, ch, s1.len() as int);
        assert((in1 + in2).subrange(g * ch, g * ch + ch) =~= in1.subrange(g * ch, g * ch + ch));
    }
}

/// How the host splits the stream into blocks does not change what the
/// decimator outputs: running a block and then the next one, the latch
/// carried from the first into the second, holds the same samples and ends
/// with the same latch as running both blocks as one.
pub proof fn lemma_blocks_compose<T>(
    start: Seq<T>,
    in1: Seq<T>,
    in2: Seq<T>,
    s1: Seq<bool>,
    s2: Seq<bool>,
    ch: int,
    fill: T,
)
    requires
        0 <= ch,
        start.len() >= ch,
        in1.len() == s1.len() * ch,
        in2.len() == s2.len() * ch,
    ensures
        latch_after(start, in1, s1, s1.len() - 1, ch).len() >= ch,
        grown_latch(latch_after(start, in1, s1, s1.len() - 1, ch), ch, fill) == latch_after(
            start,
            in1,
            s1,
            s1.len() - 1,
            ch,
        ),
        forall|f: int, c: int|
            0 <= f < s1.len() && 0 <= c < ch ==> #[trigger] held_sample(start, in1, s1, f, c, ch)
                == held_sample(start, in1 + in2, s1 + s2, f, c, ch),
        forall|f: int, c: int|
            0 <= f < s2.len() && 0 <= c < ch ==> #[trigger] held_sample(
                latch_after(start, in1, s1, s1.len() - 1, ch),
                in2,
                s2,
                f,
                c,
                ch,
            ) == held_sample(start, in1 + in2, s1 + s2, s1.len() + f, c, ch),
        latch_after(latch_after(start, in1, s1, s1.len() - 1, ch), in2, s2, s2.len() - 1, ch)
            == latch_after(start, in1 + in2, s1 + s2, s1.len() + s2.len() - 1, ch),
{
    let n1 = s1.len() as int;
    let mid = latch_after(start, in1, s1, n1 - 1, ch);
    lemma_latch_in_prefix(start, in1, in2, s1, s2, n1 - 1, ch);
    assert forall|f: int, c: int| 0 <= f < s1.len() && 0 <= c < ch implies #[trigger] held_sample(
        start,
        in1,
        s1,
        f,
        c,
        ch,
    ) == held_sample(start, in1 + in2, s1 + s2, f, c, ch) by {
        lemma_latch_in_prefix(start, in1, in2, s1, s2, f, ch);
    }
    assert forall|f: int| -1 <= f < s2.len() implies #[trigger] latch_after(mid, in2, s2, f, ch)
        == latch_after(start, in1 + in2, s1 + s2, n1 + f, ch) by {
        lemma_last_latch_suffix(s1, s2, f);
        lemma_last_latch_range(s2, f);
        let g = last_latch(s2, f);
        if g >= 0 {
            lemma_frame_bounds(g, ch, s2.len() as int);
            assert((n1 + g) * ch == n1 * ch + g * ch) by (nonlinear_arith);
            assert((in1 + in2).subrange((n1 + g) * ch, (n1 + g) * ch + ch) =~= in2.subrange(g * ch, g * ch + ch));
        } else {
            lemma_last_latch_prefix(s1, s2, n1 - 1);
        }
    }
    assert forall|f: int, c: int| 0 <= f < s2.len() && 0 <= c < ch implies #[trigger] held_sample(
        mid,
        in2,
        s2,
        f,
        c,
        ch,
    ) == held_sample(start, in1 + in2, s1 + s2, n1 + f, c, ch) by {
        assert(latch_after(mid, in2, s2, f, ch) == latch_after(start, in1 + in2, s1 + s2, n1 + f, ch));
    }
}

/// Each output frame of a block is its own input frame where the schedule
/// latches, and otherwise a repeat of the output frame before it; the first
/// frame, when it does not latch, repeats the latch the block started with.
pub proof fn lemma_output_holds_or_latches<T>(start: Seq<T>, inbuf: Seq<T>, schedule: Seq<bool>, frames: int, channels: int)
    requires
        0 <= channels,
        frames * channels <= inbuf.len(),
        frames <= schedule.len(),
    ensures
        forall|f: int, c: int|
            0 <= f < frames && 0 <= c < channels ==> #[trigger] held_sample(start, inbuf, schedule, f, c, channels)
                == if schedule[f] {
                frame_sample(inbuf, f, c, channels)
            } else if f == 0 {
                start[c]
            } else {
                held_sample(start, inbuf, schedule, f - 1, c, channels)
            },
{
    assert forall|f: int, c: int| 0 <= f < frames && 0 <= c < channels implies #[trigger] held_sample(
        start,
        inbuf,
        schedule,
        f,
        c,
        channels,
    ) == if schedule[f] {
        frame_sample(inbuf, f, c, channels)
    } else if f == 0 {
        start[c]
    } else {
        held_sample(start, inbuf, schedule, f - 1, c, channels)
    } by {
        lemma_frame_bounds(f, channels, frames);
        lemma_last_latch_range(schedule, f - 1);
    }
}

/// Copies the input block to the output unchanged.
pub fn pass_through<T: Copy>(inbuf: &[T], outbuf: &mut [T])
    requires
        inbuf@.len() == old(outbuf)@.len(),
    ensures
        final(outbuf)@ == inbuf@,
{
    let n = inbuf.len();
    let mut i: usize = 0;
    while i < n
        invariant
            n == inbuf@.len(),
            outbuf@.len() == n,
            0 <= i <= n,
            forall|j: int| 0 <= j < i ==> outbuf@[j] == inbuf@[j],
        decreases n - i,
    {
        outbuf[i] = inbuf[i];
        i = i + 1;
    }
    assert(outbuf@ =~= inbuf@);
}

/// The held frame of a sample-and-hold decimator: one sample per channel,
/// latched from the input whenever the decimator's clock says so.
pub struct SampleLatch<T> {
    locking: Vec<T>,
}

impl<T> View for SampleLatch<T> {
    type V = Seq<T>;

    closed spec fn view(&self) -> Seq<T> {
        self.locking@
    }
}

impl<T: Copy> SampleLatch<T> {
    /// A latch that holds no frame yet.
    pub fn new() -> (l: Self)
        ensures
            l@ == Seq::<T>::empty(),
    {
        SampleLatch { locking: Vec::new() }
    }

    /// Number of samples the latch holds.
    pub fn len(&self) -> (n: usize)
        ensures
            n == self@.len(),
    {
        self.locking.len()
    }

    fn grow(&mut self, channels: usize, fill: T)
        ensures
            final(self)@ == grown_latch(old(self)@, channels as int, fill),
    {
        let ghost start = self.locking@;
        if self.locking.len() < channels {
            while self.locking.len() < channels
                invariant
                    start.len() < channels,
                    start.len() <= self.locking@.len() <= channels,
                    self.locking@ =~= start + Seq::new(
                        (self.locking@.len() - start.len()) as nat,
                        |_i: int| fill,
                    ),
                decreases channels - self.locking@.len(),
            {
                self.locking.push(fill);
            }
        }
    }

    /// Runs one block of `frames` interleaved frames through the latch.  At
    /// each frame whose `schedule` entry is set, the latch first takes that
    /// input frame (and so holds exactly `channels` samples); every output
    /// frame is then the latch's first `channels` samples.  A latch holding
    /// fewer samples than `channels` is first extended with `fill`.
    pub fn hold(
        &mut self,
        schedule: &[bool],
        inbuf: &[T],
        outbuf: &mut [T],
        frames: usize,
        channels: usize,
        fill: T,
    )
        requires
            frames <= schedule@.len(),
            frames * channels <= inbuf@.len(),
            frames * channels <= old(outbuf)@.len(),
        ensures
            final(outbuf)@.len() == old(outbuf)@.len(),
            forall|f: int, c: int|
                0 <= f < frames && 0 <= c < channels ==> #[trigger] frame_sample(final(outbuf)@, f, c, channels as int)
                    == held_sample(
                    grown_latch(old(self)@, channels as int, fill),
                    inbuf@,
                    schedule@,
                    f,
                    c,
                    channels as int,
                ),
            forall|i: int|
                frames * channels <= i < old(outbuf)@.len() ==> #[trigger] final(outbuf)@[i] == old(outbuf)@[i],
            final(self)@ == latch_after(
                grown_latch(old(self)@, channels as int, fill),
                inbuf@,
                schedule@,
                frames - 1,
                channels as int,
            ),
    {
        let ghost sched = schedule@;
        let ghost input = inbuf@;
        let ghost out0 = outbuf@;
        let in_len = inbuf.len();
        let out_len = outbuf.len();
        self.grow(channels, fill);
        let ghost start = self.locking@;
        let ghost ch = channels as int;
        let mut f: usize = 0;
        while f < frames
            invariant
                sched == schedule@,
                input == inbuf@,
                in_len == input.len(),
                out_len == out0.len(),
                ch == channels,
                frames <= sched.len(),
                frames * channels <= input.len(),
                frames * channels <= out0.len(),
                outbuf@.len() == out0.len(),
                start.len() >= ch,
                0 <= f <= frames,
                self.locking@ == latch_after(start, input, sched, f - 1, ch),
                forall|f2: int, c2: int|
                    0 <= f2 < f && 0 <= c2 < ch ==> #[trigger] frame_sample(outbuf@, f2, c2, ch)
                        == held_sample(start, input, sched, f2, c2, ch),
                forall|i: int| f * ch <= i < out0.len() ==> #[trigger] outbuf@[i] == out0[i],
            decreases frames - f,
        {
            proof {
                lemma_frame_bounds(f as int, ch, frames as int);
                lemma_last_latch_range(sched, f - 1);
                let g = last_latch(sched, f - 1);
                if g >= 0 {
                    lemma_frame_bounds(g, ch, frames as int);
                }
            }
            let base: usize = f * channels;
            if schedule[f] {
                self.locking.truncate(channels);
                let mut c: usize = 0;
                while c < channels
                    invariant
                        input == inbuf@,
                        in_len == input.len(),
                        ch == channels,
                        base == f * ch,
                        base + ch <= input.len(),
                        self.locking@.len() == ch,
                        0 <= c <= ch,
                        forall|c2: int| 0 <= c2 < c ==> #[trigger] self.locking@[c2] == input[base + c2],
                    decreases channels - c,
                {
                    self.locking[c] = inbuf[base + c];
                    c = c + 1;
                }
                assert(self.locking@ =~= input.subrange(base as int, base + ch));
            }
            assert(self.locking@ == latch_after(start, input, sched, f as int, ch));
            let ghost before = outbuf@;
            let mut c: usize = 0;
            while c < channels
                invariant
                    ch == channels,
                    out_len == out0.len(),
                    base == f * ch,
                    base + ch <= out0.len(),
                    outbuf@.len() == out0.len(),
                    self.locking@.len() >= ch,
                    0 <= c <= ch,
                    forall|c2: int| 0 <= c2 < c ==> #[trigger] outbuf@[base + c2] == self.locking@[c2],
                    forall|i: int| 0 <= i < base ==> #[trigger] outbuf@[i] == before[i],
                    forall|i: int| base + c <= i < out0.len() ==> #[trigger] outbuf@[i] == out0[i],
                decreases channels - c,
            {
                outbuf[base + c] = self.locking[c];
                c = c + 1;
            }
            assert forall|f2: int, c2: int| 0 <= f2 < f + 1 && 0 <= c2 < ch implies #[trigger] frame_sample(
                outbuf@,
                f2,
                c2,
                ch,
            ) == held_sample(start, input, sched, f2, c2, ch) by {
                lemma_frame_bounds(f2, ch, frames as int);
                if f2 < f {
                    lemma_frame_bounds(f2, ch, f as int);
                    assert(frame_sample(before, f2, c2, ch) == held_sample(start, input, sched, f2, c2, ch));
                } else {
                    assert(outbuf@[base + c2] == self.locking@[c2]);
                }
            }
            assert((f + 1) * ch == base + ch) by (nonlinear_arith)
                requires
                    base == f * ch,
            ;
            f = f + 1;
        }
    }
}

/// Outcome of a request that reads or changes parameter `index`.
pub open spec fn parameter_result(index: usize) -> CallbackResult {
    if index == DIVISION_RATE_INDEX {
        CallbackResult::Success
    } else {
        CallbackResult::Unsupported
    }
}

/// The parameter's value after a request to set parameter `index` to `value`.
pub open spec fn parameter_after_set<T>(slot: T, index: usize, value: T) -> T {
    if index == DIVISION_RATE_INDEX {
        value
    } else {
        slot
    }
}

/// What the caller's output holds after a request to read parameter `index`.
pub open spec fn parameter_read<T>(slot: T, index: usize, out: T) -> T {
    if index == DIVISION_RATE_INDEX {
        slot
    } else {
        out
    }
}

/// The decimator's state after `process_block` runs a block: the latch after
/// the block's last frame, and the division rate unchanged.
pub open spec fn after_block<T>(
    d: (Seq<T>, T),
    schedule: Seq<bool>,
    inbuf: Seq<T>,
    frames: int,
    channels: int,
    fill: T,
) -> (Seq<T>, T) {
    (latch_after(grown_latch(d.0, channels, fill), inbuf, schedule, frames - 1, channels), d.1)
}

/// The decimator's verified state: the latch and the pending division rate,
/// the parameter that the host sets.
pub struct Decimator<T> {
    latch: SampleLatch<T>,
    div_pending: T,
}

impl<T> View for Decimator<T> {
    /// The held frame and the pending division rate.
    type V = (Seq<T>, T);

    closed spec fn view(&self) -> (Seq<T>, T) {
        (self.latch@, self.div_pending)
    }
}

impl<T: Copy> Decimator<T> {
    /// A decimator holding no frame yet, with division rate `rate`.
    pub fn new(rate: T) -> (d: Self)
        ensures
            d@.0 == Seq::<T>::empty(),
            d@.1 == rate,
    {
        Decimator { latch: SampleLatch::new(), div_pending: rate }
    }

    /// The pending division rate.
    pub fn division_rate(&self) -> (r: T)
        ensures
            r == self@.1,
    {
        self.div_pending
    }

    /// Number of samples the latch holds.
    pub fn latch_len(&self) -> (n: usize)
        ensures
            n == self@.0.len(),
    {
        self.latch.len()
    }

    /// Sets parameter `index` to `value`: only the division rate exists.
    pub fn set_float_parameter(&mut self, index: usize, value: T) -> (r: CallbackResult)
        ensures
            r == parameter_result(index),
            final(self)@.1 == parameter_after_set(old(self)@.1, index, value),
            final(self)@.0 == old(self)@.0,
    {
        if index == DIVISION_RATE_INDEX {
            self.div_pending = value;
            CallbackResult::Success
        } else {
            CallbackResult::Unsupported
        }
    }

    /// Reads parameter `index` into `out`: only the division rate exists.
    pub fn get_float_parameter(&self, index: usize, out: &mut T) -> (r: CallbackResult)
        ensures
            r == parameter_result(index),
            *final(out) == parameter_read(self@.1, index, *old(out)),
    {
        if index == DIVISION_RATE_INDEX {
            *out = self.div_pending;
            CallbackResult::Success
        } else {
            CallbackResult::Unsupported
        }
    }

    /// Runs one block through the latch, as `SampleLatch::hold` does; the
    /// division rate is left as it was.
    pub fn process_block(
        &mut self,
        schedule: &[bool],
        inbuf: &[T],
        outbuf: &mut [T],
        frames: usize,
        channels: usize,
        fill: T,
    )
        requires
            frames <= schedule@.len(),
            frames * channels <= inbuf@.len(),
            frames * channels <= old(outbuf)@.len(),
        ensures
            final(self)@ == after_block(old(self)@, schedule@, inbuf@, frames as int, channels as int, fill),
            final(self)@.0 == latch_after(
                grown_latch(old(self)@.0, channels as int, fill),
                inbuf@,
                schedule@,
                frames - 1,
                channels as int,
            ),
            final(self)@.1 == old(self)@.1,
            final(outbuf)@.len() == old(outbuf)@.len(),
            forall|f: int, c: int|
                0 <= f < frames && 0 <= c < channels ==> #[trigger] frame_sample(final(outbuf)@, f, c, channels as int)
                    == held_sample(
                    grown_latch(old(self)@.0, channels as int, fill),
                    inbuf@,
                    schedule@,
                    f,
                    c,
                    channels as int,
                ),
            forall|i: int|
                frames * channels <= i < old(outbuf)@.len() ==> #[trigger] final(outbuf)@[i] == old(outbuf)@[i],
    {
        self.latch.hold(schedule, inbuf, outbuf, frames, channels, fill);
    }
}

/// The decimator carries its held frame from one block into the next: for
/// any state, running a block and then another through `process_block`
/// outputs, in the second block, the same samples as running the two blocks
/// as one block, and leaves the same state; a block that starts mid-hold
/// keeps holding the frame latched in the block before.
pub proof fn lemma_process_blocks_compose<T>(
    d: (Seq<T>, T),
    in1: Seq<T>,
    in2: Seq<T>,
    s1: Seq<bool>,
    s2: Seq<bool>,
    ch: int,
    fill: T,
)
    requires
        0 <= ch,
        in1.len() == s1.len() * ch,
        in2.len() == s2.len() * ch,
    ensures
        forall|f: int, c: int|
            0 <= f < s2.len() && 0 <= c < ch ==> #[trigger] held_sample(
                grown_latch(after_block(d, s1, in1, s1.len() as int, ch, fill).0, ch, fill),
                in2,
                s2,
                f,
                c,
                ch,
            ) == held_sample(grown_latch(d.0, ch, fill), in1 + in2, s1 + s2, s1.len() + f, c, ch),
        after_block(after_block(d, s1, in1, s1.len() as int, ch, fill), s2, in2, s2.len() as int, ch, fill)
            == after_block(d, s1 + s2, in1 + in2, (s1.len() + s2.len()) as int, ch, fill),
{
    let start = grown_latch(d.0, ch, fill);
    lemma_blocks_compose(start, in1, in2, s1, s2, ch, fill);
}

/// The division rate survives any number of processing blocks: when each
/// state of the decimator after the first is what `process_block` leaves
/// after running a block on the state before it, reading the division rate
/// in the last state gives back the rate of the first.
pub proof fn lemma_rate_survives_blocks<T>(
    states: Seq<(Seq<T>, T)>,
    schedules: Seq<Seq<bool>>,
    inputs: Seq<Seq<T>>,
    frames: Seq<int>,
    channels: Seq<int>,
    fills: Seq<T>,
    out: T,
)
    requires
        states.len() > 0,
        schedules.len() == states.len() - 1,
        inputs.len() == states.len() - 1,
        frames.len() == states.len() - 1,
        channels.len() == states.len() - 1,
        fills.len() == states.len() - 1,
        forall|i: int|
            0 <= i < states.len() - 1 ==> #[trigger] states[i + 1] == after_block(
                states[i],
                schedules[i],
                inputs[i],
                frames[i],
                channels[i],
                fills[i],
            ),
    ensures
        states.last().1 == states[0].1,
        parameter_read(states.last().1, DIVISION_RATE_INDEX, out) == states[0].1,
    decreases states.len(),
{
    if states.len() > 1 {
        let k = states.len() - 2;
        assert(states[k + 1] == after_block(states[k], schedules[k], inputs[k], frames[k], channels[k], fills[k]));
        lemma_rate_survives_blocks(
            states.drop_last(),
            schedules.drop_last(),
            inputs.drop_last(),
            frames.drop_last(),
            channels.drop_last(),
            fills.drop_last(),
            out,
        );
    }
}

/// A block whose first frame does not latch starts where the previous block
/// ended: its first output frame repeats the previous block's last output
/// frame, for the same channel count.
pub proof fn lemma_first_frame_continues<T>(
    start: Seq<T>,
    in1: Seq<T>,
    s1: Seq<bool>,
    frames1: int,
    in2: Seq<T>,
    s2: Seq<bool>,
    channels: int,
    fill: T,
)
    requires
        0 <= channels,
        start.len() >= channels,
        1 <= frames1,
        frames1 * channels <= in1.len(),
        frames1 <= s1.len(),
        s2.len() >= 1,
        !s2[0],
    ensures
        forall|c: int|
            0 <= c < channels ==> #[trigger] held_sample(
                grown_latch(latch_after(start, in1, s1, frames1 - 1, channels), channels, fill),
                in2,
                s2,
                0,
                c,
                channels,
            ) == held_sample(start, in1, s1, frames1 - 1, c, channels),
{
    lemma_last_latch_range(s1, frames1 - 1);
    let g = last_latch(s1, frames1 - 1);
    if g >= 0 {
        lemma_frame_bounds(g, channels, frames1);
    }
    lemma_last_latch_range(s2, -1);
    assert(last_latch(s2, 0) == -1);
}

/// Reading the division rate gives back the value last set; a request for
/// any other parameter is refused and changes neither the parameter nor the
/// caller's output.
pub proof fn lemma_parameter_read_back<T>(slot: T, value: T, out: T, index: usize)
    ensures
        parameter_read(parameter_after_set(slot, DIVISION_RATE_INDEX, value), DIVISION_RATE_INDEX, out) == value,
        parameter_result(DIVISION_RATE_INDEX) == CallbackResult::Success,
        index != DIVISION_RATE_INDEX ==> {
            &&& parameter_after_set(slot, index, value) == slot
            &&& parameter_read(slot, index, out) == out
            &&& parameter_result(index) == CallbackResult::Unsupported
        },
{
}

} // verus!
