//! Direction-aware encoder counts from two analog channels, and the
//! differential drive that feeds them.
use vstd::prelude::*;

verus! {

/// How a motor output drives its two channels.
#[derive(Debug, Clone, Copy, PartialEq, Eq, Structural)]
pub enum Mode {
    /// One channel held at zero: the motor coasts.
    Free,
    /// Both channels near full scale: the motor brakes.
    Brake,
}

/// The duties of the two channels of a motor output, for a signed duty
/// `duty` out of full scale `full`. Free: one channel at zero, the other at
/// `|duty|`, the sign choosing which. Brake: both channels near full scale,
/// one of them lowered by `|duty|`.
pub open spec fn duty_pair(duty: int, full: int, mode: Mode) -> (int, int) {
    match mode {
        Mode::Free => if duty > 0 {
            (0, duty)
        } else {
            (-duty, 0)
        },
        Mode::Brake => if duty > 0 {
            (full, full - duty)
        } else {
            (full + duty, full)
        },
    }
}

/// The channel duties for `duty` out of `full` in the given mode.
pub fn drive_duties(duty: i32, full: u16, mode: Mode) -> (r: (u16, u16))
    requires
        -(full as int) <= duty <= full,
    ensures
        (r.0 as int, r.1 as int) == duty_pair(duty as int, full as int, mode),
{
    match mode {
        Mode::Free => if duty > 0 {
            (0, duty as u16)
        } else {
            ((-duty) as u16, 0)
        },
        Mode::Brake => if duty > 0 {
            (full, full - duty as u16)
        } else {
            ((full as i32 + duty) as u16, full)
        },
    }
}

/// The midpoint of two samples.
pub trait Avg: Sized {
    spec fn avg_spec(a: Self, b: Self) -> Self;

    fn avg(a: Self, b: Self) -> (r: Self)
        ensures
            r == Self::avg_spec(a, b),
    ;
}

/// A sample of an analog channel.
pub trait Sample: Ord + Copy + Avg {

}

impl Avg for u16 {
    /// The mean of `a` and `b`, rounded down.
    open spec fn avg_spec(a: u16, b: u16) -> u16 {
        ((a + b) / 2) as u16
    }

    fn avg(a: u16, b: u16) -> (r: u16) {
        ((a as u32 + b as u32) / 2) as u16
    }
}

impl Sample for u16 {

}

/// The mathematical state of a channel tracker.
pub struct TrackerState {
    pub min: u16,
    pub max: u16,
    pub zero: u16,
}

impl TrackerState {
    /// The tracker seeded with a single sample.
    pub open spec fn seeded(zero: u16) -> TrackerState {
        TrackerState { min: zero, max: zero, zero }
    }

    /// The window `[min, max]` is not empty and the threshold is the midpoint
    /// of its ends.
    pub open spec fn valid(self) -> bool {
        self.min <= self.max && self.zero == u16::avg_spec(self.min, self.max)
    }

    /// The tracker after `value`: the window widens to include it (and the
    /// threshold moves to the new midpoint) only when it lies outside.
    pub open spec fn after(self, value: u16) -> TrackerState {
        if self.max < value || self.min > value {
            let min = if value < self.min { value } else { self.min };
            let max = if value > self.max { value } else { self.max };
            TrackerState { min, max, zero: u16::avg_spec(min, max) }
        } else {
            self
        }
    }

    /// The classification of `value`: above the threshold after seeing it.
    pub open spec fn classify(self, value: u16) -> bool {
        value > self.after(value).zero
    }
}

/// The running minimum and maximum of one channel, and the threshold between
/// them.
pub struct MinMax {
    min: u16,
    max: u16,
    zero: u16,
}

impl View for MinMax {
    type V = TrackerState;

    closed spec fn view(&self) -> TrackerState {
        TrackerState { min: self.min, max: self.max, zero: self.zero }
    }
}

impl MinMax {
    /// A tracker whose window is the single value `zero`.
    pub fn new(zero: u16) -> (r: MinMax)
        ensures
            r@ == TrackerState::seeded(zero),
    {
        MinMax { min: zero, max: zero, zero }
    }

    /// Widens the window to `value` if it lies outside, and says whether
    /// `value` is above the threshold.
    pub fn update(&mut self, value: u16) -> (r: bool)
        ensures
            final(self)@ == old(self)@.after(value),
            r == old(self)@.classify(value),
    {
        if self.max < value || self.min > value {
            self.min = if value < self.min { value } else { self.min };
            self.max = if value > self.max { value } else { self.max };
            self.zero = u16::avg(self.min, self.max);
        }
        value > self.zero
    }
}

/// The mathematical state of an encoder.
pub struct EncoderState {
    pub in1: TrackerState,
    pub in2: TrackerState,
    pub in1_prev: bool,
    pub delta: int,
}

impl EncoderState {
    /// The encoder after the sample pair `(v1, v2)`. On a rising edge of
    /// channel 1 the count moves by one, up when channel 2 is high and down
    /// when it is low; channel 2 is only sampled on such an edge.
    pub open spec fn after(self, v1: u16, v2: u16) -> EncoderState {
        let c1 = self.in1.classify(v1);
        if !self.in1_prev && c1 {
            EncoderState {
                in1: self.in1.after(v1),
                in2: self.in2.after(v2),
                in1_prev: c1,
                delta: self.delta + if self.in2.classify(v2) { 1int } else { -1int },
            }
        } else {
            EncoderState { in1: self.in1.after(v1), in1_prev: c1, ..self }
        }
    }

    /// One more step of the count cannot overflow `i64`.
    pub open spec fn has_room(self) -> bool {
        i64::MIN < self.delta < i64::MAX
    }
}

/// A rotary encoder read from two analog channels in quadrature, with
/// thresholds that follow the observed signal range.
pub struct AnalogRotaryEncoder {
    in1: MinMax,
    in2: MinMax,
    in1_prev_value: bool,
    delta_r: i64,
}

impl View for AnalogRotaryEncoder {
    type V = EncoderState;

    closed spec fn view(&self) -> EncoderState {
        EncoderState { in1: self.in1@, in2: self.in2@, in1_prev: self.in1_prev_value, delta: self.delta_r as int }
    }
}

impl AnalogRotaryEncoder {
    /// Both channels seeded with `zero`, no count.
    pub fn new(zero: u16) -> (r: AnalogRotaryEncoder)
        ensures
            r@ == (EncoderState {
                in1: TrackerState::seeded(zero),
                in2: TrackerState::seeded(zero),
                in1_prev: false,
                delta: 0,
            }),
    {
        AnalogRotaryEncoder {
            in1: MinMax::new(zero),
            in2: MinMax::new(zero),
            in1_prev_value: false,
            delta_r: 0,
        }
    }

    /// Feeds one sample of each channel.
    pub fn update(&mut self, values: (u16, u16))
        requires
            old(self)@.has_room(),
        ensures
            final(self)@ == old(self)@.after(values.0, values.1),
    {
        let in1_next_value = self.in1.update(values.0);
        if !self.in1_prev_value && in1_next_value {
            let in2_value = self.in2.update(values.1);
            self.delta_r = self.delta_r + if in2_value { 1i64 } else { -1i64 };
        }
        self.in1_prev_value = in1_next_value;
    }

    /// Returns the count and resets it.
    pub fn read(&mut self) -> (r: i64)
        ensures
            r == old(self)@.delta,
            final(self)@ == (EncoderState { delta: 0, ..old(self)@ }),
    {
        let delta = self.delta_r;
        self.delta_r = 0;
        delta
    }

    /// Returns the count and keeps it.
    pub fn peek(&self) -> (r: i64)
        ensures
            r == self@.delta,
    {
        self.delta_r
    }
}

/// The channel tracker after each sample of `values` in turn.
pub open spec fn track(t: TrackerState, values: Seq<u16>) -> TrackerState
    decreases values.len(),
{
    if values.len() == 0 {
        t
    } else {
        track(t.after(values[0]), values.drop_first())
    }
}

/// Every tracker that `MinMax` builds is valid, and stays valid.
pub proof fn lemma_tracker_valid(t: TrackerState, value: u16)
    requires
        t.valid(),
    ensures
        TrackerState::seeded(t.zero).valid(),
        t.after(value).valid(),
        t.after(value).min <= t.min && t.after(value).max >= t.max,
{
}

/// Samples inside the window already observed change nothing: the window and
/// threshold stay as they are, and each sample is classified against that
/// same threshold.
pub proof fn lemma_stable_within_window(t: TrackerState, values: Seq<u16>)
    requires
        forall|i: int| 0 <= i < values.len() ==> t.min <= #[trigger] values[i] <= t.max,
    ensures
        track(t, values) == t,
        forall|i: int| 0 <= i < values.len() ==> t.classify(#[trigger] values[i]) == (values[i] > t.zero),
    decreases values.len(),
{
    if values.len() > 0 {
        assert(t.after(values[0]) == t);
        assert forall|i: int| 0 <= i < values.drop_first().len() implies t.min <= #[trigger] values.drop_first()[i]
            <= t.max by {
            assert(values.drop_first()[i] == values[i + 1]);
        }
        lemma_stable_within_window(t, values.drop_first());
    }
}

/// A rising edge on channel 1 moves the count by one in the direction that
/// channel 2 gives: up when it is high, down when it is low. Without a rising
/// edge the count stays.
pub proof fn lemma_edge_direction(e: EncoderState, v1: u16, v2: u16)
    ensures
        !e.in1_prev && e.in1.classify(v1) && e.in2.classify(v2) ==> e.after(v1, v2).delta == e.delta + 1,
        !e.in1_prev && e.in1.classify(v1) && !e.in2.classify(v2) ==> e.after(v1, v2).delta == e.delta - 1,
        e.in1_prev || !e.in1.classify(v1) ==> e.after(v1, v2).delta == e.delta,
        e.after(v1, v2).in1_prev == e.in1.classify(v1),
{
}

/// One sample of both channels of both motors.
pub struct DifferentialQuadratureSamples<S: Sample> {
    pub left: (S, S),
    pub right: (S, S),
}

impl DifferentialQuadratureSamples<u16> {
    /// The samples of one scan, in the order channels are converted: left
    /// pair first, then right pair.
    pub fn from_scan(buf: [u16; 4]) -> (r: DifferentialQuadratureSamples<u16>)
        ensures
            r.left == (buf[0], buf[1]),
            r.right == (buf[2], buf[3]),
    {
        DifferentialQuadratureSamples { left: (buf[0], buf[1]), right: (buf[2], buf[3]) }
    }
}

/// A source of sample sets that never blocks: `None` while no new set is
/// ready.
pub trait DifferentialQuadratureAnalogInput<S: Sample> {
    fn read_nb(&mut self) -> Option<DifferentialQuadratureSamples<S>>;
}

/// One motor: its output stage and its encoder.
pub struct DcMotor<O> {
    pub out: O,
    pub encoder: AnalogRotaryEncoder,
}

/// Two motors and the analog input that samples both encoders.
pub struct Differential<O1, O2, I: DifferentialQuadratureAnalogInput<u16>> {
    pub left: DcMotor<O1>,
    pub right: DcMotor<O2>,
    pub input: I,
}

impl<O1, O2, I: DifferentialQuadratureAnalogInput<u16>> Differential<O1, O2, I> {
    /// Routes the left pair to the left encoder and the right pair to the
    /// right encoder.
    pub fn update_encoders(&mut self, input: DifferentialQuadratureSamples<u16>)
        requires
            old(self).left.encoder@.has_room(),
            old(self).right.encoder@.has_room(),
        ensures
            final(self).left.encoder@ == old(self).left.encoder@.after(input.left.0, input.left.1),
            final(self).right.encoder@ == old(self).right.encoder@.after(input.right.0, input.right.1),
            final(self).left.out == old(self).left.out,
            final(self).right.out == old(self).right.out,
            final(self).input == old(self).input,
    {
        self.left.encoder.update(input.left);
        self.right.encoder.update(input.right);
    }

    /// Feeds a sample set, if there is one, to the encoders: nothing changes
    /// on `None`.
    pub fn route(&mut self, samples: Option<DifferentialQuadratureSamples<u16>>)
        requires
            old(self).left.encoder@.has_room(),
            old(self).right.encoder@.has_room(),
        ensures
            (final(self).left.encoder@, final(self).right.encoder@) == routed(
                old(self).left.encoder@,
                old(self).right.encoder@,
                samples,
            ),
            final(self).left.out == old(self).left.out,
            final(self).right.out == old(self).right.out,
            final(self).input == old(self).input,
    {
        match samples {
            Some(s) => self.update_encoders(s),
            None => {},
        }
    }

    /// Polls the analog input and routes what it returns to the encoders.
    pub fn update(&mut self)
        requires
            old(self).left.encoder@.has_room(),
            old(self).right.encoder@.has_room(),
        ensures
            final(self).left.out == old(self).left.out,
            final(self).right.out == old(self).right.out,
            exists|samples: Option<DifferentialQuadratureSamples<u16>>|
                (final(self).left.encoder@, final(self).right.encoder@) == routed(
                    old(self).left.encoder@,
                    old(self).right.encoder@,
                    samples,
                ),
    {
        let samples = self.input.read_nb();
        self.route(samples);
    }
}

/// Both encoders after a sample set, if there is one: the left pair goes to
/// the left encoder and the right pair to the right one.
pub open spec fn routed(
    left: EncoderState,
    right: EncoderState,
    samples: Option<DifferentialQuadratureSamples<u16>>,
) -> (EncoderState, EncoderState) {
    match samples {
        Some(s) => (left.after(s.left.0, s.left.1), right.after(s.right.0, s.right.1)),
        None => (left, right),
    }
}

} // verus!
