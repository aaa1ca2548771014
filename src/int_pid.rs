//! Fixed-point PID controller.
//!
//! Gains are unsigned fixed-point codes with `PARAM_BITS` total bits, of which
//! `PARAM_SHIFT` are fractional. The output range is kept pre-scaled into the
//! same fixed-point domain, and the result of a step is rescaled back to whole
//! output units with rounding to nearest.
use vstd::prelude::*;

verus! {

/// Total bits of a gain code.
pub const PARAM_BITS: u64 = 16;

/// Fractional bits of a gain code.
pub const PARAM_SHIFT: u64 = 8;

/// One whole output unit in the fixed-point domain (`1 << PARAM_SHIFT`).
pub const PARAM_ONE: i64 = 256;

/// Largest gain code (`(1 << PARAM_BITS) - 1`).
pub const PARAM_CODE_MAX: u32 = 0xffff;

/// Why a gain could not be turned into a fixed-point code.
#[derive(Debug, Clone, Copy, PartialEq, Eq, Structural)]
pub enum PidError {
    /// The value is negative or above the largest representable gain.
    Overflow,
    /// The value is not zero but its code would be zero.
    Underflow,
}

/// The mathematical state of a controller.
pub struct PidState {
    pub kp: int,
    pub ki: int,
    pub kd: int,
    pub out_min: int,
    pub out_max: int,
    pub last_sp: int,
    pub last_err: int,
    pub sum: int,
}

pub open spec fn in_i16(x: int) -> bool {
    i16::MIN <= x <= i16::MAX
}

pub open spec fn in_i32(x: int) -> bool {
    i32::MIN <= x <= i32::MAX
}

/// `max(lo, min(hi, x))`: `x` limited to `[lo, hi]`; `lo` wins when `lo > hi`.
pub open spec fn clamp(x: int, lo: int, hi: int) -> int {
    let capped = if x < hi { x } else { hi };
    if capped > lo { capped } else { lo }
}

/// A fixed-point value rescaled to whole units: shifted right by
/// `PARAM_SHIFT` bits (rounding toward minus infinity) and then rounded up
/// when the highest discarded bit is set.
pub open spec fn round_shift(x: int) -> int {
    x / 256 + if x % 256 >= 128 { 1int } else { 0int }
}

impl PidState {
    /// The ranges that every reachable state stays in.
    pub open spec fn valid(self) -> bool {
        &&& 0 <= self.kp <= PARAM_CODE_MAX
        &&& 0 <= self.ki <= PARAM_CODE_MAX
        &&& 0 <= self.kd <= PARAM_CODE_MAX
        &&& self.out_min % 256 == 0 && in_i16(self.out_min / 256)
        &&& self.out_max % 256 == 0 && in_i16(self.out_max / 256)
        &&& in_i16(self.last_sp)
        &&& -0xffff <= self.last_err <= 0xffff
        &&& in_i32(self.sum)
    }

    /// The integral accumulator after a step with error `err`: it saturates
    /// at the bounds of `i32` and never wraps.
    pub open spec fn next_sum(self, err: int) -> int {
        if self.ki == 0 {
            self.sum
        } else {
            clamp(self.sum + self.ki * err, i32::MIN as int, i32::MAX as int)
        }
    }

    /// The second difference of error and setpoint, limited to `i16`.
    pub open spec fn derivative(self, sp: int, err: int) -> int {
        clamp((err - self.last_err) - (sp - self.last_sp), i16::MIN as int, i16::MAX as int)
    }

    pub open spec fn proportional_term(self, sp: int, fb: int) -> int {
        self.kp * (sp - fb)
    }

    pub open spec fn integral_term(self, sp: int, fb: int) -> int {
        if self.ki == 0 { 0 } else { self.next_sum(sp - fb) }
    }

    pub open spec fn derivative_term(self, sp: int, fb: int) -> int {
        if self.kd == 0 { 0 } else { self.kd * self.derivative(sp, sp - fb) }
    }

    /// The sum of the three terms, limited to the output range.
    pub open spec fn combined(self, sp: int, fb: int) -> int {
        clamp(
            self.proportional_term(sp, fb) + self.integral_term(sp, fb) + self.derivative_term(sp, fb),
            self.out_min,
            self.out_max,
        )
    }

    /// The output of a step, in whole output units.
    pub open spec fn output(self, sp: int, fb: int) -> int {
        round_shift(self.combined(sp, fb))
    }

    /// The state after a step. Setpoint and error are remembered only when
    /// the derivative gain is in use.
    pub open spec fn after_step(self, sp: int, fb: int) -> PidState {
        let err = sp - fb;
        PidState {
            sum: self.next_sum(err),
            last_sp: if self.kd == 0 { self.last_sp } else { sp },
            last_err: if self.kd == 0 { self.last_err } else { err },
            ..self
        }
    }
}

/// A PID controller on integers, with fixed-point gains.
pub struct IntPid {
    kp: u16,
    ki: u16,
    kd: u16,
    out_max: i64,
    out_min: i64,
    last_sp: i16,
    sum: i64,
    last_err: i32,
}

impl View for IntPid {
    type V = PidState;

    closed spec fn view(&self) -> PidState {
        PidState {
            kp: self.kp as int,
            ki: self.ki as int,
            kd: self.kd as int,
            out_min: self.out_min as int,
            out_max: self.out_max as int,
            last_sp: self.last_sp as int,
            last_err: self.last_err as int,
            sum: self.sum as int,
        }
    }
}

impl IntPid {
    #[verifier::type_invariant]
    closed spec fn inv(self) -> bool {
        self@.valid()
    }

    /// A controller with all gains zero and the full `i16` output range.
    pub fn new() -> (r: IntPid)
        ensures
            r@ == (PidState {
                kp: 0,
                ki: 0,
                kd: 0,
                out_min: i16::MIN * 256,
                out_max: i16::MAX * 256,
                last_sp: 0,
                last_err: 0,
                sum: 0,
            }),
            r@.valid(),
    {
        IntPid {
            kp: 0,
            ki: 0,
            kd: 0,
            out_min: 0,
            out_max: 0,
            last_sp: 0,
            sum: 0,
            last_err: 0,
        }.with_output_range(i16::MIN, i16::MAX)
    }

    /// The same controller with gains given as fixed-point codes.
    pub fn with_gains(self, kp: u16, ki: u16, kd: u16) -> (r: IntPid)
        ensures
            r@ == (PidState { kp: kp as int, ki: ki as int, kd: kd as int, ..self@ }),
            r@.valid(),
    {
        proof {
            use_type_invariant(&self);
        }
        IntPid { kp, ki, kd, ..self }
    }

    /// The same controller with output range `[min, max]`, in whole output
    /// units.
    pub fn with_output_range(self, min: i16, max: i16) -> (r: IntPid)
        ensures
            r@ == (PidState { out_min: min * 256, out_max: max * 256, ..self@ }),
            r@.valid(),
    {
        proof {
            use_type_invariant(&self);
        }
        IntPid { out_min: (min as i64) * PARAM_ONE, out_max: (max as i64) * PARAM_ONE, ..self }
    }

    /// The integral accumulator, in the fixed-point domain.
    pub fn integral(&self) -> (r: i64)
        ensures
            r == self@.sum,
    {
        self.sum
    }

    /// One control step for setpoint `sp` and feedback `fb`.
    pub fn step(&mut self, sp: i32, fb: i16) -> (r: i16)
        requires
            in_i16(sp as int),
        ensures
            r == old(self)@.output(sp as int, fb as int),
            final(self)@ == old(self)@.after_step(sp as int, fb as int),
            old(self)@.valid(),
            final(self)@.valid(),
            old(self)@.out_min <= old(self)@.out_max ==> old(self)@.out_min / 256 <= r <= old(self)@.out_max
                / 256,
    {
        proof {
            use_type_invariant(&*self);
        }
        let ghost s = self@;
        proof {
            lemma_step_bounded(s, sp as int, fb as int);
        }
        // i16 - i16 needs 17 bits
        let err: i32 = sp - fb as i32;

        // u16 * i17 needs 33 bits
        let p: i64 = if self.kp == 0 {
            0
        } else {
            proof {
                lemma_mul_bound(self.kp as int, err as int, 0xffff, 0xffff);
            }
            self.kp as i64 * err as i64
        };

        let i: i64 = if self.ki == 0 {
            0
        } else {
            proof {
                lemma_mul_bound(self.ki as int, err as int, 0xffff, 0xffff);
            }
            // i32 + u16 * i17 needs 34 bits; the accumulator then saturates to i32
            let grown: i64 = self.sum + self.ki as i64 * err as i64;
            let capped: i64 = if grown < i32::MAX as i64 { grown } else { i32::MAX as i64 };
            let limited: i64 = if capped > i32::MIN as i64 { capped } else { i32::MIN as i64 };
            self.sum = limited;
            limited
        };

        let d: i64 = if self.kd == 0 {
            0
        } else {
            // (i17 - i17) - (i16 - i16) needs 19 bits; it is limited to i16
            let second: i32 = (err - self.last_err) - (sp - self.last_sp as i32);
            let capped: i32 = if second < i16::MAX as i32 { second } else { i16::MAX as i32 };
            let derivative: i32 = if capped > i16::MIN as i32 { capped } else { i16::MIN as i32 };
            self.last_sp = sp as i16;
            self.last_err = err;
            proof {
                lemma_mul_bound(self.kd as int, derivative as int, 0xffff, 0x8000);
            }
            self.kd as i64 * derivative as i64
        };

        let total: i64 = p + i + d;
        let capped: i64 = if total < self.out_max { total } else { self.out_max };
        let out: i64 = if capped > self.out_min { capped } else { self.out_min };
        assert(out == s.combined(sp as int, fb as int));

        // Shift into the non-negative range so that division rounds like an
        // arithmetic shift.
        let biased: u64 = (out + 0x80_0000) as u64;
        let whole: u64 = biased / 256;
        let frac: u64 = biased % 256;
        proof {
            lemma_round_biased(out as int);
        }
        let r: i64 = whole as i64 - 0x8000 + if frac >= 128 { 1i64 } else { 0i64 };
        r as i16
    }
}

/// The state after `n` steps with the same setpoint and feedback.
pub open spec fn run(s: PidState, sp: int, fb: int, n: nat) -> PidState
    decreases n,
{
    if n == 0 {
        s
    } else {
        run(s.after_step(sp, fb), sp, fb, (n - 1) as nat)
    }
}

/// A step from a valid state, with setpoint and feedback in `i16`, keeps every
/// intermediate within its documented width: the error within 17 bits, the
/// proportional term within 33, the integral and derivative terms within 32.
/// When the output range is not empty the output lies within it, and the state
/// after the step is valid again.
pub proof fn lemma_step_bounded(s: PidState, sp: int, fb: int)
    requires
        s.valid(),
        in_i16(sp),
        in_i16(fb),
    ensures
        -0xffff <= sp - fb <= 0xffff,
        -0xffff * 0xffff <= s.proportional_term(sp, fb) <= 0xffff * 0xffff,
        in_i32(s.integral_term(sp, fb)),
        -0xffff * 0x8000 <= s.derivative_term(sp, fb) <= 0xffff * 0x8000,
        in_i16(s.output(sp, fb)),
        s.out_min <= s.out_max ==> s.out_min / 256 <= s.output(sp, fb) <= s.out_max / 256,
        s.after_step(sp, fb).valid(),
{
    lemma_mul_bound(s.kp, sp - fb, 0xffff, 0xffff);
    lemma_mul_bound(s.kd, s.derivative(sp, sp - fb), 0xffff, 0x8000);
    let c = s.combined(sp, fb);
    lemma_round_biased(c);
    if s.out_min <= s.out_max {
        let lo = s.out_min / 256;
        let hi = s.out_max / 256;
        assert(lo <= c / 256 <= hi) by (nonlinear_arith)
            requires
                s.out_min == lo * 256,
                s.out_max == hi * 256,
                s.out_min <= c <= s.out_max,
        ;
        assert(c / 256 == hi ==> c % 256 == 0) by (nonlinear_arith)
            requires
                c <= hi * 256,
        ;
    }
}

/// Driving the controller with a constant error saturates the integral
/// accumulator: after `n` steps it is the start value plus `n` times the
/// increment, limited to the bounds of `i32`, so it never wraps to the other
/// sign.
pub proof fn lemma_integral_saturates(s: PidState, sp: int, fb: int, n: nat)
    requires
        s.valid(),
        in_i16(sp),
        in_i16(fb),
        s.ki != 0,
    ensures
        run(s, sp, fb, n).sum == clamp(s.sum + n * (s.ki * (sp - fb)), i32::MIN as int, i32::MAX as int),
    decreases n,
{
    let k = s.ki * (sp - fb);
    if n > 0 {
        let t = s.after_step(sp, fb);
        lemma_step_bounded(s, sp, fb);
        lemma_integral_saturates(t, sp, fb, (n - 1) as nat);
        assert(n * k == (n - 1) * k + k) by (nonlinear_arith);
        if k >= 0 {
            assert((n - 1) * k >= 0) by (nonlinear_arith)
                requires
                    n >= 1,
                    k >= 0,
            ;
        } else {
            assert((n - 1) * k <= 0) by (nonlinear_arith)
                requires
                    n >= 1,
                    k < 0,
            ;
        }
        assert(t.ki == s.ki && t.sum == clamp(s.sum + k, i32::MIN as int, i32::MAX as int));
        assert(run(s, sp, fb, n) == run(t, sp, fb, (n - 1) as nat));
    } else {
        assert(n * k == 0) by (nonlinear_arith)
            requires
                n == 0,
        ;
    }
}

/// Steps change only the accumulator and the remembered setpoint and error.
proof fn lemma_run_keeps_settings(s: PidState, sp: int, fb: int, n: nat)
    requires
        s.valid(),
        in_i16(sp),
        in_i16(fb),
    ensures
        run(s, sp, fb, n).valid(),
        run(s, sp, fb, n).kp == s.kp,
        run(s, sp, fb, n).ki == s.ki,
        run(s, sp, fb, n).kd == s.kd,
        run(s, sp, fb, n).out_min == s.out_min,
        run(s, sp, fb, n).out_max == s.out_max,
    decreases n,
{
    if n > 0 {
        lemma_step_bounded(s, sp, fb);
        lemma_run_keeps_settings(s.after_step(sp, fb), sp, fb, (n - 1) as nat);
    }
}

/// Rescaling is rounding half up of `x / 256`.
proof fn lemma_round_shift_as_div(x: int)
    ensures
        round_shift(x) == (x + 128) / 256,
{
    vstd::arithmetic::div_mod::lemma_fundamental_div_mod(x, 256);
    vstd::arithmetic::div_mod::lemma_fundamental_div_mod(x + 128, 256);
}

/// Rescaling keeps order.
proof fn lemma_round_shift_monotone(x: int, y: int)
    requires
        x <= y,
    ensures
        round_shift(x) <= round_shift(y),
{
    lemma_round_shift_as_div(x);
    lemma_round_shift_as_div(y);
    vstd::arithmetic::div_mod::lemma_div_is_ordered(x + 128, y + 128, 256);
}

/// With only the integral gain in use, a zero accumulator to start with and
/// an output range around zero, a constant error gives outputs that move
/// monotonically in the direction of the error and never take the other
/// sign: the output of step `n + 2` lies beyond that of step `n + 1`.
pub proof fn lemma_integral_outputs_monotone(s: PidState, sp: int, fb: int, n: nat)
    requires
        s.valid(),
        in_i16(sp),
        in_i16(fb),
        s.kp == 0,
        s.kd == 0,
        s.ki != 0,
        s.sum == 0,
        s.out_min <= 0 <= s.out_max,
    ensures
        sp >= fb ==> 0 <= run(s, sp, fb, n).output(sp, fb) <= run(s, sp, fb, n + 1).output(sp, fb),
        sp <= fb ==> run(s, sp, fb, n + 1).output(sp, fb) <= run(s, sp, fb, n).output(sp, fb) <= 0,
{
    let k = s.ki * (sp - fb);
    let a = run(s, sp, fb, n);
    let b = run(s, sp, fb, n + 1);
    lemma_run_keeps_settings(s, sp, fb, n);
    lemma_run_keeps_settings(s, sp, fb, n + 1);
    lemma_integral_saturates(s, sp, fb, n + 1);
    lemma_integral_saturates(s, sp, fb, n + 2);
    // one more step from `a` and `b` gives the sums after n + 1 and n + 2 steps
    assert(run(s, sp, fb, n + 1) == run(s, sp, fb, n).after_step(sp, fb)) by {
        lemma_run_split(s, sp, fb, n);
    }
    assert(run(s, sp, fb, n + 2) == run(s, sp, fb, n + 1).after_step(sp, fb)) by {
        lemma_run_split(s, sp, fb, n + 1);
    }
    let x = a.combined(sp, fb);
    let y = b.combined(sp, fb);
    assert(x == clamp(clamp(0 + (n + 1) * k, i32::MIN as int, i32::MAX as int), s.out_min, s.out_max));
    assert(y == clamp(clamp(0 + (n + 2) * k, i32::MIN as int, i32::MAX as int), s.out_min, s.out_max));
    lemma_round_shift_as_div(0);
    if sp >= fb {
        assert(k >= 0) by (nonlinear_arith)
            requires
                s.ki >= 0,
                sp >= fb,
                k == s.ki * (sp - fb),
        ;
        assert(0 <= (n + 1) * k <= (n + 2) * k) by (nonlinear_arith)
            requires
                k >= 0,
        ;
        lemma_round_shift_monotone(0, x);
        lemma_round_shift_monotone(x, y);
    }
    if sp <= fb {
        assert(k <= 0) by (nonlinear_arith)
            requires
                s.ki >= 0,
                sp <= fb,
                k == s.ki * (sp - fb),
        ;
        assert((n + 2) * k <= (n + 1) * k <= 0) by (nonlinear_arith)
            requires
                k <= 0,
        ;
        lemma_round_shift_monotone(x, 0);
        lemma_round_shift_monotone(y, x);
    }
}

/// `n + 1` steps are `n` steps and then one more.
proof fn lemma_run_split(s: PidState, sp: int, fb: int, n: nat)
    ensures
        run(s, sp, fb, n + 1) == run(s, sp, fb, n).after_step(sp, fb),
    decreases n,
{
    let t = s.after_step(sp, fb);
    assert(run(s, sp, fb, n + 1) == run(t, sp, fb, n));
    if n > 0 {
        lemma_run_split(t, sp, fb, (n - 1) as nat);
        assert(run(s, sp, fb, n) == run(t, sp, fb, (n - 1) as nat));
        assert((n - 1) as nat + 1 == n);
    } else {
        assert(run(t, sp, fb, 0) == t);
    }
}

/// `|a * b| <= ma * mb` when `|a| <= ma` and `|b| <= mb`.
proof fn lemma_mul_bound(a: int, b: int, ma: int, mb: int)
    requires
        0 <= a <= ma,
        -mb <= b <= mb,
    ensures
        -(ma * mb) <= a * b <= ma * mb,
{
    assert(-(ma * mb) <= a * b <= ma * mb) by (nonlinear_arith)
        requires
            0 <= a <= ma,
            -mb <= b <= mb,
    ;
}

/// Rescaling after a shift by `0x80_0000` into the non-negative range.
proof fn lemma_round_biased(x: int)
    requires
        i16::MIN * 256 <= x <= i16::MAX * 256,
    ensures
        0 <= x + 0x80_0000 <= 0xffff * 256,
        (x + 0x80_0000) / 256 - 0x8000 + (if (x + 0x80_0000) % 256 >= 128 { 1int } else { 0int })
            == round_shift(x),
        in_i16(round_shift(x)),
{
    let y = x + 0x80_0000;
    assert(y / 256 == x / 256 + 0x8000 && y % 256 == x % 256) by (nonlinear_arith)
        requires
            y == x + 0x80_0000,
    {
        vstd::arithmetic::div_mod::lemma_fundamental_div_mod(x, 256);
        vstd::arithmetic::div_mod::lemma_fundamental_div_mod(y, 256);
    }
    assert(i16::MIN <= x / 256 <= i16::MAX) by (nonlinear_arith)
        requires
            i16::MIN * 256 <= x <= i16::MAX * 256,
    ;
    assert(x / 256 == i16::MAX ==> x % 256 == 0) by (nonlinear_arith)
        requires
            x <= i16::MAX * 256,
    ;
}

} // verus!
