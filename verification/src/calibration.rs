//! Gyro bias / accelerometer offset calibration: average N stationary
//! samples, derive the correction to apply to every future reading.
use vstd::prelude::*;
use vstd::arithmetic::div_mod::{lemma_div_multiples_vanish, lemma_div_is_ordered_by_denominator};

verus! {

/// One raw 3-axis sample, straight from the sensor's registers.
#[derive(Debug, Clone, Copy, Default, PartialEq, Eq, Structural)]
pub struct RawSample3 {
    pub x: i16,
    pub y: i16,
    pub z: i16,
}

/// Gyro bias (subtract from every future gyro reading) and accelerometer
/// offset (subtract from every future accel reading) derived from a
/// stationary calibration window.
#[derive(Debug, Clone, Copy, Default, PartialEq, Eq, Structural)]
pub struct Calibration {
    pub gyro_bias: RawSample3,
    pub accel_offset: RawSample3,
}

/// `v` clamped into the range of `i16`.
pub open spec fn clamp_i16(v: int) -> i16 {
    if v < i16::MIN {
        i16::MIN
    } else if v > i16::MAX {
        i16::MAX
    } else {
        v as i16
    }
}

/// `raw` with `offset` removed from each axis, clamped instead of overflowing.
pub open spec fn corrected(raw: RawSample3, offset: RawSample3) -> RawSample3 {
    RawSample3 {
        x: clamp_i16(raw.x - offset.x),
        y: clamp_i16(raw.y - offset.y),
        z: clamp_i16(raw.z - offset.z),
    }
}

impl Calibration {
    /// Remove this calibration's fixed bias from a raw gyro sample.
    pub fn correct_gyro(&self, raw: RawSample3) -> (r: RawSample3)
        ensures
            r == corrected(raw, self.gyro_bias),
    {
        RawSample3 {
            x: sub_sat(raw.x, self.gyro_bias.x),
            y: sub_sat(raw.y, self.gyro_bias.y),
            z: sub_sat(raw.z, self.gyro_bias.z),
        }
    }

    /// Remove this calibration's fixed offset from a raw accelerometer
    /// sample. A stationary, level board reads close to its expected resting
    /// value (see `EXPECTED_ACCEL_Z_AT_REST`) afterward.
    pub fn correct_accel(&self, raw: RawSample3) -> (r: RawSample3)
        ensures
            r == corrected(raw, self.accel_offset),
    {
        RawSample3 {
            x: sub_sat(raw.x, self.accel_offset.x),
            y: sub_sat(raw.y, self.accel_offset.y),
            z: sub_sat(raw.z, self.accel_offset.z),
        }
    }
}

/// Subtract with clamping instead of panicking/wrapping on overflow: a
/// pathological reading shouldn't crash the correction step.
fn sub_sat(a: i16, b: i16) -> (r: i16)
    ensures
        r == clamp_i16(a - b),
{
    let d: i32 = i32::from(a) - i32::from(b);
    if d < -32768 {
        i16::MIN
    } else if d > 32767 {
        i16::MAX
    } else {
        d as i16
    }
}

/// The board's Z axis reads this many LSB at rest, assuming the +-2g range
/// (16384 LSB/g) and the board mounted flat with Z pointing up.
pub const EXPECTED_ACCEL_Z_AT_REST: i32 = 16384;

/// Axis `a` of a sample: 0 is X, 1 is Y, anything else Z.
pub open spec fn axis(s: RawSample3, a: int) -> i16 {
    if a == 0 {
        s.x
    } else if a == 1 {
        s.y
    } else {
        s.z
    }
}

/// Sum of axis `a` of the gyro readings of `s`.
pub open spec fn gyro_total(s: Seq<(RawSample3, RawSample3)>, a: int) -> int
    decreases s.len(),
{
    if s.len() == 0 {
        0
    } else {
        gyro_total(s.drop_last(), a) + axis(s.last().0, a)
    }
}

/// Sum of axis `a` of the accelerometer readings of `s`.
pub open spec fn accel_total(s: Seq<(RawSample3, RawSample3)>, a: int) -> int
    decreases s.len(),
{
    if s.len() == 0 {
        0
    } else {
        accel_total(s.drop_last(), a) + axis(s.last().1, a)
    }
}

/// Integer division rounding toward zero, as Rust's `/` does.
pub open spec fn trunc_div(v: int, n: int) -> int {
    if v >= 0 {
        v / n
    } else {
        -((-v) / n)
    }
}

/// The calibration derived from the (gyro, accel) samples `s`, averaged
/// over `n`: the truncated mean of each axis, narrowed to `i16`; for
/// accelerometer Z the expected resting value is taken off first.
pub open spec fn calibration_from(s: Seq<(RawSample3, RawSample3)>, n: int) -> Calibration {
    Calibration {
        gyro_bias: RawSample3 {
            x: trunc_div(gyro_total(s, 0), n) as i16,
            y: trunc_div(gyro_total(s, 1), n) as i16,
            z: trunc_div(gyro_total(s, 2), n) as i16,
        },
        accel_offset: RawSample3 {
            x: trunc_div(accel_total(s, 0), n) as i16,
            y: trunc_div(accel_total(s, 1), n) as i16,
            z: (trunc_div(accel_total(s, 2), n) - EXPECTED_ACCEL_Z_AT_REST) as i16,
        },
    }
}

/// `v` fits in an `i32`.
pub open spec fn fits_i32(v: int) -> bool {
    i32::MIN <= v <= i32::MAX
}

/// Pushing `(gyro, accel)` after the samples `s` into a calibrator averaging
/// `n` samples keeps every running sum, and the accelerometer Z offset once it
/// is computed, inside `i32`.
pub open spec fn push_fits(s: Seq<(RawSample3, RawSample3)>, gyro: RawSample3, accel: RawSample3, n: int) -> bool {
    let t = s.push((gyro, accel));
    &&& fits_i32(gyro_total(t, 0))
    &&& fits_i32(gyro_total(t, 1))
    &&& fits_i32(gyro_total(t, 2))
    &&& fits_i32(accel_total(t, 0))
    &&& fits_i32(accel_total(t, 1))
    &&& fits_i32(accel_total(t, 2))
    &&& t.len() >= n ==> fits_i32(trunc_div(accel_total(t, 2), n) - EXPECTED_ACCEL_Z_AT_REST)
}

/// Accumulates stationary samples and produces a [`Calibration`] once
/// enough have been collected. `N` is the number of samples to average;
/// more reduces noise in the estimate but takes longer to hold still for.
pub struct Calibrator<const N: usize> {
    count: usize,
    gyro_sum: [i32; 3],
    accel_sum: [i32; 3],
    samples: Ghost<Seq<(RawSample3, RawSample3)>>,
}

impl<const N: usize> View for Calibrator<N> {
    type V = Seq<(RawSample3, RawSample3)>;

    /// The (gyro, accel) samples pushed so far, oldest first.
    closed spec fn view(&self) -> Seq<(RawSample3, RawSample3)> {
        self.samples@
    }
}

impl<const N: usize> Calibrator<N> {
    /// Well-formedness: the counter and the running sums agree with the
    /// samples pushed so far.
    pub closed spec fn wf(&self) -> bool {
        &&& self.count == self.samples@.len()
        &&& forall|a: int| 0 <= a < 3 ==> self.gyro_sum@[a] == gyro_total(self.samples@, a)
        &&& forall|a: int| 0 <= a < 3 ==> self.accel_sum@[a] == accel_total(self.samples@, a)
    }

    pub fn new() -> (c: Self)
        ensures
            c.wf(),
            c@ == Seq::<(RawSample3, RawSample3)>::empty(),
    {
        Calibrator { count: 0, gyro_sum: [0i32; 3], accel_sum: [0i32; 3], samples: Ghost(Seq::empty()) }
    }

    /// Feed one stationary sample. Returns `Some(Calibration)` once `N`
    /// samples have been collected; call sites should stop calling `push`
    /// after that (or construct a new `Calibrator` to start over).
    pub fn push(&mut self, gyro: RawSample3, accel: RawSample3) -> (r: Option<Calibration>)
        requires
            old(self).wf(),
            0 < N,
            old(self)@.len() + 1 >= N ==> N <= i32::MAX,
            old(self)@.len() < usize::MAX,
            push_fits(old(self)@, gyro, accel, N as int),
        ensures
            final(self).wf(),
            final(self)@ == old(self)@.push((gyro, accel)),
            final(self)@.len() < N ==> r is None,
            final(self)@.len() >= N ==> r == Some(calibration_from(final(self)@, N as int)),
    {
        let ghost t = self.samples@.push((gyro, accel));
        proof {
            assert(t.drop_last() =~= self.samples@);
            assert(forall|a: int| 0 <= a < 3 ==> gyro_total(t, a) == gyro_total(self.samples@, a) + axis(gyro, a));
            assert(forall|a: int| 0 <= a < 3 ==> accel_total(t, a) == accel_total(self.samples@, a) + axis(accel, a));
            assert(axis(gyro, 0) == gyro.x && axis(gyro, 1) == gyro.y && axis(gyro, 2) == gyro.z);
            assert(axis(accel, 0) == accel.x && axis(accel, 1) == accel.y && axis(accel, 2) == accel.z);
        }
        self.gyro_sum[0] = self.gyro_sum[0] + i32::from(gyro.x);
        self.gyro_sum[1] = self.gyro_sum[1] + i32::from(gyro.y);
        self.gyro_sum[2] = self.gyro_sum[2] + i32::from(gyro.z);
        self.accel_sum[0] = self.accel_sum[0] + i32::from(accel.x);
        self.accel_sum[1] = self.accel_sum[1] + i32::from(accel.y);
        self.accel_sum[2] = self.accel_sum[2] + i32::from(accel.z);
        self.count = self.count + 1;
        self.samples = Ghost(t);
        if self.count < N {
            return None;
        }
        let n = N as i32;
        let gyro_bias = RawSample3 {
            x: (self.gyro_sum[0] / n) as i16,
            y: (self.gyro_sum[1] / n) as i16,
            z: (self.gyro_sum[2] / n) as i16,
        };
        let accel_offset = RawSample3 {
            x: (self.accel_sum[0] / n) as i16,
            y: (self.accel_sum[1] / n) as i16,
            z: ((self.accel_sum[2] / n) - EXPECTED_ACCEL_Z_AT_REST) as i16,
        };
        Some(Calibration { gyro_bias, accel_offset })
    }

    pub fn samples_collected(&self) -> (n: usize)
        requires
            self.wf(),
        ensures
            n == self@.len(),
    {
        self.count
    }
}

impl<const N: usize> Default for Calibrator<N> {
    fn default() -> (c: Self)
        ensures
            c.wf(),
            c@ == Seq::<(RawSample3, RawSample3)>::empty(),
    {
        Self::new()
    }
}

// ---------------------------------------------------------------------------
// Laws
// ---------------------------------------------------------------------------

/// Correcting a reading by the very offset it carries gives zero on every axis.
pub proof fn lemma_own_offset_cancels(offset: RawSample3)
    ensures
        corrected(offset, offset) == (RawSample3 { x: 0, y: 0, z: 0 }),
{
}

/// Correction subtracts the offset on each axis; a difference beyond the
/// `i16` range saturates at its nearest end instead of wrapping.
pub proof fn lemma_correction_saturates(raw: RawSample3, offset: RawSample3)
    ensures
        i16::MIN <= raw.x - offset.x <= i16::MAX ==> corrected(raw, offset).x == raw.x - offset.x,
        raw.x - offset.x > i16::MAX ==> corrected(raw, offset).x == i16::MAX,
        raw.x - offset.x < i16::MIN ==> corrected(raw, offset).x == i16::MIN,
        i16::MIN <= raw.y - offset.y <= i16::MAX ==> corrected(raw, offset).y == raw.y - offset.y,
        raw.y - offset.y > i16::MAX ==> corrected(raw, offset).y == i16::MAX,
        raw.y - offset.y < i16::MIN ==> corrected(raw, offset).y == i16::MIN,
        i16::MIN <= raw.z - offset.z <= i16::MAX ==> corrected(raw, offset).z == raw.z - offset.z,
        raw.z - offset.z > i16::MAX ==> corrected(raw, offset).z == i16::MAX,
        raw.z - offset.z < i16::MIN ==> corrected(raw, offset).z == i16::MIN,
{
}

/// Correcting by a zero offset leaves a reading unchanged.
pub proof fn lemma_zero_offset_is_identity(raw: RawSample3)
    ensures
        corrected(raw, RawSample3 { x: 0, y: 0, z: 0 }) == raw,
{
}

/// The mean is rounded toward zero: the quotient times `n` never overshoots
/// the sum, and falls short of it by less than `n`, on either side of zero.
pub proof fn lemma_mean_rounds_toward_zero(v: int, n: int)
    requires
        n >= 1,
    ensures
        v >= 0 ==> 0 <= trunc_div(v, n) * n <= v < trunc_div(v, n) * n + n,
        v < 0 ==> trunc_div(v, n) * n - n < v <= trunc_div(v, n) * n <= 0,
{
    if v >= 0 {
        vstd::arithmetic::div_mod::lemma_fundamental_div_mod(v, n);
        assert(0 <= v % n < n) by {
            vstd::arithmetic::div_mod::lemma_mod_bound(v, n);
        }
        assert(v / n >= 0) by (nonlinear_arith)
            requires
                v >= 0,
                n >= 1,
        ;
        assert(v / n * n == n * (v / n)) by (nonlinear_arith);
        assert(0 <= (v / n) * n) by (nonlinear_arith)
            requires
                v / n >= 0,
                n >= 1,
        ;
    } else {
        let u = -v;
        vstd::arithmetic::div_mod::lemma_fundamental_div_mod(u, n);
        assert(0 <= u % n < n) by {
            vstd::arithmetic::div_mod::lemma_mod_bound(u, n);
        }
        assert(u / n >= 0) by (nonlinear_arith)
            requires
                u >= 0,
                n >= 1,
        ;
        assert(u / n * n == n * (u / n)) by (nonlinear_arith);
        assert((-(u / n)) * n == -(u / n * n)) by (nonlinear_arith);
        assert(0 <= (u / n) * n) by (nonlinear_arith)
            requires
                u / n >= 0,
                n >= 1,
        ;
    }
}

/// The running sums of `k` samples stay within `k` times the `i16` range.
pub proof fn lemma_totals_bounded(s: Seq<(RawSample3, RawSample3)>, a: int)
    ensures
        -32768 * s.len() <= gyro_total(s, a) <= 32767 * s.len(),
        -32768 * s.len() <= accel_total(s, a) <= 32767 * s.len(),
    decreases s.len(),
{
    if s.len() > 0 {
        lemma_totals_bounded(s.drop_last(), a);
    }
}

/// Rounding toward zero never moves a value away from zero.
proof fn lemma_trunc_div_shrinks(v: int, n: int)
    requires
        n >= 1,
    ensures
        -v <= trunc_div(v, n) <= v || v <= trunc_div(v, n) <= -v,
        v >= 0 ==> 0 <= trunc_div(v, n) <= v,
        v < 0 ==> v <= trunc_div(v, n) <= 0,
{
    if v >= 0 {
        lemma_div_is_ordered_by_denominator(v, 1, n);
        assert(v / 1 == v);
        assert(v / n >= 0) by (nonlinear_arith)
            requires
                v >= 0,
                n >= 1,
        ;
    } else {
        lemma_div_is_ordered_by_denominator(-v, 1, n);
        assert((-v) / 1 == -v);
        assert((-v) / n >= 0) by (nonlinear_arith)
            requires
                -v >= 0,
                n >= 1,
        ;
    }
}

/// Fewer than 65535 samples can always be pushed: no running sum, and no
/// accelerometer offset, can leave the `i32` range before then.
pub proof fn lemma_push_fits_below_limit(
    s: Seq<(RawSample3, RawSample3)>,
    gyro: RawSample3,
    accel: RawSample3,
    n: int,
)
    requires
        n >= 1,
        s.len() + 1 <= 65535,
    ensures
        push_fits(s, gyro, accel, n),
{
    let t = s.push((gyro, accel));
    lemma_totals_bounded(t, 0);
    lemma_totals_bounded(t, 1);
    lemma_totals_bounded(t, 2);
    lemma_trunc_div_shrinks(accel_total(t, 2), n);
}

/// The sum of `k` copies of a sample is `k` times that sample.
proof fn lemma_constant_totals(s: Seq<(RawSample3, RawSample3)>, g: RawSample3, c: RawSample3, a: int)
    requires
        forall|i: int| 0 <= i < s.len() ==> s[i] == (g, c),
    ensures
        gyro_total(s, a) == s.len() * axis(g, a),
        accel_total(s, a) == s.len() * axis(c, a),
    decreases s.len(),
{
    if s.len() > 0 {
        assert(s.last() == s[s.len() - 1]);
        lemma_constant_totals(s.drop_last(), g, c, a);
        assert((s.len() - 1) * axis(g, a) + axis(g, a) == s.len() * axis(g, a)) by (nonlinear_arith);
        assert((s.len() - 1) * axis(c, a) + axis(c, a) == s.len() * axis(c, a)) by (nonlinear_arith);
    }
}

/// The truncated mean of `n` copies of `v` is `v`.
proof fn lemma_mean_of_copies(v: int, n: int)
    requires
        n >= 1,
    ensures
        trunc_div(n * v, n) == v,
{
    if v >= 0 {
        assert(n * v >= 0) by (nonlinear_arith)
            requires
                n >= 1,
                v >= 0,
        ;
        lemma_div_multiples_vanish(v, n);
    } else {
        assert(n * v < 0) by (nonlinear_arith)
            requires
                n >= 1,
                v < 0,
        ;
        assert(-(n * v) == n * (-v)) by (nonlinear_arith);
        lemma_div_multiples_vanish(-v, n);
    }
}

/// A board held perfectly still, reading the same gyro and accelerometer
/// sample `n` times, is calibrated to exactly that gyro sample as its bias,
/// and to that accelerometer sample less the resting gravity on Z as its
/// offset.
pub proof fn lemma_constant_samples_calibration(
    s: Seq<(RawSample3, RawSample3)>,
    gyro: RawSample3,
    accel: RawSample3,
)
    requires
        s.len() >= 1,
        forall|i: int| 0 <= i < s.len() ==> s[i] == (gyro, accel),
    ensures
        calibration_from(s, s.len() as int) == (Calibration {
            gyro_bias: gyro,
            accel_offset: RawSample3 {
                x: accel.x,
                y: accel.y,
                z: (accel.z - EXPECTED_ACCEL_Z_AT_REST) as i16,
            },
        }),
{
    let n = s.len() as int;
    lemma_constant_totals(s, gyro, accel, 0);
    lemma_constant_totals(s, gyro, accel, 1);
    lemma_constant_totals(s, gyro, accel, 2);
    lemma_mean_of_copies(gyro.x as int, n);
    lemma_mean_of_copies(gyro.y as int, n);
    lemma_mean_of_copies(gyro.z as int, n);
    lemma_mean_of_copies(accel.x as int, n);
    lemma_mean_of_copies(accel.y as int, n);
    lemma_mean_of_copies(accel.z as int, n);
}

/// After calibrating on a still, level board, correcting the very readings
/// it was calibrated on gives zero rotation and exactly the resting gravity
/// on Z (when that gravity offset fits an `i16`).
pub proof fn lemma_calibrated_board_reads_rest(
    s: Seq<(RawSample3, RawSample3)>,
    gyro: RawSample3,
    accel: RawSample3,
)
    requires
        s.len() >= 1,
        forall|i: int| 0 <= i < s.len() ==> s[i] == (gyro, accel),
        accel.z - EXPECTED_ACCEL_Z_AT_REST >= i16::MIN,
    ensures
        corrected(gyro, calibration_from(s, s.len() as int).gyro_bias) == (RawSample3 { x: 0, y: 0, z: 0 }),
        corrected(accel, calibration_from(s, s.len() as int).accel_offset) == (RawSample3 {
            x: 0,
            y: 0,
            z: EXPECTED_ACCEL_Z_AT_REST as i16,
        }),
{
    lemma_constant_samples_calibration(s, gyro, accel);
}

} // verus!
