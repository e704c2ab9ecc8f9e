use vstd::prelude::*;

verus! {

/// The amplitude of the quietest sample of a 16-bit encoding.
pub const MIN_AMPLITUDE: i32 = -32768;

/// The amplitude of the loudest sample of a 16-bit encoding.
pub const MAX_AMPLITUDE: i32 = 32767;

/// Linear interpolation between the amplitudes `a` and `b` at `n / d`,
/// with the fractional part of the step truncated toward `a`.
pub open spec fn lerp_amplitude(a: int, b: int, n: int, d: int) -> int {
    if a <= b {
        a + (b - a) * n / d
    } else {
        a - (a - b) * n / d
    }
}

/// `x` brought into the amplitude range of a 16-bit encoding.
pub open spec fn clamp_amplitude(x: int) -> int {
    if x < MIN_AMPLITUDE {
        MIN_AMPLITUDE as int
    } else if x > MAX_AMPLITUDE {
        MAX_AMPLITUDE as int
    } else {
        x
    }
}

/// Represents the value of a single sample.
///
/// Every encoding is described by its amplitude: the signed distance of a
/// sample from silence, measured in steps of a signed 16-bit sample.
/// Implemented for `i16`, whose silence is `0`, and for `u16`, whose silence
/// is `32768`.
pub trait Sample: Copy + Sized {
    /// The signed distance of this sample from silence.
    spec fn amplitude(&self) -> int;

    /// Amplitudes lie in the signed 16-bit range and tell samples apart.
    proof fn lemma_amplitude(a: Self, b: Self)
        ensures
            MIN_AMPLITUDE <= a.amplitude() <= MAX_AMPLITUDE,
            a.amplitude() == b.amplitude() ==> a == b,
    ;

    /// The value corresponding to the absence of sound.
    fn zero_value() -> (r: Self)
        ensures
            r.amplitude() == 0,
    ;

    /// The sample with the same amplitude in the signed 16-bit encoding.
    fn to_signed(self) -> (r: i16)
        ensures
            r as int == self.amplitude(),
    ;

    /// The sample of this encoding with the amplitude of `s`.
    fn from_signed(s: i16) -> (r: Self)
        ensures
            r.amplitude() == s as int,
    ;

    /// Linear interpolation between two samples: the result is
    /// `first * (1 - numerator / denominator) + second * numerator / denominator`,
    /// with the fractional part truncated toward `first`.
    fn lerp(first: Self, second: Self, numerator: u32, denominator: u32) -> (r: Self)
        requires
            0 < denominator,
            numerator <= denominator,
        ensures
            r.amplitude() == lerp_amplitude(
                first.amplitude(),
                second.amplitude(),
                numerator as int,
                denominator as int,
            ),
    ;

    /// Adds the amplitude of another sample to this one, clamping at the
    /// ends of the range instead of wrapping.
    fn saturating_add(self, other: Self) -> (r: Self)
        ensures
            r.amplitude() == clamp_amplitude(self.amplitude() + other.amplitude()),
    ;

    /// Returns true if the sample is the zero value.
    fn is_zero(self) -> (r: bool)
        ensures
            r == (self.amplitude() == 0),
    ;
}

/// Relies on dasp_sample's `Sample::EQUILIBRIUM` for `u16`: the value `32768`.
#[verifier::external_body]
fn u16_equilibrium() -> (r: u16)
    ensures
        r == 32768,
{
    <u16 as dasp_sample::Sample>::EQUILIBRIUM
}

/// Relies on dasp_sample's `Sample::EQUILIBRIUM` for `i16`: the value `0`.
#[verifier::external_body]
fn i16_equilibrium() -> (r: i16)
    ensures
        r == 0,
{
    <i16 as dasp_sample::Sample>::EQUILIBRIUM
}

/// Relies on dasp_sample's `Sample::to_signed_sample` for `u16`, which
/// moves the value down by `32768`.
#[verifier::external_body]
fn u16_to_signed(s: u16) -> (r: i16)
    ensures
        r as int == s as int - 32768,
{
    dasp_sample::Sample::to_signed_sample(s)
}

/// Relies on dasp_sample's `Sample::from_sample` from `i16` to `u16`,
/// which moves the value up by `32768`.
#[verifier::external_body]
fn u16_from_signed(s: i16) -> (r: u16)
    ensures
        r as int == s as int + 32768,
{
    <u16 as dasp_sample::Sample>::from_sample(s)
}

/// `x` clamped into the signed 16-bit range.
fn clamp_to_i16(x: i32) -> (r: i16)
    ensures
        r as int == clamp_amplitude(x as int),
{
    if x < MIN_AMPLITUDE {
        MIN_AMPLITUDE as i16
    } else if x > MAX_AMPLITUDE {
        MAX_AMPLITUDE as i16
    } else {
        x as i16
    }
}

/// The truncated step `diff * n / d` never exceeds `diff`.
proof fn lemma_step_bounds(diff: int, n: int, d: int)
    requires
        0 <= diff,
        0 <= n <= d,
        0 < d,
    ensures
        0 <= diff * n / d <= diff,
        n == 0 ==> diff * n / d == 0,
        n == d ==> diff * n / d == diff,
{
    assert(0 <= diff * n <= diff * d) by (nonlinear_arith)
        requires
            0 <= diff,
            0 <= n <= d,
    ;
    assert(diff * d / d == diff) by (nonlinear_arith)
        requires
            0 < d,
    ;
    assert(diff * n / d <= diff * d / d) by (nonlinear_arith)
        requires
            0 <= diff * n <= diff * d,
            0 < d,
    ;
    assert(0 <= diff * n / d) by (nonlinear_arith)
        requires
            0 <= diff * n,
            0 < d,
    ;
}

/// Interpolation between two values of an unsigned 16-bit range.
fn lerp_raw(a: u16, b: u16, numerator: u32, denominator: u32) -> (r: u16)
    requires
        0 < denominator,
        numerator <= denominator,
    ensures
        r as int == lerp_amplitude(a as int, b as int, numerator as int, denominator as int),
{
    let n = numerator as u64;
    let d = denominator as u64;
    if a <= b {
        let diff = (b - a) as u64;
        proof {
            lemma_step_bounds(diff as int, n as int, d as int);
        }
        assert(diff * n <= 65535 * 0xffff_ffffu64) by (nonlinear_arith)
            requires
                diff <= 65535,
                n <= 0xffff_ffffu64,
        ;
        let step = diff * n / d;
        (a as u64 + step) as u16
    } else {
        let diff = (a - b) as u64;
        proof {
            lemma_step_bounds(diff as int, n as int, d as int);
        }
        assert(diff * n <= 65535 * 0xffff_ffffu64) by (nonlinear_arith)
            requires
                diff <= 65535,
                n <= 0xffff_ffffu64,
        ;
        let step = diff * n / d;
        (a as u64 - step) as u16
    }
}

impl Sample for u16 {
    open spec fn amplitude(&self) -> int {
        *self as int - 32768
    }

    proof fn lemma_amplitude(a: Self, b: Self) {
    }

    fn zero_value() -> (r: Self) {
        u16_equilibrium()
    }

    fn to_signed(self) -> (r: i16) {
        u16_to_signed(self)
    }

    fn from_signed(s: i16) -> (r: Self) {
        u16_from_signed(s)
    }

    fn lerp(first: u16, second: u16, numerator: u32, denominator: u32) -> (r: u16) {
        lerp_raw(first, second, numerator, denominator)
    }

    fn saturating_add(self, other: u16) -> (r: u16) {
        let sum = self.to_signed() as i32 + other.to_signed() as i32;
        Self::from_signed(clamp_to_i16(sum))
    }

    fn is_zero(self) -> (r: bool) {
        self == Self::zero_value()
    }
}

impl Sample for i16 {
    open spec fn amplitude(&self) -> int {
        *self as int
    }

    proof fn lemma_amplitude(a: Self, b: Self) {
    }

    fn zero_value() -> (r: Self) {
        i16_equilibrium()
    }

    fn to_signed(self) -> (r: i16) {
        self
    }

    fn from_signed(s: i16) -> (r: Self) {
        s
    }

    fn lerp(first: i16, second: i16, numerator: u32, denominator: u32) -> (r: i16) {
        let a = (first as i32 + 32768) as u16;
        let b = (second as i32 + 32768) as u16;
        (lerp_raw(a, b, numerator, denominator) as i32 - 32768) as i16
    }

    fn saturating_add(self, other: i16) -> (r: i16) {
        clamp_to_i16(self as i32 + other as i32)
    }

    fn is_zero(self) -> (r: bool) {
        self == Self::zero_value()
    }
}


/// Interpolation at `0 / d` gives the first sample, at `d / d` the second,
/// and in between the result lies within one step of the exact value
/// `a * (1 - n / d) + b * n / d`.
pub proof fn lemma_lerp_bounds<S: Sample>(a: S, b: S, n: u32, d: u32)
    requires
        0 < d,
        n <= d,
    ensures
        lerp_amplitude(a.amplitude(), b.amplitude(), 0, d as int) == a.amplitude(),
        lerp_amplitude(a.amplitude(), b.amplitude(), d as int, d as int) == b.amplitude(),
        ({
            let r = lerp_amplitude(a.amplitude(), b.amplitude(), n as int, d as int);
            let exact = a.amplitude() * (d - n) + b.amplitude() * n;
            &&& exact - d < r * d
            &&& r * d < exact + d
        }),
{
    let x = a.amplitude();
    let y = b.amplitude();
    let (ni, di) = (n as int, d as int);
    if x <= y {
        lemma_step_bounds(y - x, 0, di);
        lemma_step_bounds(y - x, di, di);
        lemma_trunc_within_step(y - x, ni, di);
        assert((x + (y - x) * ni / di) * di == x * di + ((y - x) * ni / di) * di)
            by (nonlinear_arith);
        assert(x * (di - ni) + y * ni == x * di + (y - x) * ni) by (nonlinear_arith);
    } else {
        lemma_step_bounds(x - y, 0, di);
        lemma_step_bounds(x - y, di, di);
        lemma_trunc_within_step(x - y, ni, di);
        assert((x - (x - y) * ni / di) * di == x * di - ((x - y) * ni / di) * di)
            by (nonlinear_arith);
        assert(x * (di - ni) + y * ni == x * di - (x - y) * ni) by (nonlinear_arith);
    }
}

/// A truncated quotient times its divisor falls less than one divisor short.
proof fn lemma_trunc_within_step(diff: int, n: int, d: int)
    requires
        0 <= diff,
        0 <= n,
        0 < d,
    ensures
        diff * n - d < (diff * n / d) * d <= diff * n,
{
    let p = diff * n;
    assert(p == (p / d) * d + p % d) by (nonlinear_arith)
        requires
            0 < d,
    ;
    assert(0 <= p % d < d) by (nonlinear_arith)
        requires
            0 < d,
    ;
}

/// Two samples of one encoding with the same amplitude are the same sample;
/// so a sample taken to another encoding and back, keeping its amplitude on
/// each way, comes back unchanged, and silence maps to silence both ways.
pub proof fn lemma_round_trip<S: Sample, O: Sample>(s: S, there: O, back: S)
    requires
        there.amplitude() == s.amplitude(),
        back.amplitude() == there.amplitude(),
    ensures
        back == s,
        s.amplitude() == 0 <==> there.amplitude() == 0,
{
    S::lemma_amplitude(back, s);
}

} // verus!
