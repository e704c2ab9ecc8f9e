use vstd::prelude::*;

use crate::sample::{lerp_amplitude, Sample};

verus! {

/// The number of output frames made from `n` input frames when going from
/// rate `from` to rate `to`: one for each output instant that falls on or
/// before the last input frame.
pub open spec fn output_frames(n: int, from: int, to: int) -> int {
    if n == 0 {
        0
    } else {
        (n - 1) * to / from + 1
    }
}

/// The amplitude of channel `c` of output frame `k`: output frame `k` sits
/// at input position `k * from / to`; on a whole position it is that input
/// frame, between two it is their interpolation.
pub open spec fn resampled_amplitude<S: Sample>(
    input: Seq<S>,
    channels: int,
    from: int,
    to: int,
    k: int,
    c: int,
) -> int {
    let i = k * from / to;
    let t = k * from % to;
    if t == 0 {
        input[i * channels + c].amplitude()
    } else {
        lerp_amplitude(
            input[i * channels + c].amplitude(),
            input[(i + 1) * channels + c].amplitude(),
            t,
            to,
        )
    }
}

proof fn lemma_position(k: int, from: int, to: int, n: int)
    requires
        0 <= k < output_frames(n, from, to),
        0 < from,
        0 < to,
        0 < n,
    ensures
        0 <= k * from / to <= n - 1,
        0 <= k * from % to < to,
        k * from % to != 0 ==> k * from / to < n - 1,
        (k * from / to) * to + k * from % to == k * from,
{
    let p = k * from;
    let q = (n - 1) * to;
    assert(p == (p / to) * to + p % to && 0 <= p % to < to) by (nonlinear_arith)
        requires
            0 < to,
    ;
    assert(0 <= p) by (nonlinear_arith)
        requires
            0 <= k,
            0 < from,
            p == k * from,
    ;
    assert(0 <= p / to) by (nonlinear_arith)
        requires
            0 <= p,
            0 < to,
    ;
    assert(q >= 0) by (nonlinear_arith)
        requires
            0 < n,
            0 < to,
            q == (n - 1) * to,
    ;
    assert(k <= q / from);
    assert(q / from * from <= q) by (nonlinear_arith)
        requires
            0 <= q,
            0 < from,
    ;
    assert(p <= q) by (nonlinear_arith)
        requires
            0 <= k <= q / from,
            q / from * from <= q,
            0 < from,
            p == k * from,
    ;
    assert(p / to <= n - 1) by (nonlinear_arith)
        requires
            p <= q,
            q == (n - 1) * to,
            0 < to,
            0 <= p,
    ;
    if p % to != 0 {
        assert(p / to < n - 1) by (nonlinear_arith)
            requires
                p == (p / to) * to + p % to,
                0 < p % to,
                p <= (n - 1) * to,
                0 < to,
        ;
    }
}

proof fn lemma_sample_index(i: int, c: int, channels: int, n: int, len: int)
    requires
        0 <= i < n,
        0 <= c < channels,
        n == len / channels,
        0 <= len,
        0 < channels,
    ensures
        0 <= i * channels + c < len,
{
    assert(n * channels <= len) by (nonlinear_arith)
        requires
            n == len / channels,
            0 <= len,
            0 < channels,
    ;
    assert(0 <= i * channels + c < n * channels) by (nonlinear_arith)
        requires
            0 <= i < n,
            0 <= c < channels,
    ;
}

/// Converts interleaved samples of `channels` channels from rate `from` to
/// rate `to` by linear interpolation between neighbouring input frames.
/// A partial trailing frame is ignored and nothing is produced past the
/// last input frame. Returns `None` when the channel count or a rate is zero.
pub fn convert_sample_rate<S: Sample>(input: &Vec<S>, channels: u16, from: u32, to: u32) -> (r:
    Option<Vec<S>>)
    requires
        channels > 0 && from > 0 && to > 0 ==> output_frames(
            input.len() as int / channels as int,
            from as int,
            to as int,
        ) * channels <= usize::MAX,
    ensures
        r is None <==> (channels == 0 || from == 0 || to == 0),
        r matches Some(v) ==> {
            let n = input.len() as int / channels as int;
            let m = output_frames(n, from as int, to as int);
            &&& v.len() == m * channels
            &&& forall|k: int, c: int|
                0 <= k < m && 0 <= c < channels ==> (#[trigger] v@[k * channels + c]).amplitude()
                    == resampled_amplitude(input@, channels as int, from as int, to as int, k, c)
        },
{
    if channels == 0 || from == 0 || to == 0 {
        return None;
    }
    let ch = channels as usize;
    let n = input.len() / ch;
    proof {
        let mm = output_frames(n as int, from as int, to as int);
        assert(mm <= mm * ch) by (nonlinear_arith)
            requires
                0 < ch,
                0 <= mm,
        ;
        if n > 0 {
            assert((n - 1) * (to as int) <= u128::MAX) by (nonlinear_arith)
                requires
                    n <= usize::MAX,
                    to <= u32::MAX,
            ;
            assert(0 <= (n - 1) * (to as int) / (from as int)) by (nonlinear_arith)
                requires
                    0 < n,
                    0 < to,
                    0 < from,
            ;
        }
    }
    let m: usize = if n == 0 {
        0
    } else {
        (((n - 1) as u128 * to as u128) / from as u128 + 1) as usize
    };
    let ghost mi = output_frames(n as int, from as int, to as int);
    assert(m == mi);
    let mut out: Vec<S> = Vec::new();
    let mut k: usize = 0;
    while k < m
        invariant
            n == input.len() as int / ch as int,
            ch == channels,
            0 < ch,
            0 < from,
            0 < to,
            m == output_frames(n as int, from as int, to as int),
            m * ch <= usize::MAX,
            k <= m,
            out.len() == k * ch,
            forall|kk: int, c: int|
                0 <= kk < k && 0 <= c < ch ==> (#[trigger] out@[kk * ch + c]).amplitude()
                    == resampled_amplitude(input@, ch as int, from as int, to as int, kk, c),
        decreases m - k,
    {
        proof {
            lemma_position(k as int, from as int, to as int, n as int);
        }
        assert(k * (from as int) <= u128::MAX) by (nonlinear_arith)
            requires
                k <= usize::MAX,
                from <= u32::MAX,
        ;
        let pos = k as u128 * from as u128;
        let i = (pos / to as u128) as usize;
        let t = (pos % to as u128) as u32;
        let ghost base = out@;
        let mut c: usize = 0;
        while c < ch
            invariant
                n == input.len() as int / ch as int,
                ch == channels,
                0 < ch,
                0 < from,
                0 < to,
                m == output_frames(n as int, from as int, to as int),
                m * ch <= usize::MAX,
                k < m,
                c <= ch,
                i == (k as int) * (from as int) / (to as int),
                t == (k as int) * (from as int) % (to as int),
                i <= n - 1,
                t < to,
                t != 0 ==> i < n - 1,
                base.len() == k * ch,
                out.len() == k * ch + c,
                out@.subrange(0, k * ch) == base,
                forall|kk: int, cc: int|
                    0 <= kk < k && 0 <= cc < ch ==> (#[trigger] base[kk * ch + cc]).amplitude()
                        == resampled_amplitude(input@, ch as int, from as int, to as int, kk, cc),
                forall|cc: int|
                    0 <= cc < c ==> (#[trigger] out@[k * ch + cc]).amplitude()
                        == resampled_amplitude(input@, ch as int, from as int, to as int, k as int, cc),
            decreases ch - c,
        {
            proof {
                lemma_sample_index(i as int, c as int, ch as int, n as int, input.len() as int);
                if t != 0 {
                    lemma_sample_index(i + 1, c as int, ch as int, n as int, input.len() as int);
                }
                assert((k + 1) * (ch as int) <= m * ch) by (nonlinear_arith)
                    requires
                        k < m,
                        0 < ch,
                ;
                assert((k + 1) * (ch as int) == k * ch + ch) by (nonlinear_arith);
            }
            let s = if t == 0 {
                input[i * ch + c]
            } else {
                S::lerp(input[i * ch + c], input[(i + 1) * ch + c], t, to)
            };
            out.push(s);
            c = c + 1;
        }
        proof {
            assert((k + 1) * (ch as int) == k * ch + ch) by (nonlinear_arith);
            assert forall|kk: int, cc: int| 0 <= kk < k + 1 && 0 <= cc < ch implies (
            #[trigger] out@[kk * ch + cc]).amplitude() == resampled_amplitude(
                input@,
                ch as int,
                from as int,
                to as int,
                kk,
                cc,
            ) by {
                if kk < k {
                    assert(kk * ch + cc < k * ch) by (nonlinear_arith)
                        requires
                            kk < k,
                            0 <= cc < ch,
                    ;
                    assert(out@[kk * ch + cc] == out@.subrange(0, k * ch)[kk * ch + cc]);
                } else {
                    assert(kk == k);
                }
            }
        }
        k = k + 1;
    }
    Some(out)
}

/// With a rate that does not go up, `n` input frames give a number of
/// output frames within one of `n * to / from`: the duration is kept.
pub proof fn lemma_duration_kept(n: nat, from: nat, to: nat)
    requires
        0 < to <= from,
    ensures
        n * to - from < output_frames(n as int, from as int, to as int) * from,
        output_frames(n as int, from as int, to as int) * from < n * to + from,
{
    if n > 0 {
        let q = (n - 1) * to;
        let m = q / from as int + 1;
        assert(q - from < (q / from as int) * from <= q) by (nonlinear_arith)
            requires
                0 < from,
                0 <= q,
        ;
        assert(m * from == (q / from as int) * from + from) by (nonlinear_arith)
            requires
                m == q / from as int + 1,
        ;
        assert(q == n * to - to) by (nonlinear_arith)
            requires
                q == (n - 1) * to,
        ;
    }
}

} // verus!
