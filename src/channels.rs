use vstd::prelude::*;

use crate::sample::Sample;

verus! {

/// The input channel that feeds output channel `c` when going to fewer or
/// more channels than `from`: the same channel while it exists, else the
/// last input channel.
pub open spec fn source_channel(c: int, from: int) -> int {
    if c < from {
        c
    } else {
        from - 1
    }
}

/// Interleaved samples of `from` channels remapped to `to` channels: only
/// whole input frames are kept, extra output channels repeat the last input
/// channel and missing ones are dropped.
pub open spec fn remap_channels<S>(input: Seq<S>, from: int, to: int) -> Seq<S> {
    Seq::new(
        ((input.len() as int / from) * to) as nat,
        |k: int| input[(k / to) * from + source_channel(k % to, from)],
    )
}

proof fn lemma_frame_index(f: int, c: int, n: int)
    requires
        0 <= f,
        0 <= c < n,
    ensures
        (f * n + c) / n == f,
        (f * n + c) % n == c,
{
    vstd::arithmetic::div_mod::lemma_fundamental_div_mod_converse(f * n + c, n, f, c);
}

proof fn lemma_whole_frames(len: int, n: int)
    requires
        0 <= len,
        0 < n,
    ensures
        0 <= len / n,
        (len / n) * n <= len,
{
    assert(0 <= len / n && (len / n) * n <= len) by (nonlinear_arith)
        requires
            0 <= len,
            0 < n,
    ;
}

proof fn lemma_frame_in_bounds(f: int, c: int, n: int, frames: int, len: int)
    requires
        0 <= f < frames,
        0 <= c < n,
        frames * n <= len,
    ensures
        0 <= f * n + c < len,
        f * n + c < frames * n,
{
    assert(0 <= f * n + c < frames * n) by (nonlinear_arith)
        requires
            0 <= f < frames,
            0 <= c < n,
    ;
}

/// Remaps interleaved samples of `from` channels to `to` channels.
/// Returns `None` when either count is zero.
pub fn convert_channels<S: Sample>(input: &Vec<S>, from: u16, to: u16) -> (r: Option<Vec<S>>)
    requires
        from > 0 ==> (input.len() as int / from as int) * to <= usize::MAX,
    ensures
        r is None <==> (from == 0 || to == 0),
        r matches Some(v) ==> v@ == remap_channels(input@, from as int, to as int),
{
    if from == 0 || to == 0 {
        return None;
    }
    let frames = input.len() / from as usize;
    let ghost spec_out = remap_channels(input@, from as int, to as int);
    let mut out: Vec<S> = Vec::new();
    let mut f: usize = 0;
    while f < frames
        invariant
            frames == input.len() as int / from as int,
            frames * (to as int) <= usize::MAX,
            0 < from,
            0 < to,
            f <= frames,
            spec_out == remap_channels(input@, from as int, to as int),
            spec_out.len() == frames * to,
            out@ == spec_out.take(f * to),
        decreases frames - f,
    {
        let mut c: u16 = 0;
        while c < to
            invariant
                frames == input.len() as int / from as int,
                frames * (to as int) <= usize::MAX,
                0 < from,
                0 < to,
                f < frames,
                c <= to,
                spec_out == remap_channels(input@, from as int, to as int),
                spec_out.len() == frames * to,
                out@ == spec_out.take(f * to + c),
            decreases to - c,
        {
            let src: u16 = if c < from { c } else { from - 1 };
            proof {
                lemma_whole_frames(input.len() as int, from as int);
                lemma_frame_in_bounds(f as int, src as int, from as int, frames as int, input.len() as int);
                lemma_frame_in_bounds(f as int, c as int, to as int, frames as int, (frames * to) as int);
                lemma_frame_index(f as int, c as int, to as int);
            }
            let idx = f * from as usize + src as usize;
            out.push(input[idx]);
            proof {
                assert(out@ =~= spec_out.take(f * to + c + 1));
            }
            c = c + 1;
        }
        proof {
            assert((f + 1) * (to as int) == f * to + to) by (nonlinear_arith);
        }
        f = f + 1;
    }
    proof {
        assert(out@ =~= spec_out);
    }
    Some(out)
}

/// Going to any channel count and back keeps channel 0 of every whole
/// frame, and the number of whole frames.
pub proof fn lemma_remap_keeps_first_channel<S>(input: Seq<S>, from: int, to: int)
    requires
        from > 0,
        to > 0,
    ensures
        ({
            let back = remap_channels(remap_channels(input, from, to), to, from);
            &&& back.len() == (input.len() as int / from) * from
            &&& forall|f: int|
                0 <= f < input.len() as int / from ==> #[trigger] back[f * from] == input[f * from]
        }),
{
    let frames: int = input.len() as int / from;
    let up = remap_channels(input, from, to);
    let back = remap_channels(up, to, from);
    assert(frames >= 0) by (nonlinear_arith)
        requires
            frames == input.len() as int / from,
            from > 0,
    ;
    assert(frames * to >= 0) by (nonlinear_arith)
        requires
            frames >= 0,
            to > 0,
    ;
    lemma_frame_index(frames, 0, to);
    assert(up.len() as int / to == frames) by {
        assert(frames * to + 0 == frames * to);
    }
    assert forall|f: int| 0 <= f < input.len() as int / from implies #[trigger] back[f * from]
        == input[f * from] by {
        lemma_frame_index(f, 0, from);
        lemma_frame_index(f, 0, to);
        lemma_whole_frames(input.len() as int, from);
        lemma_frame_in_bounds(f, 0, from, frames, input.len() as int);
        lemma_frame_in_bounds(f, 0, to, frames, up.len() as int);
        assert(f * from + 0 == f * from);
        assert(f * to + 0 == f * to);
    }
}

} // verus!
