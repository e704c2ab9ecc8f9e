use vstd::prelude::*;

use crate::sample::{clamp_amplitude, Sample};

verus! {

/// The saturating sum of the next samples of the members of `p` that still
/// have one, added in member order starting from silence.
pub open spec fn mix_heads<S: Sample>(p: Seq<Seq<S>>) -> int
    decreases p.len(),
{
    if p.len() == 0 {
        0
    } else {
        let acc = mix_heads(p.drop_last());
        if p.last().len() > 0 {
            clamp_amplitude(acc + p.last()[0].amplitude())
        } else {
            acc
        }
    }
}

/// The members of `p` after each gave up its next sample: those left with
/// no sample are removed, the order of the others is kept.
pub open spec fn advance_members<S>(p: Seq<Seq<S>>) -> Seq<Seq<S>>
    decreases p.len(),
{
    if p.len() == 0 {
        Seq::empty()
    } else {
        let rest = advance_members(p.drop_last());
        if p.last().len() > 1 {
            rest.push(p.last().drop_first())
        } else {
            rest
        }
    }
}

/// Every sample of every member is silence.
pub open spec fn all_silent<S: Sample>(p: Seq<Seq<S>>) -> bool {
    forall|i: int, j: int|
        0 <= i < p.len() && 0 <= j < p[i].len() ==> (#[trigger] p[i][j]).amplitude() == 0
}

struct Member<S> {
    samples: Vec<S>,
    pos: usize,
}

impl<S> Member<S> {
    spec fn rest(&self) -> Seq<S> {
        self.samples@.subrange(self.pos as int, self.samples.len() as int)
    }
}

spec fn rests<S>(ms: Seq<Member<S>>) -> Seq<Seq<S>> {
    ms.map_values(|m: Member<S>| m.rest())
}

/// Sums any number of sources of one format into a single endless source.
pub struct Mixer<S> {
    channels: u16,
    sample_rate: u32,
    members: Vec<Member<S>>,
}

impl<S: Sample> Mixer<S> {
    /// The samples that each member has still to give, in member order.
    pub closed spec fn pending(&self) -> Seq<Seq<S>> {
        rests(self.members@)
    }

    pub closed spec fn spec_channels(&self) -> u16 {
        self.channels
    }

    pub closed spec fn spec_sample_rate(&self) -> u32 {
        self.sample_rate
    }

    /// The format is valid and every member's cursor lies within its samples.
    pub closed spec fn wf(&self) -> bool {
        &&& self.channels > 0
        &&& self.sample_rate > 0
        &&& forall|i: int|
            0 <= i < self.members.len() ==> #[trigger] self.members[i].pos
                <= self.members[i].samples.len()
    }

    /// An empty mixer of the given format; `None` when the channel count or
    /// the sample rate is zero.
    pub fn new(channels: u16, sample_rate: u32) -> (r: Option<Mixer<S>>)
        ensures
            r is None <==> (channels == 0 || sample_rate == 0),
            r matches Some(m) ==> {
                &&& m.wf()
                &&& m.pending().len() == 0
                &&& m.spec_channels() == channels
                &&& m.spec_sample_rate() == sample_rate
            },
    {
        if channels == 0 || sample_rate == 0 {
            return None;
        }
        let m = Mixer { channels, sample_rate, members: Vec::new() };
        assert(m.pending() =~= Seq::empty());
        Some(m)
    }

    /// The number of channels of the output.
    pub fn channels(&self) -> (r: u16)
        ensures
            r == self.spec_channels(),
    {
        self.channels
    }

    /// The sample rate of the output.
    pub fn sample_rate(&self) -> (r: u32)
        ensures
            r == self.spec_sample_rate(),
    {
        self.sample_rate
    }

    /// Adds a source, already in the mixer's format, as the last member.
    pub fn add(&mut self, source: Vec<S>)
        requires
            old(self).wf(),
        ensures
            final(self).wf(),
            final(self).pending() == old(self).pending().push(source@),
            final(self).spec_channels() == old(self).spec_channels(),
            final(self).spec_sample_rate() == old(self).spec_sample_rate(),
    {
        let m = Member { samples: source, pos: 0 };
        self.members.push(m);
        proof {
            assert(m.rest() =~= source@);
            assert(self.pending() =~= old(self).pending().push(source@));
        }
    }

    /// The number of members that have not yet been removed.
    pub fn member_count(&self) -> (r: usize)
        ensures
            r == self.pending().len(),
    {
        self.members.len()
    }

    /// Produces the next output sample: the saturating sum of the next
    /// sample of every member, or silence when there is none. Members that
    /// have nothing left are removed.
    pub fn next(&mut self) -> (r: S)
        requires
            old(self).wf(),
        ensures
            final(self).wf(),
            r.amplitude() == mix_heads(old(self).pending()),
            final(self).pending() == advance_members(old(self).pending()),
            final(self).spec_channels() == old(self).spec_channels(),
            final(self).spec_sample_rate() == old(self).spec_sample_rate(),
    {
        let ghost p = self.pending();
        let mut old_members: Vec<Member<S>> = Vec::new();
        std::mem::swap(&mut self.members, &mut old_members);
        let mut kept: Vec<Member<S>> = Vec::new();
        let mut acc = S::zero_value();
        let ghost n = old_members.len();
        let mut i: usize = 0;
        while old_members.len() > 0
            invariant
                i + old_members.len() == n,
                n == p.len(),
                rests(old_members@) == p.subrange(i as int, n as int),
                forall|k: int|
                    0 <= k < old_members.len() ==> #[trigger] old_members[k].pos
                        <= old_members[k].samples.len(),
                forall|k: int|
                    0 <= k < kept.len() ==> #[trigger] kept[k].pos <= kept[k].samples.len(),
                acc.amplitude() == mix_heads(p.take(i as int)),
                rests(kept@) == advance_members(p.take(i as int)),
            decreases old_members.len(),
        {
            let ghost om = old_members@;
            let m = old_members.remove(0);
            proof {
                let pm = rests(om);
                assert(pm[0] == p.subrange(i as int, n as int)[0]);
                assert(pm[0] == om[0].rest());
                assert(om[0] == m);
                assert(old_members@ =~= om.subrange(1, om.len() as int));
                assert forall|k: int| 0 <= k < old_members.len() implies #[trigger] rests(old_members@)[k] == p.subrange(i + 1, n as int)[k] by {
                    assert(old_members@[k] == om[k + 1]);
                    assert(pm[k + 1] == p.subrange(i as int, n as int)[k + 1]);
                }
                assert(rests(old_members@) =~= p.subrange(
                    i + 1,
                    n as int,
                ));
                assert(m.rest() == p[i as int]);
                assert(p.take(i + 1).drop_last() =~= p.take(i as int));
                assert(p.take(i + 1).last() == p[i as int]);
            }
            if m.pos < m.samples.len() {
                let s = m.samples[m.pos];
                acc = acc.saturating_add(s);
                let next = Member { samples: m.samples, pos: m.pos + 1 };
                if next.pos < next.samples.len() {
                    let ghost before = kept@;
                    kept.push(next);
                    proof {
                        assert(next.rest() =~= m.rest().drop_first());
                        assert(rests(kept@) =~= rests(before).push(next.rest()));
                    }
                }
            }
            i = i + 1;
        }
        proof {
            assert(p.take(n as int) =~= p);
        }
        self.members = kept;
        acc
    }
}

/// Mixing members that are all silent gives silence, and what is left of
/// them after the pull is silent too.
pub proof fn lemma_mix_silence<S: Sample>(p: Seq<Seq<S>>)
    requires
        all_silent(p),
    ensures
        mix_heads(p) == 0,
        all_silent(advance_members(p)),
    decreases p.len(),
{
    if p.len() > 0 {
        let q = p.drop_last();
        assert forall|i: int, j: int| 0 <= i < q.len() && 0 <= j < q[i].len() implies (
        #[trigger] q[i][j]).amplitude() == 0 by {
            assert(q[i] == p[i]);
        }
        lemma_mix_silence(q);
        let rest = advance_members(q);
        if p.last().len() > 1 {
            let r = rest.push(p.last().drop_first());
            assert forall|i: int, j: int| 0 <= i < r.len() && 0 <= j < r[i].len() implies (
            #[trigger] r[i][j]).amplitude() == 0 by {
                if i == rest.len() {
                    assert(r[i][j] == p[p.len() - 1][j + 1]);
                } else {
                    assert(r[i] == rest[i]);
                }
            }
        }
        if p.last().len() > 0 {
            assert(p.last()[0] == p[p.len() - 1][0]);
        }
    }
}

/// Whatever the members hold, the mixed sample stays within the range of
/// the encoding: it is clamped, never wrapped.
pub proof fn lemma_mix_in_range<S: Sample>(p: Seq<Seq<S>>)
    ensures
        crate::sample::MIN_AMPLITUDE <= mix_heads(p) <= crate::sample::MAX_AMPLITUDE,
    decreases p.len(),
{
    if p.len() > 0 {
        lemma_mix_in_range(p.drop_last());
    }
}

} // verus!
