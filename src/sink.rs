use vstd::prelude::*;

use crate::sample::Sample;

verus! {

/// Plays queued sources one after the other, in the order they came, under
/// play, pause and stop controls.
pub struct Sink<S> {
    queue: Vec<Vec<S>>,
    pos: usize,
    paused: bool,
    stopped: bool,
}

impl<S: Sample> Sink<S> {
    /// The samples that each queued source has still to give, the playing
    /// one first.
    pub closed spec fn pending(&self) -> Seq<Seq<S>> {
        Seq::new(
            self.queue.len() as nat,
            |i: int|
                if i == 0 {
                    self.queue[0]@.subrange(self.pos as int, self.queue[0].len() as int)
                } else {
                    self.queue[i]@
                },
        )
    }

    pub closed spec fn spec_paused(&self) -> bool {
        self.paused
    }

    pub closed spec fn spec_stopped(&self) -> bool {
        self.stopped
    }

    /// Every queued source has a sample left, and a stopped sink holds none.
    pub closed spec fn wf(&self) -> bool {
        &&& self.queue.len() == 0 ==> self.pos == 0
        &&& self.queue.len() > 0 ==> self.pos < self.queue[0].len()
        &&& forall|i: int| 0 <= i < self.queue.len() ==> #[trigger] self.queue[i].len() > 0
        &&& self.stopped ==> self.queue.len() == 0
    }

    /// A playing sink with an empty queue.
    pub fn new() -> (r: Sink<S>)
        ensures
            r.wf(),
            r.pending().len() == 0,
            !r.spec_paused(),
            !r.spec_stopped(),
    {
        Sink { queue: Vec::new(), pos: 0, paused: false, stopped: false }
    }

    /// Queues a source to play after the ones already queued. Fails, and
    /// changes nothing, once the sink is stopped; a source with no sample
    /// is already finished and is not queued.
    pub fn append(&mut self, source: Vec<S>) -> (r: bool)
        requires
            old(self).wf(),
        ensures
            final(self).wf(),
            r == !old(self).spec_stopped(),
            final(self).pending() == if r && source.len() > 0 {
                old(self).pending().push(source@)
            } else {
                old(self).pending()
            },
            final(self).spec_paused() == old(self).spec_paused(),
            final(self).spec_stopped() == old(self).spec_stopped(),
    {
        if self.stopped {
            return false;
        }
        if source.len() > 0 {
            let ghost before = self.pending();
            self.queue.push(source);
            proof {
                assert(self.pending() =~~= before.push(source@));
            }
        }
        true
    }

    /// Lets the pulls advance the queue again.
    pub fn play(&mut self)
        requires
            old(self).wf(),
        ensures
            final(self).wf(),
            final(self).pending() == old(self).pending(),
            !final(self).spec_paused(),
            final(self).spec_stopped() == old(self).spec_stopped(),
    {
        self.paused = false;
    }

    /// Makes the pulls give silence without advancing the queue.
    pub fn pause(&mut self)
        requires
            old(self).wf(),
        ensures
            final(self).wf(),
            final(self).pending() == old(self).pending(),
            final(self).spec_paused(),
            final(self).spec_stopped() == old(self).spec_stopped(),
    {
        self.paused = true;
    }

    /// Whether the sink is paused.
    pub fn is_paused(&self) -> (r: bool)
        ensures
            r == self.spec_paused(),
    {
        self.paused
    }

    /// Drops every queued source and ends the sink for good.
    pub fn stop(&mut self)
        requires
            old(self).wf(),
        ensures
            final(self).wf(),
            final(self).pending().len() == 0,
            final(self).spec_stopped(),
            final(self).spec_paused() == old(self).spec_paused(),
    {
        self.queue = Vec::new();
        self.pos = 0;
        self.stopped = true;
    }

    /// Whether the sink was stopped.
    pub fn is_stopped(&self) -> (r: bool)
        ensures
            r == self.spec_stopped(),
    {
        self.stopped
    }

    /// Drops the source that is playing, if any; the next one starts.
    pub fn skip_one(&mut self)
        requires
            old(self).wf(),
        ensures
            final(self).wf(),
            final(self).pending() == if old(self).pending().len() > 0 {
                old(self).pending().drop_first()
            } else {
                old(self).pending()
            },
            final(self).spec_paused() == old(self).spec_paused(),
            final(self).spec_stopped() == old(self).spec_stopped(),
    {
        if self.queue.len() > 0 {
            let ghost before = self.pending();
            self.queue.remove(0);
            self.pos = 0;
            proof {
                assert(self.pending() =~~= before.drop_first());
            }
        }
    }

    /// The number of queued sources, the playing one included.
    pub fn len(&self) -> (r: usize)
        ensures
            r == self.pending().len(),
    {
        self.queue.len()
    }

    /// Whether no source is queued.
    pub fn empty(&self) -> (r: bool)
        ensures
            r == (self.pending().len() == 0),
    {
        self.queue.len() == 0
    }

    /// Produces the next output sample. While paused, stopped or with an
    /// empty queue this is silence and nothing moves; else it is the next
    /// sample of the playing source, which leaves the queue once it has
    /// given its last sample.
    pub fn next(&mut self) -> (r: S)
        requires
            old(self).wf(),
        ensures
            final(self).wf(),
            final(self).spec_paused() == old(self).spec_paused(),
            final(self).spec_stopped() == old(self).spec_stopped(),
            ({
                let q = old(self).pending();
                if old(self).spec_paused() || q.len() == 0 {
                    &&& r.amplitude() == 0
                    &&& final(self).pending() == q
                } else if q[0].len() > 1 {
                    &&& r == q[0][0]
                    &&& final(self).pending() == q.update(0, q[0].drop_first())
                } else {
                    &&& r == q[0][0]
                    &&& final(self).pending() == q.drop_first()
                }
            }),
    {
        let ghost q = self.pending();
        if self.paused || self.queue.len() == 0 {
            return S::zero_value();
        }
        let s = self.queue[0][self.pos];
        if self.pos + 1 < self.queue[0].len() {
            self.pos = self.pos + 1;
            proof {
                assert(self.pending() =~~= q.update(0, q[0].drop_first()));
            }
        } else {
            self.queue.remove(0);
            self.pos = 0;
            proof {
                assert(self.pending() =~~= q.drop_first());
            }
        }
        s
    }
}

} // verus!
