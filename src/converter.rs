use vstd::prelude::*;

use crate::sample::Sample;
use vstd::std_specs::iter::IteratorSpec;
use std::marker::PhantomData;

verus! {

/// Converts the samples data type to `O`.
pub struct DataConverter<I, O> {
    input: I,
    marker: PhantomData<O>,
}

impl<I, O> DataConverter<I, O> {
    /// The wrapped source of samples.
    pub closed spec fn inner(&self) -> I {
        self.input
    }

    /// Builds a new converter.
    pub fn new(input: I) -> (r: DataConverter<I, O>)
        ensures
            r.inner() == input,
    {
        DataConverter { input, marker: PhantomData }
    }

    /// Destroys this converter and returns the underlying iterator.
    pub fn into_inner(self) -> (r: I)
        ensures
            r == self.inner(),
    {
        self.input
    }

    /// Mutable access to the underlying iterator.
    pub fn inner_mut(&mut self) -> (r: &mut I)
        ensures
            *r == old(self).inner(),
            final(self).inner() == *final(r),
    {
        &mut self.input
    }
}

impl<I: Iterator, O: Sample> DataConverter<I, O> where I::Item: Sample {
    /// Pulls the next sample of the underlying iterator and converts it to
    /// `O`, keeping its amplitude.
    pub fn next(&mut self) -> (r: Option<O>)
        ensures
            old(self).inner().obeys_prophetic_iter_laws() ==> {
                if old(self).inner().remaining().len() > 0 {
                    &&& final(self).inner().remaining() == old(self).inner().remaining().drop_first()
                    &&& r matches Some(o) && o.amplitude() == old(self).inner().remaining()[0].amplitude()
                } else {
                    &&& final(self).inner().remaining() == old(self).inner().remaining()
                    &&& r is None
                }
            },
    {
        match self.input.next() {
            Some(s) => Some(O::from_signed(s.to_signed())),
            None => None,
        }
    }
}

/// Converts one sample to the encoding `O`, keeping its amplitude.
pub fn convert_sample<S: Sample, O: Sample>(s: S) -> (r: O)
    ensures
        r.amplitude() == s.amplitude(),
{
    O::from_signed(s.to_signed())
}

} // verus!
