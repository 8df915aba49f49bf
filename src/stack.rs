use vstd::prelude::*;

verus! {

/// A stack of at most `CAPACITY` values stored inline, as used for the
/// explicit traversal stack of the hierarchy.
pub struct FixedVec<T, const CAPACITY: usize> {
    data: [T; CAPACITY],
    len: u32,
}

impl<T: Copy + Default, const CAPACITY: usize> FixedVec<T, CAPACITY> {
    /// The values on the stack, bottom first.
    pub closed spec fn view(&self) -> Seq<T> {
        self.data@.subrange(0, self.len as int)
    }

    pub closed spec fn wf(&self) -> bool {
        self.len <= CAPACITY
    }

    pub fn new() -> (r: Self)
        ensures
            r.wf(),
            r@ == Seq::<T>::empty(),
    {
        let r = FixedVec { data: [T::default(); CAPACITY], len: 0 };
        proof {
            assert(r@ =~= Seq::<T>::empty());
        }
        r
    }

    /// Pushes `value`; the stack must have room for it.
    pub fn push(&mut self, value: T)
        requires
            old(self).wf(),
            old(self)@.len() < CAPACITY,
            old(self)@.len() < u32::MAX,
        ensures
            final(self).wf(),
            final(self)@ == old(self)@.push(value),
    {
        let ghost before = self@;
        self.data[self.len as usize] = value;
        self.len = self.len + 1;
        proof {
            assert(self@ =~= before.push(value));
        }
    }

    /// Removes and returns the top value, if any.
    pub fn pop(&mut self) -> (r: Option<T>)
        requires
            old(self).wf(),
        ensures
            final(self).wf(),
            old(self)@.len() == 0 ==> r is None && final(self)@ == old(self)@,
            old(self)@.len() > 0 ==> r == Some(old(self)@.last()) && final(self)@
                == old(self)@.drop_last(),
    {
        if self.len > 0 {
            let ghost before = self@;
            self.len = self.len - 1;
            proof {
                assert(self@ =~= before.drop_last());
            }
            Some(self.data[self.len as usize])
        } else {
            None
        }
    }

    pub fn is_empty(&self) -> (r: bool)
        requires
            self.wf(),
        ensures
            r == (self@.len() == 0),
    {
        self.len == 0
    }

    /// Number of values on the stack.
    pub fn len(&self) -> (r: u32)
        requires
            self.wf(),
        ensures
            r == self@.len(),
    {
        self.len
    }

    pub fn clear(&mut self)
        requires
            old(self).wf(),
        ensures
            final(self).wf(),
            final(self)@ == Seq::<T>::empty(),
    {
        self.len = 0;
        proof {
            assert(self@ =~= Seq::<T>::empty());
        }
    }

    /// The value at `index`, counted from the bottom.
    pub fn index(&self, index: u32) -> (r: T)
        requires
            self.wf(),
            index < self@.len(),
        ensures
            r == self@[index as int],
    {
        self.data[index as usize]
    }
}

/// Marker for how images are sampled: bilinear filtering with wrapping
/// coordinates, the only mode the tracer uses.
#[derive(Clone, Copy, Debug, PartialEq, Eq, Structural)]
pub struct Sampler;

} // verus!
