use vstd::prelude::*;

verus! {

/// Which of the two OpenCL sampling images is read from (the source) and which is written to
/// (the destination); the two swap roles after each accumulation step.
pub struct OclBufferIndex {
    current: usize,
}

impl OclBufferIndex {
    /// The index of the source image.
    pub closed spec fn spec_src(self) -> usize {
        self.current
    }

    /// The index of the destination image: the other one.
    pub open spec fn spec_dst(self) -> usize {
        if self.spec_src() == 0 {
            1
        } else {
            0
        }
    }

    #[verifier::type_invariant]
    closed spec fn index_is_0_or_1(self) -> bool {
        self.current < 2
    }

    /// Starts with image 0 as the source.
    pub fn new() -> (r: Self)
        ensures
            r.spec_src() == 0,
    {
        Self { current: 0 }
    }

    /// The index of the source image.
    pub fn src_buffer(&self) -> (r: usize)
        ensures
            r == self.spec_src(),
            r < 2,
            r != self.spec_dst(),
    {
        proof {
            use_type_invariant(self);
        }
        self.current
    }

    /// The index of the destination image: the other one.
    pub fn dst_buffer(&self) -> (r: usize)
        ensures
            r == self.spec_dst(),
            r < 2,
            r != self.spec_src(),
    {
        proof {
            use_type_invariant(self);
        }
        let current = self.current;
        let r = current ^ 1;
        assert(current < 2 ==> (current ^ 1) < 2 && (current ^ 1) != current) by (bit_vector);
        r
    }

    /// Swaps the roles of the two images: the image just written becomes the source, and the
    /// old source is written next.
    pub fn switch_buffer_index(&mut self)
        ensures
            final(self).spec_src() == old(self).spec_dst(),
            final(self).spec_dst() == old(self).spec_src(),
            final(self).spec_src() < 2,
            final(self).spec_src() != old(self).spec_src(),
    {
        proof {
            use_type_invariant(&*self);
        }
        let current = self.current;
        let next = current ^ 1;
        assert(current < 2 ==> (current ^ 1) < 2 && (current ^ 1) != current) by (bit_vector);
        *self = OclBufferIndex { current: next };
    }
}

/// The OpenCL data of the sampling converter through engine restarts: available, unavailable
/// (OpenCL could not be used), or taken out for the restart (its images backed up).
pub struct OclData<T> {
    data: Option<Option<T>>,
}

impl<T> OclData<T> {
    /// The data, where OpenCL is available and the data is not taken out.
    pub closed spec fn spec_data(self) -> Option<T> {
        match self.data {
            Some(d) => d,
            None => None,
        }
    }

    /// Whether the data is taken out for an engine restart and must be restored.
    pub closed spec fn spec_needs_restore(self) -> bool {
        self.data is None
    }

    /// Holds the data built at the start of capturing: `None` when OpenCL is unavailable.
    pub fn new(data: Option<T>) -> (r: Self)
        ensures
            r.spec_data() == data,
            !r.spec_needs_restore(),
    {
        Self { data: Some(data) }
    }

    /// Before an engine restart: takes the data out to back its images up, if there is data.
    /// Without data (OpenCL unavailable, or already taken out) nothing changes.
    pub fn take_for_backup(&mut self) -> (r: Option<T>)
        ensures
            r == old(self).spec_data(),
            r is Some ==> final(self).spec_needs_restore() && final(self).spec_data() is None,
            r is None ==> *final(self) == *old(self),
    {
        match self.data.take() {
            Some(Some(d)) => Some(d),
            other => {
                self.data = other;
                None
            },
        }
    }

    /// Returns whether the data must be restored (after an engine restart) before it is used.
    pub fn needs_restore(&self) -> (r: bool)
        ensures
            r == self.spec_needs_restore(),
    {
        self.data.is_none()
    }

    /// After an engine restart: puts the rebuilt data back. Only data that was taken out can
    /// be restored.
    pub fn restore(&mut self, data: T)
        requires
            old(self).spec_needs_restore(),
        ensures
            final(self).spec_data() == Some(data),
            !final(self).spec_needs_restore(),
    {
        self.data = Some(Some(data));
    }

    /// The data, if OpenCL is available; it must not be taken out.
    pub fn get_ocl_data(&mut self) -> (r: Option<&mut T>)
        requires
            !old(self).spec_needs_restore(),
        ensures
            (r is Some) == (old(self).spec_data() is Some),
            r is Some ==> *r->0 == old(self).spec_data()->0 && final(self).spec_data() == Some(
                *final(r->0),
            ),
            !final(self).spec_needs_restore(),
            r is None ==> *final(self) == *old(self),
    {
        self.data.as_mut().unwrap().as_mut()
    }
}

} // verus!
