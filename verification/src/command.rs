use vstd::prelude::*;

verus! {

/// The position of an iteration over the console command arguments.
///
/// The arguments themselves live in the engine; `next` says which of them to fetch, so the
/// arguments come out in order, each exactly once.
pub struct Args {
    count: u32,
    index: u32,
}

/// The argument indices still to come from a cursor at `index` out of `count`.
pub open spec fn spec_remaining_indices(count: u32, index: u32) -> Seq<u32>
    decreases count - index,
{
    if index < count {
        seq![index].add(spec_remaining_indices(count, (index + 1) as u32))
    } else {
        Seq::empty()
    }
}

impl Args {
    /// The number of arguments.
    pub closed spec fn spec_count(self) -> u32 {
        self.count
    }

    /// The index of the next argument to fetch.
    pub closed spec fn spec_index(self) -> u32 {
        self.index
    }

    /// The argument indices that `next` will still hand out, in order.
    pub open spec fn spec_remaining(self) -> Seq<u32> {
        spec_remaining_indices(self.spec_count(), self.spec_index())
    }

    #[verifier::type_invariant]
    closed spec fn index_within_count(self) -> bool {
        self.index <= self.count
    }

    /// Starts an iteration over `count` arguments (the engine's argument count).
    pub fn new(count: u32) -> (r: Self)
        ensures
            r.spec_count() == count,
            r.spec_index() == 0,
            r.spec_remaining() == spec_remaining_indices(count, 0),
    {
        Self { count, index: 0 }
    }

    /// Returns the index of the next argument to fetch, or `None` when all have been fetched.
    pub fn next(&mut self) -> (r: Option<u32>)
        ensures
            final(self).spec_count() == old(self).spec_count(),
            old(self).spec_index() < old(self).spec_count() ==> r == Some(old(self).spec_index())
                && final(self).spec_index() == old(self).spec_index() + 1,
            old(self).spec_index() >= old(self).spec_count() ==> r is None && final(self).spec_index()
                == old(self).spec_index(),
            old(self).spec_remaining().len() > 0 ==> r == Some(old(self).spec_remaining()[0])
                && final(self).spec_remaining() == old(self).spec_remaining().drop_first(),
            old(self).spec_remaining().len() == 0 ==> r is None && final(self).spec_remaining()
                == old(self).spec_remaining(),
    {
        proof {
            use_type_invariant(&*self);
            let rem = spec_remaining_indices(self.count, self.index);
            if self.index < self.count {
                assert(rem.drop_first() =~= spec_remaining_indices(self.count, (self.index + 1) as u32));
            }
        }
        if self.index == self.count {
            None
        } else {
            let arg = self.index;
            self.index = self.index + 1;
            Some(arg)
        }
    }

    /// The number of arguments still to come (both bounds of the size hint).
    pub fn len(&self) -> (r: usize)
        ensures
            r == self.spec_count() - self.spec_index(),
            r == self.spec_remaining().len(),
    {
        proof {
            use_type_invariant(self);
            lemma_remaining_indices(self.count, self.index);
        }
        (self.count - self.index) as usize
    }
}

/// The indices still to come are exactly `index, index + 1, ..., count - 1`: the length reported
/// by `len` is the number of arguments `next` will still hand out, in order.
pub proof fn lemma_remaining_indices(count: u32, index: u32)
    requires
        index <= count,
    ensures
        spec_remaining_indices(count, index).len() == count - index,
        forall|k: int|
            0 <= k < count - index ==> #[trigger] spec_remaining_indices(count, index)[k] == index
                + k,
    decreases count - index,
{
    if index < count {
        lemma_remaining_indices(count, (index + 1) as u32);
    }
}

/// A fresh cursor over `count` arguments hands out exactly the indices `0, 1, ..., count - 1`,
/// in order, each once: by `Args::new` and `Args::next`, the indices a whole run of `next` calls
/// returns before the first `None` are `spec_remaining_indices(count, 0)`, which is this sequence.
pub proof fn lemma_fresh_cursor_indices(count: u32)
    ensures
        spec_remaining_indices(count, 0) == Seq::new(count as nat, |i: int| i as u32),
{
    lemma_remaining_indices(count, 0);
    assert(spec_remaining_indices(count, 0) =~= Seq::new(count as nat, |i: int| i as u32));
}

} // verus!
