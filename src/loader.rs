//! Progress of a background worker that classifies a batch of files in order,
//! where a newer batch supersedes the one in flight.
use vstd::prelude::*;

verus! {

/// Where the worker stands in its current batch.
pub struct BatchCursor {
    done: usize,
    total: usize,
}

impl BatchCursor {
    /// Files of the current batch already classified.
    pub closed spec fn done_spec(&self) -> nat {
        self.done as nat
    }

    /// Files in the current batch.
    pub closed spec fn total_spec(&self) -> nat {
        self.total as nat
    }

    #[verifier::type_invariant]
    spec fn wf(&self) -> bool {
        self.done <= self.total
    }

    /// A cursor at the start of a batch of `total` files.
    pub fn new(total: usize) -> (r: BatchCursor)
        ensures
            r.done_spec() == 0,
            r.total_spec() == total,
    {
        BatchCursor { done: 0, total }
    }

    /// The index of the file to classify next, or `None` once the batch is done.
    pub fn next_index(&self) -> (r: Option<usize>)
        ensures
            self.done_spec() < self.total_spec() ==> r == Some(self.done_spec() as usize),
            self.done_spec() >= self.total_spec() ==> r is None,
    {
        if self.done < self.total {
            Some(self.done)
        } else {
            None
        }
    }

    /// Records that the file at `next_index` has been classified.
    pub fn complete_one(&mut self)
        requires
            old(self).done_spec() < old(self).total_spec(),
        ensures
            final(self).done_spec() == old(self).done_spec() + 1,
            final(self).total_spec() == old(self).total_spec(),
    {
        self.done = self.done + 1;
    }

    /// Abandons the rest of the current batch for a new one of `total` files,
    /// which starts from its first file.
    pub fn supersede(&mut self, total: usize)
        ensures
            final(self).done_spec() == 0,
            final(self).total_spec() == total,
    {
        self.done = 0;
        self.total = total;
    }

    /// The progress to publish: files done, and files in the batch.
    pub fn progress(&self) -> (r: (usize, usize))
        ensures
            r.0 == self.done_spec(),
            r.1 == self.total_spec(),
    {
        (self.done, self.total)
    }
}

} // verus!
