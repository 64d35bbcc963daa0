use vstd::prelude::*;

verus! {

/// Hands out connection ids, each at most once for the life of the process.
pub struct IdAllocator {
    next: usize,
}

impl IdAllocator {
    /// Whether `id` has been handed out.
    pub closed spec fn issued(&self, id: usize) -> bool {
        id < self.next
    }

    /// Whether every id has been handed out.
    pub closed spec fn exhausted(&self) -> bool {
        self.next == usize::MAX
    }

    /// An allocator that has handed out nothing.
    pub fn new() -> (r: IdAllocator)
        ensures
            forall|id: usize| !r.issued(id),
            !r.exhausted(),
    {
        IdAllocator { next: 0 }
    }

    /// A fresh id: one never handed out before, which counts as handed out
    /// from now on. `None` once the ids have run out; nothing changes then.
    pub fn allocate(&mut self) -> (r: Option<usize>)
        ensures
            old(self).exhausted() <==> r is None,
            r is None ==> *final(self) == *old(self),
            r matches Some(id) ==> {
                &&& !old(self).issued(id)
                &&& final(self).issued(id)
                &&& forall|k: usize| #[trigger]
                    final(self).issued(k) <==> old(self).issued(k) || k == id
            },
    {
        if self.next == usize::MAX {
            None
        } else {
            let id = self.next;
            self.next = self.next + 1;
            Some(id)
        }
    }
}

} // verus!
