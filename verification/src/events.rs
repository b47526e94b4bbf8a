//! First-in, first-out event queues that are emptied by a single reader.

use vstd::prelude::*;

verus! {

/// A queue of events of one kind. Writers append; the one reader takes
/// everything that is pending, oldest first.
pub struct Events<E> {
    pending: Vec<E>,
}

impl<E> View for Events<E> {
    type V = Seq<E>;

    closed spec fn view(&self) -> Seq<E> {
        self.pending@
    }
}

impl<E> Events<E> {
    /// An empty queue.
    pub fn new() -> (res: Events<E>)
        ensures
            res@ == Seq::<E>::empty(),
    {
        Events { pending: Vec::new() }
    }

    /// Number of pending events.
    pub fn len(&self) -> (n: usize)
        ensures
            n == self@.len(),
    {
        self.pending.len()
    }

    /// Whether nothing is pending.
    pub fn is_empty(&self) -> (res: bool)
        ensures
            res == (self@.len() == 0),
    {
        self.pending.len() == 0
    }

    /// Appends one event behind those already pending.
    pub fn send(&mut self, event: E)
        ensures
            final(self)@ == old(self)@.push(event),
    {
        self.pending.push(event);
    }

    /// Takes every pending event out, oldest first, and leaves the queue
    /// empty.
    pub fn drain(&mut self) -> (taken: Vec<E>)
        ensures
            taken@ == old(self)@,
            final(self)@ == Seq::<E>::empty(),
    {
        let mut taken: Vec<E> = Vec::new();
        std::mem::swap(&mut self.pending, &mut taken);
        taken
    }

    /// Discards whatever is pending.
    pub fn clear(&mut self)
        ensures
            final(self)@ == Seq::<E>::empty(),
    {
        self.pending.clear();
    }
}

} // verus!
