use vstd::prelude::*;

verus! {

/// The events raised during one fixed update, in the order they were raised.
#[derive(Debug)]
pub struct EventBus<E> {
    events: Vec<E>,
}

impl<E> View for EventBus<E> {
    type V = Seq<E>;

    closed spec fn view(&self) -> Seq<E> {
        self.events@
    }
}

impl<E> EventBus<E> {
    /// An empty bus.
    pub fn new() -> (r: Self)
        ensures
            r@ == Seq::<E>::empty(),
    {
        EventBus { events: Vec::new() }
    }

    /// Raises `event` after all the events raised so far.
    pub fn push(&mut self, event: E)
        ensures
            final(self)@ == old(self)@.push(event),
    {
        self.events.push(event);
    }

    /// The events raised so far, oldest first.
    pub fn events(&self) -> (r: &[E])
        ensures
            r@ == self@,
    {
        self.events.as_slice()
    }

    /// Forgets every event.
    pub fn clear(&mut self)
        ensures
            final(self)@ == Seq::<E>::empty(),
    {
        self.events.clear();
    }
}

impl<E> Default for EventBus<E> {
    /// An empty bus.
    fn default() -> (r: Self)
        ensures
            r@ == Seq::<E>::empty(),
    {
        EventBus::new()
    }
}

/// Reading the bus gives back every pushed event, in push order: the
/// events of `before`, then `a`, then `b`.
pub proof fn lemma_events_in_push_order<E>(before: Seq<E>, a: E, b: E)
    ensures
        before.push(a).push(b).len() == before.len() + 2,
        before.push(a).push(b).subrange(0, before.len() as int) == before,
        before.push(a).push(b)[before.len() as int] == a,
        before.push(a).push(b)[before.len() + 1int] == b,
{
    assert(before.push(a).push(b).subrange(0, before.len() as int) =~= before);
}

} // verus!
