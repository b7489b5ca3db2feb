//! The broadcast dispatcher: for each event of its queue, in the order of
//! arrival, the present roster goes to every registered connection.

use vstd::prelude::*;
use crate::codec::{lemma_roster_round_trip, roster_frame, roster_of};
use crate::event::BroadcastEvent;
use crate::frame::{Frame, FrameKind};
use crate::ids::ConnectionId;
use crate::ledger::{ledger_view, lemma_roster_is_held};
use crate::model::RegistryView;
use crate::registry::ConnectionRegistry;

verus! {

/// One fan-out: a frame and the connections on whose handles it is queued,
/// in this order. A delivery that fails is not tried again and does not
/// stop the deliveries after it.
#[derive(Debug, PartialEq, Eq)]
pub struct Broadcast {
    pub frame: Frame,
    pub recipients: Vec<ConnectionId>,
}

/// Whether `b` carries the roster of `registry` to all of its connections.
pub open spec fn is_roster_broadcast(b: Broadcast, registry: RegistryView) -> bool {
    &&& b.frame.kind == FrameKind::Text
    &&& b.frame.payload@ == roster_frame(registry.roster())
    &&& b.recipients@ == registry.connections
}

/// What a roster broadcast carries reads back as the usernames that are
/// held in the registry, each once and no other, and it is addressed to
/// every live connection and to no other.
pub proof fn lemma_broadcast_is_the_roster(b: Broadcast, registry: RegistryView)
    requires
        registry.wf(),
        is_roster_broadcast(b, registry),
    ensures
        roster_of(b.frame.payload@) == Some(registry.roster()),
        registry.roster().no_duplicates(),
        forall|name: Seq<u8>| registry.roster().contains(name) <==> registry.is_taken(name),
        forall|id: ConnectionId| b.recipients@.contains(id) <==> registry.is_live(id),
{
    lemma_roster_is_held(registry);
    lemma_roster_round_trip(registry.roster());
    assert forall|name: Seq<u8>| registry.roster().contains(name) <==> registry.is_taken(
        name,
    ) by {
        assert(registry.roster().to_set().contains(name) == ledger_view(
            registry,
        ).owners.dom().contains(name));
    }
}

/// Renders the roster and addresses it to every registered connection.
pub fn roster_broadcast<H>(registry: &ConnectionRegistry<H>) -> (r: Broadcast)
    ensures
        is_roster_broadcast(r, registry@),
{
    Broadcast { frame: registry.get_list_message(), recipients: registry.connection_ids() }
}

/// The dispatcher. It runs until the sending side of its queue is gone.
#[derive(Debug)]
pub struct BroadcastDispatcher {
    running: bool,
}

impl BroadcastDispatcher {
    /// Whether the dispatcher still takes events.
    pub closed spec fn running(&self) -> bool {
        self.running
    }

    /// A running dispatcher.
    pub fn new() -> (r: Self)
        ensures
            r.running(),
    {
        BroadcastDispatcher { running: true }
    }

    /// Tells whether the dispatcher still takes events.
    pub fn is_running(&self) -> (r: bool)
        ensures
            r == self.running(),
    {
        self.running
    }

    /// Takes what the queue yields: an event, or `None` once every sender
    /// is gone. A running dispatcher answers an event with the roster as
    /// the registry has it now, for every registered connection; the
    /// producer of the event has applied it to the registry already. On
    /// `None` the dispatcher stops, without error, and stays stopped.
    pub fn on_event<H>(
        &mut self,
        registry: &ConnectionRegistry<H>,
        input: Option<BroadcastEvent>,
    ) -> (r: Option<Broadcast>)
        ensures
            final(self).running() == (old(self).running() && input is Some),
            r is Some <==> old(self).running() && input is Some,
            r matches Some(b) ==> is_roster_broadcast(b, registry@),
    {
        if !self.running {
            return None;
        }
        match input {
            Some(_) => Some(roster_broadcast(registry)),
            None => {
                self.running = false;
                None
            },
        }
    }
}

} // verus!
