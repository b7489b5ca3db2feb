//! The pipeline as a whole: the registry, the dispatcher's queue, and the
//! roster that each connection was sent last.
//!
//! Three things happen to it, in any order. A connection is accepted and
//! gets the roster as its first frame. An actor takes a step, and what it
//! announces joins the queue. The dispatcher takes the event at the head of
//! the queue and sends the roster to every live connection. The law of this
//! module says that the connections are up to date whenever the queue is
//! empty.

use vstd::prelude::*;
use crate::actor::{step_model, ActorView, EffectView, InboundView};
use crate::event::EventView;
use crate::ids::ConnectionId;
use crate::model::{
    lemma_connect_wf, lemma_filter_keeps_all, lemma_join_wf, lemma_leave_wf, other_connection,
    other_owner, RegistryView,
};

verus! {

/// The state of the pipeline.
pub struct RelayView {
    /// The registry.
    pub registry: RegistryView,
    /// The events that wait for the dispatcher, the oldest first.
    pub queue: Seq<EventView>,
    /// For each connection, the roster of the last roster frame that was
    /// queued on its handle.
    pub seen: Map<ConnectionId, Seq<Seq<u8>>>,
}

/// What happens to the pipeline.
pub enum Move {
    /// A connection is accepted under this identity.
    Accept(ConnectionId),
    /// An actor, in this state, takes what its channel yielded.
    Step(ActorView, InboundView),
    /// The dispatcher takes the next event.
    Dispatch,
}

impl RelayView {
    /// The pipeline before anything happened.
    pub open spec fn empty() -> RelayView {
        RelayView { registry: RegistryView::empty(), queue: Seq::empty(), seen: Map::empty() }
    }

    /// The pipeline after one move. Accepting under a live identity and
    /// dispatching from an empty queue change nothing.
    pub open spec fn after(self, m: Move) -> RelayView {
        match m {
            Move::Accept(id) => if self.registry.is_live(id) {
                self
            } else {
                RelayView {
                    registry: self.registry.connect(id),
                    queue: self.queue,
                    seen: self.seen.insert(id, self.registry.roster()),
                }
            },
            Move::Step(actor, input) => {
                let out = step_model(actor, self.registry, input);
                RelayView {
                    registry: out.registry,
                    queue: match out.effect {
                        EffectView::Announce(event) => self.queue.push(event),
                        _ => self.queue,
                    },
                    seen: self.seen,
                }
            },
            Move::Dispatch => if self.queue.len() == 0 {
                self
            } else {
                RelayView {
                    registry: self.registry,
                    queue: self.queue.drop_first(),
                    seen: Map::new(
                        |id: ConnectionId| self.registry.is_live(id),
                        |id: ConnectionId| self.registry.roster(),
                    ),
                }
            },
        }
    }

    /// Whether every live connection was sent the present roster last.
    pub open spec fn up_to_date(self) -> bool {
        forall|id: ConnectionId| #[trigger]
            self.registry.is_live(id) ==> self.seen.dom().contains(id) && self.seen[id]
                == self.registry.roster()
    }

    /// The invariant of the pipeline: the registry keeps its own, and the
    /// connections are up to date unless an event waits in the queue.
    pub open spec fn settled(self) -> bool {
        &&& self.registry.wf()
        &&& self.queue.len() == 0 ==> self.up_to_date()
    }
}

/// The pipeline after a sequence of moves.
pub open spec fn play(moves: Seq<Move>) -> RelayView
    decreases moves.len(),
{
    if moves.len() == 0 {
        RelayView::empty()
    } else {
        play(moves.drop_last()).after(moves.last())
    }
}

/// A step keeps the invariant of the registry, whatever the actor.
pub proof fn lemma_step_keeps_wf(actor: ActorView, registry: RegistryView, input: InboundView)
    requires
        registry.wf(),
    ensures
        step_model(actor, registry, input).registry.wf(),
{
    let out = step_model(actor, registry, input);
    if out.registry == registry {
    } else if out.registry == registry.leave(actor.id) {
        lemma_leave_wf(registry, actor.id);
    } else {
        let name = out.actor.username.unwrap();
        lemma_join_wf(registry, name, actor.id);
    }
}

/// A step that announces nothing leaves the roster as it was and makes no
/// connection live.
pub proof fn lemma_silent_step_keeps_roster(
    actor: ActorView,
    registry: RegistryView,
    input: InboundView,
)
    requires
        registry.wf(),
        !(step_model(actor, registry, input).effect is Announce),
    ensures
        step_model(actor, registry, input).registry.roster() == registry.roster(),
        forall|id: ConnectionId| #[trigger]
            step_model(actor, registry, input).registry.is_live(id) ==> registry.is_live(id),
{
    let after = step_model(actor, registry, input).registry;
    if after != registry {
        assert(after == registry.leave(actor.id));
        assert(registry.name_of(actor.id) is None);
        assert forall|k: int| 0 <= k < registry.players.len() implies (other_owner(actor.id))(
            #[trigger] registry.players[k],
        ) by {
        }
        lemma_filter_keeps_all(registry.players, other_owner(actor.id));
        assert forall|id: ConnectionId| #[trigger] after.is_live(id) implies registry.is_live(
            id,
        ) by {
            registry.connections.lemma_filter_contains_rev(other_connection(actor.id), id);
        }
    }
}

/// One move keeps the invariant of the pipeline.
pub proof fn lemma_move_keeps_settled(r: RelayView, m: Move)
    requires
        r.settled(),
    ensures
        r.after(m).settled(),
{
    let next = r.after(m);
    match m {
        Move::Accept(id) => {
            if !r.registry.is_live(id) {
                lemma_connect_wf(r.registry, id);
                if r.queue.len() == 0 {
                    assert forall|c: ConnectionId| #[trigger]
                        next.registry.is_live(c) implies next.seen.dom().contains(c)
                        && next.seen[c] == next.registry.roster() by {
                        if c != id {
                            let k = choose|k: int|
                                0 <= k < next.registry.connections.len()
                                    && next.registry.connections[k] == c;
                            assert(r.registry.connections[k] == c);
                            assert(r.registry.is_live(c));
                        }
                    }
                }
            }
        },
        Move::Step(actor, input) => {
            lemma_step_keeps_wf(actor, r.registry, input);
            if next.queue.len() == 0 {
                lemma_silent_step_keeps_roster(actor, r.registry, input);
                assert forall|c: ConnectionId| #[trigger]
                    next.registry.is_live(c) implies next.seen.dom().contains(c) && next.seen[c]
                    == next.registry.roster() by {
                    assert(r.registry.is_live(c));
                }
            }
        },
        Move::Dispatch => {},
    }
}

/// Whatever is accepted, stepped and dispatched, and in whatever order:
/// whenever no event waits in the queue, the roster that each live
/// connection was sent last is the roster of the registry.
pub proof fn lemma_drained_queue_is_up_to_date(moves: Seq<Move>)
    ensures
        play(moves).settled(),
        play(moves).queue.len() == 0 ==> play(moves).up_to_date(),
    decreases moves.len(),
{
    if moves.len() > 0 {
        lemma_drained_queue_is_up_to_date(moves.drop_last());
        lemma_move_keeps_settled(play(moves.drop_last()), moves.last());
    }
}

} // verus!
