//! The connection actor: the protocol of one connection, as a state
//! machine. It waits for a join request, then relays file frames, and
//! leaves the registry when its channel fails or ends.

use vstd::prelude::*;
use crate::codec::{
    decode_file_message, decode_join, file_frame, file_frame_bytes, file_frame_name,
    is_file_frame, is_join_request, join_name, join_prefix, lemma_file_frame_decodes,
    roster_frame, PREFIX_LEN,
};
use crate::event::{BroadcastEvent, EventView};
use crate::frame::{Frame, FrameKind};
use crate::ids::ConnectionId;
use crate::ledger::{apply, Op};
use crate::model::{
    lemma_connect_wf, lemma_filter_index, lemma_join_wf, lemma_leave_once, lemma_leave_wf,
    lemma_owner_at,
    lemma_second_join_is_refused, other_connection, other_owner, RegistryView,
};
use crate::registry::{ConnectionRegistry, Delivery};
use crate::username::{valid_username, Username, MAX_USERNAME_LEN};

verus! {

/// The most bytes of a file that a player may address to its own username.
pub const MAX_FILE_BYTES: usize = 5_000_000;

/// The phase of a connection's protocol.
#[derive(Clone, Copy, Debug, PartialEq, Eq, Structural)]
pub enum Phase {
    /// Accepted, not yet registered.
    Connected,
    /// Registered; waiting for a join request.
    AwaitingJoin,
    /// Joined; relaying file frames.
    Relaying,
    /// Left the registry. Nothing follows.
    Closed,
}

/// What the channel of a connection yields.
#[derive(Debug, PartialEq, Eq)]
pub enum Inbound {
    /// A frame from the client.
    Frame(Frame),
    /// The channel failed.
    Failed,
    /// The stream of frames ended.
    Ended,
}

/// What the caller of a step has to do.
#[derive(Debug, PartialEq, Eq)]
pub enum Effect {
    /// Nothing.
    Nothing,
    /// Put the event on the dispatcher's queue.
    Announce(BroadcastEvent),
    /// Queue the frame on the handle of one connection.
    Deliver(Delivery),
}

/// What a channel yields, as a plain value.
pub enum InboundView {
    Frame(FrameKind, Seq<u8>),
    Failed,
    Ended,
}

/// An effect as a plain value.
pub enum EffectView {
    Nothing,
    Announce(EventView),
    Deliver(ConnectionId, FrameKind, Seq<u8>),
}

/// An actor as a plain value. The username is that of the session: `None`
/// before a join, and after a join without a name.
pub struct ActorView {
    pub id: ConnectionId,
    pub phase: Phase,
    pub username: Option<Seq<u8>>,
}

/// What a step leaves behind: the actor, the registry, and the effect.
pub struct Outcome {
    pub actor: ActorView,
    pub registry: RegistryView,
    pub effect: EffectView,
}

impl View for Inbound {
    type V = InboundView;

    open spec fn view(&self) -> InboundView {
        match self {
            Inbound::Frame(frame) => InboundView::Frame(frame.kind, frame.payload@),
            Inbound::Failed => InboundView::Failed,
            Inbound::Ended => InboundView::Ended,
        }
    }
}

impl View for Effect {
    type V = EffectView;

    open spec fn view(&self) -> EffectView {
        match self {
            Effect::Nothing => EffectView::Nothing,
            Effect::Announce(event) => EffectView::Announce(event@),
            Effect::Deliver(d) => EffectView::Deliver(d.to, d.frame.kind, d.frame.payload@),
        }
    }
}

/// A step that changes nothing.
pub open spec fn unchanged(actor: ActorView, registry: RegistryView) -> Outcome {
    Outcome { actor, registry, effect: EffectView::Nothing }
}

/// The step of an actor that waits for a join request, on a frame.
///
/// A text frame that is a join request counts; every other frame is
/// ignored. A request for a name of more than thirteen bytes is ignored
/// too, and so is one that the registry refuses: the actor keeps waiting.
/// A request without a name starts the relay without a player. Any other
/// request records the player and announces it.
pub open spec fn join_step(
    actor: ActorView,
    registry: RegistryView,
    kind: FrameKind,
    payload: Seq<u8>,
) -> Outcome {
    if kind != FrameKind::Text || !is_join_request(payload) {
        unchanged(actor, registry)
    } else {
        let name = join_name(payload);
        if name.len() > MAX_USERNAME_LEN {
            unchanged(actor, registry)
        } else if name.len() == 0 {
            Outcome {
                actor: ActorView { id: actor.id, phase: Phase::Relaying, username: None },
                registry,
                effect: EffectView::Nothing,
            }
        } else if registry.join_error(name, actor.id) is Some {
            unchanged(actor, registry)
        } else {
            Outcome {
                actor: ActorView { id: actor.id, phase: Phase::Relaying, username: Some(name) },
                registry: registry.join(name, actor.id),
                effect: EffectView::Announce(EventView::PlayerJoined(name)),
            }
        }
    }
}

/// Whether a file relay frame is over the cap: it carries the session's own
/// username and more than five million bytes of file.
pub open spec fn over_cap(actor: ActorView, payload: Seq<u8>) -> bool {
    &&& file_frame_bytes(payload).len() > MAX_FILE_BYTES
    &&& actor.username == Some(file_frame_name(payload))
}

/// The step of a relaying actor, on a frame.
///
/// A binary frame that is a file relay frame counts; every other frame is
/// ignored. A frame over the cap is dropped. Any other goes, as it came,
/// to the connection that owns the username in it; where none does, it is
/// dropped.
pub open spec fn relay_step(
    actor: ActorView,
    registry: RegistryView,
    kind: FrameKind,
    payload: Seq<u8>,
) -> Outcome {
    if kind != FrameKind::Binary || !is_file_frame(payload) || over_cap(actor, payload) {
        unchanged(actor, registry)
    } else {
        match registry.owner(file_frame_name(payload)) {
            Some(to) => Outcome {
                actor,
                registry,
                effect: EffectView::Deliver(to, FrameKind::Binary, payload),
            },
            None => unchanged(actor, registry),
        }
    }
}

/// The step of a registered actor whose channel failed or ended: the
/// connection leaves the registry, with its player if it had one, and the
/// leave of a player is announced.
pub open spec fn close_step(actor: ActorView, registry: RegistryView) -> Outcome {
    Outcome {
        actor: ActorView { id: actor.id, phase: Phase::Closed, username: actor.username },
        registry: registry.leave(actor.id),
        effect: match registry.name_of(actor.id) {
            Some(name) => EffectView::Announce(EventView::PlayerLeft(name)),
            None => EffectView::Nothing,
        },
    }
}

/// One step of the protocol: from the actor, the registry and what the
/// channel yielded to what they are afterwards and what is to be done.
pub open spec fn step_model(
    actor: ActorView,
    registry: RegistryView,
    input: InboundView,
) -> Outcome {
    match actor.phase {
        Phase::Closed => unchanged(actor, registry),
        Phase::Connected => match input {
            InboundView::Frame(_, _) => unchanged(actor, registry),
            _ => unchanged(
                ActorView { id: actor.id, phase: Phase::Closed, username: actor.username },
                registry,
            ),
        },
        Phase::AwaitingJoin => match input {
            InboundView::Frame(kind, payload) => join_step(actor, registry, kind, payload),
            _ => close_step(actor, registry),
        },
        Phase::Relaying => match input {
            InboundView::Frame(kind, payload) => relay_step(actor, registry, kind, payload),
            _ => close_step(actor, registry),
        },
    }
}

/// The handles of the registry after a step: those before it, without the
/// actor's own where the step closed a registered actor.
pub open spec fn handles_after<H>(
    actor: ActorView,
    input: InboundView,
    handles: Map<ConnectionId, H>,
) -> Map<ConnectionId, H> {
    if (actor.phase == Phase::AwaitingJoin || actor.phase == Phase::Relaying) && !(input is Frame) {
        handles.remove(actor.id)
    } else {
        handles
    }
}

/// The actor of one connection.
#[derive(Debug)]
pub struct ConnectionActor {
    id: ConnectionId,
    phase: Phase,
    username: Option<Username>,
}

impl View for ConnectionActor {
    type V = ActorView;

    closed spec fn view(&self) -> ActorView {
        ActorView {
            id: self.id,
            phase: self.phase,
            username: match self.username {
                Some(name) => Some(name@),
                None => None,
            },
        }
    }
}

impl ConnectionActor {
    /// The actor of a connection that was accepted under `id`.
    pub fn new(id: ConnectionId) -> (r: Self)
        ensures
            r@ == (ActorView { id, phase: Phase::Connected, username: None }),
    {
        ConnectionActor { id, phase: Phase::Connected, username: None }
    }

    /// The identity of the connection.
    pub fn id(&self) -> (r: ConnectionId)
        ensures
            r == self@.id,
    {
        self.id
    }

    /// The phase of the protocol.
    pub fn phase(&self) -> (r: Phase)
        ensures
            r == self@.phase,
    {
        self.phase
    }

    /// The username of the session, if it has one.
    pub fn username(&self) -> (r: Option<&Username>)
        ensures
            match r {
                Some(name) => self@.username == Some(name@),
                None => self@.username is None,
            },
    {
        match &self.username {
            Some(name) => Some(name),
            None => None,
        }
    }

    /// Registers the connection and starts to wait for a join request. The
    /// result is the roster frame, which the connection gets before
    /// anything else. Where the actor has started before, or a live
    /// connection has its identity, nothing is changed and the handle
    /// comes back.
    pub fn start<H>(&mut self, registry: &mut ConnectionRegistry<H>, handle: H) -> (r: Result<
        Frame,
        H,
    >)
        ensures
            final(registry)@.wf(),
            match r {
                Ok(frame) => {
                    &&& old(self)@.phase == Phase::Connected
                    &&& !old(registry)@.is_live(old(self)@.id)
                    &&& final(self)@ == (ActorView {
                        id: old(self)@.id,
                        phase: Phase::AwaitingJoin,
                        username: old(self)@.username,
                    })
                    &&& final(registry)@ == old(registry)@.connect(old(self)@.id)
                    &&& final(registry).handles() == old(registry).handles().insert(
                        old(self)@.id,
                        handle,
                    )
                    &&& frame.kind == FrameKind::Text
                    &&& frame.payload@ == roster_frame(old(registry)@.roster())
                },
                Err(returned) => {
                    &&& old(self)@.phase != Phase::Connected || old(registry)@.is_live(
                        old(self)@.id,
                    )
                    &&& returned == handle
                    &&& final(self)@ == old(self)@
                    &&& final(registry)@ == old(registry)@
                    &&& final(registry).handles() == old(registry).handles()
                },
            },
    {
        proof {
            use_type_invariant(&*registry);
        }
        match self.phase {
            Phase::Connected => {},
            _ => {
                return Err(handle);
            },
        }
        let frame = registry.get_list_message();
        match registry.try_add_connection(self.id, handle) {
            Ok(_) => {
                self.phase = Phase::AwaitingJoin;
                Ok(frame)
            },
            Err(returned) => Err(returned),
        }
    }

    /// Takes a frame while waiting for a join request.
    fn on_join_frame<H>(&mut self, registry: &mut ConnectionRegistry<H>, frame: Frame) -> (effect:
        Effect)
        requires
            old(self)@.phase == Phase::AwaitingJoin,
        ensures
            final(registry)@.wf(),
            final(registry).handles() == old(registry).handles(),
            (Outcome { actor: final(self)@, registry: final(registry)@, effect: effect@ })
                == join_step(old(self)@, old(registry)@, frame.kind, frame.payload@),
    {
        proof {
            use_type_invariant(&*registry);
        }
        match frame.kind {
            FrameKind::Text => {},
            _ => {
                return Effect::Nothing;
            },
        }
        let requested = match decode_join(&frame.payload) {
            Some(requested) => requested,
            None => {
                return Effect::Nothing;
            },
        };
        if requested.len() > MAX_USERNAME_LEN {
            return Effect::Nothing;
        }
        if requested.len() == 0 {
            self.phase = Phase::Relaying;
            self.username = None;
            return Effect::Nothing;
        }
        let name = match Username::new(requested) {
            Some(name) => name,
            None => {
                return Effect::Nothing;
            },
        };
        match registry.add_player(name.clone(), self.id) {
            Ok(event) => {
                self.phase = Phase::Relaying;
                self.username = Some(name);
                Effect::Announce(event)
            },
            Err(_) => Effect::Nothing,
        }
    }

    /// Takes a frame while relaying.
    fn on_relay_frame<H>(&self, registry: &ConnectionRegistry<H>, frame: Frame) -> (effect: Effect)
        requires
            self@.phase == Phase::Relaying,
        ensures
            (Outcome { actor: self@, registry: registry@, effect: effect@ }) == relay_step(
                self@,
                registry@,
                frame.kind,
                frame.payload@,
            ),
    {
        match frame.kind {
            FrameKind::Binary => {},
            _ => {
                return Effect::Nothing;
            },
        }
        let msg = match decode_file_message(&frame.payload) {
            Some(msg) => msg,
            None => {
                return Effect::Nothing;
            },
        };
        let own = match &self.username {
            Some(name) => name.same(&msg.username),
            None => false,
        };
        if msg.file_bytes.len() > MAX_FILE_BYTES && own {
            return Effect::Nothing;
        }
        match registry.send_file(&msg.username, frame) {
            Some(delivery) => Effect::Deliver(delivery),
            None => Effect::Nothing,
        }
    }

    /// Leaves the registry.
    fn close<H>(&mut self, registry: &mut ConnectionRegistry<H>) -> (effect: Effect)
        ensures
            final(registry)@.wf(),
            final(registry).handles() == old(registry).handles().remove(old(self)@.id),
            (Outcome { actor: final(self)@, registry: final(registry)@, effect: effect@ })
                == close_step(old(self)@, old(registry)@),
    {
        self.phase = Phase::Closed;
        match registry.remove_player(self.id) {
            Some(event) => Effect::Announce(event),
            None => Effect::Nothing,
        }
    }

    /// One step of the protocol, on what the channel yielded.
    ///
    /// While waiting for a join request, a well-formed request for a free
    /// username of at most thirteen bytes makes the connection a player;
    /// every other frame is ignored and the actor keeps waiting. While
    /// relaying, a file relay frame goes to the connection that owns the
    /// username in it, unless it is over the cap or nobody owns that
    /// username; every other frame is ignored. When the channel fails or
    /// ends, the connection leaves the registry, once, and the actor is
    /// closed for good.
    pub fn step<H>(&mut self, registry: &mut ConnectionRegistry<H>, input: Inbound) -> (effect:
        Effect)
        ensures
            final(registry)@.wf(),
            (Outcome { actor: final(self)@, registry: final(registry)@, effect: effect@ })
                == step_model(old(self)@, old(registry)@, input@),
            final(registry).handles() == handles_after(
                old(self)@,
                input@,
                old(registry).handles(),
            ),
    {
        proof {
            use_type_invariant(&*registry);
        }
        match self.phase {
            Phase::Closed => Effect::Nothing,
            Phase::Connected => {
                match input {
                    Inbound::Frame(_) => {},
                    _ => {
                        self.phase = Phase::Closed;
                    },
                }
                Effect::Nothing
            },
            Phase::AwaitingJoin => match input {
                Inbound::Frame(frame) => self.on_join_frame(registry, frame),
                _ => self.close(registry),
            },
            Phase::Relaying => match input {
                Inbound::Frame(frame) => self.on_relay_frame(registry, frame),
                _ => self.close(registry),
            },
        }
    }
}

/// The request to join as `name`.
pub open spec fn join_request(name: Seq<u8>) -> InboundView {
    InboundView::Frame(FrameKind::Text, join_prefix() + name)
}

/// Whether the actor and the registry agree: a registered actor's
/// connection is live, and the registry has it own the username of the
/// session and no other.
pub open spec fn in_step(actor: ActorView, registry: RegistryView) -> bool {
    match actor.phase {
        Phase::Connected => actor.username is None,
        Phase::AwaitingJoin => {
            &&& registry.is_live(actor.id)
            &&& !registry.has_joined(actor.id)
            &&& actor.username is None
        },
        Phase::Relaying => {
            &&& registry.is_live(actor.id)
            &&& registry.name_of(actor.id) == actor.username
        },
        Phase::Closed => true,
    }
}

/// A request to join under a name of more than thirteen bytes records no
/// player and closes nothing: the actor and the registry are as before, and
/// whatever the channel yields next is taken as if the request had never
/// come.
pub proof fn lemma_long_join_is_ignored(
    actor: ActorView,
    registry: RegistryView,
    name: Seq<u8>,
    next: InboundView,
)
    requires
        actor.phase == Phase::AwaitingJoin,
        name.len() > MAX_USERNAME_LEN,
    ensures
        step_model(actor, registry, join_request(name)) == unchanged(actor, registry),
        step_model(
            step_model(actor, registry, join_request(name)).actor,
            step_model(actor, registry, join_request(name)).registry,
            next,
        ) == step_model(actor, registry, next),
{
    let text = join_prefix() + name;
    assert(join_name(text) =~= name);
}

/// A waiting actor that asks for a valid username which the registry does
/// not refuse becomes its player: the record is made, the join is
/// announced, once, and the relay starts.
pub proof fn lemma_join_is_accepted(actor: ActorView, registry: RegistryView, name: Seq<u8>)
    requires
        actor.phase == Phase::AwaitingJoin,
        valid_username(name),
        registry.join_error(name, actor.id) is None,
    ensures
        step_model(actor, registry, join_request(name)) == (Outcome {
            actor: ActorView { id: actor.id, phase: Phase::Relaying, username: Some(name) },
            registry: registry.join(name, actor.id),
            effect: EffectView::Announce(EventView::PlayerJoined(name)),
        }),
{
    let text = join_prefix() + name;
    assert(text.subrange(0, PREFIX_LEN as int) =~= join_prefix());
    assert(join_name(text) =~= name);
}

/// Two waiting connections ask for one free username: the one whose request
/// is taken first becomes the player, the other is refused and keeps
/// waiting, and the registry is as if the second request had never come.
pub proof fn lemma_same_name_race(
    first: ActorView,
    second: ActorView,
    registry: RegistryView,
    name: Seq<u8>,
)
    requires
        registry.wf(),
        in_step(first, registry),
        in_step(second, registry),
        first.phase == Phase::AwaitingJoin,
        second.phase == Phase::AwaitingJoin,
        first.id != second.id,
        valid_username(name),
        !registry.is_taken(name),
    ensures
        ({
            let won = step_model(first, registry, join_request(name));
            let lost = step_model(second, won.registry, join_request(name));
            &&& won.actor.phase == Phase::Relaying
            &&& won.actor.username == Some(name)
            &&& won.registry == registry.join(name, first.id)
            &&& lost == unchanged(second, won.registry)
            &&& lost.registry.owner(name) == Some(first.id)
            &&& lost.registry.wf()
        }),
{
    let text = join_prefix() + name;
    assert(text.subrange(0, PREFIX_LEN as int) =~= join_prefix());
    assert(join_name(text) =~= name);
    lemma_join_is_accepted(first, registry, name);
    lemma_second_join_is_refused(registry, name, first.id, second.id);
    let won = registry.join(name, first.id);
    assert(won.connections == registry.connections);
}

/// A frame for a username that nobody holds is delivered nowhere, and the
/// actor that relayed it goes on as before.
pub proof fn lemma_unrouted_frame_is_dropped(
    actor: ActorView,
    registry: RegistryView,
    payload: Seq<u8>,
)
    requires
        actor.phase == Phase::Relaying,
        !registry.is_taken(file_frame_name(payload)),
    ensures
        step_model(actor, registry, InboundView::Frame(FrameKind::Binary, payload)) == unchanged(
            actor,
            registry,
        ),
{
}

/// The cap is exact. A relaying player sends a file under its own username:
/// with five million bytes or fewer the frame goes to the connection that
/// owns the username, as it came; with one byte more it is dropped.
pub proof fn lemma_cap_is_exact(
    actor: ActorView,
    registry: RegistryView,
    name: Seq<u8>,
    file_bytes: Seq<u8>,
    to: ConnectionId,
)
    requires
        actor.phase == Phase::Relaying,
        actor.username == Some(name),
        valid_username(name),
        registry.owner(name) == Some(to),
    ensures
        step_model(
            actor,
            registry,
            InboundView::Frame(FrameKind::Binary, file_frame(name, file_bytes)),
        ) == (Outcome {
            actor,
            registry,
            effect: if file_bytes.len() <= MAX_FILE_BYTES {
                EffectView::Deliver(to, FrameKind::Binary, file_frame(name, file_bytes))
            } else {
                EffectView::Nothing
            },
        }),
{
    lemma_file_frame_decodes(name, file_bytes);
}

/// A closed actor stays closed: whatever its channel yields, nothing is
/// changed and nothing is to be done. So a connection leaves the registry
/// once.
pub proof fn lemma_closed_is_final(actor: ActorView, registry: RegistryView, input: InboundView)
    requires
        actor.phase == Phase::Closed,
    ensures
        step_model(actor, registry, input) == unchanged(actor, registry),
{
}

/// When the channel of a registered actor fails or ends, its connection
/// and its player are gone from the registry. Where the actor and the
/// registry agreed, the leave is announced exactly when the session had a
/// username, and under that username.
pub proof fn lemma_close_leaves(actor: ActorView, registry: RegistryView, input: InboundView)
    requires
        registry.wf(),
        in_step(actor, registry),
        actor.phase == Phase::AwaitingJoin || actor.phase == Phase::Relaying,
        !(input is Frame),
    ensures
        ({
            let out = step_model(actor, registry, input);
            &&& out.actor.phase == Phase::Closed
            &&& !out.registry.is_live(actor.id)
            &&& !out.registry.has_joined(actor.id)
            &&& out.effect == match actor.username {
                Some(name) => EffectView::Announce(EventView::PlayerLeft(name)),
                None => EffectView::Nothing,
            }
        }),
{
    lemma_leave_once(registry, actor.id);
}

/// A step keeps the registry's invariant, keeps the actor that took it in
/// agreement with the registry, and keeps every actor of another
/// connection in agreement too.
pub proof fn lemma_step_keeps_agreement(
    actor: ActorView,
    other: ActorView,
    registry: RegistryView,
    input: InboundView,
)
    requires
        registry.wf(),
        in_step(actor, registry),
        in_step(other, registry),
        actor.id != other.id,
    ensures
        step_model(actor, registry, input).registry.wf(),
        in_step(
            step_model(actor, registry, input).actor,
            step_model(actor, registry, input).registry,
        ),
        in_step(other, step_model(actor, registry, input).registry),
{
    let out = step_model(actor, registry, input);
    let after = out.registry;
    if after == registry {
    } else if after == registry.leave(actor.id) && out.actor.phase == Phase::Closed {
        lemma_leave_wf(registry, actor.id);
        lemma_other_survives_leave(registry, actor.id, other.id);
    } else {
        let name = out.actor.username.unwrap();
        assert(after == registry.join(name, actor.id));
        lemma_join_wf(registry, name, actor.id);
        let last = registry.players.len() as int;
        assert(after.players[last].id == actor.id);
        lemma_owner_at(after, last);
        assert(after.connections == registry.connections);
        if registry.has_joined(other.id) {
            let k = choose|k: int|
                0 <= k < registry.players.len() && (#[trigger] registry.players[k]).id == other.id;
            lemma_owner_at(registry, k);
            assert(after.players[k] == registry.players[k]);
            lemma_owner_at(after, k);
        } else if after.has_joined(other.id) {
            let k = choose|k: int|
                0 <= k < after.players.len() && (#[trigger] after.players[k]).id == other.id;
            assert(registry.players[k].id == other.id);
        }
    }
}

/// The request that a step makes of the registry, if it makes one: the
/// join that it announces, or the leave of a registered actor whose channel
/// failed or ended.
pub open spec fn request_of(actor: ActorView, registry: RegistryView, input: InboundView) -> Option<
    Op,
> {
    match step_model(actor, registry, input).effect {
        EffectView::Announce(EventView::PlayerJoined(name)) => Some(Op::Join(name, actor.id)),
        _ => if (actor.phase == Phase::AwaitingJoin || actor.phase == Phase::Relaying) && !(input
            is Frame) {
            Some(Op::Leave(actor.id))
        } else {
            None
        },
    }
}

/// A step does to the registry what its one request does, and nothing
/// where it makes none. So the registry of any number of actors, after any
/// steps in any order, is the registry after a sequence of requests.
pub proof fn lemma_step_is_a_request(actor: ActorView, registry: RegistryView, input: InboundView)
    ensures
        step_model(actor, registry, input).registry == match request_of(actor, registry, input) {
            Some(op) => apply(registry, op),
            None => registry,
        },
{
}

/// Registering a new connection puts its actor in agreement with the
/// registry and keeps every other actor in agreement.
pub proof fn lemma_start_keeps_agreement(other: ActorView, registry: RegistryView, id: ConnectionId)
    requires
        registry.wf(),
        !registry.is_live(id),
        in_step(other, registry),
    ensures
        registry.connect(id).wf(),
        in_step(
            ActorView { id, phase: Phase::AwaitingJoin, username: None },
            registry.connect(id),
        ),
        in_step(other, registry.connect(id)),
{
    let after = registry.connect(id);
    lemma_connect_wf(registry, id);
    assert(after.connections[registry.connections.len() as int] == id);
    if after.has_joined(id) {
        let k = choose|k: int|
            0 <= k < after.players.len() && (#[trigger] after.players[k]).id == id;
        assert(registry.is_live(registry.players[k].id));
    }
    if registry.is_live(other.id) {
        let k = choose|k: int|
            0 <= k < registry.connections.len() && registry.connections[k] == other.id;
        assert(after.connections[k] == other.id);
    }
    assert(after.players == registry.players);
    assert(after.has_joined(other.id) == registry.has_joined(other.id));
    assert(after.name_of(other.id) == registry.name_of(other.id));
}

/// Removing one connection leaves every other as it was: live if it was
/// live, and with the username it had.
pub proof fn lemma_other_survives_leave(v: RegistryView, gone: ConnectionId, other: ConnectionId)
    requires
        v.wf(),
        gone != other,
    ensures
        v.leave(gone).is_live(other) == v.is_live(other),
        v.leave(gone).has_joined(other) == v.has_joined(other),
        v.leave(gone).name_of(other) == v.name_of(other),
{
    let w = v.leave(gone);
    lemma_leave_wf(v, gone);
    if v.is_live(other) {
        let k = choose|k: int| 0 <= k < v.connections.len() && v.connections[k] == other;
        v.connections.lemma_filter_contains(other_connection(gone), k);
    }
    if w.is_live(other) {
        v.connections.lemma_filter_contains_rev(other_connection(gone), other);
    }
    if v.has_joined(other) {
        let k = choose|k: int| 0 <= k < v.players.len() && (#[trigger] v.players[k]).id == other;
        lemma_owner_at(v, k);
        v.players.lemma_filter_contains(other_owner(gone), k);
        let at = choose|at: int| 0 <= at < w.players.len() && w.players[at] == v.players[k];
        lemma_owner_at(w, at);
    }
    if w.has_joined(other) {
        let at = choose|at: int|
            0 <= at < w.players.len() && (#[trigger] w.players[at]).id == other;
        let k = lemma_filter_index(v.players, other_owner(gone), at);
        lemma_owner_at(v, k);
        lemma_owner_at(w, at);
    }
}

} // verus!
