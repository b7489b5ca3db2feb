//! The connection registry: who is connected, under which identity, and as
//! which username.

use vstd::prelude::*;
use crate::codec::{encode_roster, name_views, roster_frame};
use crate::event::{BroadcastEvent, EventView};
use crate::frame::{Frame, FrameKind};
use crate::ids::{random_u32, ConnectionId};
use crate::model::{
    lemma_connect_wf, lemma_filter_keeps_all, lemma_filter_removes_one, lemma_join_wf,
    lemma_leave_wf, lemma_owner_at, other_connection, other_owner, JoinError, PlayerView,
    RegistryView,
};
use crate::username::Username;

verus! {

/// A registered connection: its identity and the handle through which
/// frames are queued for it.
pub struct Connection<H> {
    pub id: ConnectionId,
    pub handle: H,
}

/// A player: a username and the connection that owns it.
#[derive(Debug, PartialEq, Eq)]
pub struct Player {
    pub username: Username,
    pub id: ConnectionId,
}

impl View for Player {
    type V = PlayerView;

    open spec fn view(&self) -> PlayerView {
        PlayerView { name: self.username@, id: self.id }
    }
}

/// A frame to be queued on the handle of one connection.
#[derive(Debug, PartialEq, Eq)]
pub struct Delivery {
    pub to: ConnectionId,
    pub frame: Frame,
}

/// The registry. `H` is the type of the delivery handles; the registry
/// keeps them and never looks inside one.
pub struct ConnectionRegistry<H> {
    connections: Vec<Connection<H>>,
    players: Vec<Player>,
}

impl<H> View for ConnectionRegistry<H> {
    type V = RegistryView;

    closed spec fn view(&self) -> RegistryView {
        state_of(self.connections@, self.players@)
    }
}

/// The state that the two lists of a registry stand for.
spec fn state_of<H>(connections: Seq<Connection<H>>, players: Seq<Player>) -> RegistryView {
    RegistryView {
        connections: connections.map_values(|c: Connection<H>| c.id),
        players: players.map_values(|p: Player| p@),
    }
}

/// The handles that a list of connections holds, by identity.
spec fn handles_of<H>(connections: Seq<Connection<H>>) -> Map<ConnectionId, H> {
    let ids = connections.map_values(|c: Connection<H>| c.id);
    Map::new(
        |id: ConnectionId| ids.contains(id),
        |id: ConnectionId| connections[ids.index_of(id)].handle,
    )
}

/// In a sequence without duplicates an element is found where it stands.
proof fn lemma_index_of_unique<A>(s: Seq<A>, at: int)
    requires
        s.no_duplicates(),
        0 <= at < s.len(),
    ensures
        s.index_of(s[at]) == at,
{
}

impl<H> ConnectionRegistry<H> {
    /// The invariant of the type: the registry's state keeps its invariant.
    #[verifier::type_invariant]
    pub open spec fn inv(self) -> bool {
        self@.wf()
    }

    /// The handle of each live connection.
    pub closed spec fn handles(&self) -> Map<ConnectionId, H> {
        handles_of(self.connections@)
    }

    /// Takes the two lists out and leaves an empty registry behind.
    fn take_lists(&mut self) -> (r: (Vec<Connection<H>>, Vec<Player>))
        ensures
            r.0@ == old(self).connections@,
            r.1@ == old(self).players@,
            state_of(r.0@, r.1@) == old(self)@,
            state_of(r.0@, r.1@).wf(),
            handles_of(r.0@) == old(self).handles(),
            final(self)@ == RegistryView::empty(),
    {
        proof {
            use_type_invariant(&*self);
        }
        let mut taken = ConnectionRegistry { connections: Vec::new(), players: Vec::new() };
        assert(taken@.connections =~= Seq::empty());
        assert(taken@.players =~= Seq::empty());
        std::mem::swap(self, &mut taken);
        let ConnectionRegistry { connections, players } = taken;
        (connections, players)
    }

    /// A handle is kept for the live connections and for no other.
    pub proof fn lemma_handles_dom(&self)
        ensures
            forall|id: ConnectionId| self.handles().dom().contains(id) <==> self@.is_live(id),
    {
    }

    /// A registry without connections.
    pub fn new() -> (r: Self)
        ensures
            r@ == RegistryView::empty(),
            r@.wf(),
            r.handles() == Map::<ConnectionId, H>::empty(),
    {
        let r = ConnectionRegistry { connections: Vec::new(), players: Vec::new() };
        assert(r@.connections =~= Seq::empty());
        assert(r@.players =~= Seq::empty());
        assert(r.handles() =~= Map::<ConnectionId, H>::empty());
        r
    }

    fn find_connection(&self, id: ConnectionId) -> (r: Option<usize>)
        ensures
            match r {
                Some(i) => i < self.connections.len() && self@.connections[i as int] == id,
                None => !self@.is_live(id),
            },
    {
        let mut i: usize = 0;
        while i < self.connections.len()
            invariant
                i <= self.connections.len(),
                forall|k: int| 0 <= k < i ==> self@.connections[k] != id,
            decreases self.connections.len() - i,
        {
            if self.connections[i].id == id {
                return Some(i);
            }
            i += 1;
        }
        None
    }

    fn find_player_of(&self, id: ConnectionId) -> (r: Option<usize>)
        ensures
            match r {
                Some(i) => i < self.players.len() && self@.players[i as int].id == id,
                None => !self@.has_joined(id),
            },
    {
        let mut i: usize = 0;
        while i < self.players.len()
            invariant
                i <= self.players.len(),
                forall|k: int| 0 <= k < i ==> self@.players[k].id != id,
            decreases self.players.len() - i,
        {
            if self.players[i].id == id {
                return Some(i);
            }
            i += 1;
        }
        None
    }

    fn find_player_named(&self, name: &Username) -> (r: Option<usize>)
        ensures
            match r {
                Some(i) => i < self.players.len() && self@.players[i as int].name == name@,
                None => !self@.is_taken(name@),
            },
    {
        let mut i: usize = 0;
        while i < self.players.len()
            invariant
                i <= self.players.len(),
                forall|k: int| 0 <= k < i ==> self@.players[k].name != name@,
            decreases self.players.len() - i,
        {
            if self.players[i].username.same(name) {
                return Some(i);
            }
            i += 1;
        }
        None
    }

    /// Tells whether `id` is a registered connection.
    pub fn is_live(&self, id: ConnectionId) -> (r: bool)
        ensures
            r == self@.is_live(id),
    {
        self.find_connection(id).is_some()
    }

    /// Makes an identity of `candidate` unless a live connection has it.
    pub fn vet_connection_id(&self, candidate: u32) -> (r: Option<ConnectionId>)
        ensures
            r == self@.vet(candidate),
    {
        let id = ConnectionId(candidate);
        if self.is_live(id) {
            None
        } else {
            Some(id)
        }
    }

    /// Draws an identity at random: 32 bits are drawn, and the result is
    /// what vetting them gives. So it is `None` only where the draw is the
    /// identity of a live connection, and then the caller may draw again;
    /// while no connection is live every draw gives an identity.
    pub fn draw_connection_id(&self) -> (r: Option<ConnectionId>)
        ensures
            exists|candidate: u32| r == #[trigger] self@.vet(candidate),
            r matches Some(id) ==> !self@.is_live(id),
            self@.connections.len() == 0 ==> r is Some,
    {
        let candidate: u32 = random_u32();
        let r = self.vet_connection_id(candidate);
        assert(r == self@.vet(candidate));
        r
    }

    /// Registers a connection, before any username is known for it. The
    /// identity must not be that of a live connection.
    pub fn add_connection(&mut self, id: ConnectionId, handle: H)
        requires
            !old(self)@.is_live(id),
        ensures
            final(self)@ == old(self)@.connect(id),
            final(self)@.wf(),
            final(self).handles() == old(self).handles().insert(id, handle),
    {
        let ghost before = *self;
        let (mut connections, players) = self.take_lists();
        let ghost was = connections@;
        connections.push(Connection { id, handle });
        proof {
            let now = state_of(connections@, players@);
            lemma_connect_wf(before@, id);
            assert(now.connections =~= before@.connections.push(id));
            let last = before@.connections.len() as int;
            assert(now.connections[last] == id);
            assert forall|k: ConnectionId| #[trigger]
                handles_of(connections@).dom().contains(k) == before.handles().insert(
                    id,
                    handle,
                ).dom().contains(k) by {
                if before@.is_live(k) {
                    let at = before@.connections.index_of(k);
                    assert(now.connections[at] == k);
                }
                if now.is_live(k) && k != id {
                    let at = now.connections.index_of(k);
                    assert(before@.connections[at] == k);
                }
            }
            assert forall|k: ConnectionId| #[trigger]
                handles_of(connections@).dom().contains(k) implies handles_of(connections@)[k]
                == before.handles().insert(id, handle)[k] by {
                if k == id {
                    lemma_index_of_unique(now.connections, last);
                } else {
                    let at = now.connections.index_of(k);
                    assert(before@.connections[at] == k);
                    lemma_index_of_unique(before@.connections, at);
                    assert(connections@[at] == was[at]);
                }
            }
            assert(handles_of(connections@) =~= before.handles().insert(id, handle));
        }
        *self = ConnectionRegistry { connections, players };
    }

    /// Registers a connection unless its identity is that of a live one; the
    /// handle comes back in that case and nothing is changed.
    pub fn try_add_connection(&mut self, id: ConnectionId, handle: H) -> (r: Result<(), H>)
        ensures
            final(self)@.wf(),
            match r {
                Ok(_) => {
                    &&& !old(self)@.is_live(id)
                    &&& final(self)@ == old(self)@.connect(id)
                    &&& final(self).handles() == old(self).handles().insert(id, handle)
                },
                Err(returned) => {
                    &&& old(self)@.is_live(id)
                    &&& returned == handle
                    &&& final(self)@ == old(self)@
                    &&& final(self).handles() == old(self).handles()
                },
            },
    {
        proof {
            use_type_invariant(&*self);
        }
        if self.is_live(id) {
            Err(handle)
        } else {
            self.add_connection(id, handle);
            Ok(())
        }
    }

    /// Records that the connection `id` plays as `username`. On success the
    /// result is the one event to announce. A join is refused, and nothing
    /// is changed, where the connection is not registered, where it has
    /// joined already, or where another connection holds the username.
    pub fn add_player(&mut self, username: Username, id: ConnectionId) -> (r: Result<
        BroadcastEvent,
        JoinError,
    >)
        ensures
            final(self)@.wf(),
            final(self).handles() == old(self).handles(),
            match r {
                Ok(event) => {
                    &&& old(self)@.join_error(username@, id) is None
                    &&& final(self)@ == old(self)@.join(username@, id)
                    &&& event@ == EventView::PlayerJoined(username@)
                },
                Err(e) => {
                    &&& old(self)@.join_error(username@, id) == Some(e)
                    &&& final(self)@ == old(self)@
                },
            },
    {
        proof {
            use_type_invariant(&*self);
        }
        if self.find_connection(id).is_none() {
            return Err(JoinError::UnknownConnection);
        }
        if self.find_player_of(id).is_some() {
            return Err(JoinError::AlreadyJoined);
        }
        if self.find_player_named(&username).is_some() {
            return Err(JoinError::UsernameTaken);
        }
        let ghost before = *self;
        let event = BroadcastEvent::PlayerJoined(username.clone());
        proof {
            use_type_invariant(&username);
        }
        let (connections, mut players) = self.take_lists();
        players.push(Player { username, id });
        proof {
            let now = state_of(connections@, players@);
            assert(now.players =~= before@.players.push(PlayerView { name: username@, id }));
            lemma_join_wf(before@, username@, id);
        }
        *self = ConnectionRegistry { connections, players };
        Ok(event)
    }

    /// Removes the connection `id` and, if it had joined, its player. The
    /// result is the one event to announce, or `None` where no player was
    /// removed. Removing what is not registered changes nothing.
    pub fn remove_player(&mut self, id: ConnectionId) -> (r: Option<BroadcastEvent>)
        ensures
            final(self)@ == old(self)@.leave(id),
            final(self)@.wf(),
            final(self).handles() == old(self).handles().remove(id),
            match r {
                Some(event) => Some(event@) == match old(self)@.name_of(id) {
                    Some(name) => Some(EventView::PlayerLeft(name)),
                    None => None,
                },
                None => old(self)@.name_of(id) is None,
            },
    {
        let ghost before = *self;
        let at_connection = self.find_connection(id);
        let at_player = self.find_player_of(id);
        let (mut connections, mut players) = self.take_lists();
        let ghost was = connections@;
        proof {
            lemma_leave_wf(before@, id);
        }
        match at_connection {
            Some(i) => {
                let _ = connections.remove(i);
                proof {
                    let now = state_of(connections@, players@);
                    assert(now.connections =~= before@.connections.remove(i as int));
                    lemma_filter_removes_one(
                        before@.connections,
                        other_connection(id),
                        i as int,
                    );
                    assert forall|k: ConnectionId| #[trigger]
                        handles_of(connections@).dom().contains(k) implies handles_of(
                        connections@,
                    )[k] == before.handles()[k] by {
                        let at = now.connections.index_of(k);
                        let from = if at < i {
                            at
                        } else {
                            at + 1
                        };
                        assert(before@.connections[from] == k);
                        lemma_index_of_unique(before@.connections, from);
                        assert(connections@[at] == was[from]);
                    }
                    assert forall|k: ConnectionId| #[trigger]
                        handles_of(connections@).dom().contains(k) == before.handles().remove(
                            id,
                        ).dom().contains(k) by {
                        if before@.is_live(k) && k != id {
                            let from = before@.connections.index_of(k);
                            let at = if from < i {
                                from
                            } else {
                                from - 1
                            };
                            assert(now.connections[at] == k);
                        }
                        if now.is_live(k) {
                            let at = now.connections.index_of(k);
                            let from = if at < i {
                                at
                            } else {
                                at + 1
                            };
                            assert(before@.connections[from] == k);
                        }
                    }
                }
            },
            None => {
                proof {
                    assert forall|k: int| 0 <= k < before@.connections.len() implies (
                    other_connection(id))(#[trigger] before@.connections[k]) by {
                        assert(before@.connections.contains(before@.connections[k]));
                    }
                    lemma_filter_keeps_all(before@.connections, other_connection(id));
                }
            },
        }
        assert(handles_of(connections@) =~= before.handles().remove(id));
        assert(state_of(connections@, players@).connections == before@.leave(id).connections);
        let r = match at_player {
            Some(j) => {
                let player = players.remove(j);
                proof {
                    let now = state_of(connections@, players@);
                    assert(now.players =~= before@.players.remove(j as int));
                    lemma_filter_removes_one(before@.players, other_owner(id), j as int);
                    assert(before@.has_joined(id));
                    lemma_owner_at(before@, j as int);
                }
                Some(BroadcastEvent::PlayerLeft(player.username))
            },
            None => {
                proof {
                    assert forall|k: int| 0 <= k < before@.players.len() implies (other_owner(id))(
                        #[trigger] before@.players[k],
                    ) by {
                    }
                    lemma_filter_keeps_all(before@.players, other_owner(id));
                }
                None
            },
        };
        proof {
            assert(state_of(connections@, players@) == before@.leave(id));
        }
        *self = ConnectionRegistry { connections, players };
        r
    }

    /// The connection that owns `name`, if any.
    pub fn owner(&self, name: &Username) -> (r: Option<ConnectionId>)
        ensures
            r == self@.owner(name@),
    {
        proof {
            use_type_invariant(self);
        }
        match self.find_player_named(name) {
            Some(i) => Some(self.players[i].id),
            None => None,
        }
    }

    /// Routes a frame to the connection that owns `target`. Where no
    /// connection owns it the frame is dropped: the result is `None`.
    pub fn send_file(&self, target: &Username, frame: Frame) -> (r: Option<Delivery>)
        ensures
            r == match self@.owner(target@) {
                Some(to) => Some(Delivery { to, frame }),
                None => None,
            },
    {
        match self.owner(target) {
            Some(to) => Some(Delivery { to, frame }),
            None => None,
        }
    }

    /// The usernames of the players, in the order of their joins.
    pub fn roster(&self) -> (r: Vec<Username>)
        ensures
            name_views(r@) == self@.roster(),
    {
        let mut names: Vec<Username> = Vec::new();
        let mut i: usize = 0;
        while i < self.players.len()
            invariant
                i <= self.players.len(),
                names@.len() == i,
                forall|k: int| 0 <= k < i ==> (#[trigger] names@[k])@ == self@.players[k].name,
            decreases self.players.len() - i,
        {
            names.push(self.players[i].username.clone());
            i += 1;
        }
        assert(name_views(names@) =~= self@.roster());
        names
    }

    /// The roster as a frame, as a connection gets it first of all.
    pub fn get_list_message(&self) -> (r: Frame)
        ensures
            r.kind == FrameKind::Text,
            r.payload@ == roster_frame(self@.roster()),
    {
        let names = self.roster();
        Frame::text(encode_roster(&names))
    }

    /// The identities of the live connections, in the order in which they
    /// were registered.
    pub fn connection_ids(&self) -> (r: Vec<ConnectionId>)
        ensures
            r@ == self@.connections,
    {
        let mut ids: Vec<ConnectionId> = Vec::new();
        let mut i: usize = 0;
        while i < self.connections.len()
            invariant
                i <= self.connections.len(),
                ids@ == self@.connections.take(i as int),
            decreases self.connections.len() - i,
        {
            ids.push(self.connections[i].id);
            assert(ids@ =~= self@.connections.take(i + 1));
            i += 1;
        }
        assert(self@.connections.take(self.connections.len() as int) =~= self@.connections);
        ids
    }

    /// The handle of the connection `id`, if it is live.
    pub fn handle(&self, id: ConnectionId) -> (r: Option<&H>)
        ensures
            match r {
                Some(h) => self@.is_live(id) && *h == self.handles()[id],
                None => !self@.is_live(id),
            },
    {
        match self.find_connection(id) {
            Some(i) => {
                proof {
                    use_type_invariant(self);
                    lemma_index_of_unique(self@.connections, i as int);
                }
                Some(&self.connections[i].handle)
            },
            None => None,
        }
    }
}

} // verus!
