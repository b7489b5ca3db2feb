//! The registry as a mathematical value, and its three transitions.

use vstd::prelude::*;
use crate::ids::ConnectionId;
use crate::username::valid_username;

verus! {

/// A player record: a username and the connection that owns it.
pub struct PlayerView {
    pub name: Seq<u8>,
    pub id: ConnectionId,
}

/// Why a join was refused.
#[derive(Clone, Copy, Debug, PartialEq, Eq, Structural)]
pub enum JoinError {
    /// The connection is not registered.
    UnknownConnection,
    /// The connection already owns a username.
    AlreadyJoined,
    /// Another connection owns the username.
    UsernameTaken,
}

/// The state of a registry: the live connections in the order in which they
/// were registered, and the players in the order in which they joined.
pub struct RegistryView {
    pub connections: Seq<ConnectionId>,
    pub players: Seq<PlayerView>,
}

/// The test that every connection but `id` passes.
pub open spec fn other_connection(id: ConnectionId) -> spec_fn(ConnectionId) -> bool {
    |c: ConnectionId| c != id
}

/// The test that every player passes but the one that `id` owns.
pub open spec fn other_owner(id: ConnectionId) -> spec_fn(PlayerView) -> bool {
    |p: PlayerView| p.id != id
}

impl RegistryView {
    /// The registry without connections.
    pub open spec fn empty() -> RegistryView {
        RegistryView { connections: Seq::empty(), players: Seq::empty() }
    }

    /// Whether `id` is a registered connection.
    pub open spec fn is_live(self, id: ConnectionId) -> bool {
        self.connections.contains(id)
    }

    /// The identity that a draw of 32 bits gives: the draw itself, unless a
    /// live connection has it.
    pub open spec fn vet(self, candidate: u32) -> Option<ConnectionId> {
        if self.is_live(ConnectionId(candidate)) {
            None
        } else {
            Some(ConnectionId(candidate))
        }
    }

    /// Whether a player holds the username `name`.
    pub open spec fn is_taken(self, name: Seq<u8>) -> bool {
        exists|i: int| 0 <= i < self.players.len() && (#[trigger] self.players[i]).name == name
    }

    /// Whether the connection `id` owns a username.
    pub open spec fn has_joined(self, id: ConnectionId) -> bool {
        exists|i: int| 0 <= i < self.players.len() && (#[trigger] self.players[i]).id == id
    }

    /// The connection that owns `name`, if a player holds it.
    pub open spec fn owner(self, name: Seq<u8>) -> Option<ConnectionId> {
        if self.is_taken(name) {
            let i = choose|i: int|
                0 <= i < self.players.len() && (#[trigger] self.players[i]).name == name;
            Some(self.players[i].id)
        } else {
            None
        }
    }

    /// The username that the connection `id` owns, if it has joined.
    pub open spec fn name_of(self, id: ConnectionId) -> Option<Seq<u8>> {
        if self.has_joined(id) {
            let i = choose|i: int|
                0 <= i < self.players.len() && (#[trigger] self.players[i]).id == id;
            Some(self.players[i].name)
        } else {
            None
        }
    }

    /// The roster: the usernames of the players, in the order of their joins.
    pub open spec fn roster(self) -> Seq<Seq<u8>> {
        self.players.map_values(|p: PlayerView| p.name)
    }

    /// The invariant of a registry: no connection is registered twice, no
    /// username is held twice, no connection owns two usernames, every
    /// player's connection is live and every username is valid.
    pub open spec fn wf(self) -> bool {
        &&& self.connections.no_duplicates()
        &&& forall|i: int, j: int|
            0 <= i < self.players.len() && 0 <= j < self.players.len() && i != j ==> (
            #[trigger] self.players[i]).name != (#[trigger] self.players[j]).name
        &&& forall|i: int, j: int|
            0 <= i < self.players.len() && 0 <= j < self.players.len() && i != j ==> (
            #[trigger] self.players[i]).id != (#[trigger] self.players[j]).id
        &&& forall|i: int|
            0 <= i < self.players.len() ==> self.is_live((#[trigger] self.players[i]).id)
                && valid_username(self.players[i].name)
    }

    /// The registry after the connection `id` was registered.
    pub open spec fn connect(self, id: ConnectionId) -> RegistryView {
        RegistryView { connections: self.connections.push(id), players: self.players }
    }

    /// Why the connection `id` may not join as `name`, or `None` where it
    /// may.
    pub open spec fn join_error(self, name: Seq<u8>, id: ConnectionId) -> Option<JoinError> {
        if !self.is_live(id) {
            Some(JoinError::UnknownConnection)
        } else if self.has_joined(id) {
            Some(JoinError::AlreadyJoined)
        } else if self.is_taken(name) {
            Some(JoinError::UsernameTaken)
        } else {
            None
        }
    }

    /// The registry after the connection `id` joined as `name`.
    pub open spec fn join(self, name: Seq<u8>, id: ConnectionId) -> RegistryView {
        RegistryView {
            connections: self.connections,
            players: self.players.push(PlayerView { name, id }),
        }
    }

    /// The registry after the connection `id` was removed, with the player
    /// it owned.
    pub open spec fn leave(self, id: ConnectionId) -> RegistryView {
        RegistryView {
            connections: self.connections.filter(other_connection(id)),
            players: self.players.filter(other_owner(id)),
        }
    }
}

/// A filter that every element passes keeps the sequence.
pub proof fn lemma_filter_keeps_all<A>(s: Seq<A>, pred: spec_fn(A) -> bool)
    requires
        forall|i: int| 0 <= i < s.len() ==> pred(#[trigger] s[i]),
    ensures
        s.filter(pred) == s,
    decreases s.len(),
{
    reveal(Seq::filter);
    if s.len() > 0 {
        let front = s.drop_last();
        assert forall|i: int| 0 <= i < front.len() implies pred(#[trigger] front[i]) by {
            assert(front[i] == s[i]);
        }
        lemma_filter_keeps_all(front, pred);
        assert(front.push(s.last()) =~= s);
    }
}

/// A filter that one element alone fails removes that element.
pub proof fn lemma_filter_removes_one<A>(s: Seq<A>, pred: spec_fn(A) -> bool, at: int)
    requires
        0 <= at < s.len(),
        forall|i: int| 0 <= i < s.len() ==> (pred(#[trigger] s[i]) <==> i != at),
    ensures
        s.filter(pred) == s.remove(at),
    decreases s.len(),
{
    reveal(Seq::filter);
    let front = s.drop_last();
    if at == s.len() - 1 {
        assert forall|i: int| 0 <= i < front.len() implies pred(#[trigger] front[i]) by {
            assert(front[i] == s[i]);
        }
        lemma_filter_keeps_all(front, pred);
        assert(front =~= s.remove(at));
    } else {
        assert forall|i: int| 0 <= i < front.len() implies (pred(#[trigger] front[i]) <==> i
            != at) by {
            assert(front[i] == s[i]);
        }
        lemma_filter_removes_one(front, pred, at);
        assert(front.remove(at).push(s.last()) =~= s.remove(at));
    }
}

/// What passes a filter was in the sequence, and passes; the order is kept.
pub proof fn lemma_filter_index<A>(s: Seq<A>, pred: spec_fn(A) -> bool, i: int) -> (k: int)
    requires
        0 <= i < s.filter(pred).len(),
    ensures
        0 <= k < s.len(),
        i <= k,
        s[k] == s.filter(pred)[i],
        pred(s[k]),
    decreases s.len(),
{
    reveal(Seq::filter);
    let front = s.drop_last();
    if pred(s.last()) && i == front.filter(pred).len() {
        s.len() - 1
    } else {
        lemma_filter_index(front, pred, i)
    }
}

/// Two places of a filtered sequence come from two places of the sequence,
/// in the same order.
pub proof fn lemma_filter_indices<A>(s: Seq<A>, pred: spec_fn(A) -> bool, i: int, j: int) -> (k:
    (int, int))
    requires
        0 <= i < j < s.filter(pred).len(),
    ensures
        0 <= k.0 < k.1 < s.len(),
        s[k.0] == s.filter(pred)[i],
        s[k.1] == s.filter(pred)[j],
    decreases s.len(),
{
    reveal(Seq::filter);
    let front = s.drop_last();
    if pred(s.last()) && j == front.filter(pred).len() {
        let a = lemma_filter_index(front, pred, i);
        (a, s.len() - 1)
    } else {
        lemma_filter_indices(front, pred, i, j)
    }
}

/// Registering a new connection keeps the invariant.
pub proof fn lemma_connect_wf(v: RegistryView, id: ConnectionId)
    requires
        v.wf(),
        !v.is_live(id),
    ensures
        v.connect(id).wf(),
{
    let w = v.connect(id);
    assert forall|i: int| 0 <= i < w.players.len() implies w.is_live(
        (#[trigger] w.players[i]).id,
    ) by {
        let k = choose|k: int| 0 <= k < v.connections.len() && v.connections[k] == v.players[i].id;
        assert(w.connections[k] == v.players[i].id);
    }
}

/// A join that is not refused keeps the invariant.
pub proof fn lemma_join_wf(v: RegistryView, name: Seq<u8>, id: ConnectionId)
    requires
        v.wf(),
        valid_username(name),
        v.join_error(name, id) is None,
    ensures
        v.join(name, id).wf(),
{
}

/// Removing a connection keeps the invariant.
pub proof fn lemma_leave_wf(v: RegistryView, id: ConnectionId)
    requires
        v.wf(),
    ensures
        v.leave(id).wf(),
{
    let w = v.leave(id);
    let keep_c = other_connection(id);
    let keep_p = other_owner(id);
    assert forall|i: int, j: int| 0 <= i < j < w.connections.len() implies w.connections[i]
        != w.connections[j] by {
        let k = lemma_filter_indices(v.connections, keep_c, i, j);
    }
    assert forall|i: int, j: int|
        0 <= i < w.players.len() && 0 <= j < w.players.len() && i != j implies (
    #[trigger] w.players[i]).name != (#[trigger] w.players[j]).name && w.players[i].id
        != w.players[j].id by {
        if i < j {
            let k = lemma_filter_indices(v.players, keep_p, i, j);
        } else {
            let k = lemma_filter_indices(v.players, keep_p, j, i);
        }
    }
    assert forall|i: int| 0 <= i < w.players.len() implies w.is_live(
        (#[trigger] w.players[i]).id,
    ) && valid_username(w.players[i].name) by {
        let k = lemma_filter_index(v.players, keep_p, i);
        let c = v.players[k].id;
        assert(v.is_live(c));
        v.connections.lemma_filter_contains_rev(keep_c, c);
    }
}

/// In a registry that keeps its invariant a player record is found by its
/// username and by its connection alike.
pub proof fn lemma_owner_at(v: RegistryView, at: int)
    requires
        v.wf(),
        0 <= at < v.players.len(),
    ensures
        v.is_taken(v.players[at].name),
        v.has_joined(v.players[at].id),
        v.owner(v.players[at].name) == Some(v.players[at].id),
        v.name_of(v.players[at].id) == Some(v.players[at].name),
{
}

/// Removing a connection that is not registered changes nothing.
pub proof fn lemma_leave_unregistered(v: RegistryView, id: ConnectionId)
    requires
        v.wf(),
        !v.is_live(id),
    ensures
        v.leave(id) == v,
{
    assert forall|k: int| 0 <= k < v.connections.len() implies (other_connection(id))(
        #[trigger] v.connections[k],
    ) by {
        assert(v.connections.contains(v.connections[k]));
    }
    lemma_filter_keeps_all(v.connections, other_connection(id));
    assert forall|k: int| 0 <= k < v.players.len() implies (other_owner(id))(
        #[trigger] v.players[k],
    ) by {
        assert(v.is_live(v.players[k].id));
    }
    lemma_filter_keeps_all(v.players, other_owner(id));
}

/// A removed connection is gone, with its player; removing it once more
/// changes nothing.
pub proof fn lemma_leave_once(v: RegistryView, id: ConnectionId)
    requires
        v.wf(),
    ensures
        !v.leave(id).is_live(id),
        !v.leave(id).has_joined(id),
        v.leave(id).leave(id) == v.leave(id),
{
    let w = v.leave(id);
    lemma_leave_wf(v, id);
    if w.is_live(id) {
        let k = choose|k: int| 0 <= k < w.connections.len() && w.connections[k] == id;
        let from = lemma_filter_index(v.connections, other_connection(id), k);
    }
    if w.has_joined(id) {
        let k = choose|k: int| 0 <= k < w.players.len() && (#[trigger] w.players[k]).id == id;
        let from = lemma_filter_index(v.players, other_owner(id), k);
    }
    lemma_leave_unregistered(w, id);
}

/// Of two connections that ask for one username the first gets it: the
/// second is refused, and the username stays with the first.
pub proof fn lemma_second_join_is_refused(
    v: RegistryView,
    name: Seq<u8>,
    first: ConnectionId,
    second: ConnectionId,
)
    requires
        v.wf(),
        valid_username(name),
        v.join_error(name, first) is None,
        v.is_live(second),
        !v.has_joined(second),
        first != second,
    ensures
        v.join(name, first).wf(),
        v.join(name, first).join_error(name, second) == Some(JoinError::UsernameTaken),
        v.join(name, first).owner(name) == Some(first),
{
    let w = v.join(name, first);
    let last = v.players.len() as int;
    assert(w.players[last].name == name);
    lemma_join_wf(v, name, first);
    lemma_owner_at(w, last);
    if w.has_joined(second) {
        let k = choose|k: int| 0 <= k < w.players.len() && (#[trigger] w.players[k]).id == second;
        assert(v.players[k].id == second);
    }
}

} // verus!
