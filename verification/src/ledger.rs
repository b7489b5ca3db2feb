//! The registry against a ledger of sets and maps: whatever connects,
//! joins and leaves, the registry holds what the ledger holds.

use vstd::prelude::*;
use crate::codec::{lemma_roster_round_trip, roster_frame, roster_of, valid_roster};
use crate::ids::ConnectionId;
use crate::model::{
    lemma_connect_wf, lemma_filter_index, lemma_join_wf, lemma_leave_wf, lemma_owner_at,
    other_connection, other_owner, PlayerView, RegistryView,
};
use crate::username::valid_username;

verus! {

/// What a connection may ask of the registry.
pub enum Op {
    /// Register the connection.
    Connect(ConnectionId),
    /// Join as the username.
    Join(Seq<u8>, ConnectionId),
    /// Remove the connection.
    Leave(ConnectionId),
}

/// The registry after one request. A connection that is live is not
/// registered again, and a join that is refused changes nothing.
pub open spec fn apply(v: RegistryView, op: Op) -> RegistryView {
    match op {
        Op::Connect(id) => if v.is_live(id) {
            v
        } else {
            v.connect(id)
        },
        Op::Join(name, id) => if valid_username(name) && v.join_error(name, id) is None {
            v.join(name, id)
        } else {
            v
        },
        Op::Leave(id) => v.leave(id),
    }
}

/// The registry after a sequence of requests, from the empty registry.
pub open spec fn run(ops: Seq<Op>) -> RegistryView
    decreases ops.len(),
{
    if ops.len() == 0 {
        RegistryView::empty()
    } else {
        apply(run(ops.drop_last()), ops.last())
    }
}

/// The ledger: the set of live connections, and for each username that is
/// held the connection that owns it.
pub struct Ledger {
    pub live: Set<ConnectionId>,
    pub owners: Map<Seq<u8>, ConnectionId>,
}

impl Ledger {
    /// The ledger of nothing.
    pub open spec fn empty() -> Ledger {
        Ledger { live: Set::empty(), owners: Map::empty() }
    }

    /// Whether the connection owns a username.
    pub open spec fn owns(self, id: ConnectionId) -> bool {
        exists|n: Seq<u8>| self.owners.dom().contains(n) && #[trigger] self.owners[n] == id
    }

    /// The ledger after one request. A join is entered where the username
    /// is valid and free and the connection is live and owns none; a leave
    /// strikes the connection and every username it owns.
    pub open spec fn record(self, op: Op) -> Ledger {
        match op {
            Op::Connect(id) => Ledger { live: self.live.insert(id), owners: self.owners },
            Op::Join(name, id) => if valid_username(name) && self.live.contains(id) && !self.owns(
                id,
            ) && !self.owners.dom().contains(name) {
                Ledger { live: self.live, owners: self.owners.insert(name, id) }
            } else {
                self
            },
            Op::Leave(id) => Ledger {
                live: self.live.remove(id),
                owners: Map::new(
                    |n: Seq<u8>| self.owners.dom().contains(n) && self.owners[n] != id,
                    |n: Seq<u8>| self.owners[n],
                ),
            },
        }
    }
}

/// The ledger after a sequence of requests.
pub open spec fn ledger_of(ops: Seq<Op>) -> Ledger
    decreases ops.len(),
{
    if ops.len() == 0 {
        Ledger::empty()
    } else {
        ledger_of(ops.drop_last()).record(ops.last())
    }
}

/// What a registry holds, as a ledger.
pub open spec fn ledger_view(v: RegistryView) -> Ledger {
    Ledger {
        live: v.connections.to_set(),
        owners: Map::new(|n: Seq<u8>| v.is_taken(n), |n: Seq<u8>| v.owner(n).unwrap()),
    }
}

/// The roster of a registry that keeps its invariant names each player
/// once, and names exactly the usernames that are held.
pub proof fn lemma_roster_is_held(v: RegistryView)
    requires
        v.wf(),
    ensures
        v.roster().no_duplicates(),
        v.roster().to_set() == ledger_view(v).owners.dom(),
        valid_roster(v.roster()),
{
    let roster = v.roster();
    assert forall|n: Seq<u8>| roster.to_set().contains(n) == ledger_view(v).owners.dom().contains(
        n,
    ) by {
        if roster.contains(n) {
            let i = choose|i: int| 0 <= i < roster.len() && roster[i] == n;
            assert(v.players[i].name == n);
        }
        if v.is_taken(n) {
            let i = choose|i: int| 0 <= i < v.players.len() && (#[trigger] v.players[i]).name == n;
            assert(roster[i] == n);
        }
    }
    assert(roster.to_set() =~= ledger_view(v).owners.dom());
    assert forall|i: int, j: int| 0 <= i < roster.len() && 0 <= j < roster.len() && i
        != j implies roster[i] != roster[j] by {
        assert(v.players[i].name != v.players[j].name);
    }
    assert forall|i: int| 0 <= i < roster.len() implies valid_username(#[trigger] roster[i]) by {
        assert(valid_username(v.players[i].name));
    }
}

/// One request does to the registry what it does to the ledger.
pub proof fn lemma_apply_records(v: RegistryView, op: Op)
    requires
        v.wf(),
    ensures
        apply(v, op).wf(),
        ledger_view(apply(v, op)) == ledger_view(v).record(op),
{
    let w = apply(v, op);
    let before = ledger_view(v);
    let after = ledger_view(w);
    let expected = before.record(op);
    match op {
        Op::Connect(id) => {
            if !v.is_live(id) {
                lemma_connect_wf(v, id);
                assert forall|c: ConnectionId| after.live.contains(c) == expected.live.contains(
                    c,
                ) by {
                    if v.connections.contains(c) {
                        let k = choose|k: int|
                            0 <= k < v.connections.len() && v.connections[k] == c;
                        assert(w.connections[k] == c);
                    }
                    if c == id {
                        assert(w.connections[v.connections.len() as int] == id);
                    }
                }
            }
            assert(after.live =~= expected.live);
            assert(after.owners =~= expected.owners);
        },
        Op::Join(name, id) => {
            lemma_owns_is_joined(v, id);
            if valid_username(name) && v.join_error(name, id) is None {
                lemma_join_wf(v, name, id);
                let last = v.players.len() as int;
                assert(w.players[last] == PlayerView { name, id });
                lemma_owner_at(w, last);
                assert forall|n: Seq<u8>| after.owners.dom().contains(n)
                    == expected.owners.dom().contains(n) by {
                    if w.is_taken(n) {
                        let i = choose|i: int|
                            0 <= i < w.players.len() && (#[trigger] w.players[i]).name == n;
                        if i < last {
                            assert(v.players[i].name == n);
                        }
                    }
                    if v.is_taken(n) {
                        let i = choose|i: int|
                            0 <= i < v.players.len() && (#[trigger] v.players[i]).name == n;
                        assert(w.players[i].name == n);
                    }
                }
                assert forall|n: Seq<u8>| after.owners.dom().contains(n) implies after.owners[n]
                    == expected.owners[n] by {
                    if n != name {
                        let i = choose|i: int|
                            0 <= i < v.players.len() && (#[trigger] v.players[i]).name == n;
                        assert(w.players[i] == v.players[i]);
                        lemma_owner_at(v, i);
                        lemma_owner_at(w, i);
                    }
                }
                assert(after.owners =~= expected.owners);
            }
        },
        Op::Leave(id) => {
            lemma_leave_wf(v, id);
            assert forall|c: ConnectionId| after.live.contains(c) == expected.live.contains(c) by {
                if w.connections.contains(c) {
                    v.connections.lemma_filter_contains_rev(other_connection(id), c);
                    let k = choose|k: int| 0 <= k < w.connections.len() && w.connections[k] == c;
                    let from = lemma_filter_index(v.connections, other_connection(id), k);
                }
                if v.connections.contains(c) && c != id {
                    let k = choose|k: int| 0 <= k < v.connections.len() && v.connections[k] == c;
                    v.connections.lemma_filter_contains(other_connection(id), k);
                }
            }
            assert(after.live =~= expected.live);
            assert forall|n: Seq<u8>| after.owners.dom().contains(n)
                == expected.owners.dom().contains(n) by {
                if w.is_taken(n) {
                    let i = choose|i: int|
                        0 <= i < w.players.len() && (#[trigger] w.players[i]).name == n;
                    let k = lemma_filter_index(v.players, other_owner(id), i);
                    lemma_owner_at(v, k);
                }
                if v.is_taken(n) && v.owner(n).unwrap() != id {
                    let i = choose|i: int|
                        0 <= i < v.players.len() && (#[trigger] v.players[i]).name == n;
                    lemma_owner_at(v, i);
                    v.players.lemma_filter_contains(other_owner(id), i);
                    let k = choose|k: int| 0 <= k < w.players.len() && w.players[k] == v.players[i];
                    assert(w.players[k].name == n);
                }
            }
            assert forall|n: Seq<u8>| after.owners.dom().contains(n) implies after.owners[n]
                == expected.owners[n] by {
                let i = choose|i: int|
                    0 <= i < w.players.len() && (#[trigger] w.players[i]).name == n;
                let k = lemma_filter_index(v.players, other_owner(id), i);
                lemma_owner_at(v, k);
                lemma_owner_at(w, i);
            }
            assert(after.owners =~= expected.owners);
        },
    }
}

/// A connection has joined exactly when the ledger has it own a username.
proof fn lemma_owns_is_joined(v: RegistryView, id: ConnectionId)
    requires
        v.wf(),
    ensures
        ledger_view(v).owns(id) == v.has_joined(id),
        ledger_view(v).live.contains(id) == v.is_live(id),
{
    let l = ledger_view(v);
    if l.owns(id) {
        let n = choose|n: Seq<u8>| l.owners.dom().contains(n) && #[trigger] l.owners[n] == id;
        let i = choose|i: int| 0 <= i < v.players.len() && (#[trigger] v.players[i]).name == n;
        lemma_owner_at(v, i);
    }
    if v.has_joined(id) {
        let i = choose|i: int| 0 <= i < v.players.len() && (#[trigger] v.players[i]).id == id;
        lemma_owner_at(v, i);
        assert(l.owners.dom().contains(v.players[i].name));
        assert(l.owners[v.players[i].name] == id);
    }
}

/// Whatever connects, joins and leaves, and in whatever order: the
/// registry keeps its invariant and holds what the ledger holds, and the
/// roster frame that is broadcast then reads back as the usernames that
/// are held, each once.
pub proof fn lemma_registry_tracks_ledger(ops: Seq<Op>)
    ensures
        run(ops).wf(),
        ledger_view(run(ops)) == ledger_of(ops),
        run(ops).roster().no_duplicates(),
        run(ops).roster().to_set() == ledger_of(ops).owners.dom(),
        roster_of(roster_frame(run(ops).roster())) == Some(run(ops).roster()),
    decreases ops.len(),
{
    if ops.len() == 0 {
        let v = RegistryView::empty();
        assert(ledger_view(v).live =~= Set::empty());
        assert(ledger_view(v).owners =~= Map::empty());
    } else {
        lemma_registry_tracks_ledger(ops.drop_last());
        lemma_apply_records(run(ops.drop_last()), ops.last());
    }
    lemma_roster_is_held(run(ops));
    lemma_roster_round_trip(run(ops).roster());
}

} // verus!
