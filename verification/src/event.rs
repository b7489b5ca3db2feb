//! The events that the dispatcher's queue carries.

use vstd::prelude::*;
use crate::username::{valid_username, Username};

verus! {

/// A change of the roster, as a connection actor announces it.
#[derive(Debug, PartialEq, Eq)]
pub enum BroadcastEvent {
    /// A player joined under this username.
    PlayerJoined(Username),
    /// The player of this username left.
    PlayerLeft(Username),
}

/// A broadcast event as a plain value.
pub enum EventView {
    PlayerJoined(Seq<u8>),
    PlayerLeft(Seq<u8>),
}

impl View for BroadcastEvent {
    type V = EventView;

    open spec fn view(&self) -> EventView {
        match self {
            BroadcastEvent::PlayerJoined(name) => EventView::PlayerJoined(name@),
            BroadcastEvent::PlayerLeft(name) => EventView::PlayerLeft(name@),
        }
    }
}

impl EventView {
    /// The username that the event is about.
    pub open spec fn username(self) -> Seq<u8> {
        match self {
            EventView::PlayerJoined(name) => name,
            EventView::PlayerLeft(name) => name,
        }
    }
}

impl BroadcastEvent {
    /// The username that the event is about.
    pub fn username(&self) -> (r: &Username)
        ensures
            r@ == self@.username(),
            valid_username(r@),
    {
        match self {
            BroadcastEvent::PlayerJoined(name) => {
                proof {
                    use_type_invariant(name);
                }
                name
            },
            BroadcastEvent::PlayerLeft(name) => {
                proof {
                    use_type_invariant(name);
                }
                name
            },
        }
    }

    /// Tells whether the event is a join.
    pub fn is_join(&self) -> (r: bool)
        ensures
            r == (self@ is PlayerJoined),
    {
        match self {
            BroadcastEvent::PlayerJoined(_) => true,
            BroadcastEvent::PlayerLeft(_) => false,
        }
    }
}

impl Clone for BroadcastEvent {
    fn clone(&self) -> (r: BroadcastEvent)
        ensures
            r@ == self@,
    {
        match self {
            BroadcastEvent::PlayerJoined(name) => BroadcastEvent::PlayerJoined(name.clone()),
            BroadcastEvent::PlayerLeft(name) => BroadcastEvent::PlayerLeft(name.clone()),
        }
    }
}

} // verus!
