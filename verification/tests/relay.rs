use std::collections::VecDeque;

use file_relay::actor::{ConnectionActor, Effect, Inbound, Phase};
use file_relay::codec::{decode_file_message, decode_roster, encode_file_message, FileMessage};
use file_relay::dispatcher::BroadcastDispatcher;
use file_relay::event::BroadcastEvent;
use file_relay::frame::{Frame, FrameKind};
use file_relay::ids::ConnectionId;
use file_relay::registry::ConnectionRegistry;
use file_relay::username::Username;

/// A relay without sockets: the handle of a connection is its place in
/// `outboxes`, and the queue of events is drained after every step.
struct Relay {
    registry: ConnectionRegistry<usize>,
    dispatcher: BroadcastDispatcher,
    queue: VecDeque<BroadcastEvent>,
    outboxes: Vec<Vec<Frame>>,
}

impl Relay {
    fn new() -> Relay {
        Relay {
            registry: ConnectionRegistry::new(),
            dispatcher: BroadcastDispatcher::new(),
            queue: VecDeque::new(),
            outboxes: Vec::new(),
        }
    }

    fn connect(&mut self, id: u32) -> (ConnectionActor, usize) {
        let handle = self.outboxes.len();
        self.outboxes.push(Vec::new());
        let mut actor = ConnectionActor::new(ConnectionId(id));
        let first = actor.start(&mut self.registry, handle).unwrap();
        self.outboxes[handle].push(first);
        (actor, handle)
    }

    fn feed(&mut self, actor: &mut ConnectionActor, input: Inbound) {
        match actor.step(&mut self.registry, input) {
            Effect::Nothing => {}
            Effect::Announce(event) => self.queue.push_back(event),
            Effect::Deliver(delivery) => {
                if let Some(handle) = self.registry.handle(delivery.to) {
                    self.outboxes[*handle].push(delivery.frame);
                }
            }
        }
        while let Some(event) = self.queue.pop_front() {
            if let Some(broadcast) = self.dispatcher.on_event(&self.registry, Some(event)) {
                for to in &broadcast.recipients {
                    if let Some(handle) = self.registry.handle(*to) {
                        self.outboxes[*handle].push(broadcast.frame.clone());
                    }
                }
            }
        }
    }

    fn take(&mut self, handle: usize) -> Vec<Frame> {
        std::mem::take(&mut self.outboxes[handle])
    }
}

fn name(text: &str) -> Username {
    Username::parse(text).unwrap()
}

fn text(s: &str) -> Inbound {
    Inbound::Frame(Frame::text(s.as_bytes().to_vec()))
}

fn roster_in(frame: &Frame) -> Vec<Username> {
    assert_eq!(frame.kind, FrameKind::Text);
    decode_roster(&frame.payload).unwrap()
}

#[test]
fn two_clients_join_relay_a_file_and_one_leaves() {
    let mut relay = Relay::new();

    let (mut a, a_box) = relay.connect(100);
    let first = relay.take(a_box);
    assert_eq!(first.len(), 1);
    assert_eq!(roster_in(&first[0]), Vec::new());

    relay.feed(&mut a, text("JOIN|alice"));
    let seen = relay.take(a_box);
    assert_eq!(seen.len(), 1);
    assert_eq!(roster_in(&seen[0]), vec![name("alice")]);

    let (mut b, b_box) = relay.connect(200);
    let first = relay.take(b_box);
    assert_eq!(first.len(), 1);
    assert_eq!(roster_in(&first[0]), vec![name("alice")]);
    assert_eq!(relay.take(a_box), Vec::new());

    relay.feed(&mut b, text("JOIN|bob"));
    let at_a = relay.take(a_box);
    let at_b = relay.take(b_box);
    assert_eq!(at_a.len(), 1);
    assert_eq!(at_b.len(), 1);
    assert_eq!(roster_in(&at_a[0]), vec![name("alice"), name("bob")]);
    assert_eq!(roster_in(&at_b[0]), vec![name("alice"), name("bob")]);

    let payload: Vec<u8> = (0..=255u8).collect();
    let sent = encode_file_message(&FileMessage {
        username: name("bob"),
        file_bytes: payload.clone(),
    });
    relay.feed(&mut a, Inbound::Frame(Frame::binary(sent.clone())));
    let at_b = relay.take(b_box);
    assert_eq!(at_b, vec![Frame::binary(sent)]);
    assert_eq!(decode_file_message(&at_b[0].payload).unwrap().file_bytes, payload);
    assert_eq!(relay.take(a_box), Vec::new());

    relay.feed(&mut a, Inbound::Ended);
    assert_eq!(a.phase(), Phase::Closed);
    let at_b = relay.take(b_box);
    assert_eq!(at_b.len(), 1);
    assert_eq!(roster_in(&at_b[0]), vec![name("bob")]);
    assert_eq!(relay.take(a_box), Vec::new());
    assert_eq!(relay.registry.connection_ids(), vec![ConnectionId(200)]);
}

#[test]
fn roster_follows_joins_and_leaves() {
    let mut relay = Relay::new();
    let (mut a, _) = relay.connect(1);
    let (mut b, _) = relay.connect(2);
    let (mut c, c_box) = relay.connect(3);
    let (mut d, _) = relay.connect(4);
    relay.take(c_box);

    relay.feed(&mut a, text("JOIN|ann"));
    relay.feed(&mut b, text("JOIN|ben"));
    relay.feed(&mut d, text("JOIN|ann"));
    relay.feed(&mut a, Inbound::Failed);
    relay.feed(&mut d, text("JOIN|ann"));
    relay.feed(&mut b, Inbound::Ended);
    relay.feed(&mut b, Inbound::Ended);
    relay.feed(&mut c, text("JOIN|cy"));

    let seen: Vec<Vec<Username>> = relay.take(c_box).iter().map(roster_in).collect();
    assert_eq!(
        seen,
        vec![
            vec![name("ann")],
            vec![name("ann"), name("ben")],
            vec![name("ben")],
            vec![name("ben"), name("ann")],
            vec![name("ann")],
            vec![name("ann"), name("cy")],
        ]
    );
    assert_eq!(relay.registry.roster(), vec![name("ann"), name("cy")]);
    assert_eq!(relay.registry.owner(&name("ann")), Some(ConnectionId(4)));
    assert_eq!(relay.registry.connection_ids(), vec![ConnectionId(3), ConnectionId(4)]);
}

#[test]
fn broadcast_goes_on_past_a_connection_that_left() {
    let mut relay = Relay::new();
    let (mut a, a_box) = relay.connect(1);
    let (mut b, b_box) = relay.connect(2);
    let (_c, c_box) = relay.connect(3);
    relay.feed(&mut a, text("JOIN|ann"));
    relay.feed(&mut b, Inbound::Failed);
    relay.take(a_box);
    relay.take(b_box);
    relay.take(c_box);
    relay.feed(&mut a, Inbound::Ended);
    assert_eq!(relay.take(a_box), Vec::new());
    assert_eq!(relay.take(b_box), Vec::new());
    assert_eq!(relay.take(c_box), vec![Frame::text(b"LIST|".to_vec())]);
}
