//! The messages between a client's UI and its network task: `Command`s go
//! to the network, `AppEvent`s come back; and the decisions the network task
//! makes about them.

use vstd::prelude::*;

use crate::bytes_order::{compare_bytes, Cmp};
use crate::message::ChatMessage;
use crate::text::{str_eq, string_views};

verus! {

/// What a bird is doing, as it announces it.
#[derive(Clone, Copy, Debug, PartialEq, Eq, Structural)]
pub enum BirdStatus {
    Online,
    InCall,
}

/// A request from the UI to the network task. Peers are named by the 32
/// bytes of their endpoint id.
pub enum Command {
    SendText(String),
    StartCall([u8; 32]),
    HangUp,
    StartVideo([u8; 32]),
    StopVideo,
    Quit,
}

/// A notification from the network task to the UI.
pub enum AppEvent {
    Message(ChatMessage),
    PeerConnected([u8; 32]),
    PeerDisconnected([u8; 32]),
    PeerNamed([u8; 32], String),
    Ticket(String),
    VoiceFrame(Vec<u8>),
    VideoFrame(Vec<u8>),
    PeerStatus([u8; 32], BirdStatus),
    HistoryChunk(Vec<ChatMessage>),
}

/// What a bird broadcasts on its flock's gossip topic.
pub enum GossipPayload {
    Chat(ChatMessage),
    Profile { id: [u8; 32], name: String },
    Status { id: [u8; 32], status: BirdStatus },
}

/// The bird whose id names the flock: the first bootstrap peer, or oneself
/// when opening a new flock.
pub fn flock_opener(bootstrap: &Vec<[u8; 32]>, me: [u8; 32]) -> (r: [u8; 32])
    ensures
        bootstrap@.len() > 0 ==> r == bootstrap@[0],
        bootstrap@.len() == 0 ==> r == me,
{
    if bootstrap.len() > 0 {
        bootstrap[0]
    } else {
        me
    }
}

/// The bird to ask for backfill after joining: the bird that opened the
/// flock, unless that is oneself.
pub fn backfill_peer(bootstrap: &Vec<[u8; 32]>, me: [u8; 32]) -> (r: Option<[u8; 32]>)
    ensures
        bootstrap@.len() > 0 && bootstrap@[0] != me ==> r == Some(bootstrap@[0]),
        bootstrap@.len() == 0 || bootstrap@[0] == me ==> r is None,
{
    let opener = flock_opener(bootstrap, me);
    if compare_bytes(&opener, &me) == Cmp::Equal {
        assert(opener@ == me@);
        assert(opener == me);
        None
    } else {
        Some(opener)
    }
}

/// What the UI is told of a received payload, and whether the payload is a
/// chat message to keep in the scrollback served to late joiners.
pub fn payload_event(payload: GossipPayload) -> (r: (AppEvent, bool))
    ensures
        match payload {
            GossipPayload::Chat(m) => r.1 && (r.0 matches AppEvent::Message(x) && x@ == m@),
            GossipPayload::Profile { id, name } => !r.1 && (r.0 matches AppEvent::PeerNamed(i, n)
                && i == id && n@ == name@),
            GossipPayload::Status { id, status } => !r.1 && (r.0 matches AppEvent::PeerStatus(i, s)
                && i == id && s == status),
        },
{
    match payload {
        GossipPayload::Chat(m) => (AppEvent::Message(m), true),
        GossipPayload::Profile { id, name } => (AppEvent::PeerNamed(id, name), false),
        GossipPayload::Status { id, status } => (AppEvent::PeerStatus(id, status), false),
    }
}

/// The index of the output device named `preferred`: the first device of
/// that name, or `None` (use the system default) when there is none or no
/// name was given.
pub fn choose_device(devices: &Vec<String>, preferred: Option<&str>) -> (r: Option<usize>)
    ensures
        match preferred {
            None => r is None,
            Some(p) => match r {
                Some(i) => i < devices@.len() && devices@[i as int]@ == p@ && forall|j: int|
                    0 <= j < i ==> devices@[j]@ != p@,
                None => !string_views(devices@).contains(p@),
            },
        },
{
    match preferred {
        None => None,
        Some(p) => crate::text::position_str(devices, p),
    }
}

} // verus!
