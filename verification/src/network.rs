//! Message transport: how messages are framed on a connection, and what a
//! node does with what it reads from a peer.
//!
//! A frame is four bytes that give the body's length, most significant
//! first, and then the body. Bodies above 262,144 bytes are a protocol
//! error. Turning bodies into messages and back is left to the caller, as
//! is every read and write.

use crate::encoding::{append_bytes, be_bytes32, be_value32};
use crate::peer_manager::{
    all_addresses, connected_at, disconnected, peer_added, peer_changed, seen_at, PeerManager,
};
use crate::tpi::{TpiHashMessage, TpiHashMessageView};
use crate::types::{NetworkMessage, NetworkMessageView};
use vstd::prelude::*;

verus! {

/// The longest body that a frame may carry.
pub const MAX_MESSAGE_SIZE: usize = 262_144;

/// Length of a frame's prefix.
pub const FRAME_PREFIX_LEN: usize = 4;

/// Seconds that the read of a prefix or of a body may take.
pub const FRAME_TIMEOUT_SECS: u64 = 30;

/// Capacity of each inbound channel.
pub const CHANNEL_CAPACITY: usize = 100;

/// Why a frame is refused.
#[derive(Debug, Clone, Copy, PartialEq, Eq)]
pub enum FrameError {
    /// The body is longer than 262,144 bytes.
    TooLarge,
    /// The bytes end before the frame does.
    Incomplete,
}

/// The frame of a body: its length in four big-endian bytes, then the body.
pub open spec fn frame_of(body: Seq<u8>) -> Seq<u8> {
    be_bytes32(body.len() as u32) + body
}

/// The body length that a prefix announces, or the error it amounts to.
pub open spec fn announced_length(prefix: Seq<u8>) -> Result<int, FrameError> {
    if prefix.len() < 4 {
        Err(FrameError::Incomplete)
    } else if be_value32(prefix.take(4)) > 262_144 {
        Err(FrameError::TooLarge)
    } else {
        Ok(be_value32(prefix.take(4)))
    }
}

/// The body of the frame with which `bytes` begin, or why there is none.
pub open spec fn framed_body(bytes: Seq<u8>) -> Result<Seq<u8>, FrameError> {
    match announced_length(bytes) {
        Err(e) => Err(e),
        Ok(len) => if bytes.len() < 4 + len {
            Err(FrameError::Incomplete)
        } else {
            Ok(bytes.subrange(4, 4 + len))
        },
    }
}

/// Framing and unframing is the identity: the frame of any body of up to
/// 262,144 bytes, whatever follows it, is read back as that body.
pub proof fn lemma_frame_roundtrip(body: Seq<u8>, rest: Seq<u8>)
    requires
        body.len() <= 262_144,
    ensures
        framed_body(frame_of(body) + rest) == Ok::<Seq<u8>, FrameError>(body),
{
    let bytes = frame_of(body) + rest;
    let n = body.len() as u32;
    assert(bytes.take(4) =~= be_bytes32(n));
    assert(be_value32(be_bytes32(n)) == n as int);
    assert(bytes.subrange(4, 4 + n as int) =~= body);
}

/// A body of more than 262,144 bytes cannot be framed, and a prefix that
/// announces one is refused.
pub proof fn lemma_oversized_refused(prefix: Seq<u8>)
    requires
        prefix.len() >= 4,
        be_value32(prefix.take(4)) > 262_144,
    ensures
        announced_length(prefix) == Err::<int, FrameError>(FrameError::TooLarge),
        framed_body(prefix) == Err::<Seq<u8>, FrameError>(FrameError::TooLarge),
{
}

/// Frames a body for sending.
pub fn encode_frame(body: &[u8]) -> (r: Result<Vec<u8>, FrameError>)
    ensures
        match r {
            Ok(frame) => body@.len() <= 262_144 && frame@ == frame_of(body@),
            Err(e) => body@.len() > 262_144 && e == FrameError::TooLarge,
        },
{
    if body.len() > MAX_MESSAGE_SIZE {
        return Err(FrameError::TooLarge);
    }
    let len: u32 = body.len() as u32;
    let mut frame: Vec<u8> = Vec::new();
    frame.push(((len / 0x100_0000) % 0x100) as u8);
    frame.push(((len / 0x1_0000) % 0x100) as u8);
    frame.push(((len / 0x100) % 0x100) as u8);
    frame.push((len % 0x100) as u8);
    assert(frame@ =~= be_bytes32(len));
    append_bytes(&mut frame, body);
    Ok(frame)
}

/// Reads the body length from a frame's prefix.
pub fn decode_frame_length(prefix: &[u8]) -> (r: Result<usize, FrameError>)
    ensures
        match r {
            Ok(len) => announced_length(prefix@) == Ok::<int, FrameError>(len as int) && len <= 262_144,
            Err(e) => announced_length(prefix@) == Err::<int, FrameError>(e),
        },
{
    if prefix.len() < FRAME_PREFIX_LEN {
        return Err(FrameError::Incomplete);
    }
    let len: u64 = (prefix[0] as u64) * 0x100_0000 + (prefix[1] as u64) * 0x1_0000 + (prefix[2] as u64)
        * 0x100 + (prefix[3] as u64);
    assert(len == be_value32(prefix@.take(4)));
    if len > MAX_MESSAGE_SIZE as u64 {
        return Err(FrameError::TooLarge);
    }
    Ok(len as usize)
}

/// Takes the body out of the frame with which `bytes` begin.
pub fn decode_frame(bytes: &[u8]) -> (r: Result<Vec<u8>, FrameError>)
    ensures
        match r {
            Ok(body) => framed_body(bytes@) == Ok::<Seq<u8>, FrameError>(body@),
            Err(e) => framed_body(bytes@) == Err::<Seq<u8>, FrameError>(e),
        },
{
    let len = match decode_frame_length(bytes) {
        Ok(len) => len,
        Err(e) => {
            return Err(e);
        },
    };
    if bytes.len() - FRAME_PREFIX_LEN < len {
        return Err(FrameError::Incomplete);
    }
    let body = vstd::slice::slice_subrange(bytes, FRAME_PREFIX_LEN, FRAME_PREFIX_LEN + len);
    let mut out: Vec<u8> = Vec::new();
    append_bytes(&mut out, body);
    assert(out@ =~= bytes@.subrange(4, 4 + len as int));
    Ok(out)
}

/// The channel on which a message is handed on.
#[derive(Debug, Clone, Copy, PartialEq, Eq)]
pub enum Channel {
    /// Committee announcements, which must not queue behind other traffic.
    Tpi,
    /// Everything else.
    Inbound,
}

/// Committee announcements go to their own channel, all else to the general
/// one.
pub open spec fn channel_of(message: NetworkMessageView) -> Channel {
    if message is TpiHash {
        Channel::Tpi
    } else {
        Channel::Inbound
    }
}

/// The channel on which a message is handed on.
pub fn route_message(message: &NetworkMessage) -> (r: Channel)
    ensures
        r == channel_of(message@),
{
    match message {
        NetworkMessage::TpiHash { .. } => Channel::Tpi,
        _ => Channel::Inbound,
    }
}

/// The announcement that a wire message carries, if it is one.
pub open spec fn announcement_of(message: NetworkMessageView) -> Option<TpiHashMessageView> {
    match message {
        NetworkMessageView::TpiHash { slot, validator_id, block_hash, signature } => Some(
            TpiHashMessageView {
                slot,
                validator_id,
                block_hash,
                signature: crate::encoding::utf8(signature),
            },
        ),
        _ => None,
    }
}

/// Takes the announcement out of a wire message, if it is one.
pub fn to_tpi_hash(message: &NetworkMessage) -> (r: Option<TpiHashMessage>)
    ensures
        match r {
            Some(m) => announcement_of(message@) == Some(m@),
            None => announcement_of(message@) is None,
        },
{
    match message {
        NetworkMessage::TpiHash { slot, validator_id, block_hash, signature } => {
            let mut bytes: Vec<u8> = Vec::new();
            crate::encoding::append_text(&mut bytes, signature.as_str());
            assert(bytes@ =~= crate::encoding::utf8(signature@));
            Some(
                TpiHashMessage {
                    slot: *slot,
                    validator_id: validator_id.clone(),
                    block_hash: block_hash.clone(),
                    signature: bytes,
                },
            )
        },
        _ => None,
    }
}

/// The handshake that a node sends first on a connection it has dialed:
/// its listen address, all peers it knows, and its genesis timestamp.
pub fn make_handshake(listen_addr: &str, peers: &PeerManager, genesis_timestamp: u64) -> (r: NetworkMessage)
    ensures
        r@ == (NetworkMessageView::Handshake {
            peer_addr: listen_addr@,
            known_peers: all_addresses(peers.peers()),
            genesis_timestamp,
        }),
{
    NetworkMessage::Handshake {
        peer_addr: listen_addr.to_owned(),
        known_peers: peers.get_all_known_peers(),
        genesis_timestamp,
    }
}

/// What happened on a connection.
#[derive(Debug)]
pub enum PeerEvent {
    /// The connection was accepted or dialed.
    Connected,
    /// The four bytes of a prefix were read.
    Prefix(Vec<u8>),
    /// A body was read and understood as a message.
    Message(NetworkMessage),
    /// A body was read that is no message.
    Malformed,
    /// The peer closed the connection, a read failed, or a read took
    /// longer than thirty seconds.
    Lost,
}

pub enum PeerEventView {
    Connected,
    Prefix(Seq<u8>),
    Message(NetworkMessageView),
    Malformed,
    Lost,
}

impl View for PeerEvent {
    type V = PeerEventView;

    open spec fn view(&self) -> PeerEventView {
        match self {
            PeerEvent::Connected => PeerEventView::Connected,
            PeerEvent::Prefix(bytes) => PeerEventView::Prefix(bytes@),
            PeerEvent::Message(message) => PeerEventView::Message(message@),
            PeerEvent::Malformed => PeerEventView::Malformed,
            PeerEvent::Lost => PeerEventView::Lost,
        }
    }
}

/// What the reader of a connection is to do next.
#[derive(Debug)]
pub enum PeerAction {
    /// Read the next prefix.
    ReadPrefix,
    /// Read a body of so many bytes.
    ReadBody(usize),
    /// Send the announcement on the committee channel, then read on.
    ForwardTpi(TpiHashMessage),
    /// Send the message with the peer's address on the general channel,
    /// then read on.
    ForwardInbound(NetworkMessage),
    /// Close the connection.
    Close,
}

pub enum PeerActionView {
    ReadPrefix,
    ReadBody(usize),
    ForwardTpi(TpiHashMessageView),
    ForwardInbound(NetworkMessageView),
    Close,
}

impl View for PeerAction {
    type V = PeerActionView;

    open spec fn view(&self) -> PeerActionView {
        match self {
            PeerAction::ReadPrefix => PeerActionView::ReadPrefix,
            PeerAction::ReadBody(len) => PeerActionView::ReadBody(*len),
            PeerAction::ForwardTpi(message) => PeerActionView::ForwardTpi(message@),
            PeerAction::ForwardInbound(message) => PeerActionView::ForwardInbound(message@),
            PeerAction::Close => PeerActionView::Close,
        }
    }
}

/// What the reader does on an event.
///
/// A prefix that announces up to 262,144 bytes is followed by its body; a
/// larger one, a body that is no message, and a lost connection close it. A
/// message goes to the channel it belongs on.
pub open spec fn peer_action(event: PeerEventView) -> PeerActionView {
    match event {
        PeerEventView::Connected => PeerActionView::ReadPrefix,
        PeerEventView::Prefix(bytes) => match announced_length(bytes) {
            Ok(len) => PeerActionView::ReadBody(len as usize),
            Err(_) => PeerActionView::Close,
        },
        PeerEventView::Message(message) => match announcement_of(message) {
            Some(announcement) => PeerActionView::ForwardTpi(announcement),
            None => PeerActionView::ForwardInbound(message),
        },
        PeerEventView::Malformed => PeerActionView::Close,
        PeerEventView::Lost => PeerActionView::Close,
    }
}

/// What an event at `now` does to the peer table.
///
/// A new connection records the peer and marks it connected; a message
/// refreshes when it was last seen; whatever closes the connection marks it
/// disconnected.
pub open spec fn peers_after_event(
    peers: Seq<crate::types::PeerInfoView>,
    addr: Seq<char>,
    event: PeerEventView,
    now: u64,
) -> Seq<crate::types::PeerInfoView> {
    match event {
        PeerEventView::Connected => peer_changed(peer_added(peers, addr, now), addr, connected_at(now)),
        PeerEventView::Message(_) => peer_changed(peers, addr, seen_at(now)),
        _ => if peer_action(event) is Close {
            peer_changed(peers, addr, disconnected())
        } else {
            peers
        },
    }
}

/// Decides what the reader of the connection to `peer_addr` does on an
/// event at `now`, and keeps the peer table.
pub fn handle_peer_event(peers: &mut PeerManager, peer_addr: &str, event: PeerEvent, now: u64) -> (r:
    PeerAction)
    ensures
        r@ == peer_action(event@),
        final(peers).peers() == peers_after_event(old(peers).peers(), peer_addr@, event@, now),
        final(peers).bootstrap() == old(peers).bootstrap(),
{
    match event {
        PeerEvent::Connected => {
            peers.add_peer_at(peer_addr.to_owned(), now);
            peers.mark_connected_at(peer_addr, now);
            PeerAction::ReadPrefix
        },
        PeerEvent::Prefix(bytes) => match decode_frame_length(bytes.as_slice()) {
            Ok(len) => PeerAction::ReadBody(len),
            Err(_) => {
                peers.mark_disconnected(peer_addr);
                PeerAction::Close
            },
        },
        PeerEvent::Message(message) => {
            peers.update_seen_at(peer_addr, now);
            match to_tpi_hash(&message) {
                Some(announcement) => PeerAction::ForwardTpi(announcement),
                None => PeerAction::ForwardInbound(message),
            }
        },
        PeerEvent::Malformed => {
            peers.mark_disconnected(peer_addr);
            PeerAction::Close
        },
        PeerEvent::Lost => {
            peers.mark_disconnected(peer_addr);
            PeerAction::Close
        },
    }
}

} // verus!
