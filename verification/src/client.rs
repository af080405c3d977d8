//! Client-side protocol state: the handshake that learns this client's id,
//! and the per-frame handling of incoming state packets.
//!
//! The transport (connection setup, polling, sending) lives outside this
//! crate; it hands each drained event to [`ClientState`] as a plain value and
//! sends the bytes that [`crate::codec::encode_player_state`] produces.

use vstd::prelude::*;
use vstd::bytes::spec_u32_from_le_bytes;
use crate::codec::{decode_handshake, decode_player_state, spec_decode, DecodeError};
use crate::registry::{spec_upsert, RemotePlayerRegistry};

verus! {

/// One event drained from the transport, reduced to plain values.
pub enum TransportEvent {
    /// A packet arrived with this payload.
    Receive(Vec<u8>),
    /// A peer connected; ignored by the client.
    PeerConnected,
    /// A peer disconnected; ignored by the client in the minimal protocol.
    PeerDisconnected,
}

/// Why a connection attempt failed at the protocol level. Transport-level
/// refusals are reported by the transport itself before any packet arrives.
#[derive(Clone, Copy, PartialEq, Eq, Structural, Debug)]
pub enum ConnectError {
    /// The first packet received was not exactly the 4-byte id payload.
    MalformedHandshake,
}

/// Outcome of feeding one polled event to the handshake wait loop.
#[derive(Clone, Copy, PartialEq, Eq, Structural, Debug)]
pub enum ConnectStep {
    /// The handshake arrived; this client's assigned id.
    Connected(u32),
    /// Nothing decisive yet; poll again.
    Waiting,
    /// The handshake was malformed; abort the connection attempt.
    Failed(ConnectError),
}

/// True for the one event shape the protocol reacts to.
pub open spec fn is_receive(event: Option<TransportEvent>) -> bool {
    event matches Some(TransportEvent::Receive(_))
}

/// What this client knows: its own id once the handshake has arrived, and the
/// last-known states of the remote players.
pub struct ClientState {
    pub my_id: Option<u32>,
    pub registry: RemotePlayerRegistry,
}

impl ClientState {
    pub open spec fn wf(self) -> bool {
        self.registry.wf()
    }

    /// A fresh client: no id yet, no remote players sighted.
    pub fn new() -> (r: Self)
        ensures
            r.my_id is None,
            r.registry@ == Seq::<crate::codec::PlayerStateView>::empty(),
            r.wf(),
    {
        ClientState { my_id: None, registry: RemotePlayerRegistry::new() }
    }

    /// One step of the bounded wait for the id assignment: the first packet
    /// received must be exactly the 4-byte id payload; its id is stored and
    /// returned. Any other event leaves the state unchanged and keeps
    /// waiting.
    pub fn connect_step(&mut self, event: Option<TransportEvent>) -> (r: ConnectStep)
        requires
            old(self).wf(),
        ensures
            final(self).wf(),
            final(self).registry == old(self).registry,
            event matches Some(TransportEvent::Receive(data)) ==> if data@.len() == 4 {
                &&& r == ConnectStep::Connected(spec_u32_from_le_bytes(data@))
                &&& final(self).my_id == Some(spec_u32_from_le_bytes(data@))
            } else {
                &&& r == ConnectStep::Failed(ConnectError::MalformedHandshake)
                &&& final(self).my_id == old(self).my_id
            },
            !is_receive(event) ==> r == ConnectStep::Waiting && final(self).my_id == old(
                self,
            ).my_id,
    {
        match event {
            Some(TransportEvent::Receive(data)) => {
                match decode_handshake(&data) {
                    Some(id) => {
                        self.my_id = Some(id);
                        ConnectStep::Connected(id)
                    },
                    None => ConnectStep::Failed(ConnectError::MalformedHandshake),
                }
            },
            _ => ConnectStep::Waiting,
        }
    }

    /// Per-frame, non-blocking handling of one drained event. A received
    /// packet that decodes is recorded in the registry; a malformed packet is
    /// dropped and the connection kept alive; peer connect and disconnect
    /// events are ignored.
    pub fn handle_event(&mut self, event: Option<TransportEvent>) -> (r: Result<
        (),
        DecodeError,
    >)
        requires
            old(self).wf(),
        ensures
            final(self).wf(),
            final(self).my_id == old(self).my_id,
            event matches Some(TransportEvent::Receive(data)) ==> match spec_decode(data@) {
                Ok(p) => r is Ok && final(self).registry@ == spec_upsert(
                    old(self).registry@,
                    p,
                ),
                Err(e) => r == Err::<(), DecodeError>(e) && final(self).registry@ == old(
                    self,
                ).registry@,
            },
            !is_receive(event) ==> r is Ok && final(self).registry@ == old(self).registry@,
    {
        match event {
            Some(TransportEvent::Receive(data)) => {
                match decode_player_state(&data) {
                    Ok(state) => {
                        self.registry.upsert(state);
                        Ok(())
                    },
                    Err(e) => Err(e),
                }
            },
            _ => Ok(()),
        }
    }
}

} // verus!
