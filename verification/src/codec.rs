//! Wire format shared by the relay server and its clients.
//!
//! Two message shapes exist on the wire: a 4-byte little-endian integer sent
//! exactly once per connection (the id-assignment handshake), and a serialized
//! player state sent repeatedly. The player-state layout is fixed and
//! versionless: six 4-byte little-endian words (id, then the five scalar bit
//! patterns), an 8-byte little-endian byte length, then the skin identifier's
//! UTF-8 bytes. Encoding and decoding are exact inverses; malformed or
//! truncated input is rejected with a [`DecodeError`] and never panics.

use vstd::prelude::*;
use vstd::bytes::{
    spec_u32_from_le_bytes, spec_u32_to_le_bytes, spec_u64_from_le_bytes, spec_u64_to_le_bytes,
    u32_from_le_bytes, u32_to_le_bytes, u64_from_le_bytes, u64_to_le_bytes,
    lemma_auto_spec_u32_to_from_le_bytes, lemma_auto_spec_u64_to_from_le_bytes,
};
use vstd::slice::{slice_subrange, slice_to_vec};
use vstd::string::StrSliceExecFns;
use vstd::utf8::{
    decode_utf8, encode_utf8, valid_utf8, encode_utf8_decode_utf8, encode_utf8_valid_utf8,
    decode_utf8_encode_utf8,
};

verus! {

/// One player's state as carried over the wire and kept in the remote-player
/// registry. The position and orientation scalars are IEEE-754 single-precision
/// values; the protocol never interprets them, so this crate carries their
/// 32-bit patterns verbatim and the application converts at the boundary with
/// `f32::to_bits` / `f32::from_bits`.
#[derive(PartialEq, Eq, Debug)]
pub struct PlayerState {
    /// Connection id assigned once by the relay server.
    pub id: u32,
    pub position_x_bits: u32,
    pub position_y_bits: u32,
    pub position_z_bits: u32,
    pub yaw_bits: u32,
    pub pitch_bits: u32,
    /// Opaque skin identifier; the sole key of the asset resolver.
    pub skin: String,
}

/// Mathematical model of a [`PlayerState`]: the same words, with the skin as a
/// character sequence.
pub struct PlayerStateView {
    pub id: u32,
    pub position_x_bits: u32,
    pub position_y_bits: u32,
    pub position_z_bits: u32,
    pub yaw_bits: u32,
    pub pitch_bits: u32,
    pub skin: Seq<char>,
}

impl View for PlayerState {
    type V = PlayerStateView;

    open spec fn view(&self) -> PlayerStateView {
        PlayerStateView {
            id: self.id,
            position_x_bits: self.position_x_bits,
            position_y_bits: self.position_y_bits,
            position_z_bits: self.position_z_bits,
            yaw_bits: self.yaw_bits,
            pitch_bits: self.pitch_bits,
            skin: self.skin@,
        }
    }
}

impl Clone for PlayerState {
    fn clone(&self) -> (r: Self)
        ensures
            r@ == self@,
    {
        PlayerState {
            id: self.id,
            position_x_bits: self.position_x_bits,
            position_y_bits: self.position_y_bits,
            position_z_bits: self.position_z_bits,
            yaw_bits: self.yaw_bits,
            pitch_bits: self.pitch_bits,
            skin: self.skin.clone(),
        }
    }
}

/// Why a wire payload was rejected. A rejected packet is dropped; the
/// connection stays alive.
#[derive(Clone, Copy, PartialEq, Eq, Structural, Debug)]
pub enum DecodeError {
    /// Fewer bytes than the fixed 32-byte header.
    TooShort,
    /// The length field disagrees with the number of bytes that follow it.
    LengthMismatch,
    /// The skin bytes are not valid UTF-8.
    InvalidSkin,
}

/// Number of bytes before the skin identifier: six 4-byte words and the
/// 8-byte length field.
pub const HEADER_LEN: usize = 32;

/// The exact byte sequence that [`encode_player_state`] produces.
pub open spec fn spec_encode(p: PlayerStateView) -> Seq<u8> {
    spec_u32_to_le_bytes(p.id) + spec_u32_to_le_bytes(p.position_x_bits)
        + spec_u32_to_le_bytes(p.position_y_bits) + spec_u32_to_le_bytes(p.position_z_bits)
        + spec_u32_to_le_bytes(p.yaw_bits) + spec_u32_to_le_bytes(p.pitch_bits)
        + spec_u64_to_le_bytes(encode_utf8(p.skin).len() as u64) + encode_utf8(p.skin)
}

/// The exact result of [`decode_player_state`]: the state read back from the
/// bytes, or the reason the bytes are malformed.
pub open spec fn spec_decode(b: Seq<u8>) -> Result<PlayerStateView, DecodeError> {
    if b.len() < HEADER_LEN {
        Err(DecodeError::TooShort)
    } else if spec_u64_from_le_bytes(b.subrange(24, 32)) != b.len() - HEADER_LEN {
        Err(DecodeError::LengthMismatch)
    } else if !valid_utf8(b.subrange(32, b.len() as int)) {
        Err(DecodeError::InvalidSkin)
    } else {
        Ok(PlayerStateView {
            id: spec_u32_from_le_bytes(b.subrange(0, 4)),
            position_x_bits: spec_u32_from_le_bytes(b.subrange(4, 8)),
            position_y_bits: spec_u32_from_le_bytes(b.subrange(8, 12)),
            position_z_bits: spec_u32_from_le_bytes(b.subrange(12, 16)),
            yaw_bits: spec_u32_from_le_bytes(b.subrange(16, 20)),
            pitch_bits: spec_u32_from_le_bytes(b.subrange(20, 24)),
            skin: decode_utf8(b.subrange(32, b.len() as int)),
        })
    }
}

/// Serializes a state for the unreliable state channel.
pub fn encode_player_state(p: &PlayerState) -> (out: Vec<u8>)
    ensures
        out@ == spec_encode(p@),
{
    let mut out = u32_to_le_bytes(p.id);
    let mut word = u32_to_le_bytes(p.position_x_bits);
    out.append(&mut word);
    let mut word = u32_to_le_bytes(p.position_y_bits);
    out.append(&mut word);
    let mut word = u32_to_le_bytes(p.position_z_bits);
    out.append(&mut word);
    let mut word = u32_to_le_bytes(p.yaw_bits);
    out.append(&mut word);
    let mut word = u32_to_le_bytes(p.pitch_bits);
    out.append(&mut word);
    let mut skin_bytes = p.skin.as_str().as_bytes_vec();
    let mut len_bytes = u64_to_le_bytes(skin_bytes.len() as u64);
    out.append(&mut len_bytes);
    out.append(&mut skin_bytes);
    proof {
        assert(out@ =~= spec_encode(p@));
    }
    out
}

/// Relies on `String::from_utf8`: it succeeds exactly on valid UTF-8 input and
/// returns the decoded characters of that input.
#[verifier::external_body]
fn bytes_to_string(v: Vec<u8>) -> (r: Option<String>)
    ensures
        r is Some <==> valid_utf8(v@),
        r matches Some(s) ==> s@ == decode_utf8(v@),
{
    String::from_utf8(v).ok()
}

/// Parses a state packet. Succeeds on exactly the byte sequences that
/// [`encode_player_state`] produces; anything else reports which check failed.
pub fn decode_player_state(b: &Vec<u8>) -> (r: Result<PlayerState, DecodeError>)
    ensures
        match r {
            Ok(p) => spec_decode(b@) == Ok::<PlayerStateView, DecodeError>(p@),
            Err(e) => spec_decode(b@) == Err::<PlayerStateView, DecodeError>(e),
        },
{
    if b.len() < HEADER_LEN {
        return Err(DecodeError::TooShort);
    }
    let s = b.as_slice();
    let len_field = u64_from_le_bytes(slice_subrange(s, 24, 32));
    let rest = b.len() - HEADER_LEN;
    if len_field != rest as u64 {
        return Err(DecodeError::LengthMismatch);
    }
    let skin_bytes = slice_to_vec(slice_subrange(s, 32, b.len()));
    match bytes_to_string(skin_bytes) {
        Some(skin) => Ok(PlayerState {
            id: u32_from_le_bytes(slice_subrange(s, 0, 4)),
            position_x_bits: u32_from_le_bytes(slice_subrange(s, 4, 8)),
            position_y_bits: u32_from_le_bytes(slice_subrange(s, 8, 12)),
            position_z_bits: u32_from_le_bytes(slice_subrange(s, 12, 16)),
            yaw_bits: u32_from_le_bytes(slice_subrange(s, 16, 20)),
            pitch_bits: u32_from_le_bytes(slice_subrange(s, 20, 24)),
            skin,
        }),
        None => Err(DecodeError::InvalidSkin),
    }
}

/// Decoding inverts encoding: reading back an encoded state yields that state,
/// for every state whose skin encoding fits the 8-byte length field.
pub proof fn lemma_encode_decode(p: PlayerStateView)
    requires
        encode_utf8(p.skin).len() <= u64::MAX,
    ensures
        spec_decode(spec_encode(p)) == Ok::<PlayerStateView, DecodeError>(p),
{
    lemma_auto_spec_u32_to_from_le_bytes();
    lemma_auto_spec_u64_to_from_le_bytes();
    broadcast use encode_utf8_valid_utf8, encode_utf8_decode_utf8;

    let b = spec_encode(p);
    let skin_bytes = encode_utf8(p.skin);
    assert(b.subrange(0, 4) =~= spec_u32_to_le_bytes(p.id));
    assert(b.subrange(4, 8) =~= spec_u32_to_le_bytes(p.position_x_bits));
    assert(b.subrange(8, 12) =~= spec_u32_to_le_bytes(p.position_y_bits));
    assert(b.subrange(12, 16) =~= spec_u32_to_le_bytes(p.position_z_bits));
    assert(b.subrange(16, 20) =~= spec_u32_to_le_bytes(p.yaw_bits));
    assert(b.subrange(20, 24) =~= spec_u32_to_le_bytes(p.pitch_bits));
    assert(b.subrange(24, 32) =~= spec_u64_to_le_bytes(skin_bytes.len() as u64));
    assert(b.subrange(32, b.len() as int) =~= skin_bytes);
}

/// Encoding inverts decoding: any byte sequence that decodes successfully is
/// reproduced exactly by re-encoding the decoded state, so each valid state
/// has one wire image and each valid wire image one state.
pub proof fn lemma_decode_encode(b: Seq<u8>, p: PlayerStateView)
    requires
        spec_decode(b) == Ok::<PlayerStateView, DecodeError>(p),
    ensures
        spec_encode(p) == b,
{
    lemma_auto_spec_u32_to_from_le_bytes();
    lemma_auto_spec_u64_to_from_le_bytes();
    let tail = b.subrange(32, b.len() as int);
    decode_utf8_encode_utf8(tail);
    assert(encode_utf8(p.skin) == tail);
    assert(spec_encode(p) =~= b);
}

/// Payload of the id-assignment handshake: the id as 4 little-endian bytes.
pub fn encode_handshake(id: u32) -> (out: Vec<u8>)
    ensures
        out@ == spec_u32_to_le_bytes(id),
{
    u32_to_le_bytes(id)
}

/// Reads an assigned id out of a handshake packet; any payload that is not
/// exactly 4 bytes is malformed.
pub fn decode_handshake(data: &Vec<u8>) -> (r: Option<u32>)
    ensures
        r is Some <==> data@.len() == 4,
        r matches Some(id) ==> id == spec_u32_from_le_bytes(data@),
{
    if data.len() == 4 {
        Some(u32_from_le_bytes(data.as_slice()))
    } else {
        None
    }
}

} // verus!
