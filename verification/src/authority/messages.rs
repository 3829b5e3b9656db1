use crate::geometry::Vec2;
use crate::wire::{
    bytes_contents, bytes_mut_contents, extend_from_slice, freeze, get_u8, new_buffer, put_u32_le,
    put_u8,
};
use bytes::Bytes;
use vstd::bytes::{lemma_auto_spec_u32_to_from_le_bytes, spec_u32_from_le_bytes, spec_u32_to_le_bytes, u32_from_le_bytes};
use vstd::prelude::*;

verus! {

pub const TAG_HANDOFF_REQUEST: u8 = 0x20;
pub const TAG_HANDOFF_ACCEPT: u8 = 0x21;
pub const TAG_HANDOFF_REJECT: u8 = 0x22;
pub const TAG_GHOST_UPDATE: u8 = 0x23;
pub const TAG_HANDOFF_COMPLETE: u8 = 0x24;

pub const TAG_SIZE: usize = 1;
pub const U32_SIZE: usize = 4;
pub const VEC2_SIZE: usize = 8;
pub const STATE_SIZE: usize = 64;
pub const HANDOFF_REQUEST_SIZE: usize = 85;

/// Handoff request sent from one shard to another.
#[derive(Debug, Clone, Copy, PartialEq)]
pub struct HandoffRequest {
    pub entity_id: u32,
    pub pos: Vec2,
    pub vel: Vec2,
    pub state: [u8; 64],
}

/// Positive handoff reply.
#[derive(Debug, Clone, Copy, PartialEq, Eq, Structural)]
pub struct HandoffAccept {
    pub entity_id: u32,
}

/// Negative handoff reply.
#[derive(Debug, Clone, Copy, PartialEq, Eq, Structural)]
pub struct HandoffReject {
    pub entity_id: u32,
}

/// Lightweight position update for a ghost entity.
#[derive(Debug, Clone, Copy, PartialEq, Eq, Structural)]
pub struct GhostUpdate {
    pub entity_id: u32,
    pub pos: Vec2,
}

/// Final handoff signal once authority is transferred.
#[derive(Debug, Clone, Copy, PartialEq, Eq, Structural)]
pub struct HandoffComplete {
    pub entity_id: u32,
}

/// Typed envelope for all authority messages.
#[derive(Debug, Clone, Copy, PartialEq)]
pub enum AuthorityEnvelope {
    HandoffRequest(HandoffRequest),
    HandoffAccept(HandoffAccept),
    HandoffReject(HandoffReject),
    GhostUpdate(GhostUpdate),
    HandoffComplete(HandoffComplete),
}

/// Codec errors for authority packets.
#[derive(Debug, Clone, Copy, PartialEq, Eq, Structural)]
pub enum AuthorityCodecError {
    EmptyPacket,
    InvalidTag(u8),
    Truncated,
    TrailingBytes,
}

/// Wire bytes of a vector: both coordinates, little-endian.
pub open spec fn vec2_bytes(v: Vec2) -> Seq<u8> {
    spec_u32_to_le_bytes(v.x) + spec_u32_to_le_bytes(v.y)
}

/// The wire form of a message: its tag byte, then its fields in order,
/// integers and coordinates little-endian, the request state verbatim.
pub open spec fn encoding(m: AuthorityEnvelope) -> Seq<u8> {
    match m {
        AuthorityEnvelope::HandoffRequest(r) => seq![TAG_HANDOFF_REQUEST] + spec_u32_to_le_bytes(
            r.entity_id,
        ) + vec2_bytes(r.pos) + vec2_bytes(r.vel) + r.state@,
        AuthorityEnvelope::HandoffAccept(a) => seq![TAG_HANDOFF_ACCEPT] + spec_u32_to_le_bytes(
            a.entity_id,
        ),
        AuthorityEnvelope::HandoffReject(r) => seq![TAG_HANDOFF_REJECT] + spec_u32_to_le_bytes(
            r.entity_id,
        ),
        AuthorityEnvelope::GhostUpdate(g) => seq![TAG_GHOST_UPDATE] + spec_u32_to_le_bytes(
            g.entity_id,
        ) + vec2_bytes(g.pos),
        AuthorityEnvelope::HandoffComplete(c) => seq![TAG_HANDOFF_COMPLETE] + spec_u32_to_le_bytes(
            c.entity_id,
        ),
    }
}

/// Length of the body that follows a known tag, or `None` for an unknown tag.
pub open spec fn body_len(tag: u8) -> Option<nat> {
    if tag == TAG_HANDOFF_REQUEST {
        Some(84)
    } else if tag == TAG_HANDOFF_ACCEPT || tag == TAG_HANDOFF_REJECT || tag == TAG_HANDOFF_COMPLETE {
        Some(4)
    } else if tag == TAG_GHOST_UPDATE {
        Some(12)
    } else {
        None
    }
}

/// A packet decodes exactly when it has a known tag followed by a body of
/// that tag's length.
pub open spec fn well_framed(raw: Seq<u8>) -> bool {
    &&& raw.len() > 0
    &&& body_len(raw[0]) is Some
    &&& raw.len() == 1 + body_len(raw[0])->0
}

/// The error a malformed packet is rejected with.
pub open spec fn decode_error(raw: Seq<u8>) -> AuthorityCodecError {
    if raw.len() == 0 {
        AuthorityCodecError::EmptyPacket
    } else if body_len(raw[0]) is None {
        AuthorityCodecError::InvalidTag(raw[0])
    } else if raw.len() < 1 + body_len(raw[0])->0 {
        AuthorityCodecError::Truncated
    } else {
        AuthorityCodecError::TrailingBytes
    }
}

impl AuthorityEnvelope {
    /// Encodes the message to the wire format.
    pub fn encode(&self) -> (out: Bytes)
        ensures
            bytes_contents(out) == encoding(*self),
    {
        proof {
            lemma_auto_spec_u32_to_from_le_bytes();
        }
        let mut bytes = new_buffer(HANDOFF_REQUEST_SIZE);
        match self {
            AuthorityEnvelope::HandoffRequest(message) => {
                put_u8(&mut bytes, TAG_HANDOFF_REQUEST);
                put_u32_le(&mut bytes, message.entity_id);
                put_u32_le(&mut bytes, message.pos.x);
                put_u32_le(&mut bytes, message.pos.y);
                put_u32_le(&mut bytes, message.vel.x);
                put_u32_le(&mut bytes, message.vel.y);
                extend_from_slice(&mut bytes, message.state.as_slice());
            },
            AuthorityEnvelope::HandoffAccept(message) => {
                put_u8(&mut bytes, TAG_HANDOFF_ACCEPT);
                put_u32_le(&mut bytes, message.entity_id);
            },
            AuthorityEnvelope::HandoffReject(message) => {
                put_u8(&mut bytes, TAG_HANDOFF_REJECT);
                put_u32_le(&mut bytes, message.entity_id);
            },
            AuthorityEnvelope::GhostUpdate(message) => {
                put_u8(&mut bytes, TAG_GHOST_UPDATE);
                put_u32_le(&mut bytes, message.entity_id);
                put_u32_le(&mut bytes, message.pos.x);
                put_u32_le(&mut bytes, message.pos.y);
            },
            AuthorityEnvelope::HandoffComplete(message) => {
                put_u8(&mut bytes, TAG_HANDOFF_COMPLETE);
                put_u32_le(&mut bytes, message.entity_id);
            },
        }
        proof {
            assert(bytes_mut_contents(bytes) =~= encoding(*self));
        }
        freeze(bytes)
    }
}


impl AuthorityEnvelope {
    /// Decodes a wire packet into a typed message. It succeeds exactly on
    /// well-framed packets, and then the message is the one whose encoding
    /// the packet is; otherwise it names what is wrong with the packet.
    pub fn decode(raw: &[u8]) -> (res: Result<AuthorityEnvelope, AuthorityCodecError>)
        ensures
            res is Ok <==> well_framed(raw@),
            res matches Ok(m) ==> encoding(m) == raw@,
            res matches Err(e) ==> e == decode_error(raw@),
    {
        proof {
            lemma_auto_spec_u32_to_from_le_bytes();
        }
        if raw.len() == 0 {
            return Err(AuthorityCodecError::EmptyPacket);
        }
        let (tag, rest) = get_u8(raw);
        let mut cursor = rest;
        let ghost body = cursor@;
        let message = if tag == TAG_HANDOFF_REQUEST {
            let entity_id = read_u32(&mut cursor)?;
            let pos = read_vec2(&mut cursor)?;
            let vel = read_vec2(&mut cursor)?;
            let state = read_fixed_64(&mut cursor)?;
            AuthorityEnvelope::HandoffRequest(HandoffRequest { entity_id, pos, vel, state })
        } else if tag == TAG_HANDOFF_ACCEPT {
            let entity_id = read_u32(&mut cursor)?;
            AuthorityEnvelope::HandoffAccept(HandoffAccept { entity_id })
        } else if tag == TAG_HANDOFF_REJECT {
            let entity_id = read_u32(&mut cursor)?;
            AuthorityEnvelope::HandoffReject(HandoffReject { entity_id })
        } else if tag == TAG_GHOST_UPDATE {
            let entity_id = read_u32(&mut cursor)?;
            let pos = read_vec2(&mut cursor)?;
            AuthorityEnvelope::GhostUpdate(GhostUpdate { entity_id, pos })
        } else if tag == TAG_HANDOFF_COMPLETE {
            let entity_id = read_u32(&mut cursor)?;
            AuthorityEnvelope::HandoffComplete(HandoffComplete { entity_id })
        } else {
            return Err(AuthorityCodecError::InvalidTag(tag));
        };
        if cursor.len() != 0 {
            return Err(AuthorityCodecError::TrailingBytes);
        }
        proof {
            assert(raw@ =~= seq![tag] + body);
            assert(encoding(message) =~= raw@);
        }
        Ok(message)
    }
}

/// Reads a little-endian u32 from the cursor and advances it past the four
/// bytes read.
pub fn read_u32(cursor: &mut &[u8]) -> (r: Result<u32, AuthorityCodecError>)
    ensures
        old(cursor)@.len() < 4 ==> r == Err::<u32, AuthorityCodecError>(AuthorityCodecError::Truncated),
        old(cursor)@.len() < 4 ==> final(cursor)@ == old(cursor)@,
        old(cursor)@.len() >= 4 ==> {
            &&& r matches Ok(x)
            &&& spec_u32_to_le_bytes(x) == old(cursor)@.subrange(0, 4)
            &&& final(cursor)@ == old(cursor)@.subrange(4, old(cursor)@.len() as int)
        },
{
    proof {
        lemma_auto_spec_u32_to_from_le_bytes();
    }
    if cursor.len() < 4 {
        return Err(AuthorityCodecError::Truncated);
    }
    let x = u32_from_le_bytes(&cursor[0..4]);
    let n = cursor.len();
    *cursor = &cursor[4..n];
    Ok(x)
}

/// Reads the bit patterns of a vector's two coordinates, little-endian.
pub fn read_vec2(cursor: &mut &[u8]) -> (r: Result<Vec2, AuthorityCodecError>)
    ensures
        old(cursor)@.len() < 8 ==> r == Err::<Vec2, AuthorityCodecError>(AuthorityCodecError::Truncated),
        old(cursor)@.len() < 4 ==> final(cursor)@ == old(cursor)@,
        4 <= old(cursor)@.len() < 8 ==> final(cursor)@ == old(cursor)@.subrange(4, old(cursor)@.len() as int),
        old(cursor)@.len() >= 8 ==> {
            &&& r matches Ok(v)
            &&& vec2_bytes(v) == old(cursor)@.subrange(0, 8)
            &&& final(cursor)@ == old(cursor)@.subrange(8, old(cursor)@.len() as int)
        },
{
    let ghost start = cursor@;
    let x = read_f32(cursor)?;
    let y = read_f32(cursor)?;
    proof {
        assert(vec2_bytes(Vec2 { x, y }) =~= start.subrange(0, 8));
        assert(cursor@ =~= start.subrange(8, start.len() as int));
    }
    Ok(Vec2 { x, y })
}

/// Reads the bit pattern of a single-precision coordinate, little-endian.
pub fn read_f32(cursor: &mut &[u8]) -> (r: Result<u32, AuthorityCodecError>)
    ensures
        old(cursor)@.len() < 4 ==> r == Err::<u32, AuthorityCodecError>(AuthorityCodecError::Truncated),
        old(cursor)@.len() < 4 ==> final(cursor)@ == old(cursor)@,
        old(cursor)@.len() >= 4 ==> {
            &&& r matches Ok(x)
            &&& spec_u32_to_le_bytes(x) == old(cursor)@.subrange(0, 4)
            &&& final(cursor)@ == old(cursor)@.subrange(4, old(cursor)@.len() as int)
        },
{
    read_u32(cursor)
}

/// Reads the fixed 64-byte authority state payload.
pub fn read_fixed_64(cursor: &mut &[u8]) -> (r: Result<[u8; 64], AuthorityCodecError>)
    ensures
        old(cursor)@.len() < 64 ==> r == Err::<[u8; 64], AuthorityCodecError>(AuthorityCodecError::Truncated),
        old(cursor)@.len() < 64 ==> final(cursor)@ == old(cursor)@,
        old(cursor)@.len() >= 64 ==> {
            &&& r matches Ok(p)
            &&& p@ == old(cursor)@.subrange(0, 64)
            &&& final(cursor)@ == old(cursor)@.subrange(64, old(cursor)@.len() as int)
        },
{
    if cursor.len() < 64 {
        return Err(AuthorityCodecError::Truncated);
    }
    let mut payload = [0u8; 64];
    let mut i: usize = 0;
    while i < 64
        invariant
            i <= 64,
            cursor@.len() >= 64,
            payload@.len() == 64,
            forall|j: int| 0 <= j < i ==> payload@[j] == cursor@[j],
        decreases 64 - i,
    {
        payload[i] = cursor[i];
        i = i + 1;
    }
    proof {
        assert(payload@ =~= cursor@.subrange(0, 64));
    }
    let n = cursor.len();
    *cursor = &cursor[64..n];
    Ok(payload)
}


/// The tag byte a message is sent under.
pub open spec fn tag_of(m: AuthorityEnvelope) -> u8 {
    match m {
        AuthorityEnvelope::HandoffRequest(_) => TAG_HANDOFF_REQUEST,
        AuthorityEnvelope::HandoffAccept(_) => TAG_HANDOFF_ACCEPT,
        AuthorityEnvelope::HandoffReject(_) => TAG_HANDOFF_REJECT,
        AuthorityEnvelope::GhostUpdate(_) => TAG_GHOST_UPDATE,
        AuthorityEnvelope::HandoffComplete(_) => TAG_HANDOFF_COMPLETE,
    }
}

/// Every encoded message is a well-framed packet: its tag byte comes first
/// and the body has that tag's length (a request is 85 bytes in all).
pub proof fn lemma_encoding_well_framed(m: AuthorityEnvelope)
    ensures
        well_framed(encoding(m)),
        encoding(m)[0] == tag_of(m),
        encoding(m).len() == 1 + body_len(tag_of(m))->0,
{
    lemma_auto_spec_u32_to_from_le_bytes();
}

/// Two messages with the same wire form are the same message.
pub proof fn lemma_encoding_injective(m1: AuthorityEnvelope, m2: AuthorityEnvelope)
    requires
        encoding(m1) == encoding(m2),
    ensures
        m1 == m2,
{
    lemma_auto_spec_u32_to_from_le_bytes();
    lemma_encoding_well_framed(m1);
    lemma_encoding_well_framed(m2);
    let e = encoding(m1);
    match (m1, m2) {
        (AuthorityEnvelope::HandoffRequest(a), AuthorityEnvelope::HandoffRequest(b)) => {
            assert(e.subrange(1, 5) =~= spec_u32_to_le_bytes(a.entity_id));
            assert(e.subrange(1, 5) =~= spec_u32_to_le_bytes(b.entity_id));
            assert(e.subrange(5, 9) =~= spec_u32_to_le_bytes(a.pos.x));
            assert(e.subrange(5, 9) =~= spec_u32_to_le_bytes(b.pos.x));
            assert(e.subrange(9, 13) =~= spec_u32_to_le_bytes(a.pos.y));
            assert(e.subrange(9, 13) =~= spec_u32_to_le_bytes(b.pos.y));
            assert(e.subrange(13, 17) =~= spec_u32_to_le_bytes(a.vel.x));
            assert(e.subrange(13, 17) =~= spec_u32_to_le_bytes(b.vel.x));
            assert(e.subrange(17, 21) =~= spec_u32_to_le_bytes(a.vel.y));
            assert(e.subrange(17, 21) =~= spec_u32_to_le_bytes(b.vel.y));
            assert(e.subrange(21, 85) =~= a.state@);
            assert(e.subrange(21, 85) =~= b.state@);
            assert(a.state =~= b.state);
        },
        (AuthorityEnvelope::HandoffAccept(a), AuthorityEnvelope::HandoffAccept(b)) => {
            assert(e.subrange(1, 5) =~= spec_u32_to_le_bytes(a.entity_id));
            assert(e.subrange(1, 5) =~= spec_u32_to_le_bytes(b.entity_id));
        },
        (AuthorityEnvelope::HandoffReject(a), AuthorityEnvelope::HandoffReject(b)) => {
            assert(e.subrange(1, 5) =~= spec_u32_to_le_bytes(a.entity_id));
            assert(e.subrange(1, 5) =~= spec_u32_to_le_bytes(b.entity_id));
        },
        (AuthorityEnvelope::GhostUpdate(a), AuthorityEnvelope::GhostUpdate(b)) => {
            assert(e.subrange(1, 5) =~= spec_u32_to_le_bytes(a.entity_id));
            assert(e.subrange(1, 5) =~= spec_u32_to_le_bytes(b.entity_id));
            assert(e.subrange(5, 9) =~= spec_u32_to_le_bytes(a.pos.x));
            assert(e.subrange(5, 9) =~= spec_u32_to_le_bytes(b.pos.x));
            assert(e.subrange(9, 13) =~= spec_u32_to_le_bytes(a.pos.y));
            assert(e.subrange(9, 13) =~= spec_u32_to_le_bytes(b.pos.y));
        },
        (AuthorityEnvelope::HandoffComplete(a), AuthorityEnvelope::HandoffComplete(b)) => {
            assert(e.subrange(1, 5) =~= spec_u32_to_le_bytes(a.entity_id));
            assert(e.subrange(1, 5) =~= spec_u32_to_le_bytes(b.entity_id));
        },
        _ => {
            assert(tag_of(m1) == tag_of(m2));
        },
    }
}

/// Decoding gives back what was encoded: the wire form of any message is
/// accepted by the decoder, and the only message it can decode to is the
/// message itself.
pub proof fn law_decode_inverts_encode(m: AuthorityEnvelope)
    ensures
        well_framed(encoding(m)),
        forall|d: AuthorityEnvelope| #[trigger] encoding(d) == encoding(m) ==> d == m,
{
    lemma_encoding_well_framed(m);
    assert forall|d: AuthorityEnvelope| #[trigger] encoding(d) == encoding(m) implies d == m by {
        lemma_encoding_injective(d, m);
    }
}

} // verus!
