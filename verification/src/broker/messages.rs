use vstd::bytes::{
    lemma_auto_spec_u16_to_from_le_bytes, lemma_auto_spec_u32_to_from_le_bytes,
    spec_u16_from_le_bytes, spec_u16_to_le_bytes, spec_u32_from_le_bytes, u16_from_le_bytes,
    u32_from_le_bytes,
};
use vstd::prelude::*;

verus! {

pub const TAG_SUBSCRIBE: u8 = 0x01;
pub const TAG_UNSUBSCRIBE: u8 = 0x02;
pub const TAG_PUBLISH: u8 = 0x03;
pub const TAG_BROADCAST: u8 = 0x04;
pub const TAG_CLIENT_INPUT: u8 = 0x05;

/// A frame exchanged between the broker and its clients.
#[derive(Debug, Clone)]
pub enum BrokerMessage {
    Subscribe { client_id: u32, topic: [u8; 32] },
    Unsubscribe { client_id: u32, topic: [u8; 32] },
    Publish { topic: [u8; 32], payload: Vec<u8> },
    Broadcast { payload: Vec<u8> },
    ClientInput { client_id: u32, input: [u8; 16] },
}

/// The abstract value of a broker frame: fixed-size fields as byte
/// sequences.
pub enum BrokerMessageView {
    Subscribe { client_id: u32, topic: Seq<u8> },
    Unsubscribe { client_id: u32, topic: Seq<u8> },
    Publish { topic: Seq<u8>, payload: Seq<u8> },
    Broadcast { payload: Seq<u8> },
    ClientInput { client_id: u32, input: Seq<u8> },
}

impl View for BrokerMessage {
    type V = BrokerMessageView;

    open spec fn view(&self) -> BrokerMessageView {
        match self {
            BrokerMessage::Subscribe { client_id, topic } => BrokerMessageView::Subscribe {
                client_id: *client_id,
                topic: topic@,
            },
            BrokerMessage::Unsubscribe { client_id, topic } => BrokerMessageView::Unsubscribe {
                client_id: *client_id,
                topic: topic@,
            },
            BrokerMessage::Publish { topic, payload } => BrokerMessageView::Publish {
                topic: topic@,
                payload: payload@,
            },
            BrokerMessage::Broadcast { payload } => BrokerMessageView::Broadcast {
                payload: payload@,
            },
            BrokerMessage::ClientInput { client_id, input } => BrokerMessageView::ClientInput {
                client_id: *client_id,
                input: input@,
            },
        }
    }
}

/// What an inbound frame means. After the tag byte:
/// - subscribe and unsubscribe: client id (4 bytes, little-endian), topic
///   (32 bytes);
/// - publish: topic (32 bytes), payload length (2 bytes, little-endian),
///   payload;
/// - client input: client id (4 bytes), input (16 bytes).
/// Bytes past those fields are ignored. A frame that is too short, empty,
/// or has another tag (broadcasts are outbound only) means nothing.
pub open spec fn parse_frame(data: Seq<u8>) -> Option<BrokerMessageView> {
    if data.len() == 0 {
        None
    } else {
        let tag = data[0];
        let body = data.subrange(1, data.len() as int);
        if tag == TAG_SUBSCRIBE || tag == TAG_UNSUBSCRIBE {
            if body.len() < 36 {
                None
            } else {
                let client_id = spec_u32_from_le_bytes(body.subrange(0, 4));
                let topic = body.subrange(4, 36);
                if tag == TAG_SUBSCRIBE {
                    Some(BrokerMessageView::Subscribe { client_id, topic })
                } else {
                    Some(BrokerMessageView::Unsubscribe { client_id, topic })
                }
            }
        } else if tag == TAG_PUBLISH {
            if body.len() < 34 {
                None
            } else {
                let len = spec_u16_from_le_bytes(body.subrange(32, 34)) as int;
                if body.len() < 34 + len {
                    None
                } else {
                    Some(
                        BrokerMessageView::Publish {
                            topic: body.subrange(0, 32),
                            payload: body.subrange(34, 34 + len),
                        },
                    )
                }
            }
        } else if tag == TAG_CLIENT_INPUT {
            if body.len() < 20 {
                None
            } else {
                Some(
                    BrokerMessageView::ClientInput {
                        client_id: spec_u32_from_le_bytes(body.subrange(0, 4)),
                        input: body.subrange(4, 20),
                    },
                )
            }
        } else {
            None
        }
    }
}

/// Bytes after a frame are ignored: a frame that means something means the
/// same with any bytes appended.
pub proof fn law_trailing_bytes_ignored(data: Seq<u8>, suffix: Seq<u8>)
    requires
        parse_frame(data) is Some,
    ensures
        parse_frame(data + suffix) == parse_frame(data),
{
    let whole = data + suffix;
    let body = data.subrange(1, data.len() as int);
    let longer = whole.subrange(1, whole.len() as int);
    assert(whole[0] == data[0]);
    assert forall|a: int, b: int| 0 <= a <= b <= body.len() implies #[trigger] longer.subrange(a, b)
        == body.subrange(a, b) by {
        assert(longer.subrange(a, b) =~= body.subrange(a, b));
    }
    let tag = data[0];
    if tag == TAG_SUBSCRIBE || tag == TAG_UNSUBSCRIBE {
        assert(longer.subrange(0, 4) == body.subrange(0, 4));
        assert(longer.subrange(4, 36) == body.subrange(4, 36));
    } else if tag == TAG_PUBLISH {
        assert(longer.subrange(32, 34) == body.subrange(32, 34));
        let len = spec_u16_from_le_bytes(body.subrange(32, 34)) as int;
        assert(longer.subrange(0, 32) == body.subrange(0, 32));
        assert(longer.subrange(34, 34 + len) == body.subrange(34, 34 + len));
    } else {
        assert(longer.subrange(0, 4) == body.subrange(0, 4));
        assert(longer.subrange(4, 20) == body.subrange(4, 20));
    }
}

/// The outbound broadcast frame for a payload: the broadcast tag, the
/// payload length as two little-endian bytes (taken modulo 2^16, as the
/// length field is 16 bits wide), then the payload.
pub open spec fn broadcast_frame(payload: Seq<u8>) -> Seq<u8> {
    seq![TAG_BROADCAST] + spec_u16_to_le_bytes((payload.len() % 65536) as u16) + payload
}

/// Copies `len` bytes of `data` starting at `start`.
pub(crate) fn copy_range(data: &[u8], start: usize, len: usize) -> (v: Vec<u8>)
    requires
        start + len <= data@.len(),
    ensures
        v@ == data@.subrange(start as int, start + len),
{
    let mut v: Vec<u8> = Vec::with_capacity(len);
    let mut i: usize = 0;
    let n = data.len();
    while i < len
        invariant
            i <= len,
            n == data@.len(),
            start + len <= data@.len(),
            v@ == data@.subrange(start as int, start + i),
        decreases len - i,
    {
        v.push(data[start + i]);
        proof {
            assert(data@.subrange(start as int, start + i + 1) =~= data@.subrange(start as int, start + i).push(data@[start + i]));
        }
        i = i + 1;
    }
    v
}

/// Copies 32 bytes of `data` from `start` into a fixed-size array.
fn copy_array_32(data: &[u8], start: usize) -> (a: [u8; 32])
    requires
        start + 32 <= data@.len(),
    ensures
        a@ == data@.subrange(start as int, start + 32),
{
    let mut a = [0u8; 32];
    let mut i: usize = 0;
    let n = data.len();
    while i < 32
        invariant
            i <= 32,
            n == data@.len(),
            start + 32 <= data@.len(),
            a@.len() == 32,
            forall|j: int| 0 <= j < i ==> a@[j] == data@[start + j],
        decreases 32 - i,
    {
        a[i] = data[start + i];
        i = i + 1;
    }
    proof {
        assert(a@ =~= data@.subrange(start as int, start + 32));
    }
    a
}

fn copy_array_16(data: &[u8], start: usize) -> (a: [u8; 16])
    requires
        start + 16 <= data@.len(),
    ensures
        a@ == data@.subrange(start as int, start + 16),
{
    let mut a = [0u8; 16];
    let mut i: usize = 0;
    let n = data.len();
    while i < 16
        invariant
            i <= 16,
            n == data@.len(),
            start + 16 <= data@.len(),
            a@.len() == 16,
            forall|j: int| 0 <= j < i ==> a@[j] == data@[start + j],
        decreases 16 - i,
    {
        a[i] = data[start + i];
        i = i + 1;
    }
    proof {
        assert(a@ =~= data@.subrange(start as int, start + 16));
    }
    a
}

impl BrokerMessage {
    /// Decodes an inbound frame; `None` for frames that mean nothing.
    pub fn deserialize(data: &[u8]) -> (res: Option<BrokerMessage>)
        ensures
            res is None <==> parse_frame(data@) is None,
            res matches Some(m) ==> parse_frame(data@) == Some(m@),
    {
        if data.len() == 0 {
            return None;
        }
        let tag = data[0];
        let n = data.len();
        let ghost body = data@.subrange(1, n as int);
        if tag == TAG_SUBSCRIBE || tag == TAG_UNSUBSCRIBE {
            if n - 1 < 36 {
                return None;
            }
            proof {
                assert(body.subrange(0, 4) =~= data@.subrange(1, 5));
                assert(body.subrange(4, 36) =~= data@.subrange(5, 37));
            }
            let client_id = u32_from_le_bytes(&data[1..5]);
            let topic = copy_array_32(data, 5);
            if tag == TAG_SUBSCRIBE {
                Some(BrokerMessage::Subscribe { client_id, topic })
            } else {
                Some(BrokerMessage::Unsubscribe { client_id, topic })
            }
        } else if tag == TAG_PUBLISH {
            if n - 1 < 34 {
                return None;
            }
            proof {
                assert(body.subrange(0, 32) =~= data@.subrange(1, 33));
                assert(body.subrange(32, 34) =~= data@.subrange(33, 35));
            }
            let topic = copy_array_32(data, 1);
            let payload_len = u16_from_le_bytes(&data[33..35]) as usize;
            if n - 1 < 34 + payload_len {
                return None;
            }
            let payload = copy_range(data, 35, payload_len);
            proof {
                assert(body.subrange(34, 34 + payload_len) =~= data@.subrange(35, 35 + payload_len));
            }
            Some(BrokerMessage::Publish { topic, payload })
        } else if tag == TAG_CLIENT_INPUT {
            if n - 1 < 20 {
                return None;
            }
            proof {
                assert(body.subrange(0, 4) =~= data@.subrange(1, 5));
                assert(body.subrange(4, 20) =~= data@.subrange(5, 21));
            }
            let client_id = u32_from_le_bytes(&data[1..5]);
            let input = copy_array_16(data, 5);
            Some(BrokerMessage::ClientInput { client_id, input })
        } else {
            None
        }
    }

    /// Serializes a payload into the broadcast frame sent to subscribers.
    pub fn serialize_broadcast(payload: &[u8]) -> (frame: Vec<u8>)
        ensures
            frame@ == broadcast_frame(payload@),
    {
        let plen = payload.len();
        let mut buffer: Vec<u8> = Vec::with_capacity(3 + plen % 65536);
        buffer.push(TAG_BROADCAST);
        #[verifier::truncate]
        let len = plen as u16;
        proof {
            assert(len == (plen % 65536) as u16) by (bit_vector)
                requires
                    len == plen as u16,
            ;
        }
        let mut len_bytes = vstd::bytes::u16_to_le_bytes(len);
        buffer.append(&mut len_bytes);
        let mut i: usize = 0;
        let ghost head = buffer@;
        while i < payload.len()
            invariant
                i <= payload@.len(),
                buffer@ == head + payload@.take(i as int),
            decreases payload@.len() - i,
        {
            buffer.push(payload[i]);
            proof {
                assert(payload@.take(i + 1) =~= payload@.take(i as int).push(payload@[i as int]));
            }
            i = i + 1;
        }
        proof {
            assert(payload@.take(payload@.len() as int) =~= payload@);
        }
        buffer
    }
}

/// A broadcast frame is never accepted as an inbound message: broadcasts
/// only flow from the broker to its clients.
pub proof fn law_broadcast_is_outbound_only(payload: Seq<u8>)
    ensures
        parse_frame(broadcast_frame(payload)) is None,
{
    assert(broadcast_frame(payload)[0] == TAG_BROADCAST);
}

} // verus!
