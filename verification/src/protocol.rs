//! The wire codec for the signed datagram protocol: a frame is the device's
//! hardware address, a little-endian timestamp, a type byte and a payload,
//! followed by the HMAC-SHA1 tag of everything before it. Parsing rejects
//! short frames and frames whose recomputed tag differs, using a comparison
//! that reads every tag byte regardless of where a mismatch lies.

use vstd::prelude::*;

use crate::vm::{le32_at, now_unix_seconds};

verus! {

/// A hardware address: six bytes.
#[derive(Clone, Copy, Debug, PartialEq, Eq, Structural)]
pub struct MacAddr {
    pub b0: u8,
    pub b1: u8,
    pub b2: u8,
    pub b3: u8,
    pub b4: u8,
    pub b5: u8,
}

impl View for MacAddr {
    type V = Seq<u8>;

    open spec fn view(&self) -> Seq<u8> {
        seq![self.b0, self.b1, self.b2, self.b3, self.b4, self.b5]
    }
}

/// The address held in the first six bytes of a buffer.
pub open spec fn mac_of(s: Seq<u8>) -> MacAddr {
    MacAddr { b0: s[0], b1: s[1], b2: s[2], b3: s[3], b4: s[4], b5: s[5] }
}

impl MacAddr {
    /// The all-zeros address, used by the server as the source of its
    /// replies.
    pub fn nil() -> (r: MacAddr)
        ensures
            r@ == seq![0u8, 0u8, 0u8, 0u8, 0u8, 0u8],
    {
        MacAddr { b0: 0, b1: 0, b2: 0, b3: 0, b4: 0, b5: 0 }
    }

    /// Read an address from the first six bytes of a buffer.
    pub fn from_bytes(buffer: &[u8]) -> (r: MacAddr)
        requires
            buffer@.len() >= 6,
        ensures
            r@ == buffer@.subrange(0, 6),
            r == mac_of(buffer@),
    {
        let r = MacAddr {
            b0: buffer[0],
            b1: buffer[1],
            b2: buffer[2],
            b3: buffer[3],
            b4: buffer[4],
            b5: buffer[5],
        };
        proof {
            assert(r@ =~= buffer@.subrange(0, 6));
        }
        r
    }

    /// The address packed into one word, highest byte first: a canonical key
    /// for tables indexed by device.
    pub open spec fn spec_key(self) -> u64 {
        ((self.b0 as int) * 0x100_0000_0000 + (self.b1 as int) * 0x1_0000_0000 + (self.b2 as int)
            * 0x100_0000 + (self.b3 as int) * 0x1_0000 + (self.b4 as int) * 0x100 + (self.b5
            as int)) as u64
    }

    pub fn key(&self) -> (r: u64)
        ensures
            r == self.spec_key(),
    {
        (self.b0 as u64) * 0x100_0000_0000 + (self.b1 as u64) * 0x1_0000_0000 + (self.b2 as u64)
            * 0x100_0000 + (self.b3 as u64) * 0x1_0000 + (self.b4 as u64) * 0x100 + (self.b5
            as u64)
    }

    /// Two addresses with one key are one address.
    pub proof fn lemma_key_injective(a: MacAddr, b: MacAddr)
        requires
            a.spec_key() == b.spec_key(),
        ensures
            a == b,
    {
        let a0 = a.b0;
        let a1 = a.b1;
        let a2 = a.b2;
        let a3 = a.b3;
        let a4 = a.b4;
        let a5 = a.b5;
        let c0 = b.b0;
        let c1 = b.b1;
        let c2 = b.b2;
        let c3 = b.b3;
        let c4 = b.b4;
        let c5 = b.b5;
        assert(((a0 as u64) * 0x100_0000_0000 + (a1 as u64) * 0x1_0000_0000 + (a2 as u64)
            * 0x100_0000 + (a3 as u64) * 0x1_0000 + (a4 as u64) * 0x100 + (a5 as u64) == (c0
            as u64) * 0x100_0000_0000 + (c1 as u64) * 0x1_0000_0000 + (c2 as u64) * 0x100_0000 + (
        c3 as u64) * 0x1_0000 + (c4 as u64) * 0x100 + (c5 as u64)) ==> (a0 == c0 && a1 == c1 && a2
            == c2 && a3 == c3 && a4 == c4 && a5 == c5)) by (bit_vector);
    }
}

/// What a frame carries.
#[derive(Clone, Copy, Debug, PartialEq, Eq, Structural)]
pub enum MessageType {
    Ping,
    Pong,
    SetProgram,
    Run,
    Unknown,
}

impl MessageType {
    /// The wire byte of each type; the unknown type has none and is never
    /// sent.
    pub open spec fn value(self) -> u8 {
        match self {
            MessageType::Ping => 1,
            MessageType::Pong => 2,
            MessageType::SetProgram => 3,
            MessageType::Run => 4,
            MessageType::Unknown => 0,
        }
    }

    pub fn to_byte(&self) -> (r: u8)
        requires
            *self != MessageType::Unknown,
        ensures
            r == self.value(),
    {
        match self {
            MessageType::Ping => 1,
            MessageType::Pong => 2,
            MessageType::SetProgram => 3,
            MessageType::Run => 4,
            MessageType::Unknown => 0,
        }
    }

    pub open spec fn spec_from(t: u8) -> MessageType {
        match t {
            1u8 => MessageType::Ping,
            2u8 => MessageType::Pong,
            3u8 => MessageType::SetProgram,
            4u8 => MessageType::Run,
            _ => MessageType::Unknown,
        }
    }

    pub fn from(t: u8) -> (r: MessageType)
        ensures
            r == MessageType::spec_from(t),
    {
        match t {
            1 => MessageType::Ping,
            2 => MessageType::Pong,
            3 => MessageType::SetProgram,
            4 => MessageType::Run,
            _ => MessageType::Unknown,
        }
    }
}

/// Why a frame was rejected.
#[derive(Clone, Copy, Debug, PartialEq, Eq, Structural)]
pub enum MessageError {
    /// The recomputed tag differs from the one the frame carries.
    SignatureInvalid,
    /// The frame is shorter than a header and tag.
    MessageTooShort,
    /// The address bytes cannot be read.
    MacAddressInvalid,
}

/// The HMAC-SHA1 tag of a message under a key: twenty bytes, a function of
/// the two alone.
pub uninterp spec fn hmac_sha1_of(key: Seq<u8>, data: Seq<u8>) -> Seq<u8>;

/// Relies on the hmac-sha1 crate's `hmac_sha1`: the twenty-byte HMAC-SHA1
/// tag of the message under the key, a function of the two alone.
#[verifier::external_body]
fn hmac_sha1_tag(key: &[u8], message: &[u8]) -> (r: Vec<u8>)
    ensures
        r@ == hmac_sha1_of(key@, message@),
        r@.len() == 20,
{
    hmac_sha1::hmac_sha1(key, message).to_vec()
}

/// A timestamp's four little-endian wire bytes.
pub open spec fn le32_bytes(t: u32) -> Seq<u8> {
    seq![(t % 256) as u8, (t / 256 % 256) as u8, (t / 65536 % 256) as u8, (t / 16777216) as u8]
}

/// The authenticated part of a frame: address, timestamp, type, payload.
pub open spec fn wire_data(mac: Seq<u8>, time: u32, ty: u8, payload: Seq<u8>) -> Seq<u8> {
    mac + le32_bytes(time) + seq![ty] + payload
}

/// Compare two equally long byte strings, reading every byte regardless of
/// where a mismatch lies, so that the time taken does not reveal how much of
/// a forged tag was right.
fn constant_time_eq(a: &[u8], b: &[u8]) -> (r: bool)
    requires
        a@.len() == b@.len(),
    ensures
        r <==> a@ == b@,
{
    let mut acc: u8 = 0;
    let mut i: usize = 0;
    while i < a.len()
        invariant
            a@.len() == b@.len(),
            i <= a@.len(),
            (acc == 0) <==> (forall|t: int| 0 <= t < i ==> a@[t] == b@[t]),
        decreases a@.len() - i,
    {
        let x = a[i] ^ b[i];
        proof {
            let av = a@[i as int];
            let bv = b@[i as int];
            assert((av ^ bv) == 0 <==> av == bv) by (bit_vector);
            let acc0 = acc;
            assert((acc0 | (av ^ bv)) == 0 <==> (acc0 == 0 && (av ^ bv) == 0)) by (bit_vector);
        }
        acc = acc | x;
        i = i + 1;
    }
    if acc == 0 {
        proof {
            assert(a@ =~= b@);
        }
        true
    } else {
        false
    }
}

/// One frame of the protocol.
#[derive(Clone, Debug)]
pub struct Message {
    pub mac_address: MacAddr,
    pub unix_time: u32,
    pub message_type: MessageType,
    pub payload: Option<Vec<u8>>,
}

impl Message {
    /// The payload bytes; an absent payload is empty on the wire.
    pub open spec fn payload_view(self) -> Seq<u8> {
        match self.payload {
            Some(p) => p@,
            None => Seq::<u8>::empty(),
        }
    }

    /// The authenticated bytes of this frame.
    pub open spec fn wire(self) -> Seq<u8> {
        wire_data(self.mac_address@, self.unix_time, self.message_type.value(), self.payload_view())
    }

    /// A frame stamped with the wall clock's current time.
    pub fn new(message_type: MessageType, mac_address: MacAddr, payload: Option<Vec<u8>>) -> (r:
        Message)
        ensures
            r.message_type == message_type,
            r.mac_address == mac_address,
            r.payload == payload,
    {
        let now = now_unix_seconds();
        Message { mac_address, unix_time: (now % 0x1_0000_0000) as u32, message_type, payload }
    }

    /// Read the sender's address off the front of a frame without verifying
    /// it; the frame must at least hold an address and a tag.
    pub fn peek_mac_address(buffer: &[u8]) -> (r: Result<MacAddr, MessageError>)
        ensures
            buffer@.len() < 26 ==> r == Err::<MacAddr, MessageError>(MessageError::MessageTooShort),
            buffer@.len() >= 26 ==> r is Ok && r->Ok_0@ == buffer@.subrange(0, 6) && r->Ok_0
                == mac_of(buffer@),
    {
        if buffer.len() < 26 {
            return Err(MessageError::MessageTooShort);
        }
        Ok(MacAddr::from_bytes(buffer))
    }

    /// Serialise and sign: the frame's bytes followed by their tag under the
    /// key.
    pub fn signed(&self, key: &[u8]) -> (r: Vec<u8>)
        requires
            self.message_type != MessageType::Unknown,
        ensures
            r@ == self.wire() + hmac_sha1_of(key@, self.wire()),
            r@.len() == self.wire().len() + 20,
    {
        let mut buf: Vec<u8> = Vec::new();
        buf.push(self.mac_address.b0);
        buf.push(self.mac_address.b1);
        buf.push(self.mac_address.b2);
        buf.push(self.mac_address.b3);
        buf.push(self.mac_address.b4);
        buf.push(self.mac_address.b5);
        let t = self.unix_time;
        buf.push((t % 256) as u8);
        buf.push((t / 256 % 256) as u8);
        buf.push((t / 65536 % 256) as u8);
        buf.push((t / 16777216) as u8);
        buf.push(self.message_type.to_byte());
        match &self.payload {
            Some(p) => {
                buf.extend_from_slice(p.as_slice());
            },
            None => {},
        }
        proof {
            assert(buf@ =~= self.wire());
        }
        let tag = hmac_sha1_tag(key, buf.as_slice());
        let ghost data = buf@;
        buf.extend_from_slice(tag.as_slice());
        proof {
            assert(buf@ =~= self.wire() + hmac_sha1_of(key@, self.wire()));
        }
        buf
    }

    /// Verify and split a frame. A frame shorter than a header and tag is
    /// too short; one whose recomputed tag differs from the one it carries
    /// has an invalid signature; otherwise exactly the address, timestamp,
    /// type and payload laid down by `signed` come back, the payload absent
    /// when it is empty.
    pub fn from_buffer(buffer: &[u8], key: &[u8]) -> (r: Result<Message, MessageError>)
        ensures
            buffer@.len() < 31 ==> r == Err::<Message, MessageError>(MessageError::MessageTooShort),
            buffer@.len() >= 31 && buffer@.skip(buffer@.len() - 20) != hmac_sha1_of(
                key@,
                buffer@.take(buffer@.len() - 20),
            ) ==> r == Err::<Message, MessageError>(MessageError::SignatureInvalid),
            buffer@.len() >= 31 && buffer@.skip(buffer@.len() - 20) == hmac_sha1_of(
                key@,
                buffer@.take(buffer@.len() - 20),
            ) ==> r is Ok && ({
                let m = r->Ok_0;
                &&& m.mac_address@ == buffer@.subrange(0, 6)
                &&& m.unix_time == le32_at(buffer@, 6)
                &&& m.message_type == MessageType::spec_from(buffer@[10])
                &&& m.payload_view() == buffer@.subrange(11, buffer@.len() - 20)
                &&& (m.payload is Some <==> buffer@.len() > 31)
            }),
    {
        let n = buffer.len();
        if n < 31 {
            return Err(MessageError::MessageTooShort);
        }
        let data_len = n - 20;
        let mut data: Vec<u8> = Vec::new();
        let mut i: usize = 0;
        while i < data_len
            invariant
                n == buffer@.len(),
                31 <= n,
                data_len == n - 20,
                i <= data_len,
                data@ == buffer@.subrange(0, i as int),
            decreases data_len - i,
        {
            data.push(buffer[i]);
            proof {
                assert(data@ =~= buffer@.subrange(0, i + 1));
            }
            i = i + 1;
        }
        let mut given_tag: Vec<u8> = Vec::new();
        let mut j: usize = data_len;
        while j < n
            invariant
                n == buffer@.len(),
                31 <= n,
                data_len == n - 20,
                data_len <= j <= n,
                given_tag@ == buffer@.subrange(data_len as int, j as int),
            decreases n - j,
        {
            given_tag.push(buffer[j]);
            proof {
                assert(given_tag@ =~= buffer@.subrange(data_len as int, j + 1));
            }
            j = j + 1;
        }
        let calculated = hmac_sha1_tag(key, data.as_slice());
        proof {
            assert(data@ =~= buffer@.take(buffer@.len() - 20));
            assert(given_tag@ =~= buffer@.skip(buffer@.len() - 20));
        }
        if !constant_time_eq(calculated.as_slice(), given_tag.as_slice()) {
            return Err(MessageError::SignatureInvalid);
        }
        let mac_address = MacAddr::from_bytes(buffer);
        let b6 = buffer[6];
        let b7 = buffer[7];
        let b8 = buffer[8];
        let b9 = buffer[9];
        let unix_time: u32 = (b6 as u32) + (b7 as u32) * 0x100 + (b8 as u32) * 0x10000 + (b9
            as u32) * 0x1000000;
        let message_type = MessageType::from(buffer[10]);
        let payload: Option<Vec<u8>> = if data_len == 11 {
            None
        } else {
            let mut p: Vec<u8> = Vec::new();
            let mut k: usize = 11;
            while k < data_len
                invariant
                    n == buffer@.len(),
                    31 <= n,
                    data_len == n - 20,
                    11 <= k <= data_len,
                    p@ == buffer@.subrange(11, k as int),
                decreases data_len - k,
            {
                p.push(buffer[k]);
                proof {
                    assert(p@ =~= buffer@.subrange(11, k + 1));
                }
                k = k + 1;
            }
            Some(p)
        };
        let m = Message { mac_address, unix_time, message_type, payload };
        proof {
            assert(m.mac_address@ =~= buffer@.subrange(0, 6));
            if m.payload is None {
                assert(m.payload_view() =~= buffer@.subrange(11, buffer@.len() - 20));
            }
        }
        Ok(m)
    }
}

/// A frame built by `signed` splits back into exactly the fields it was
/// built from: the authenticated part is recovered whole, its tag matches,
/// and the address, timestamp, type byte and payload sit at their layed-down
/// offsets. Together with the contracts of `signed` and `from_buffer` this
/// says that parsing a signed frame under the signing key gives the original
/// message back.
pub proof fn lemma_codec_round_trip(
    mac: Seq<u8>,
    time: u32,
    ty: u8,
    payload: Seq<u8>,
    key: Seq<u8>,
)
    requires
        mac.len() == 6,
        hmac_sha1_of(key, wire_data(mac, time, ty, payload)).len() == 20,
    ensures
        ({
            let data = wire_data(mac, time, ty, payload);
            let w = data + hmac_sha1_of(key, data);
            &&& w.len() == 31 + payload.len()
            &&& w.take(w.len() - 20) == data
            &&& w.skip(w.len() - 20) == hmac_sha1_of(key, w.take(w.len() - 20))
            &&& w.subrange(0, 6) == mac
            &&& le32_at(w, 6) == time
            &&& w[10] == ty
            &&& w.subrange(11, w.len() - 20) == payload
        }),
{
    let data = wire_data(mac, time, ty, payload);
    let w = data + hmac_sha1_of(key, data);
    assert(w.take(w.len() - 20) =~= data);
    assert(w.skip(w.len() - 20) =~= hmac_sha1_of(key, data));
    assert(w.subrange(0, 6) =~= mac);
    assert(w.subrange(11, w.len() - 20) =~= payload);
    assert(w[6] == (time % 256) as u8);
    assert(w[7] == (time / 256 % 256) as u8);
    assert(w[8] == (time / 65536 % 256) as u8);
    assert(w[9] == (time / 16777216) as u8);
    assert((time % 256) + (time / 256 % 256) * 0x100 + (time / 65536 % 256) * 0x10000 + (time
        / 16777216) * 0x1000000 == time) by (nonlinear_arith);
}

/// Altering any single byte of a frame's trailing tag makes the signature
/// check fail: the authenticated part is unchanged, so the recomputed tag is
/// the original one, which the altered byte no longer matches. Altering a
/// byte of the authenticated part instead changes what the tag is recomputed
/// over; that it can virtually never collide is the collision resistance of
/// HMAC-SHA1 itself, beyond what can be stated of it here.
pub proof fn lemma_tampered_tag_rejected(data: Seq<u8>, key: Seq<u8>, i: int, b: u8)
    requires
        data.len() >= 11,
        hmac_sha1_of(key, data).len() == 20,
        0 <= i < 20,
        b != hmac_sha1_of(key, data)[i],
    ensures
        ({
            let w = data + hmac_sha1_of(key, data);
            let w2 = w.update(data.len() + i, b);
            &&& w2.len() == w.len() >= 31
            &&& w2.take(w2.len() - 20) == data
            &&& w2.skip(w2.len() - 20) != hmac_sha1_of(key, w2.take(w2.len() - 20))
        }),
{
    let w = data + hmac_sha1_of(key, data);
    let w2 = w.update(data.len() + i, b);
    assert(w2.take(w2.len() - 20) =~= data);
    assert(w2.skip(w2.len() - 20)[i] == b);
    assert(w2.skip(w2.len() - 20) != hmac_sha1_of(key, data));
}

} // verus!
