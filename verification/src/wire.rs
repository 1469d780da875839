//! The datagrams that peers exchange: a fixed header and one payload.
use crate::bytes;
use vstd::prelude::*;
use vstd::string::StringSliceAdditionalSpecFns;

verus! {

/// Announces the sender; carries no payload.
pub const KIND_HELLO: u8 = 1;

/// Carries a message.
pub const KIND_MSG: u8 = 2;

/// Carries nothing but the acknowledgement.
pub const KIND_ACK: u8 = 3;

/// The length of the header.
pub const HDR_LEN: usize = 60;

/// The version of the format. Datagrams of another version are not read.
pub const HDR_VERSION: u8 = 3;

/// The longest payload that is read or sent.
pub const MAX_PAYLOAD: usize = 65536;

/// The room for the sender's network in the header.
pub const NETWORK_ROOM: usize = 16;

/// The room for the sender's entity in the header.
pub const ENTITY_ROOM: usize = 20;

/// The first bytes of each datagram.
pub open spec fn magic() -> Seq<u8> {
    seq![0x47u8, 0x42u8, 0x46u8, 0x52u8]
}

/// Some bytes in a field of `room` bytes: cut off where they are too long, else followed by zeros.
pub open spec fn fitted(s: Seq<u8>, room: nat) -> Seq<u8> {
    Seq::new(room, |i: int| if i < s.len() { s[i] } else { 0u8 })
}

/// The datagram of these contents.
pub open spec fn packet(
    network: Seq<u8>,
    entity: Seq<u8>,
    kind: u8,
    options: u32,
    seq: u32,
    ack: u32,
    payload: Seq<u8>,
) -> Seq<u8> {
    magic() + seq![kind, HDR_VERSION, 0u8, 0u8] + fitted(network, NETWORK_ROOM as nat) + fitted(
        entity,
        ENTITY_ROOM as nat,
    ) + bytes::le(payload.len(), 4) + bytes::le(options as nat, 4) + bytes::le(seq as nat, 4)
        + bytes::le(ack as nat, 4) + payload
}

/// Writes some bytes into a field of `room` bytes.
fn push_fitted(out: &mut Vec<u8>, s: &[u8], room: usize)
    ensures
        final(out)@ == old(out)@ + fitted(s@, room as nat),
{
    let mut i: usize = 0;
    assert(out@ =~= old(out)@ + fitted(s@, room as nat).take(0));
    while i < room
        invariant
            i <= room,
            out@ == old(out)@ + fitted(s@, room as nat).take(i as int),
        decreases room - i,
    {
        out.push(if i < s.len() { s[i] } else { 0 });
        i += 1;
        assert(out@ =~= old(out)@ + fitted(s@, room as nat).take(i as int));
    }
    assert(fitted(s@, room as nat).take(i as int) =~= fitted(s@, room as nat));
}

/// Builds one datagram.
pub fn wire_packet(
    network: &str,
    entity: &[u8],
    kind: u8,
    options: u32,
    seq: u32,
    ack: u32,
    payload: &[u8],
) -> (r: Vec<u8>)
    ensures
        r@ == packet(network.spec_bytes(), entity@, kind, options, seq, ack, payload@),
{
    let mut r: Vec<u8> = Vec::new();
    r.push(0x47);
    r.push(0x42);
    r.push(0x46);
    r.push(0x52);
    r.push(kind);
    r.push(HDR_VERSION);
    r.push(0);
    r.push(0);
    assert(r@ =~= magic() + seq![kind, HDR_VERSION, 0u8, 0u8]);
    push_fitted(&mut r, network.as_bytes(), NETWORK_ROOM);
    push_fitted(&mut r, entity, ENTITY_ROOM);
    let n: usize = payload.len();
    bytes::push_le(&mut r, n as u64, 4);
    bytes::push_le(&mut r, options as u64, 4);
    bytes::push_le(&mut r, seq as u64, 4);
    bytes::push_le(&mut r, ack as u64, 4);
    let ghost head = r@;
    r.extend_from_slice(payload);
    assert(r@ =~= head + payload@);
    r
}

/// What a datagram says.
pub struct Datagram {
    pub kind: u8,
    pub entity: String,
    pub options: u32,
    pub seq: u32,
    pub ack: u32,
    pub payload: Vec<u8>,
}

#[verifier::ext_equal]
pub struct DatagramView {
    pub kind: u8,
    pub entity: Seq<char>,
    pub options: u32,
    pub seq: u32,
    pub ack: u32,
    pub payload: Seq<u8>,
}

impl View for Datagram {
    type V = DatagramView;

    open spec fn view(&self) -> DatagramView {
        DatagramView {
            kind: self.kind,
            entity: self.entity@,
            options: self.options,
            seq: self.seq,
            ack: self.ack,
            payload: self.payload@,
        }
    }
}

/// The bytes before the first zero.
pub open spec fn before_zero(s: Seq<u8>) -> Seq<u8>
    decreases s.len(),
{
    if s.len() == 0 || s[0] == 0 {
        Seq::empty()
    } else {
        seq![s[0]] + before_zero(s.drop_first())
    }
}

/// The number in four bytes of the header.
pub open spec fn header_number(s: Seq<u8>, at: int) -> nat {
    bytes::from_le(s.subrange(at, at + 4))
}

/// A datagram of this format and version, whose payload is neither too long nor cut off.
pub open spec fn is_wire(s: Seq<u8>) -> bool {
    &&& s.len() >= HDR_LEN
    &&& s.take(4) == magic()
    &&& s[5] == HDR_VERSION
    &&& header_number(s, 44) <= MAX_PAYLOAD
    &&& HDR_LEN + header_number(s, 44) <= s.len()
}

/// What a datagram of this format says.
pub open spec fn wire_content(s: Seq<u8>) -> DatagramView {
    DatagramView {
        kind: s[4],
        entity: bytes::text_of(before_zero(s.subrange(24, 44))),
        options: header_number(s, 48) as u32,
        seq: header_number(s, 52) as u32,
        ack: header_number(s, 56) as u32,
        payload: s.subrange(HDR_LEN as int, HDR_LEN + header_number(s, 44)),
    }
}

/// The bytes before the first zero.
pub fn until_zero(s: &[u8]) -> (r: Vec<u8>)
    ensures
        r@ == before_zero(s@),
{
    let mut r: Vec<u8> = Vec::new();
    let mut i: usize = 0;
    assert(s@.skip(0) =~= s@);
    assert(r@ + before_zero(s@) =~= before_zero(s@));
    while i < s.len()
        invariant
            i <= s@.len(),
            r@ + before_zero(s@.skip(i as int)) == before_zero(s@),
        decreases s@.len() - i,
    {
        let ghost rest = s@.skip(i as int);
        if s[i] == 0 {
            assert(r@ =~= r@ + before_zero(rest));
            return r;
        }
        assert(rest.drop_first() =~= s@.skip(i + 1));
        let ghost sofar = r@;
        r.push(s[i]);
        assert(r@ + before_zero(rest.drop_first()) =~= sofar + before_zero(rest));
        i += 1;
    }
    assert(r@ =~= r@ + before_zero(s@.skip(i as int)));
    r
}

/// Reads a number of the header.
fn number_at(s: &[u8], at: usize) -> (n: u32)
    requires
        at + 4 <= s@.len(),
    ensures
        n == header_number(s@, at as int),
{
    let n: usize = s.len();
    let part = bytes::part(s, at, at + 4);
    proof {
        bytes::lemma_from_le_bound(part@);
        bytes::lemma_power256();
    }
    bytes::read_le(part) as u32
}

/// Reads a datagram. One of another format or version, or whose payload is too long or cut off,
/// says nothing.
pub fn parse_packet(s: &[u8]) -> (r: Option<Datagram>)
    ensures
        r is Some <==> is_wire(s@),
        r is Some ==> r->0@ == wire_content(s@),
{
    let n: usize = s.len();
    if n < HDR_LEN {
        return None;
    }
    let head = bytes::part(s, 0, 4);
    assert(head@ =~= s@.take(4));
    assert(magic().len() == 4);
    if !(head[0] == 0x47 && head[1] == 0x42 && head[2] == 0x46 && head[3] == 0x52) {
        assert(s@.take(4) != magic());
        return None;
    }
    assert(s@.take(4) =~= magic());
    if s[5] != HDR_VERSION {
        return None;
    }
    let len: u32 = number_at(s, 44);
    if len > 65536 || len as usize > n - HDR_LEN {
        return None;
    }
    let entity = until_zero(bytes::part(s, 24, 44));
    Some(
        Datagram {
            kind: s[4],
            entity: bytes::decode(entity.as_slice()),
            options: number_at(s, 48),
            seq: number_at(s, 52),
            ack: number_at(s, 56),
            payload: bytes::copied(bytes::part(s, HDR_LEN, HDR_LEN + len as usize)),
        },
    )
}

pub proof fn lemma_before_zero(s: Seq<u8>, k: int)
    requires
        0 <= k <= s.len(),
        forall|i: int| 0 <= i < k ==> s[i] != 0,
        k < s.len() ==> s[k] == 0,
    ensures
        before_zero(s) == s.take(k),
    decreases s.len(),
{
    if s.len() > 0 && k > 0 {
        lemma_before_zero(s.drop_first(), k - 1);
        assert(seq![s[0]] + s.drop_first().take(k - 1) =~= s.take(k));
    } else {
        assert(s.take(0) =~= Seq::empty());
    }
}

/// A datagram says what it was built of: the kind, the options, the number, the acknowledgement
/// and the payload, and as much of the entity as has room.
pub proof fn packet_reads_back(
    network: Seq<u8>,
    entity: Seq<u8>,
    kind: u8,
    options: u32,
    seq: u32,
    ack: u32,
    payload: Seq<u8>,
)
    requires
        payload.len() <= MAX_PAYLOAD,
        forall|i: int| 0 <= i < entity.len() && i < ENTITY_ROOM ==> entity[i] != 0,
    ensures
        is_wire(packet(network, entity, kind, options, seq, ack, payload)),
        wire_content(packet(network, entity, kind, options, seq, ack, payload)) == (DatagramView {
            kind,
            entity: bytes::text_of(
                if entity.len() <= ENTITY_ROOM { entity } else { entity.take(ENTITY_ROOM as int) },
            ),
            options,
            seq,
            ack,
            payload,
        }),
{
    let s = packet(network, entity, kind, options, seq, ack, payload);
    bytes::lemma_power256();
    bytes::le_reads_back(payload.len(), 4);
    bytes::le_reads_back(options as nat, 4);
    bytes::le_reads_back(seq as nat, 4);
    bytes::le_reads_back(ack as nat, 4);
    assert(magic().len() == 4);
    assert(s.take(4) =~= magic());
    assert(s.subrange(44, 48) =~= bytes::le(payload.len(), 4));
    assert(s.subrange(48, 52) =~= bytes::le(options as nat, 4));
    assert(s.subrange(52, 56) =~= bytes::le(seq as nat, 4));
    assert(s.subrange(56, 60) =~= bytes::le(ack as nat, 4));
    assert(s.subrange(60, 60int + payload.len()) =~= payload);
    let field = fitted(entity, ENTITY_ROOM as nat);
    assert(s.subrange(24, 44) =~= field);
    let k = if entity.len() <= ENTITY_ROOM { entity.len() as int } else { ENTITY_ROOM as int };
    lemma_before_zero(field, k);
    assert(field.take(k) =~= if entity.len() <= ENTITY_ROOM {
        entity
    } else {
        entity.take(ENTITY_ROOM as int)
    });
}

}
