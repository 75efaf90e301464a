//! The length-prefixed binary protocol: 24-byte packet headers, per-opcode
//! request layouts, and the connection that speaks them over a byte stream.

use vstd::prelude::*;
use vstd::string::StringSliceAdditionalSpecFns;

use crate::ioutil;
use crate::ioutil::{
    be_u16, be_u32, be_u64, u16_be_bytes, u32_be_bytes, u64_be_bytes,
};
use crate::netutil::HostAddr;
use crate::stream::ByteStream;
use crate::strutil;
use crate::{map_status_spec, MemData, MemResult, MemStatus, MemcachedStat};

verus! {

/// Size of the fixed packet header.
pub const BP_HEADER_SIZE: usize = 24;

/// Magic byte of a request packet.
pub const BP_REQUEST_VERSION: u8 = 0x80;

/// Magic byte of a response packet.
pub const BP_RESPONSE_VERSION: u8 = 0x81;

pub const BP_OP_GET: u8 = 0x00;
pub const BP_OP_SET: u8 = 0x01;
pub const BP_OP_ADD: u8 = 0x02;
pub const BP_OP_REPLACE: u8 = 0x03;
pub const BP_OP_DELETE: u8 = 0x04;
pub const BP_OP_INCREMENT: u8 = 0x05;
pub const BP_OP_DECREMENT: u8 = 0x06;
pub const BP_OP_QUIT: u8 = 0x07;
pub const BP_OP_FLUSH: u8 = 0x08;
pub const BP_OP_GETQ: u8 = 0x09;
pub const BP_OP_NOOP: u8 = 0x0a;
pub const BP_OP_VERSION: u8 = 0x0b;
pub const BP_OP_GETK: u8 = 0x0c;
pub const BP_OP_GETKQ: u8 = 0x0d;
pub const BP_OP_APPEND: u8 = 0x0e;
pub const BP_OP_PREPEND: u8 = 0x0f;
pub const BP_OP_STAT: u8 = 0x10;
pub const BP_OP_VERBOSITY: u8 = 0x1b;
pub const BP_OP_TOUCH: u8 = 0x1c;

/// The fixed 24-byte header of every binary-protocol packet.
#[derive(Clone, Copy, Debug, PartialEq, Eq, Structural)]
pub struct PacketHeader {
    /// Request or response magic.
    pub magic: u8,
    /// The command.
    pub opcode: u8,
    /// Length of the key in the body.
    pub key_len: u16,
    /// Length of the extras in the body.
    pub extra_len: u8,
    /// Reserved; always 0.
    pub data_type: u8,
    /// Response status, or the request's virtual-bucket id.
    pub status_vbucket: u16,
    /// Total body length: extras, key and data together.
    pub body_len: u32,
    /// Client context, echoed back by the server.
    pub client_ctx: u32,
    /// The CAS token.
    pub cas: u64,
}

/// The 24 bytes of a header on the wire, big-endian throughout.
pub open spec fn header_bytes(h: PacketHeader) -> Seq<u8> {
    seq![h.magic, h.opcode] + u16_be_bytes(h.key_len) + seq![h.extra_len, h.data_type]
        + u16_be_bytes(h.status_vbucket) + u32_be_bytes(h.body_len) + u32_be_bytes(h.client_ctx)
        + u64_be_bytes(h.cas)
}

/// The header encoded in the first 24 bytes of `s`.
pub open spec fn header_of_bytes(s: Seq<u8>) -> PacketHeader
    recommends
        s.len() >= 24,
{
    PacketHeader {
        magic: s[0],
        opcode: s[1],
        key_len: be_u16(s.skip(2)),
        extra_len: s[4],
        data_type: s[5],
        status_vbucket: be_u16(s.skip(6)),
        body_len: be_u32(s.skip(8)),
        client_ctx: be_u32(s.skip(12)),
        cas: be_u64(s.skip(16)),
    }
}

/// The length of the data part of a packet's body: what is left of
/// `body_len` after the extras and the key (0 where the header is
/// inconsistent).
pub open spec fn data_len_of(h: PacketHeader) -> nat {
    if h.body_len >= h.extra_len + h.key_len {
        (h.body_len - h.extra_len - h.key_len) as nat
    } else {
        0
    }
}

/// The request header for `opcode` over a body of `extra_len` extras, a key
/// of `key_len` and `data_len` data bytes, with `cas`.
pub open spec fn req_header_spec(
    opcode: u8,
    key_len: u16,
    extra_len: u8,
    data_len: nat,
    cas: u64,
) -> PacketHeader {
    PacketHeader {
        magic: BP_REQUEST_VERSION,
        opcode,
        key_len,
        extra_len,
        data_type: 0,
        status_vbucket: 0,
        body_len: (key_len + extra_len + data_len) as u32,
        client_ctx: 0,
        cas,
    }
}

/// The whole store-family request packet (Set / Add / Replace): 8 extras
/// bytes of flags and exptime, then key and data.
pub open spec fn store_request_bytes(
    opcode: u8,
    key: Seq<u8>,
    data: Seq<u8>,
    cas: u64,
    flags: u32,
    exptime: u32,
) -> Seq<u8> {
    header_bytes(req_header_spec(opcode, key.len() as u16, 8, data.len(), cas))
        + u32_be_bytes(flags) + u32_be_bytes(exptime) + key + data
}

/// The whole Append / Prepend request packet: no extras, key then data.
pub open spec fn append_request_bytes(opcode: u8, key: Seq<u8>, data: Seq<u8>) -> Seq<u8> {
    header_bytes(req_header_spec(opcode, key.len() as u16, 0, data.len(), 0)) + key + data
}

/// The whole Increment / Decrement request packet: 20 extras bytes of
/// amount, initial value and exptime, then the key.
pub open spec fn inc_request_bytes(
    opcode: u8,
    key: Seq<u8>,
    amount: u64,
    init_value: u64,
    exptime: u32,
) -> Seq<u8> {
    header_bytes(req_header_spec(opcode, key.len() as u16, 20, 0, 0)) + u64_be_bytes(amount)
        + u64_be_bytes(init_value) + u32_be_bytes(exptime) + key
}

/// The whole Touch request packet: 4 extras bytes of exptime, then the key.
pub open spec fn touch_request_bytes(key: Seq<u8>, exptime: u32) -> Seq<u8> {
    header_bytes(req_header_spec(BP_OP_TOUCH, key.len() as u16, 4, 0, 0)) + u32_be_bytes(exptime)
        + key
}

/// A request packet whose body is just the key (Delete, GetK, GetKQ).
pub open spec fn key_request_bytes(opcode: u8, key: Seq<u8>) -> Seq<u8> {
    header_bytes(req_header_spec(opcode, key.len() as u16, 0, 0, 0)) + key
}

/// A request packet whose body is 4 extras bytes of one `u32` (Flush,
/// Verbosity).
pub open spec fn u32_request_bytes(opcode: u8, value: u32) -> Seq<u8> {
    header_bytes(req_header_spec(opcode, 0, 4, 0, 0)) + u32_be_bytes(value)
}

/// A request packet with an empty body (Version, Quit, Noop, Stat).
pub open spec fn plain_request_bytes(opcode: u8) -> Seq<u8> {
    header_bytes(req_header_spec(opcode, 0, 0, 0, 0))
}

/// One quiet GetKQ packet for every key.
pub open spec fn getkq_seq_bytes(keys: Seq<Seq<u8>>) -> Seq<u8>
    decreases keys.len(),
{
    if keys.len() == 0 {
        Seq::<u8>::empty()
    } else {
        key_request_bytes(BP_OP_GETKQ, keys[0]) + getkq_seq_bytes(keys.skip(1))
    }
}

/// The whole pipelined multi-get request: a quiet GetKQ for every key but
/// the last, then one GetK as terminator.
pub open spec fn gets_request_bytes(keys: Seq<Seq<u8>>) -> Seq<u8>
    recommends
        keys.len() >= 1,
{
    getkq_seq_bytes(keys.drop_last()) + key_request_bytes(BP_OP_GETK, keys.last())
}

proof fn lemma_getkq_seq_push(keys: Seq<Seq<u8>>, k: Seq<u8>)
    ensures
        getkq_seq_bytes(keys.push(k)) == getkq_seq_bytes(keys) + key_request_bytes(
            BP_OP_GETKQ,
            k,
        ),
    decreases keys.len(),
{
    if keys.len() == 0 {
        assert(keys.push(k)[0] == k);
        assert(keys.push(k).skip(1) =~= Seq::<Seq<u8>>::empty());
        assert(getkq_seq_bytes(Seq::<Seq<u8>>::empty()) == Seq::<u8>::empty());
        assert(getkq_seq_bytes(keys.push(k)) =~= key_request_bytes(BP_OP_GETKQ, k));
        assert(getkq_seq_bytes(keys) + key_request_bytes(BP_OP_GETKQ, k) =~= key_request_bytes(
            BP_OP_GETKQ,
            k,
        ));
    } else {
        assert(keys.push(k)[0] == keys[0]);
        assert(keys.push(k).skip(1) =~= keys.skip(1).push(k));
        lemma_getkq_seq_push(keys.skip(1), k);
        assert(getkq_seq_bytes(keys.push(k)) =~= getkq_seq_bytes(keys) + key_request_bytes(
            BP_OP_GETKQ,
            k,
        ));
    }
}

/// Whether `inbox` begins with a response packet whole enough for a
/// simple command to consume: the header and its announced data part.
pub open spec fn resp_wf(inbox: Seq<u8>) -> bool {
    inbox.len() >= 24 && 24 + data_len_of(header_of_bytes(inbox)) <= inbox.len()
}

/// How many bytes of `inbox` a simple command's response occupies: the
/// header and its data part.
pub open spec fn resp_len(inbox: Seq<u8>) -> int {
    24 + data_len_of(header_of_bytes(inbox)) as int
}

impl PacketHeader {
    /// The length of the data part of this packet's body (0 where the
    /// header is inconsistent).
    pub fn get_data_len(&self) -> (r: usize)
        ensures
            r == data_len_of(*self),
    {
        let extra_and_key: u32 = self.extra_len as u32 + self.key_len as u32;
        if self.body_len >= extra_and_key {
            (self.body_len - extra_and_key) as usize
        } else {
            0
        }
    }

    /// Set `body_len` for a body of the current key and extras plus
    /// `data_len` data bytes.
    pub fn set_data_len(&mut self, data_len: usize)
        requires
            old(self).key_len + old(self).extra_len + data_len <= u32::MAX,
        ensures
            *final(self) == (PacketHeader {
                body_len: (old(self).key_len + old(self).extra_len + data_len) as u32,
                ..*old(self)
            }),
    {
        self.body_len = self.key_len as u32 + self.extra_len as u32 + data_len as u32;
    }

    /// Byte-swap of a `u16`.
    pub open spec fn swap16(x: u16) -> u16 {
        (((x & 0xFF) << 8) | (x >> 8)) as u16
    }

    /// Byte-swap of a `u32`.
    pub open spec fn swap32(x: u32) -> u32 {
        (((x & 0xFF) << 24) | (((x >> 8) & 0xFF) << 16) | (((x >> 16) & 0xFF) << 8) | (x >> 24)) as u32
    }

    /// Byte-swap of a `u64`.
    pub open spec fn swap64(x: u64) -> u64 {
        (((x & 0xFF) << 56) | (((x >> 8) & 0xFF) << 48) | (((x >> 16) & 0xFF) << 40)
            | (((x >> 24) & 0xFF) << 32) | (((x >> 32) & 0xFF) << 24) | (((x >> 40) & 0xFF) << 16)
            | (((x >> 48) & 0xFF) << 8) | (x >> 56)) as u64
    }

    /// Byte-swap the multi-byte fields, for moving a header image between
    /// host and network order in place.
    pub fn to_network(&mut self)
        ensures
            *final(self) == (PacketHeader {
                key_len: Self::swap16(old(self).key_len),
                status_vbucket: Self::swap16(old(self).status_vbucket),
                body_len: Self::swap32(old(self).body_len),
                cas: Self::swap64(old(self).cas),
                ..*old(self)
            }),
    {
        self.key_len = ((self.key_len & 0xFF) << 8) | (self.key_len >> 8);
        self.status_vbucket = ((self.status_vbucket & 0xFF) << 8) | (self.status_vbucket >> 8);
        self.body_len = ((self.body_len & 0xFF) << 24) | (((self.body_len >> 8) & 0xFF) << 16)
            | (((self.body_len >> 16) & 0xFF) << 8) | (self.body_len >> 24);
        self.cas = ((self.cas & 0xFF) << 56) | (((self.cas >> 8) & 0xFF) << 48)
            | (((self.cas >> 16) & 0xFF) << 40) | (((self.cas >> 24) & 0xFF) << 32)
            | (((self.cas >> 32) & 0xFF) << 24) | (((self.cas >> 40) & 0xFF) << 16)
            | (((self.cas >> 48) & 0xFF) << 8) | (self.cas >> 56);
    }

    /// Pack the header into `buf` at `offset`; returns the offset just past
    /// the 24 bytes written.
    pub fn pack(&self, buf: &mut Vec<u8>, offset: usize) -> (end: usize)
        requires
            offset + 24 <= old(buf).len(),
        ensures
            end == offset + 24,
            final(buf)@.len() == old(buf)@.len(),
            final(buf)@.subrange(offset as int, offset + 24) == header_bytes(*self),
            forall|i: int|
                0 <= i < final(buf)@.len() && !(offset <= i < offset + 24)
                    ==> final(buf)@[i] == old(buf)@[i],
    {
        let mut o = ioutil::pack_u8_be(buf, offset, self.magic);
        o = ioutil::pack_u8_be(buf, o, self.opcode);
        o = ioutil::pack_u16_be(buf, o, self.key_len);
        o = ioutil::pack_u8_be(buf, o, self.extra_len);
        o = ioutil::pack_u8_be(buf, o, self.data_type);
        o = ioutil::pack_u16_be(buf, o, self.status_vbucket);
        o = ioutil::pack_u32_be(buf, o, self.body_len);
        o = ioutil::pack_u32_be(buf, o, self.client_ctx);
        o = ioutil::pack_u64_be(buf, o, self.cas);
        proof {
            let hb = header_bytes(*self);
            assert forall|i: int| 0 <= i < 24 implies buf@[offset + i] == hb[i] by {
                assert(buf@.subrange(offset + 16, offset + 24) == u64_be_bytes(self.cas));
                assert(buf@.subrange(offset + 12, offset + 16) == u32_be_bytes(self.client_ctx));
                assert(buf@.subrange(offset + 8, offset + 12) == u32_be_bytes(self.body_len));
                assert(buf@.subrange(offset + 6, offset + 8) == u16_be_bytes(self.status_vbucket));
                assert(buf@.subrange(offset + 2, offset + 4) == u16_be_bytes(self.key_len));
                if i >= 16 {
                    assert(buf@[offset + i] == buf@.subrange(offset + 16, offset + 24)[i - 16]);
                } else if i >= 12 {
                    assert(buf@[offset + i] == buf@.subrange(offset + 12, offset + 16)[i - 12]);
                } else if i >= 8 {
                    assert(buf@[offset + i] == buf@.subrange(offset + 8, offset + 12)[i - 8]);
                } else if i >= 6 {
                    assert(buf@[offset + i] == buf@.subrange(offset + 6, offset + 8)[i - 6]);
                } else if i == 2 || i == 3 {
                    assert(buf@[offset + i] == buf@.subrange(offset + 2, offset + 4)[i - 2]);
                }
            }
            assert(buf@.subrange(offset as int, offset + 24) =~= header_bytes(*self));
        }
        o
    }

    /// Unpack the 24 bytes at `offset` in `buf` into this header; returns
    /// the offset just past them.
    pub fn unpack(&mut self, buf: &Vec<u8>, offset: usize) -> (end: usize)
        requires
            offset + 24 <= buf.len(),
        ensures
            end == offset + 24,
            *final(self) == header_of_bytes(buf@.skip(offset as int)),
    {
        let ghost s = buf@.skip(offset as int);
        self.magic = ioutil::unpack_u8_be(buf, offset);
        self.opcode = ioutil::unpack_u8_be(buf, offset + 1);
        self.key_len = ioutil::unpack_u16_be(buf, offset + 2);
        self.extra_len = ioutil::unpack_u8_be(buf, offset + 4);
        self.data_type = ioutil::unpack_u8_be(buf, offset + 5);
        self.status_vbucket = ioutil::unpack_u16_be(buf, offset + 6);
        self.body_len = ioutil::unpack_u32_be(buf, offset + 8);
        self.client_ctx = ioutil::unpack_u32_be(buf, offset + 12);
        self.cas = ioutil::unpack_u64_be(buf, offset + 16);
        proof {
            assert(s[0] == buf@[offset as int]);
            assert(s[1] == buf@[offset as int + 1]);
            assert(s[4] == buf@[offset as int + 4]);
            assert(s[5] == buf@[offset as int + 5]);
            assert(buf@.skip(offset as int + 2) =~= s.skip(2));
            assert(buf@.skip(offset as int + 6) =~= s.skip(6));
            assert(buf@.skip(offset as int + 8) =~= s.skip(8));
            assert(buf@.skip(offset as int + 12) =~= s.skip(12));
            assert(buf@.skip(offset as int + 16) =~= s.skip(16));
        }
        offset + 24
    }
}

/// Packing a header and reading the 24 bytes back yields the same header.
pub proof fn lemma_header_round_trip(h: PacketHeader)
    ensures
        header_bytes(h).len() == 24,
        header_of_bytes(header_bytes(h)) == h,
{
    let s = header_bytes(h);
    ioutil::lemma_u16_be_round_trip(h.key_len);
    ioutil::lemma_u16_be_round_trip(h.status_vbucket);
    ioutil::lemma_u32_be_round_trip(h.body_len);
    ioutil::lemma_u32_be_round_trip(h.client_ctx);
    ioutil::lemma_u64_be_round_trip(h.cas);
    assert(s.skip(2).take(2) =~= u16_be_bytes(h.key_len));
    assert(s.skip(6).take(2) =~= u16_be_bytes(h.status_vbucket));
    assert(s.skip(8).take(4) =~= u32_be_bytes(h.body_len));
    assert(s.skip(12).take(4) =~= u32_be_bytes(h.client_ctx));
    assert(s.skip(16).take(8) =~= u64_be_bytes(h.cas));
    assert(be_u16(s.skip(2)) == be_u16(u16_be_bytes(h.key_len)));
    assert(be_u16(s.skip(6)) == be_u16(u16_be_bytes(h.status_vbucket)));
    assert(be_u32(s.skip(8)) == be_u32(u32_be_bytes(h.body_len)));
    assert(be_u32(s.skip(12)) == be_u32(u32_be_bytes(h.client_ctx)));
    assert(be_u64(s.skip(16)) == be_u64(u64_be_bytes(h.cas)));
}

/// Total length of the response packet at the front of `inbox`: header,
/// extras, key and data.
pub open spec fn gets_frame_len(inbox: Seq<u8>) -> int {
    let h = header_of_bytes(inbox);
    24 + h.extra_len + h.key_len + data_len_of(h)
}

/// Whether `inbox` begins with one whole multi-get response packet.
pub open spec fn gets_frame_wf(inbox: Seq<u8>) -> bool {
    inbox.len() >= 24 && gets_frame_len(inbox) <= inbox.len()
}

/// The items of the pipelined multi-get response at the front of `inbox`,
/// with how many bytes they occupy: every status-0 response whose key
/// decodes as UTF-8 contributes (key bytes, flags, CAS, data), read in
/// order up to and including the first response whose opcode is GetK.
/// `None` where the response stream is cut short.
pub open spec fn gets_items(inbox: Seq<u8>) -> Option<(Seq<(Seq<u8>, u32, u64, Seq<u8>)>, int)>
    decreases inbox.len(),
{
    if !gets_frame_wf(inbox) {
        None
    } else {
        let h = header_of_bytes(inbox);
        let e = h.extra_len as int;
        let k = h.key_len as int;
        let d = data_len_of(h) as int;
        let flen = gets_frame_len(inbox);
        let key = inbox.skip(24 + e).take(k);
        let data = inbox.skip(24 + e + k).take(d);
        let flags = if e >= 4 {
            be_u32(inbox.skip(24).take(e))
        } else {
            0u32
        };
        let this = if h.status_vbucket == 0 && vstd::utf8::valid_utf8(key) {
            seq![(key, flags, h.cas, data)]
        } else {
            Seq::<(Seq<u8>, u32, u64, Seq<u8>)>::empty()
        };
        if h.opcode == BP_OP_GETK {
            Some((this, flen))
        } else {
            match gets_items(inbox.skip(flen)) {
                None => None,
                Some(rest) => Some((this + rest.0, flen + rest.1)),
            }
        }
    }
}

/// Whether one returned item is one parsed hit: the key decoded from its
/// UTF-8 bytes, flags, CAS and payload field for field.
pub open spec fn hit_matches(md: MemData, t: (Seq<u8>, u32, u64, Seq<u8>)) -> bool {
    &&& vstd::utf8::valid_utf8(t.0)
    &&& md.key@ == vstd::utf8::decode_utf8(t.0)
    &&& md.flags == t.1
    &&& md.cas == t.2
    &&& md.data@ == t.3
}

/// Whether the returned items are exactly the parsed hits, in order.
pub open spec fn hits_match(r: Seq<MemData>, items: Seq<(Seq<u8>, u32, u64, Seq<u8>)>) -> bool {
    &&& r.len() == items.len()
    &&& forall|i: int| 0 <= i < r.len() ==> hit_matches(#[trigger] r[i], items[i])
}

/// The entries of the statistics response stream at the front of
/// `inbox`, with how many bytes they occupy: every response before the
/// terminator (one with empty key and empty data) contributes its
/// name and value bytes where both decode as UTF-8.  `None` where the
/// stream is cut short.
pub open spec fn stat_items(inbox: Seq<u8>) -> Option<(Seq<(Seq<u8>, Seq<u8>)>, int)>
    decreases inbox.len(),
{
    if inbox.len() < 24 {
        None
    } else {
        let h = header_of_bytes(inbox);
        let k = h.key_len as int;
        let d = data_len_of(h) as int;
        if k == 0 && d == 0 {
            Some((Seq::<(Seq<u8>, Seq<u8>)>::empty(), 24))
        } else if 24 + k + d > inbox.len() {
            None
        } else {
            let name = inbox.skip(24).take(k);
            let value = inbox.skip(24 + k).take(d);
            let this = if vstd::utf8::valid_utf8(name) && vstd::utf8::valid_utf8(value) {
                seq![(name, value)]
            } else {
                Seq::<(Seq<u8>, Seq<u8>)>::empty()
            };
            match stat_items(inbox.skip(24 + k + d)) {
                None => None,
                Some(rest) => Some((this + rest.0, 24 + k + d + rest.1)),
            }
        }
    }
}

/// Whether one returned statistics entry is one parsed pair: name and
/// value decoded from their UTF-8 bytes.
pub open spec fn stat_matches(st: MemcachedStat, t: (Seq<u8>, Seq<u8>)) -> bool {
    &&& vstd::utf8::valid_utf8(t.0)
    &&& vstd::utf8::valid_utf8(t.1)
    &&& st.name@ == vstd::utf8::decode_utf8(t.0)
    &&& st.value@ == vstd::utf8::decode_utf8(t.1)
}

/// Whether the returned entries are exactly the parsed pairs, in order.
pub open spec fn stats_match(r: Seq<MemcachedStat>, items: Seq<(Seq<u8>, Seq<u8>)>) -> bool {
    &&& r.len() == items.len()
    &&& forall|i: int| 0 <= i < r.len() ==> stat_matches(#[trigger] r[i], items[i])
}

/// What holds after a command that reads one response and consumes its
/// data part: the status comes from the response header at the front of
/// the old inbox, and exactly that response has been consumed.
pub open spec fn status_resp_post(
    old_inbox: Seq<u8>,
    new_inbox: Seq<u8>,
    status: MemStatus,
) -> bool {
    &&& resp_wf(old_inbox)
    &&& status == map_status_spec(header_of_bytes(old_inbox).status_vbucket)
    &&& new_inbox == old_inbox.skip(resp_len(old_inbox))
}

/// `status_resp_post`, and the returned value is the response header's CAS.
pub open spec fn simple_resp_post(
    old_inbox: Seq<u8>,
    new_inbox: Seq<u8>,
    status: MemStatus,
    cas_value: u64,
) -> bool {
    &&& status_resp_post(old_inbox, new_inbox, status)
    &&& cas_value == header_of_bytes(old_inbox).cas
}

/// One connection speaking the binary protocol over a byte stream.
pub struct BinaryConnection<S: ByteStream> {
    /// The server this connection talks to.
    pub server_addr: HostAddr,
    /// The byte stream to that server.
    pub stream: S,
}

impl<S: ByteStream> BinaryConnection<S> {
    /// A binary-protocol connection over an open stream to `server_addr`.
    pub fn new_connection(server_addr: HostAddr, stream: S) -> (c: Self)
        ensures
            c.server_addr == server_addr,
            c.stream == stream,
    {
        BinaryConnection { server_addr, stream }
    }

    /// The request header for `opcode` over a body of `extra_len` extras,
    /// a key of `key_len` and `data_len` data bytes, with `cas`.
    pub fn new_req_header(
        opcode: u8,
        key_len: u16,
        extra_len: u8,
        data_len: usize,
        cas: u64,
    ) -> (h: PacketHeader)
        requires
            key_len + extra_len + data_len <= u32::MAX,
        ensures
            h == req_header_spec(opcode, key_len, extra_len, data_len as nat, cas),
    {
        PacketHeader {
            magic: BP_REQUEST_VERSION,
            opcode,
            key_len,
            extra_len,
            data_type: 0,
            status_vbucket: 0,
            body_len: key_len as u32 + extra_len as u32 + data_len as u32,
            client_ctx: 0,
            cas,
        }
    }

    /// Write every byte of `data` to the stream.
    pub fn write_data(&mut self, data: &[u8]) -> (ok: bool)
        ensures
            final(self).server_addr == old(self).server_addr,
            ok ==> final(self).stream.outbox() == old(self).stream.outbox() + data@
                && final(self).stream.inbox() == old(self).stream.inbox(),
    {
        self.stream.bs_write_all(data)
    }

    /// Pack and write one header.
    pub fn write_header(&mut self, header: &PacketHeader) -> (ok: bool)
        ensures
            final(self).server_addr == old(self).server_addr,
            ok ==> final(self).stream.outbox() == old(self).stream.outbox()
                + header_bytes(*header) && final(self).stream.inbox() == old(self).stream.inbox(),
    {
        let mut buf: Vec<u8> = vec![0u8; BP_HEADER_SIZE];
        header.pack(&mut buf, 0);
        proof {
            assert(buf@ =~= header_bytes(*header));
        }
        self.write_data(buf.as_slice())
    }

    /// Read and unpack one response header.
    pub fn read_header(&mut self, header: &mut PacketHeader) -> (ok: bool)
        ensures
            final(self).server_addr == old(self).server_addr,
            final(self).stream.outbox() == old(self).stream.outbox(),
            ok ==> old(self).stream.inbox().len() >= 24 && *final(header) == header_of_bytes(
                old(self).stream.inbox(),
            ) && final(self).stream.inbox() == old(self).stream.inbox().skip(24),
    {
        match self.stream.bs_read_exact(BP_HEADER_SIZE) {
            Some(buf) => {
                header.unpack(&buf, 0);
                proof {
                    let inbox = old(self).stream.inbox();
                    assert(buf@.skip(0) =~= buf@);
                    assert(buf@ == inbox.take(24));
                    assert(forall|j: int| 0 <= j < 24 ==> #[trigger] inbox.take(24)[j] == inbox[j]);
                    assert(buf@.skip(2) =~= inbox.skip(2).take(22));
                    assert(header_of_bytes(buf@) == header_of_bytes(inbox)) by {
                        assert(buf@.skip(2)[0] == inbox.skip(2)[0]);
                        assert(buf@.skip(2)[1] == inbox.skip(2)[1]);
                        assert(buf@.skip(6)[0] == inbox.skip(6)[0]);
                        assert(buf@.skip(6)[1] == inbox.skip(6)[1]);
                        assert(forall|j: int| 0 <= j < 4 ==> #[trigger] buf@.skip(8)[j] == inbox.skip(8)[j]);
                        assert(forall|j: int| 0 <= j < 4 ==> #[trigger] buf@.skip(12)[j] == inbox.skip(12)[j]);
                        assert(forall|j: int| 0 <= j < 8 ==> #[trigger] buf@.skip(16)[j] == inbox.skip(16)[j]);
                    }
                }
                true
            },
            None => false,
        }
    }

    /// Read exactly `len_to_read` bytes from the stream.
    pub fn read_upto(&mut self, len_to_read: usize) -> (r: Option<Vec<u8>>)
        ensures
            final(self).server_addr == old(self).server_addr,
            final(self).stream.outbox() == old(self).stream.outbox(),
            match r {
                Some(v) => old(self).stream.inbox().len() >= len_to_read && v@ == old(
                    self,
                ).stream.inbox().take(len_to_read as int) && final(self).stream.inbox() == old(
                    self,
                ).stream.inbox().skip(len_to_read as int),
                None => true,
            },
    {
        self.stream.bs_read_exact(len_to_read)
    }

    /// One store-family round trip (Set / Add / Replace): send the packet,
    /// read the response, return its status and new CAS.  The binary path
    /// always reads a response, so `noreply` is advisory only.
    pub fn bc_store_cmd(
        &mut self,
        opcode: u8,
        key: &str,
        data: &[u8],
        cas: u64,
        flags: u32,
        exptime: u32,
        noreply: bool,
    ) -> (r: MemResult<u64>)
        requires
            key.spec_bytes().len() <= u16::MAX,
            8 + key.spec_bytes().len() + data@.len() <= u32::MAX,
        ensures
            final(self).server_addr == old(self).server_addr,
            r.status != MemStatus::Network_Error ==> final(self).stream.outbox() == old(
                self,
            ).stream.outbox() + store_request_bytes(
                opcode,
                key.spec_bytes(),
                data@,
                cas,
                flags,
                exptime,
            ) && simple_resp_post(
                old(self).stream.inbox(),
                final(self).stream.inbox(),
                r.status,
                r.value,
            ),
    {
        let _ = noreply;
        let key_bytes = key.as_bytes();
        let mut header = Self::new_req_header(
            opcode,
            key_bytes.len() as u16,
            8,
            data.len(),
            cas,
        );
        let body_len = 8 + key_bytes.len() + data.len();
        let mut body: Vec<u8> = vec![0u8; body_len];
        let mut offset = ioutil::pack_u32_be(&mut body, 0, flags);
        offset = ioutil::pack_u32_be(&mut body, offset, exptime);
        offset = ioutil::copy_bytes(&mut body, offset, key_bytes, 0, key_bytes.len());
        ioutil::copy_bytes(&mut body, offset, data, 0, data.len());
        proof {
            let target = u32_be_bytes(flags) + u32_be_bytes(exptime) + key.spec_bytes() + data@;
            let k = key.spec_bytes().len() as int;
            let d = data@.len() as int;
            assert forall|i: int| 0 <= i < body@.len() implies body@[i] == target[i] by {
                if i < 4 {
                    assert(body@[i] == body@.subrange(0, 4)[i]);
                } else if i < 8 {
                    assert(body@[i] == body@.subrange(4, 8)[i - 4]);
                } else if i < 8 + k {
                    assert(body@[8 + (i - 8)] == key_bytes@[0 + (i - 8)]);
                } else {
                    assert(body@[(8 + k) + (i - 8 - k)] == data@[0 + (i - 8 - k)]);
                }
            }
            assert(body@ =~= target);
        }
        if !self.write_header(&header) {
            return MemResult { status: MemStatus::Network_Error, value: 0 };
        }
        if !self.write_data(body.as_slice()) {
            return MemResult { status: MemStatus::Network_Error, value: 0 };
        }
        if !self.read_header(&mut header) {
            return MemResult { status: MemStatus::Network_Error, value: 0 };
        }
        let data_len = header.get_data_len();
        match self.read_upto(data_len) {
            None => MemResult { status: MemStatus::Network_Error, value: 0 },
            Some(_) => {
                proof {
                    let old_inbox = old(self).stream.inbox();
                    assert(old_inbox.skip(24).skip(data_len as int) =~= old_inbox.skip(
                        24 + data_len as int,
                    ));
                }
                MemResult {
                    status: MemStatus::map_status(header.status_vbucket),
                    value: header.cas,
                }
            },
        }
    }

    /// One Append / Prepend round trip: no extras, key then data.
    pub fn bc_append_cmd(&mut self, opcode: u8, key: &str, data: &[u8], noreply: bool) -> (r:
        MemResult<u64>)
        requires
            key.spec_bytes().len() <= u16::MAX,
            key.spec_bytes().len() + data@.len() <= u32::MAX,
        ensures
            final(self).server_addr == old(self).server_addr,
            r.status != MemStatus::Network_Error ==> final(self).stream.outbox() == old(
                self,
            ).stream.outbox() + append_request_bytes(opcode, key.spec_bytes(), data@)
                && simple_resp_post(
                old(self).stream.inbox(),
                final(self).stream.inbox(),
                r.status,
                r.value,
            ),
    {
        let _ = noreply;
        let key_bytes = key.as_bytes();
        let mut header = Self::new_req_header(opcode, key_bytes.len() as u16, 0, data.len(), 0);
        let body_len = key_bytes.len() + data.len();
        let mut body: Vec<u8> = vec![0u8; body_len];
        let offset = ioutil::copy_bytes(&mut body, 0, key_bytes, 0, key_bytes.len());
        ioutil::copy_bytes(&mut body, offset, data, 0, data.len());
        proof {
            let target = key.spec_bytes() + data@;
            let k = key.spec_bytes().len() as int;
            assert forall|i: int| 0 <= i < body@.len() implies body@[i] == target[i] by {
                if i < k {
                    assert(body@[0 + i] == key_bytes@[0 + i]);
                } else {
                    assert(body@[k + (i - k)] == data@[0 + (i - k)]);
                }
            }
            assert(body@ =~= target);
        }
        if !self.write_header(&header) {
            return MemResult { status: MemStatus::Network_Error, value: 0 };
        }
        if !self.write_data(body.as_slice()) {
            return MemResult { status: MemStatus::Network_Error, value: 0 };
        }
        if !self.read_header(&mut header) {
            return MemResult { status: MemStatus::Network_Error, value: 0 };
        }
        let data_len = header.get_data_len();
        match self.read_upto(data_len) {
            None => MemResult { status: MemStatus::Network_Error, value: 0 },
            Some(_) => {
                proof {
                    let old_inbox = old(self).stream.inbox();
                    assert(old_inbox.skip(24).skip(data_len as int) =~= old_inbox.skip(
                        24 + data_len as int,
                    ));
                }
                MemResult {
                    status: MemStatus::map_status(header.status_vbucket),
                    value: header.cas,
                }
            },
        }
    }

    /// One Increment / Decrement round trip: 20 extras bytes of amount,
    /// initial value and exptime, then the key.  On success the response
    /// data carries the counter's new value.
    pub fn bc_inc_cmd(
        &mut self,
        opcode: u8,
        key: &str,
        exptime: u32,
        inc_amount: u64,
        init_value: u64,
        noreply: bool,
    ) -> (r: MemResult<u64>)
        requires
            key.spec_bytes().len() <= u16::MAX,
        ensures
            final(self).server_addr == old(self).server_addr,
            r.status != MemStatus::Network_Error ==> {
                let old_inbox = old(self).stream.inbox();
                let h = header_of_bytes(old_inbox);
                &&& final(self).stream.outbox() == old(self).stream.outbox() + inc_request_bytes(
                    opcode,
                    key.spec_bytes(),
                    inc_amount,
                    init_value,
                    exptime,
                )
                &&& status_resp_post(old_inbox, final(self).stream.inbox(), r.status)
                &&& r.value == (if data_len_of(h) == 8 && h.status_vbucket == 0 {
                    be_u64(old_inbox.skip(24))
                } else {
                    0u64
                })
            },
    {
        let _ = noreply;
        let key_bytes = key.as_bytes();
        let mut header = Self::new_req_header(opcode, key_bytes.len() as u16, 20, 0, 0);
        let body_len = 20 + key_bytes.len();
        let mut body: Vec<u8> = vec![0u8; body_len];
        let mut offset = ioutil::pack_u64_be(&mut body, 0, inc_amount);
        offset = ioutil::pack_u64_be(&mut body, offset, init_value);
        offset = ioutil::pack_u32_be(&mut body, offset, exptime);
        ioutil::copy_bytes(&mut body, offset, key_bytes, 0, key_bytes.len());
        proof {
            let target = u64_be_bytes(inc_amount) + u64_be_bytes(init_value) + u32_be_bytes(
                exptime,
            ) + key.spec_bytes();
            assert forall|i: int| 0 <= i < body@.len() implies body@[i] == target[i] by {
                if i < 8 {
                    assert(body@[i] == body@.subrange(0, 8)[i]);
                } else if i < 16 {
                    assert(body@[i] == body@.subrange(8, 16)[i - 8]);
                } else if i < 20 {
                    assert(body@[i] == body@.subrange(16, 20)[i - 16]);
                } else {
                    assert(body@[20 + (i - 20)] == key_bytes@[0 + (i - 20)]);
                }
            }
            assert(body@ =~= target);
        }
        if !self.write_header(&header) {
            return MemResult { status: MemStatus::Network_Error, value: 0 };
        }
        if !self.write_data(body.as_slice()) {
            return MemResult { status: MemStatus::Network_Error, value: 0 };
        }
        if !self.read_header(&mut header) {
            return MemResult { status: MemStatus::Network_Error, value: 0 };
        }
        let data_len = header.get_data_len();
        match self.read_upto(data_len) {
            None => MemResult { status: MemStatus::Network_Error, value: 0 },
            Some(buf) => {
                proof {
                    let old_inbox = old(self).stream.inbox();
                    assert(old_inbox.skip(24).skip(data_len as int) =~= old_inbox.skip(
                        24 + data_len as int,
                    ));
                }
                let new_value: u64 = if buf.len() == 8 && header.status_vbucket == 0 {
                    proof {
                        let rest = old(self).stream.inbox().skip(24);
                        assert(forall|j: int|
                            0 <= j < 8 ==> #[trigger] buf@.skip(0)[j] == rest[j]);
                        assert(buf@.skip(0) =~= buf@);
                    }
                    ioutil::unpack_u64_be(&buf, 0)
                } else {
                    0
                };
                MemResult {
                    status: MemStatus::map_status(header.status_vbucket),
                    value: new_value,
                }
            },
        }
    }

    /// One request packet whose body is just the key, as bytes.
    fn key_packet_bytes(opcode: u8, key_bytes: &[u8]) -> (r: Vec<u8>)
        requires
            key_bytes@.len() <= u16::MAX,
        ensures
            r@ == key_request_bytes(opcode, key_bytes@),
    {
        let header = Self::new_req_header(opcode, key_bytes.len() as u16, 0, 0, 0);
        let mut out: Vec<u8> = vec![0u8; BP_HEADER_SIZE];
        header.pack(&mut out, 0);
        proof {
            assert(out@ =~= header_bytes(header));
        }
        out.extend_from_slice(key_bytes);
        proof {
            assert(out@ =~= key_request_bytes(opcode, key_bytes@));
        }
        out
    }

    /// The whole pipelined multi-get request over the keys, as bytes.
    pub fn build_gets_request(keys: &[&str]) -> (r: Vec<u8>)
        requires
            keys@.len() >= 1,
            forall|i: int| 0 <= i < keys@.len() ==> #[trigger] keys@[i].spec_bytes().len()
                <= u16::MAX,
        ensures
            r@ == gets_request_bytes(keys@.map_values(|k: &str| k.spec_bytes())),
    {
        let ghost kmap = keys@.map_values(|k: &str| k.spec_bytes());
        let n = keys.len();
        let mut out: Vec<u8> = Vec::new();
        let mut i: usize = 0;
        proof {
            assert(kmap.take(0) =~= Seq::<Seq<u8>>::empty());
        }
        while i < n - 1
            invariant
                i <= n - 1,
                n == keys@.len(),
                kmap == keys@.map_values(|k: &str| k.spec_bytes()),
                kmap.len() == n,
                forall|j: int| 0 <= j < keys@.len() ==> #[trigger] keys@[j].spec_bytes().len()
                    <= u16::MAX,
                out@ == getkq_seq_bytes(kmap.take(i as int)),
            decreases n - 1 - i,
        {
            let mut pkt = Self::key_packet_bytes(BP_OP_GETKQ, keys[i].as_bytes());
            proof {
                assert(kmap[i as int] == keys@[i as int].spec_bytes());
                assert(kmap.take(i + 1) =~= kmap.take(i as int).push(kmap[i as int]));
                lemma_getkq_seq_push(kmap.take(i as int), kmap[i as int]);
            }
            out.append(&mut pkt);
            i = i + 1;
        }
        let mut last = Self::key_packet_bytes(BP_OP_GETK, keys[n - 1].as_bytes());
        out.append(&mut last);
        proof {
            assert(kmap[n - 1] == keys@[n - 1].spec_bytes());
            assert(kmap.take(n - 1) =~= kmap.drop_last());
            assert(out@ =~= gets_request_bytes(kmap));
        }
        out
    }

    /// Write one request packet whose body is just the key.
    fn send_key_packet(&mut self, opcode: u8, key_bytes: &[u8]) -> (ok: bool)
        requires
            key_bytes@.len() <= u16::MAX,
        ensures
            final(self).server_addr == old(self).server_addr,
            ok ==> final(self).stream.outbox() == old(self).stream.outbox() + key_request_bytes(
                opcode,
                key_bytes@,
            ) && final(self).stream.inbox() == old(self).stream.inbox(),
    {
        let header = Self::new_req_header(opcode, key_bytes.len() as u16, 0, 0, 0);
        let mut body: Vec<u8> = vec![0u8; key_bytes.len()];
        ioutil::copy_bytes(&mut body, 0, key_bytes, 0, key_bytes.len());
        proof {
            assert forall|i: int| 0 <= i < body@.len() implies body@[i] == key_bytes@[i] by {
                assert(body@[0 + i] == key_bytes@[0 + i]);
            }
            assert(body@ =~= key_bytes@);
        }
        if !self.write_header(&header) {
            return false;
        }
        let ok = self.write_data(body.as_slice());
        proof {
            if ok {
                assert(final(self).stream.outbox() =~= old(self).stream.outbox()
                    + key_request_bytes(opcode, key_bytes@));
            }
        }
        ok
    }

    /// Write one request packet whose body is 4 extras bytes of `value`.
    fn send_u32_packet(&mut self, opcode: u8, value: u32) -> (ok: bool)
        ensures
            final(self).server_addr == old(self).server_addr,
            ok ==> final(self).stream.outbox() == old(self).stream.outbox() + u32_request_bytes(
                opcode,
                value,
            ) && final(self).stream.inbox() == old(self).stream.inbox(),
    {
        let header = Self::new_req_header(opcode, 0, 4, 0, 0);
        let mut body: Vec<u8> = vec![0u8; 4];
        ioutil::pack_u32_be(&mut body, 0, value);
        proof {
            assert(body@ =~= u32_be_bytes(value));
        }
        if !self.write_header(&header) {
            return false;
        }
        let ok = self.write_data(body.as_slice());
        proof {
            if ok {
                assert(final(self).stream.outbox() =~= old(self).stream.outbox()
                    + u32_request_bytes(opcode, value));
            }
        }
        ok
    }

    /// Read one response header and its data part; the mapped status.
    fn read_status_resp(&mut self) -> (r: Option<MemStatus>)
        ensures
            final(self).server_addr == old(self).server_addr,
            final(self).stream.outbox() == old(self).stream.outbox(),
            match r {
                Some(status) => status_resp_post(
                    old(self).stream.inbox(),
                    final(self).stream.inbox(),
                    status,
                ),
                None => true,
            },
    {
        let mut header = Self::new_req_header(BP_OP_NOOP, 0, 0, 0, 0);
        if !self.read_header(&mut header) {
            return None;
        }
        let data_len = header.get_data_len();
        match self.read_upto(data_len) {
            None => None,
            Some(_) => {
                proof {
                    let old_inbox = old(self).stream.inbox();
                    assert(old_inbox.skip(24).skip(data_len as int) =~= old_inbox.skip(
                        24 + data_len as int,
                    ));
                }
                Some(MemStatus::map_status(header.status_vbucket))
            },
        }
    }

    /// Store the data under the key.  A non-zero CAS makes this a
    /// check-and-set: set and cas are one opcode on the binary wire.
    pub fn p_set(&mut self, key: &str, data: &[u8], cas: u64, flags: u32, exptime: u32, noreply:
        bool) -> (r: MemResult<u64>)
        requires
            key.spec_bytes().len() <= u16::MAX,
            8 + key.spec_bytes().len() + data@.len() <= u32::MAX,
        ensures
            final(self).server_addr == old(self).server_addr,
            r.status != MemStatus::Network_Error ==> final(self).stream.outbox() == old(
                self,
            ).stream.outbox() + store_request_bytes(
                BP_OP_SET,
                key.spec_bytes(),
                data@,
                cas,
                flags,
                exptime,
            ) && simple_resp_post(
                old(self).stream.inbox(),
                final(self).stream.inbox(),
                r.status,
                r.value,
            ),
    {
        self.bc_store_cmd(BP_OP_SET, key, data, cas, flags, exptime, noreply)
    }

    /// Check-and-set: store only if the server's CAS equals `cas`.
    pub fn p_cas(&mut self, key: &str, data: &[u8], cas: u64, flags: u32, exptime: u32, noreply:
        bool) -> (r: MemResult<u64>)
        requires
            key.spec_bytes().len() <= u16::MAX,
            8 + key.spec_bytes().len() + data@.len() <= u32::MAX,
        ensures
            final(self).server_addr == old(self).server_addr,
            cas == 0 ==> r.status == MemStatus::Key_Exists && r.value == 0 && *final(self)
                == *old(self),
            cas != 0 && r.status != MemStatus::Network_Error ==> final(self).stream.outbox()
                == old(self).stream.outbox() + store_request_bytes(
                BP_OP_SET,
                key.spec_bytes(),
                data@,
                cas,
                flags,
                exptime,
            ) && simple_resp_post(
                old(self).stream.inbox(),
                final(self).stream.inbox(),
                r.status,
                r.value,
            ),
    {
        if cas == 0 {
            // a CAS token of 0 means "no token": the server never assigns
            // it, so the compare can only fail; sending it as a bare Set
            // would store unconditionally instead
            return MemResult { status: MemStatus::Key_Exists, value: 0 };
        }
        self.bc_store_cmd(BP_OP_SET, key, data, cas, flags, exptime, noreply)
    }

    /// Store only where the server holds nothing for the key.
    pub fn p_add(&mut self, key: &str, data: &[u8], cas: u64, flags: u32, exptime: u32, noreply:
        bool) -> (r: MemResult<u64>)
        requires
            key.spec_bytes().len() <= u16::MAX,
            8 + key.spec_bytes().len() + data@.len() <= u32::MAX,
        ensures
            final(self).server_addr == old(self).server_addr,
            r.status != MemStatus::Network_Error ==> final(self).stream.outbox() == old(
                self,
            ).stream.outbox() + store_request_bytes(
                BP_OP_ADD,
                key.spec_bytes(),
                data@,
                cas,
                flags,
                exptime,
            ) && simple_resp_post(
                old(self).stream.inbox(),
                final(self).stream.inbox(),
                r.status,
                r.value,
            ),
    {
        self.bc_store_cmd(BP_OP_ADD, key, data, cas, flags, exptime, noreply)
    }

    /// Store only where the server already holds data for the key.
    pub fn p_replace(&mut self, key: &str, data: &[u8], cas: u64, flags: u32, exptime: u32,
        noreply: bool) -> (r: MemResult<u64>)
        requires
            key.spec_bytes().len() <= u16::MAX,
            8 + key.spec_bytes().len() + data@.len() <= u32::MAX,
        ensures
            final(self).server_addr == old(self).server_addr,
            r.status != MemStatus::Network_Error ==> final(self).stream.outbox() == old(
                self,
            ).stream.outbox() + store_request_bytes(
                BP_OP_REPLACE,
                key.spec_bytes(),
                data@,
                cas,
                flags,
                exptime,
            ) && simple_resp_post(
                old(self).stream.inbox(),
                final(self).stream.inbox(),
                r.status,
                r.value,
            ),
    {
        self.bc_store_cmd(BP_OP_REPLACE, key, data, cas, flags, exptime, noreply)
    }

    /// Append the data after the key's existing data.
    pub fn p_append(&mut self, key: &str, data: &[u8], noreply: bool) -> (r: MemResult<u64>)
        requires
            key.spec_bytes().len() <= u16::MAX,
            key.spec_bytes().len() + data@.len() <= u32::MAX,
        ensures
            final(self).server_addr == old(self).server_addr,
            r.status != MemStatus::Network_Error ==> final(self).stream.outbox() == old(
                self,
            ).stream.outbox() + append_request_bytes(BP_OP_APPEND, key.spec_bytes(), data@)
                && simple_resp_post(
                old(self).stream.inbox(),
                final(self).stream.inbox(),
                r.status,
                r.value,
            ),
    {
        self.bc_append_cmd(BP_OP_APPEND, key, data, noreply)
    }

    /// Prepend the data before the key's existing data.
    pub fn p_prepend(&mut self, key: &str, data: &[u8], noreply: bool) -> (r: MemResult<u64>)
        requires
            key.spec_bytes().len() <= u16::MAX,
            key.spec_bytes().len() + data@.len() <= u32::MAX,
        ensures
            final(self).server_addr == old(self).server_addr,
            r.status != MemStatus::Network_Error ==> final(self).stream.outbox() == old(
                self,
            ).stream.outbox() + append_request_bytes(BP_OP_PREPEND, key.spec_bytes(), data@)
                && simple_resp_post(
                old(self).stream.inbox(),
                final(self).stream.inbox(),
                r.status,
                r.value,
            ),
    {
        self.bc_append_cmd(BP_OP_PREPEND, key, data, noreply)
    }

    /// Update a cached entry's expiration time without fetching it.
    pub fn p_touch(&mut self, key: &str, exptime: u32, noreply: bool) -> (s: MemStatus)
        requires
            key.spec_bytes().len() <= u16::MAX,
        ensures
            final(self).server_addr == old(self).server_addr,
            s != MemStatus::Network_Error ==> final(self).stream.outbox() == old(
                self,
            ).stream.outbox() + touch_request_bytes(key.spec_bytes(), exptime)
                && status_resp_post(old(self).stream.inbox(), final(self).stream.inbox(), s),
    {
        let _ = noreply;
        let key_bytes = key.as_bytes();
        let header = Self::new_req_header(BP_OP_TOUCH, key_bytes.len() as u16, 4, 0, 0);
        let body_len = 4 + key_bytes.len();
        let mut body: Vec<u8> = vec![0u8; body_len];
        let offset = ioutil::pack_u32_be(&mut body, 0, exptime);
        ioutil::copy_bytes(&mut body, offset, key_bytes, 0, key_bytes.len());
        proof {
            let target = u32_be_bytes(exptime) + key.spec_bytes();
            assert forall|i: int| 0 <= i < body@.len() implies body@[i] == target[i] by {
                if i < 4 {
                    assert(body@[i] == body@.subrange(0, 4)[i]);
                } else {
                    assert(body@[4 + (i - 4)] == key_bytes@[0 + (i - 4)]);
                }
            }
            assert(body@ =~= target);
        }
        if !self.write_header(&header) {
            return MemStatus::Network_Error;
        }
        if !self.write_data(body.as_slice()) {
            return MemStatus::Network_Error;
        }
        match self.read_status_resp() {
            None => MemStatus::Network_Error,
            Some(status) => status,
        }
    }

    /// Increment the 64-bit counter at the key by `inc_amount`; where the
    /// key is absent and `exptime` is not 0xFFFFFFFF the server creates it
    /// with `init_value`.
    pub fn p_incr(&mut self, key: &str, inc_amount: u64, init_value: u64, exptime: u32, noreply:
        bool) -> (r: MemResult<u64>)
        requires
            key.spec_bytes().len() <= u16::MAX,
        ensures
            final(self).server_addr == old(self).server_addr,
            r.status != MemStatus::Network_Error ==> {
                let old_inbox = old(self).stream.inbox();
                let h = header_of_bytes(old_inbox);
                &&& final(self).stream.outbox() == old(self).stream.outbox() + inc_request_bytes(
                    BP_OP_INCREMENT,
                    key.spec_bytes(),
                    inc_amount,
                    init_value,
                    exptime,
                )
                &&& status_resp_post(old_inbox, final(self).stream.inbox(), r.status)
                &&& r.value == (if data_len_of(h) == 8 && h.status_vbucket == 0 {
                    be_u64(old_inbox.skip(24))
                } else {
                    0u64
                })
            },
    {
        self.bc_inc_cmd(BP_OP_INCREMENT, key, exptime, inc_amount, init_value, noreply)
    }

    /// Decrement the 64-bit counter at the key by `dec_amount`; the
    /// counter stops at zero.
    pub fn p_decr(&mut self, key: &str, dec_amount: u64, init_value: u64, exptime: u32, noreply:
        bool) -> (r: MemResult<u64>)
        requires
            key.spec_bytes().len() <= u16::MAX,
        ensures
            final(self).server_addr == old(self).server_addr,
            r.status != MemStatus::Network_Error ==> {
                let old_inbox = old(self).stream.inbox();
                let h = header_of_bytes(old_inbox);
                &&& final(self).stream.outbox() == old(self).stream.outbox() + inc_request_bytes(
                    BP_OP_DECREMENT,
                    key.spec_bytes(),
                    dec_amount,
                    init_value,
                    exptime,
                )
                &&& status_resp_post(old_inbox, final(self).stream.inbox(), r.status)
                &&& r.value == (if data_len_of(h) == 8 && h.status_vbucket == 0 {
                    be_u64(old_inbox.skip(24))
                } else {
                    0u64
                })
            },
    {
        self.bc_inc_cmd(BP_OP_DECREMENT, key, exptime, dec_amount, init_value, noreply)
    }

    /// Delete the entry at the key.
    pub fn p_delete(&mut self, key: &str, noreply: bool) -> (s: MemStatus)
        requires
            key.spec_bytes().len() <= u16::MAX,
        ensures
            final(self).server_addr == old(self).server_addr,
            s != MemStatus::Network_Error ==> final(self).stream.outbox() == old(
                self,
            ).stream.outbox() + key_request_bytes(BP_OP_DELETE, key.spec_bytes())
                && status_resp_post(old(self).stream.inbox(), final(self).stream.inbox(), s),
    {
        let _ = noreply;
        let key_bytes = key.as_bytes();
        if !self.send_key_packet(BP_OP_DELETE, key_bytes) {
            return MemStatus::Network_Error;
        }
        match self.read_status_resp() {
            None => MemStatus::Network_Error,
            Some(status) => status,
        }
    }

    /// Retrieve the entries at the keys; identical to `p_gets` on the
    /// binary wire.
    pub fn p_get(&mut self, keys: &[&str]) -> (r: Vec<MemData>)
        requires
            keys@.len() >= 1,
            forall|i: int| 0 <= i < keys@.len() ==> #[trigger] keys@[i].spec_bytes().len()
                <= u16::MAX,
        ensures
            final(self).server_addr == old(self).server_addr,
            r@.len() > 0 ==> {
                let old_inbox = old(self).stream.inbox();
                &&& final(self).stream.outbox() == old(self).stream.outbox()
                    + gets_request_bytes(keys@.map_values(|k: &str| k.spec_bytes()))
                &&& gets_items(old_inbox) is Some
                &&& hits_match(r@, gets_items(old_inbox).unwrap().0)
                &&& final(self).stream.inbox() == old_inbox.skip(gets_items(old_inbox).unwrap().1)
            },
    {
        self.p_gets(keys)
    }

    /// Pipelined multi-get: a quiet GetKQ for every key but the last, then
    /// one GetK as terminator.  Responses are read in order until the
    /// terminator's opcode comes back; hits (status 0) whose key decodes
    /// as UTF-8 become items.
    #[verifier::rlimit(100)]
    pub fn p_gets(&mut self, keys: &[&str]) -> (r: Vec<MemData>)
        requires
            keys@.len() >= 1,
            forall|i: int| 0 <= i < keys@.len() ==> #[trigger] keys@[i].spec_bytes().len()
                <= u16::MAX,
        ensures
            final(self).server_addr == old(self).server_addr,
            r@.len() > 0 ==> {
                let old_inbox = old(self).stream.inbox();
                &&& final(self).stream.outbox() == old(self).stream.outbox()
                    + gets_request_bytes(keys@.map_values(|k: &str| k.spec_bytes()))
                &&& gets_items(old_inbox) is Some
                &&& hits_match(r@, gets_items(old_inbox).unwrap().0)
                &&& final(self).stream.inbox() == old_inbox.skip(gets_items(old_inbox).unwrap().1)
            },
    {
        let req = Self::build_gets_request(keys);
        if !self.write_data(req.as_slice()) {
            return Vec::new();
        }
        let ghost inbox0 = self.stream.inbox();
        let ghost mut done: Seq<(Seq<u8>, u32, u64, Seq<u8>)> = Seq::empty();
        let ghost mut used: int = 0;
        let mut mdata_list: Vec<MemData> = Vec::new();
        let mut header = Self::new_req_header(BP_OP_NOOP, 0, 0, 0, 0);
        proof {
            assert(inbox0.skip(0) =~= inbox0);
            if gets_items(inbox0) is Some {
                let rest = gets_items(inbox0).unwrap();
                assert(done + rest.0 =~= rest.0);
            }
        }
        loop
            invariant
                self.server_addr == old(self).server_addr,
                self.stream.outbox() == old(self).stream.outbox() + gets_request_bytes(
                    keys@.map_values(|k: &str| k.spec_bytes()),
                ),
                inbox0 == old(self).stream.inbox(),
                0 <= used <= inbox0.len(),
                self.stream.inbox() == inbox0.skip(used),
                hits_match(mdata_list@, done),
                match gets_items(inbox0.skip(used)) {
                    Some(rest) => gets_items(inbox0) == Some((done + rest.0, used + rest.1)),
                    None => gets_items(inbox0) is None,
                },
            decreases self.stream.inbox().len(),
        {
            let ghost cur = self.stream.inbox();
            if !self.read_header(&mut header) {
                return Vec::new();
            }
            let extra = match self.read_upto(header.extra_len as usize) {
                None => { return Vec::new(); },
                Some(v) => v,
            };
            let key_buf = match self.read_upto(header.key_len as usize) {
                None => { return Vec::new(); },
                Some(v) => v,
            };
            let data_buf = match self.read_upto(header.get_data_len()) {
                None => { return Vec::new(); },
                Some(v) => v,
            };
            let ghost e = header.extra_len as int;
            let ghost k = header.key_len as int;
            let ghost d = data_len_of(header) as int;
            let ghost key_bytes = key_buf@;
            let ghost data_bytes = data_buf@;
            let ghost done0 = done;
            let ghost mdata0 = mdata_list@;
            proof {
                assert(header == header_of_bytes(cur));
                assert(cur.skip(24).skip(e) =~= cur.skip(24 + e));
                assert(cur.skip(24 + e).skip(k) =~= cur.skip(24 + e + k));
                assert(cur.skip(24 + e + k).skip(d) =~= cur.skip(24 + e + k + d));
                assert(gets_frame_wf(cur));
                assert(extra@ == cur.skip(24).take(e));
                assert(key_bytes == cur.skip(24 + e).take(k));
                assert(data_bytes == cur.skip(24 + e + k).take(d));
                assert(self.stream.inbox() == cur.skip(gets_frame_len(cur)));
            }
            if header.status_vbucket == 0 {
                let flags: u32 = if extra.len() >= 4 {
                    ioutil::unpack_u32_be(&extra, 0)
                } else {
                    0
                };
                proof {
                    assert(extra@.skip(0) =~= extra@);
                    assert(extra@.len() == e);
                    assert(flags == (if e >= 4 {
                        be_u32(cur.skip(24).take(e))
                    } else {
                        0u32
                    }));
                }
                match strutil::bytes_to_string(key_buf) {
                    Some(key_str) => {
                        let ghost key_view = key_str@;
                        mdata_list.push(MemData {
                            key: key_str,
                            data: data_buf,
                            cas: header.cas,
                            flags,
                        });
                        proof {
                            done = done.push((key_bytes, flags, header.cas, data_bytes));
                            assert(key_view == vstd::utf8::decode_utf8(key_bytes));
                            assert(hits_match(mdata_list@, done)) by {
                                assert(mdata_list@.len() == done.len());
                                assert forall|i: int| 0 <= i < mdata_list@.len() implies
                                    hit_matches(#[trigger] mdata_list@[i], done[i]) by {
                                    if i < mdata_list@.len() - 1 {
                                        assert(mdata_list@[i] == mdata0[i]);
                                        assert(done[i] == done0[i]);
                                        assert(hit_matches(mdata0[i], done0[i]));
                                    } else {
                                        assert(mdata_list@[i].key@ == key_view);
                                        assert(done[i]
                                            == (key_bytes, flags, header.cas, data_bytes));
                                    }
                                }
                            }
                        }
                    },
                    None => {},
                }
            }
            proof {
                let flen = gets_frame_len(cur);
                let flags_s = if e >= 4 {
                    be_u32(cur.skip(24).take(e))
                } else {
                    0u32
                };
                let this = if header.status_vbucket == 0 && vstd::utf8::valid_utf8(key_bytes) {
                    seq![(key_bytes, flags_s, header.cas, data_bytes)]
                } else {
                    Seq::<(Seq<u8>, u32, u64, Seq<u8>)>::empty()
                };
                assert(done =~= done0 + this);
                assert(hits_match(mdata_list@, done));
                if header.opcode == BP_OP_GETK {
                    assert(gets_items(cur) == Some((this, flen)));
                    assert(gets_items(inbox0) == Some((done0 + this, used + flen)));
                    assert(self.stream.inbox() =~= inbox0.skip(used + flen));
                } else {
                    assert(cur.skip(flen) =~= inbox0.skip(used + flen));
                    match gets_items(cur.skip(flen)) {
                        Some(rest) => {
                            assert(gets_items(cur) == Some((this + rest.0, flen + rest.1)));
                            assert(gets_items(inbox0) == Some(
                                (done0 + (this + rest.0), used + (flen + rest.1)),
                            ));
                            assert((done0 + this) + rest.0 =~= done0 + (this + rest.0));
                        },
                        None => {
                            assert(gets_items(cur) is None);
                        },
                    }
                }
            }
            if header.opcode == BP_OP_GETK {
                return mdata_list;
            }
            proof {
                used = used + gets_frame_len(cur);
            }
        }
    }

    /// Ask the server for its version string.
    pub fn p_version(&mut self) -> (r: Result<String, String>)
        ensures
            final(self).server_addr == old(self).server_addr,
            r is Ok ==> {
                let old_inbox = old(self).stream.inbox();
                &&& final(self).stream.outbox() == old(self).stream.outbox()
                    + plain_request_bytes(BP_OP_VERSION)
                &&& resp_wf(old_inbox)
                &&& r.unwrap()@ == vstd::utf8::decode_utf8(
                    old_inbox.skip(24).take(data_len_of(header_of_bytes(old_inbox)) as int),
                )
                &&& final(self).stream.inbox() == old_inbox.skip(resp_len(old_inbox))
            },
    {
        let header = Self::new_req_header(BP_OP_VERSION, 0, 0, 0, 0);
        if !self.write_header(&header) {
            return Err(String::new());
        }
        let mut resp_header = Self::new_req_header(BP_OP_NOOP, 0, 0, 0, 0);
        if !self.read_header(&mut resp_header) {
            return Err(String::new());
        }
        let data_len = resp_header.get_data_len();
        match self.read_upto(data_len) {
            None => Err(String::new()),
            Some(buf) => {
                proof {
                    let old_inbox = old(self).stream.inbox();
                    assert(old_inbox.skip(24).skip(data_len as int) =~= old_inbox.skip(
                        24 + data_len as int,
                    ));
                }
                match strutil::bytes_to_string(buf) {
                    Some(s) => Ok(s),
                    None => Err(String::new()),
                }
            },
        }
    }

    /// Set the server's logging verbosity.
    pub fn p_verbosity(&mut self, verbosity: u32, noreply: bool) -> (s: MemStatus)
        ensures
            final(self).server_addr == old(self).server_addr,
            s != MemStatus::Network_Error ==> final(self).stream.outbox() == old(
                self,
            ).stream.outbox() + u32_request_bytes(BP_OP_VERBOSITY, verbosity)
                && status_resp_post(old(self).stream.inbox(), final(self).stream.inbox(), s),
    {
        let _ = noreply;
        if !self.send_u32_packet(BP_OP_VERBOSITY, verbosity) {
            return MemStatus::Network_Error;
        }
        match self.read_status_resp() {
            None => MemStatus::Network_Error,
            Some(status) => status,
        }
    }

    /// Invalidate every entry on the server, after `delay_in_seconds`.
    pub fn p_flush(&mut self, delay_in_seconds: u32, noreply: bool) -> (s: MemStatus)
        ensures
            final(self).server_addr == old(self).server_addr,
            s != MemStatus::Network_Error ==> final(self).stream.outbox() == old(
                self,
            ).stream.outbox() + u32_request_bytes(BP_OP_FLUSH, delay_in_seconds)
                && status_resp_post(old(self).stream.inbox(), final(self).stream.inbox(), s),
    {
        let _ = noreply;
        if !self.send_u32_packet(BP_OP_FLUSH, delay_in_seconds) {
            return MemStatus::Network_Error;
        }
        match self.read_status_resp() {
            None => MemStatus::Network_Error,
            Some(status) => status,
        }
    }

    /// Ask the server for its statistics: responses stream in until one
    /// with an empty key and empty data; entries whose name and value
    /// decode as UTF-8 are collected.
    #[verifier::rlimit(100)]
    pub fn p_stats(&mut self) -> (r: Vec<MemcachedStat>)
        ensures
            final(self).server_addr == old(self).server_addr,
            r@.len() > 0 ==> {
                let old_inbox = old(self).stream.inbox();
                &&& final(self).stream.outbox() == old(self).stream.outbox()
                    + plain_request_bytes(BP_OP_STAT)
                &&& stat_items(old_inbox) is Some
                &&& stats_match(r@, stat_items(old_inbox).unwrap().0)
                &&& final(self).stream.inbox() == old_inbox.skip(stat_items(old_inbox).unwrap().1)
            },
    {
        let header = Self::new_req_header(BP_OP_STAT, 0, 0, 0, 0);
        if !self.write_header(&header) {
            return Vec::new();
        }
        let ghost inbox0 = self.stream.inbox();
        let ghost mut done: Seq<(Seq<u8>, Seq<u8>)> = Seq::empty();
        let ghost mut used: int = 0;
        let mut stats: Vec<MemcachedStat> = Vec::new();
        let mut resp_header = Self::new_req_header(BP_OP_NOOP, 0, 0, 0, 0);
        proof {
            assert(inbox0.skip(0) =~= inbox0);
            if stat_items(inbox0) is Some {
                let rest = stat_items(inbox0).unwrap();
                assert(done + rest.0 =~= rest.0);
            }
        }
        loop
            invariant
                self.server_addr == old(self).server_addr,
                self.stream.outbox() == old(self).stream.outbox() + plain_request_bytes(
                    BP_OP_STAT,
                ),
                inbox0 == old(self).stream.inbox(),
                0 <= used <= inbox0.len(),
                self.stream.inbox() == inbox0.skip(used),
                stats_match(stats@, done),
                match stat_items(inbox0.skip(used)) {
                    Some(rest) => stat_items(inbox0) == Some((done + rest.0, used + rest.1)),
                    None => stat_items(inbox0) is None,
                },
            decreases self.stream.inbox().len(),
        {
            let ghost cur = self.stream.inbox();
            if !self.read_header(&mut resp_header) {
                return Vec::new();
            }
            let data_len = resp_header.get_data_len();
            let ghost k = resp_header.key_len as int;
            let ghost d = data_len_of(resp_header) as int;
            if resp_header.key_len == 0 && data_len == 0 {
                proof {
                    assert(stat_items(cur) == Some((Seq::<(Seq<u8>, Seq<u8>)>::empty(), 24int)));
                    assert(done + Seq::<(Seq<u8>, Seq<u8>)>::empty() =~= done);
                    assert(stat_items(inbox0) == Some((done, used + 24)));
                    assert(self.stream.inbox() =~= inbox0.skip(used + 24));
                }
                return stats;
            }
            let name_buf = match self.read_upto(resp_header.key_len as usize) {
                None => { return Vec::new(); },
                Some(v) => v,
            };
            let value_buf = match self.read_upto(data_len) {
                None => { return Vec::new(); },
                Some(v) => v,
            };
            let ghost name_bytes = name_buf@;
            let ghost value_bytes = value_buf@;
            let ghost done0 = done;
            let ghost stats0 = stats@;
            proof {
                assert(resp_header == header_of_bytes(cur));
                assert(cur.skip(24).skip(k) =~= cur.skip(24 + k));
                assert(cur.skip(24 + k).skip(d) =~= cur.skip(24 + k + d));
                assert(24 + k + d <= cur.len());
                assert(name_bytes == cur.skip(24).take(k));
                assert(value_bytes == cur.skip(24 + k).take(d));
                assert(self.stream.inbox() == cur.skip(24 + k + d));
            }
            match (strutil::bytes_to_string(name_buf), strutil::bytes_to_string(value_buf)) {
                (Some(name), Some(value)) => {
                    let ghost name_view = name@;
                    let ghost value_view = value@;
                    stats.push(MemcachedStat { name, value });
                    proof {
                        done = done.push((name_bytes, value_bytes));
                        assert(stats_match(stats@, done)) by {
                            assert(stats@.len() == done.len());
                            assert forall|i: int| 0 <= i < stats@.len() implies stat_matches(
                                #[trigger] stats@[i],
                                done[i],
                            ) by {
                                if i < stats@.len() - 1 {
                                    assert(stats@[i] == stats0[i]);
                                    assert(done[i] == done0[i]);
                                    assert(stat_matches(stats0[i], done0[i]));
                                } else {
                                    assert(stats@[i].name@ == name_view);
                                    assert(stats@[i].value@ == value_view);
                                    assert(done[i] == (name_bytes, value_bytes));
                                }
                            }
                        }
                    }
                },
                _ => {},
            }
            proof {
                let this = if vstd::utf8::valid_utf8(name_bytes) && vstd::utf8::valid_utf8(
                    value_bytes,
                ) {
                    seq![(name_bytes, value_bytes)]
                } else {
                    Seq::<(Seq<u8>, Seq<u8>)>::empty()
                };
                assert(done =~= done0 + this);
                assert(stats_match(stats@, done));
                assert(cur.skip(24 + k + d) =~= inbox0.skip(used + (24 + k + d)));
                match stat_items(cur.skip(24 + k + d)) {
                    Some(rest) => {
                        assert(stat_items(cur) == Some((this + rest.0, 24 + k + d + rest.1)));
                        assert(stat_items(inbox0) == Some(
                            (done0 + (this + rest.0), used + (24 + k + d + rest.1)),
                        ));
                        assert((done0 + this) + rest.0 =~= done0 + (this + rest.0));
                    },
                    None => {
                        assert(stat_items(cur) is None);
                    },
                }
                used = used + (24 + k + d);
            }
        }
    }

    /// Tell the server the session ends; one response header comes back.
    pub fn p_quit(&mut self) -> (s: MemStatus)
        ensures
            final(self).server_addr == old(self).server_addr,
            s != MemStatus::Network_Error ==> {
                let old_inbox = old(self).stream.inbox();
                &&& final(self).stream.outbox() == old(self).stream.outbox()
                    + plain_request_bytes(BP_OP_QUIT)
                &&& old_inbox.len() >= 24
                &&& s == map_status_spec(header_of_bytes(old_inbox).status_vbucket)
                &&& final(self).stream.inbox() == old_inbox.skip(24)
            },
    {
        let header = Self::new_req_header(BP_OP_QUIT, 0, 0, 0, 0);
        if !self.write_header(&header) {
            return MemStatus::Network_Error;
        }
        let mut resp_header = Self::new_req_header(BP_OP_NOOP, 0, 0, 0, 0);
        if !self.read_header(&mut resp_header) {
            return MemStatus::Network_Error;
        }
        MemStatus::map_status(resp_header.status_vbucket)
    }

    /// The address of the server this connection talks to, as `host:port`.
    pub fn p_get_server_addr(&self) -> (r: String)
        ensures
            r@ == (match self.server_addr.port {
                Some(p) => self.server_addr.host@ + seq![':'] + strutil::dec_chars(p as nat),
                None => self.server_addr.host@,
            }),
    {
        self.server_addr.to_str()
    }
}

/// A request header's `body_len` is exactly the sum of its key, extras and
/// data lengths, and the packed header carries that sum big-endian at
/// offset 8.
pub proof fn lemma_body_len_is_sum(opcode: u8, key_len: u16, extra_len: u8, data_len: nat, cas: u64)
    requires
        key_len + extra_len + data_len <= u32::MAX,
    ensures
        req_header_spec(opcode, key_len, extra_len, data_len, cas).body_len
            == key_len + extra_len + data_len,
        header_bytes(req_header_spec(opcode, key_len, extra_len, data_len, cas)).subrange(8, 12)
            == u32_be_bytes((key_len + extra_len + data_len) as u32),
{
    let h = req_header_spec(opcode, key_len, extra_len, data_len, cas);
    assert(header_bytes(h).subrange(8, 12) =~= u32_be_bytes(h.body_len));
}

} // verus!
