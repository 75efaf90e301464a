use rustymem::binary_conn::{
    PacketHeader, BP_OP_DECREMENT, BP_OP_GETK, BP_OP_GETKQ, BP_OP_INCREMENT, BP_OP_SET,
    BP_RESPONSE_VERSION,
};
use rustymem::proto::ProtoConnection;
use rustymem::stream::MemoryStream;
use rustymem::{
    connect, connect_with, MemParams, MemProtocol, MemStatus, RustyMem, ShardMethod,
};

/// One whole binary response packet.
fn resp_packet(opcode: u8, status: u16, cas: u64, extras: &[u8], key: &[u8], data: &[u8]) -> Vec<u8> {
    let h = PacketHeader {
        magic: BP_RESPONSE_VERSION,
        opcode,
        key_len: key.len() as u16,
        extra_len: extras.len() as u8,
        data_type: 0,
        status_vbucket: status,
        body_len: (extras.len() + key.len() + data.len()) as u32,
        client_ctx: 0,
        cas,
    };
    let mut buf: Vec<u8> = vec![0u8; 24];
    h.pack(&mut buf, 0);
    buf.extend_from_slice(extras);
    buf.extend_from_slice(key);
    buf.extend_from_slice(data);
    buf
}

/// A hit for a pipelined multi-get: 4 extras bytes of flags, the key, the
/// payload.
fn hit_packet(opcode: u8, cas: u64, flags: u32, key: &[u8], data: &[u8]) -> Vec<u8> {
    resp_packet(opcode, 0, cas, &flags.to_be_bytes(), key, data)
}

fn binary_pool(inputs: Vec<Vec<u8>>, servers: &str) -> RustyMem<MemoryStream> {
    let streams: Vec<MemoryStream> = inputs.into_iter().map(MemoryStream::new).collect();
    connect(servers, streams)
}

fn written(rm: &mut RustyMem<MemoryStream>, i: usize) -> Vec<u8> {
    match rm.get_connection(i) {
        ProtoConnection::Binary(c) => c.stream.written().clone(),
        ProtoConnection::Ascii(c) => c.stream.written().clone(),
    }
}

#[test]
fn binary_store_then_get() {
    // store key1, then read it back with all its metadata
    let mut input = resp_packet(BP_OP_SET, 0, 7, &[], &[], &[]);
    input.extend(hit_packet(BP_OP_GETK, 7, 0, b"key1", b"key1value"));
    let mut rm = binary_pool(vec![input], "127.0.0.1");

    let r = rm.set_str("key1", 7200, "key1value");
    assert_eq!(r.status, MemStatus::Success);
    // a binary store that succeeds returns the server's non-zero CAS
    assert_eq!(r.value, 7);
    assert!(r.value > 0);

    let item = rm.get_data("key1").expect("item expected");
    assert_eq!(item.key, "key1");
    assert_eq!(item.as_bytes(), b"key1value".to_vec());
    assert_eq!(item.cas, 7);
    assert_eq!(item.flags, 0);

    // the store request went out as one exact packet: header, extras
    // (flags and exptime), key, value
    let sent = written(&mut rm, 0);
    let mut expected: Vec<u8> = vec![0u8; 24];
    let h = PacketHeader {
        magic: 0x80,
        opcode: BP_OP_SET,
        key_len: 4,
        extra_len: 8,
        data_type: 0,
        status_vbucket: 0,
        body_len: 8 + 4 + 9,
        client_ctx: 0,
        cas: 0,
    };
    h.pack(&mut expected, 0);
    expected.extend_from_slice(&0u32.to_be_bytes());
    expected.extend_from_slice(&7200u32.to_be_bytes());
    expected.extend_from_slice(b"key1");
    expected.extend_from_slice(b"key1value");
    assert_eq!(&sent[..expected.len()], expected.as_slice());
}

#[test]
fn binary_add_semantics() {
    // add on an existing key refuses with Key_Exists; a fresh key stores
    let mut input = resp_packet(0x02, 0x0002, 0, &[], &[], &[]);
    input.extend(resp_packet(0x02, 0, 9, &[], &[], &[]));
    let mut rm = binary_pool(vec![input], "127.0.0.1");

    let r1 = rm.add_str("key1", 7200, "x");
    assert_eq!(r1.status, MemStatus::Key_Exists);
    let r2 = rm.add_str("key2", 7200, "key2value");
    assert_eq!(r2.status, MemStatus::Success);
    assert!(r2.value > 0);
}

#[test]
fn text_add_semantics() {
    // the text protocol answers NOT_STORED for add on an existing key
    let input = b"NOT_STORED\r\nSTORED\r\n".to_vec();
    let params = MemParams {
        servers: "127.0.0.1".to_string(),
        protocol: MemProtocol::P_ASCII,
        shard: ShardMethod::HASH_MOD,
    };
    let mut rm = connect_with(params, vec![MemoryStream::new(input)]);
    let r1 = rm.add_str("key1", 7200, "x");
    assert_eq!(r1.status, MemStatus::Item_Not_Stored);
    // text storage replies carry no CAS: the value is always 0
    assert_eq!(r1.value, 0);
    let r2 = rm.add_str("key2", 7200, "key2value");
    assert_eq!(r2.status, MemStatus::Success);
    assert_eq!(r2.value, 0);

    let sent = written(&mut rm, 0);
    assert_eq!(
        sent,
        b"add key1 0 7200 1\r\nx\r\nadd key2 0 7200 9\r\nkey2value\r\n".to_vec()
    );
}

#[test]
fn binary_cas_conflict() {
    // a CAS with token 0 can never match the server's token: it refuses
    // client-side without touching the wire; the right CAS stores and
    // returns a new token, and the new value is then visible
    let mut input = resp_packet(BP_OP_SET, 0, 8, &[], &[], &[]);
    input.extend(hit_packet(BP_OP_GETK, 8, 0, b"key1", b"yes"));
    let mut rm = binary_pool(vec![input], "127.0.0.1");

    let r1 = rm.cas_str("key1", 0, 7200, "nope");
    assert_eq!(r1.status, MemStatus::Key_Exists);
    assert_eq!(written(&mut rm, 0), Vec::<u8>::new());

    let r2 = rm.cas_str("key1", 7, 7200, "yes");
    assert_eq!(r2.status, MemStatus::Success);
    assert_ne!(r2.value, 7);
    let item = rm.get_data("key1").expect("item expected");
    assert_eq!(item.as_bytes(), b"yes".to_vec());
}

#[test]
fn binary_pipelined_multi_get() {
    // three hits answer the quiet gets; the GetK terminator misses
    let mut input = hit_packet(BP_OP_GETKQ, 1, 0, b"key1", b"key1value");
    input.extend(hit_packet(BP_OP_GETKQ, 2, 0, b"key2", b"key2value"));
    input.extend(hit_packet(BP_OP_GETKQ, 3, 0, b"key3", b"key3value"));
    input.extend(resp_packet(BP_OP_GETK, 0x0001, 0, &[], b"key_none", &[]));
    let mut rm = binary_pool(vec![input], "127.0.0.1");

    let items = rm.get_bulk_data(&["key1", "key2", "key3", "key_none"]);
    assert_eq!(items.len(), 3);
    let keys: Vec<&str> = items.iter().map(|i| i.key.as_str()).collect();
    assert_eq!(keys, vec!["key1", "key2", "key3"]);
    assert_eq!(items[0].as_bytes(), b"key1value".to_vec());

    // the requests were three quiet GetKQ and one GetK terminator
    let sent = written(&mut rm, 0);
    let mut expected = Vec::new();
    for key in ["key1", "key2", "key3"] {
        let mut h = vec![0u8; 24];
        PacketHeader {
            magic: 0x80,
            opcode: BP_OP_GETKQ,
            key_len: key.len() as u16,
            extra_len: 0,
            data_type: 0,
            status_vbucket: 0,
            body_len: key.len() as u32,
            client_ctx: 0,
            cas: 0,
        }
        .pack(&mut h, 0);
        expected.extend_from_slice(&h);
        expected.extend_from_slice(key.as_bytes());
    }
    let mut h = vec![0u8; 24];
    PacketHeader {
        magic: 0x80,
        opcode: BP_OP_GETK,
        key_len: 8,
        extra_len: 0,
        data_type: 0,
        status_vbucket: 0,
        body_len: 8,
        client_ctx: 0,
        cas: 0,
    }
    .pack(&mut h, 0);
    expected.extend_from_slice(&h);
    expected.extend_from_slice(b"key_none");
    assert_eq!(sent, expected);
}

#[test]
fn sharded_pool_fan_out() {
    // keys key1..key6 route over two servers: key1, key2, key5 to the
    // first, key3, key4, key6 to the second
    type Rm = RustyMem<MemoryStream>;
    assert_eq!(Rm::md5_mod_indexer("key1", 2), 0);
    assert_eq!(Rm::md5_mod_indexer("key2", 2), 0);
    assert_eq!(Rm::md5_mod_indexer("key3", 2), 1);
    assert_eq!(Rm::md5_mod_indexer("key4", 2), 1);
    assert_eq!(Rm::md5_mod_indexer("key5", 2), 0);
    assert_eq!(Rm::md5_mod_indexer("key6", 2), 1);

    // server 0: three store replies, then its partition's multi-get
    let mut in0 = Vec::new();
    for cas in [1u64, 2, 5] {
        in0.extend(resp_packet(BP_OP_SET, 0, cas, &[], &[], &[]));
    }
    in0.extend(hit_packet(BP_OP_GETKQ, 1, 0, b"key1", b"v1"));
    in0.extend(hit_packet(BP_OP_GETKQ, 2, 0, b"key2", b"v2"));
    in0.extend(hit_packet(BP_OP_GETK, 5, 0, b"key5", b"v5"));
    // server 1 likewise
    let mut in1 = Vec::new();
    for cas in [3u64, 4, 6] {
        in1.extend(resp_packet(BP_OP_SET, 0, cas, &[], &[], &[]));
    }
    in1.extend(hit_packet(BP_OP_GETKQ, 3, 0, b"key3", b"v3"));
    in1.extend(hit_packet(BP_OP_GETKQ, 4, 0, b"key4", b"v4"));
    in1.extend(hit_packet(BP_OP_GETK, 6, 0, b"key6", b"v6"));

    let mut rm = binary_pool(vec![in0, in1], "10.0.0.1 10.0.0.2:11212");
    assert_eq!(rm.get_connection_count(), 2);

    for (i, key) in ["key1", "key2", "key3", "key4", "key5", "key6"].iter().enumerate() {
        let value = format!("v{}", i + 1);
        let r = rm.set_str(key, 0, &value);
        assert_eq!(r.status, MemStatus::Success);
    }
    let items = rm.get_bulk_data(&["key1", "key2", "key3", "key4", "key5", "key6"]);
    assert_eq!(items.len(), 6);
    let mut keys: Vec<String> = items.iter().map(|i| i.key.clone()).collect();
    keys.sort();
    assert_eq!(keys, vec!["key1", "key2", "key3", "key4", "key5", "key6"]);
}

#[test]
fn binary_incr_on_missing() {
    // incr with an initial value creates the counter at 10, then counts
    // 13, and decr by 2 lands on 11
    let mut input = resp_packet(BP_OP_INCREMENT, 0, 1, &[], &[], &10u64.to_be_bytes());
    input.extend(resp_packet(BP_OP_INCREMENT, 0, 2, &[], &[], &13u64.to_be_bytes()));
    input.extend(resp_packet(BP_OP_DECREMENT, 0, 3, &[], &[], &11u64.to_be_bytes()));
    let mut rm = binary_pool(vec![input], "127.0.0.1");

    let r1 = rm.incr("counter", 3, 10, 0);
    assert_eq!(r1.status, MemStatus::Success);
    assert_eq!(r1.value, 10);
    let r2 = rm.incr("counter", 3, 10, 0);
    assert_eq!(r2.status, MemStatus::Success);
    assert_eq!(r2.value, 13);
    let r3 = rm.decr("counter", 2, 0, 0);
    assert_eq!(r3.status, MemStatus::Success);
    assert_eq!(r3.value, 11);

    // the increment request carries amount, initial value and exptime in
    // its 20 extras bytes
    let sent = written(&mut rm, 0);
    let mut expected = vec![0u8; 24];
    PacketHeader {
        magic: 0x80,
        opcode: BP_OP_INCREMENT,
        key_len: 7,
        extra_len: 20,
        data_type: 0,
        status_vbucket: 0,
        body_len: 27,
        client_ctx: 0,
        cas: 0,
    }
    .pack(&mut expected, 0);
    expected.extend_from_slice(&3u64.to_be_bytes());
    expected.extend_from_slice(&10u64.to_be_bytes());
    expected.extend_from_slice(&0u32.to_be_bytes());
    expected.extend_from_slice(b"counter");
    assert_eq!(&sent[..expected.len()], expected.as_slice());
}

#[test]
fn network_error_on_closed_stream() {
    // an exhausted stream reads as a network error
    let mut rm = binary_pool(vec![Vec::new()], "127.0.0.1");
    let r = rm.set_str("key1", 0, "v");
    assert_eq!(r.status, MemStatus::Network_Error);
    assert!(rm.get_data("key1").is_none());
}

#[test]
fn truncated_reply_yields_empty() {
    // a response stream cut off mid-way yields no items at all, rather
    // than a partial list
    let mut input = hit_packet(BP_OP_GETKQ, 1, 0, b"key1", b"key1value");
    input.extend(&resp_packet(BP_OP_GETK, 0, 2, &[], b"key2", b"key2value")[..20]);
    let mut rm = binary_pool(vec![input], "127.0.0.1");
    let items = rm.get_bulk_data(&["key1", "key2"]);
    assert_eq!(items.len(), 0);
}
