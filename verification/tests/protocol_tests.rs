use rustymem::binary_conn::{PacketHeader, BP_OP_STAT, BP_OP_VERSION, BP_RESPONSE_VERSION};
use rustymem::proto::ProtoConnection;
use rustymem::stream::MemoryStream;
use rustymem::{connect, connect_with, MemData, MemParams, MemProtocol, MemStatus, ShardMethod};

fn resp(opcode: u8, status: u16, cas: u64, key: &[u8], data: &[u8]) -> Vec<u8> {
    let h = PacketHeader {
        magic: BP_RESPONSE_VERSION,
        opcode,
        key_len: key.len() as u16,
        extra_len: 0,
        data_type: 0,
        status_vbucket: status,
        body_len: (key.len() + data.len()) as u32,
        client_ctx: 0,
        cas,
    };
    let mut buf: Vec<u8> = vec![0u8; 24];
    h.pack(&mut buf, 0);
    buf.extend_from_slice(key);
    buf.extend_from_slice(data);
    buf
}

fn ascii_pool(input: &[u8]) -> rustymem::RustyMem<MemoryStream> {
    let params = MemParams {
        servers: "127.0.0.1:11211".to_string(),
        protocol: MemProtocol::P_ASCII,
        shard: ShardMethod::HASH_MOD,
    };
    connect_with(params, vec![MemoryStream::new(input.to_vec())])
}

fn sent(rm: &mut rustymem::RustyMem<MemoryStream>) -> Vec<u8> {
    match rm.get_connection(0) {
        ProtoConnection::Binary(c) => c.stream.written().clone(),
        ProtoConnection::Ascii(c) => c.stream.written().clone(),
    }
}

#[test]
fn text_retrieval_state_machine() {
    // two VALUE blocks, then END; the second carries a CAS token
    let input =
        b"VALUE key1 7 9\r\nkey1value\r\nVALUE key2 0 2 44\r\nhi\r\nEND\r\n".to_vec();
    let mut rm = ascii_pool(&input);
    let items = rm.get_bulk_data(&["key1", "key2"]);
    assert_eq!(items.len(), 2);
    assert_eq!(items[0].key, "key1");
    assert_eq!(items[0].flags, 7);
    assert_eq!(items[0].cas, 0);
    assert_eq!(items[0].as_bytes(), b"key1value".to_vec());
    assert_eq!(items[1].key, "key2");
    assert_eq!(items[1].cas, 44);
    assert_eq!(sent(&mut rm), b"gets key1 key2\r\n".to_vec());
}

#[test]
fn text_retrieval_stops_on_unknown_line() {
    let input = b"BOGUS\r\nVALUE key1 0 1\r\nx\r\nEND\r\n".to_vec();
    let mut rm = ascii_pool(&input);
    let items = rm.get_bulk_data(&["key1"]);
    assert_eq!(items.len(), 0);
}

#[test]
fn text_scalar_commands() {
    let input = b"TOUCHED\r\nDELETED\r\nNOT_FOUND\r\nOK\r\nOK\r\n".to_vec();
    let mut rm = ascii_pool(&input);
    assert_eq!(rm.touch("key1", 60), MemStatus::Success);
    assert_eq!(rm.delete("key1"), MemStatus::Success);
    assert_eq!(rm.incr("counter", 3, 10, 0).status, MemStatus::Key_Not_Found);
    assert_eq!(rm.verbosity(2), vec![MemStatus::Success]);
    assert_eq!(rm.flush(30), vec![MemStatus::Success]);
    assert_eq!(
        sent(&mut rm),
        b"touch key1 60\r\ndelete key1\r\nincr counter 3\r\nverbosity 2\r\nflush_all 30\r\n"
            .to_vec()
    );
}

#[test]
fn text_stats_and_version() {
    let input = b"STAT pid 1234\r\nSTAT uptime 99\r\nEND\r\nVERSION 1.6.21\r\nOK\r\n".to_vec();
    let mut rm = ascii_pool(&input);
    let stats = rm.stats();
    assert_eq!(stats.len(), 1);
    assert_eq!(stats[0].len(), 2);
    assert_eq!(stats[0][0].name, "pid");
    assert_eq!(stats[0][0].value, "1234");
    assert_eq!(stats[0][1].name, "uptime");
    assert_eq!(stats[0][1].value, "99");
    let versions = rm.versions();
    assert_eq!(versions, vec!["VERSION 1.6.21".to_string()]);
    assert_eq!(rm.quit(), vec![MemStatus::Success]);
    assert_eq!(sent(&mut rm), b"stats\r\nversion\r\nquit\r\n".to_vec());
}

#[test]
fn binary_stats_and_version() {
    let mut input = resp(BP_OP_STAT, 0, 0, b"pid", b"1234");
    input.extend(resp(BP_OP_STAT, 0, 0, b"uptime", b"99"));
    input.extend(resp(BP_OP_STAT, 0, 0, b"", b""));
    input.extend(resp(BP_OP_VERSION, 0, 0, b"", b"1.6.21"));
    let mut rm = connect("127.0.0.1", vec![MemoryStream::new(input)]);
    let stats = rm.stats();
    assert_eq!(stats[0].len(), 2);
    assert_eq!(stats[0][0].name, "pid");
    assert_eq!(stats[0][1].value, "99");
    assert_eq!(rm.versions(), vec!["1.6.21".to_string()]);
}

#[test]
fn json_round_trip_through_pool() {
    // the stored payload is the JSON rendering; reading it back parses it
    let mut input = resp(0x01, 0, 5, b"", b"");
    let mut get_resp_h = vec![0u8; 24];
    PacketHeader {
        magic: BP_RESPONSE_VERSION,
        opcode: 0x0c,
        key_len: 5,
        extra_len: 4,
        data_type: 0,
        status_vbucket: 0,
        body_len: 4 + 5 + 13,
        client_ctx: 0,
        cas: 5,
    }
    .pack(&mut get_resp_h, 0);
    input.extend_from_slice(&get_resp_h);
    input.extend_from_slice(&0u32.to_be_bytes());
    input.extend_from_slice(b"key10");
    input.extend_from_slice(b"[10,20,30,40]");
    let mut rm = connect("127.0.0.1", vec![MemoryStream::new(input)]);

    let value = serde_json::Value::Array(vec![
        serde_json::Value::from(10),
        serde_json::Value::from(20),
        serde_json::Value::from(30),
        serde_json::Value::from(40),
    ]);
    let r = rm.set_json("key10", 0, &value);
    assert_eq!(r.status, MemStatus::Success);
    // the request body carries the serialized document
    let bytes = sent(&mut rm);
    let needle = b"[10,20,30,40]";
    assert!(bytes.windows(needle.len()).any(|w| w == needle));

    let back = rm.get_json("key10").expect("json expected");
    assert_eq!(back, value);
}

#[test]
fn scalar_decoding() {
    let md = MemData {
        key: "n".to_string(),
        data: b" 42\0\0".to_vec(),
        cas: 0,
        flags: 0,
    };
    assert_eq!(md.as_type::<u64>(), Some(42));
    assert_eq!(md.as_type_of::<u64>(7), 42);
    assert_eq!(md.as_str(), Some(" 42\0\0".to_string()));
    let bad = MemData { key: "n".to_string(), data: vec![0xFF, 0xFE], cas: 0, flags: 0 };
    assert_eq!(bad.as_type::<u64>(), None);
    assert_eq!(bad.as_type_of::<u64>(7), 7);
    assert!(bad.as_str().is_none());
    let not_json = MemData { key: "n".to_string(), data: b"not json".to_vec(), cas: 0, flags: 0 };
    assert!(not_json.as_json().is_err());
    assert_eq!(not_json.as_data_ptr(), &b"not json".to_vec());
}

#[test]
fn display_scalars_store_their_text() {
    let input = b"STORED\r\n".to_vec();
    let mut rm = ascii_pool(&input);
    let r = rm.set_as("key1", 0, &12345u64);
    assert_eq!(r.status, MemStatus::Success);
    assert_eq!(r.value, 0);
    assert_eq!(sent(&mut rm), b"set key1 0 0 5\r\n12345\r\n".to_vec());
}

#[test]
fn connection_metadata() {
    let mut rm = connect("cache-a:11300 cache-b", vec![
        MemoryStream::new(Vec::new()),
        MemoryStream::new(Vec::new()),
    ]);
    assert_eq!(rm.get_connection_count(), 2);
    assert_eq!(rm.get_connection(0).p_get_server_addr(), "cache-a:11300");
    assert_eq!(rm.get_connection(1).p_get_server_addr(), "cache-b:11211");
}
