use rustymem::ascii_conn::AsciiConnection;
use rustymem::binary_conn::{PacketHeader, BP_REQUEST_VERSION};
use rustymem::netutil::HostAddr;
use rustymem::stream::MemoryStream;
use rustymem::{MemStatus, RustyMem};

fn scratch_conn() -> AsciiConnection<MemoryStream> {
    AsciiConnection::new_connection(HostAddr::new(), MemoryStream::new(Vec::new()))
}

#[test]
fn header_round_trip() {
    let h = PacketHeader {
        magic: BP_REQUEST_VERSION,
        opcode: 0x01,
        key_len: 4,
        extra_len: 8,
        data_type: 0,
        status_vbucket: 0,
        body_len: 21,
        client_ctx: 0xDEADBEEF,
        cas: 0x0102030405060708,
    };
    let mut buf: Vec<u8> = vec![0u8; 24];
    let end = h.pack(&mut buf, 0);
    assert_eq!(end, 24);
    assert_eq!(
        buf,
        vec![
            0x80, 0x01, 0x00, 0x04, 0x08, 0x00, 0x00, 0x00, 0x00, 0x00, 0x00, 0x15, 0xDE, 0xAD,
            0xBE, 0xEF, 0x01, 0x02, 0x03, 0x04, 0x05, 0x06, 0x07, 0x08,
        ]
    );
    let mut h2 = PacketHeader {
        magic: 0,
        opcode: 0,
        key_len: 0,
        extra_len: 0,
        data_type: 0,
        status_vbucket: 0,
        body_len: 0,
        client_ctx: 0,
        cas: 0,
    };
    let end2 = h2.unpack(&buf, 0);
    assert_eq!(end2, 24);
    assert_eq!(h2, h);
    assert_eq!(h2.get_data_len(), 21 - 8 - 4);
}

#[test]
fn header_body_len_is_sum() {
    // a store request over a 4-byte key, 8 extras bytes and a 9-byte value
    let mut h = PacketHeader {
        magic: BP_REQUEST_VERSION,
        opcode: 0x01,
        key_len: 4,
        extra_len: 8,
        data_type: 0,
        status_vbucket: 0,
        body_len: 0,
        client_ctx: 0,
        cas: 0,
    };
    h.set_data_len(9);
    assert_eq!(h.body_len, 4 + 8 + 9);
    let mut buf: Vec<u8> = vec![0u8; 24];
    h.pack(&mut buf, 0);
    // the serialized header carries the sum big-endian at offset 8
    assert_eq!(&buf[8..12], &[0, 0, 0, 21]);
}

#[test]
fn header_to_network_swaps() {
    let mut h = PacketHeader {
        magic: 0x80,
        opcode: 0x01,
        key_len: 0x1234,
        extra_len: 0,
        data_type: 0,
        status_vbucket: 0x0102,
        body_len: 0x01020304,
        client_ctx: 0,
        cas: 0x0102030405060708,
    };
    h.to_network();
    assert_eq!(h.key_len, 0x3412);
    assert_eq!(h.status_vbucket, 0x0201);
    assert_eq!(h.body_len, 0x04030201);
    assert_eq!(h.cas, 0x0807060504030201);
}

#[test]
fn ascii_store_cmd_format() {
    let c = scratch_conn();
    let line = c.ascii_format_store_cmd("set", "key1", b"key1value", 0, 7200, false);
    assert_eq!(line, b"set key1 0 7200 9\r\n".to_vec());
    let line2 = c.ascii_format_store_cmd("add", "k", b"xy", 3, 0, true);
    assert_eq!(line2, b"add k 3 0 2 noreply\r\n".to_vec());
}

#[test]
fn ascii_cas_cmd_format() {
    let c = scratch_conn();
    let line = c.ascii_format_cas_cmd("key1", b"data", 77, 1, 60, false);
    assert_eq!(line, b"cas key1 1 60 4 77\r\n".to_vec());
}

#[test]
fn status_token_mapping() {
    assert_eq!(MemStatus::map_ascii_status("OK"), MemStatus::Success);
    assert_eq!(MemStatus::map_ascii_status("STORED"), MemStatus::Success);
    assert_eq!(MemStatus::map_ascii_status("NOT_STORED"), MemStatus::Item_Not_Stored);
    assert_eq!(MemStatus::map_ascii_status("EXISTS"), MemStatus::Key_Exists);
    assert_eq!(MemStatus::map_ascii_status("NOT_FOUND"), MemStatus::Key_Not_Found);
    assert_eq!(MemStatus::map_ascii_status("DELETED"), MemStatus::Success);
    assert_eq!(MemStatus::map_ascii_status("TOUCHED"), MemStatus::Success);
    assert_eq!(MemStatus::map_ascii_status("ERROR"), MemStatus::Unknown_Command);
    assert_eq!(MemStatus::map_ascii_status("CLIENT_ERROR"), MemStatus::Invalid_Arguments);
    assert_eq!(MemStatus::map_ascii_status("SERVER_ERROR"), MemStatus::Internal_Error);
    assert_eq!(MemStatus::map_ascii_status("WHAT"), MemStatus::Unknown_Response);
    assert_eq!(
        MemStatus::ascii_to_status(Ok("STORED extra".to_string())),
        MemStatus::Success
    );
    assert_eq!(
        MemStatus::ascii_to_status(Err("closed".to_string())),
        MemStatus::Network_Error
    );
}

#[test]
fn status_code_mapping() {
    assert_eq!(MemStatus::map_status(0x0000), MemStatus::Success);
    assert_eq!(MemStatus::map_status(0x0001), MemStatus::Key_Not_Found);
    assert_eq!(MemStatus::map_status(0x0002), MemStatus::Key_Exists);
    assert_eq!(MemStatus::map_status(0x0003), MemStatus::Value_Too_Large);
    assert_eq!(MemStatus::map_status(0x0004), MemStatus::Invalid_Arguments);
    assert_eq!(MemStatus::map_status(0x0005), MemStatus::Item_Not_Stored);
    assert_eq!(MemStatus::map_status(0x0006), MemStatus::Non_Numeric_Value);
    assert_eq!(MemStatus::map_status(0x0007), MemStatus::Vbucket_Belongs_Another_Server);
    assert_eq!(MemStatus::map_status(0x0008), MemStatus::Authentication_Error);
    assert_eq!(MemStatus::map_status(0x0009), MemStatus::Authentication_Continue);
    assert_eq!(MemStatus::map_status(0x0081), MemStatus::Unknown_Command);
    assert_eq!(MemStatus::map_status(0x0082), MemStatus::Out_Of_Memory);
    assert_eq!(MemStatus::map_status(0x0083), MemStatus::Not_Supported);
    assert_eq!(MemStatus::map_status(0x0084), MemStatus::Internal_Error);
    assert_eq!(MemStatus::map_status(0x0085), MemStatus::Busy);
    assert_eq!(MemStatus::map_status(0x0086), MemStatus::Temporary_Failure);
    assert_eq!(MemStatus::map_status(0x0200), MemStatus::Network_Error);
    assert_eq!(MemStatus::map_status(0x0201), MemStatus::Unknown_Response);
    assert_eq!(MemStatus::map_status(0x0202), MemStatus::Not_Implemented);
    assert_eq!(MemStatus::map_status(0x7777), MemStatus::Unknown_Response);
}

#[test]
fn router_is_pure() {
    type Rm = RustyMem<MemoryStream>;
    // MD5-based: the index depends on the key and the pool size alone
    assert_eq!(Rm::md5_mod_indexer("key1", 1), 0);
    assert_eq!(Rm::md5_mod_indexer("key_none", 1), 0);
    assert_eq!(Rm::md5_mod_indexer("key1", 2), 0);
    assert_eq!(Rm::md5_mod_indexer("key2", 2), 0);
    assert_eq!(Rm::md5_mod_indexer("key3", 2), 1);
    assert_eq!(Rm::md5_mod_indexer("key4", 2), 1);
    assert_eq!(Rm::md5_mod_indexer("key5", 2), 0);
    assert_eq!(Rm::md5_mod_indexer("key6", 2), 1);
    assert_eq!(Rm::md5_mod_indexer("key1", 2), Rm::md5_mod_indexer("key1", 2));
    // truncate_to_u32(MD5("key1")) == 3266172564, and 3266172564 % 3 == 0
    assert_eq!(Rm::md5_mod_indexer("key1", 3), (3266172564u64 % 3) as usize);
    for n in 1..7usize {
        assert!(Rm::md5_mod_indexer("key1", n) < n);
    }
}

#[test]
fn distribute_keys_partitions() {
    type Rm = RustyMem<MemoryStream>;
    let keys = ["key1", "key2", "key3", "key4", "key5", "key6"];
    let parts = Rm::distribute_keys(&keys, 2);
    assert_eq!(parts.len(), 2);
    // multiset preserved, and encounter order kept within each partition
    assert_eq!(parts[0], vec!["key1", "key2", "key5"]);
    assert_eq!(parts[1], vec!["key3", "key4", "key6"]);

    let parts1 = Rm::distribute_keys(&keys, 1);
    assert_eq!(parts1.len(), 1);
    assert_eq!(parts1[0], keys.to_vec());
}

#[test]
fn ascii_noreply_reads_nothing() {
    // with noreply nothing is read: an empty stream still yields Success
    let mut c = AsciiConnection::new_connection(HostAddr::new(), MemoryStream::new(Vec::new()));
    let r = c.p_set("key1", b"v", 0, 0, 60, true);
    assert_eq!(r.status, MemStatus::Success);
    assert_eq!(r.value, 0);
    assert_eq!(c.stream.written(), &b"set key1 0 60 1 noreply\r\nv\r\n".to_vec());
    let s = c.p_delete("key1", true);
    assert_eq!(s, MemStatus::Success);
}
