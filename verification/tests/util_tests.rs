use rustymem::apputil::get_program;
use rustymem::ioutil::{
    copy_bytes, fold_bytes, pack_str, pack_u16_be, pack_u32_be, pack_u64_be, pack_u8_be,
    unpack_u16_be, unpack_u32_be, unpack_u64_be,
};
use rustymem::netutil::{to_host_port, HostAddr, IpV4};
use rustymem::strutil::{
    bytes_to_string, clean_split, maybe_to_num, parse_num, str_eq, to_num, trim_nul, trim_str,
};

#[test]
fn test() {
    let mut buf: Vec<u8> = vec![0u8; 32];
    let mut offset;

    offset = pack_u8_be(&mut buf, 0, 1);
    offset = pack_u8_be(&mut buf, offset, 2);
    assert_eq!(&buf[0..2], &[1, 2]);
    assert_eq!(offset, 2);

    offset = pack_u16_be(&mut buf, 0, 0x0102);
    assert_eq!(&buf[0..2], &[1, 2]);
    assert_eq!(offset, 2);

    offset = pack_str(&mut buf, offset, "ABCD");
    assert_eq!(&buf[2..6], b"ABCD");
    assert_eq!(offset, 6);

    offset = pack_u16_be(&mut buf, 0, 12345);
    assert_eq!(offset, 2);
    assert_eq!(unpack_u16_be(&buf, 0), 12345);

    offset = pack_u32_be(&mut buf, 0, 12345678);
    assert_eq!(offset, 4);
    assert_eq!(unpack_u32_be(&buf, 0), 12345678);

    offset = pack_u64_be(&mut buf, 0, 12345678901234);
    assert_eq!(offset, 8);
    assert_eq!(unpack_u64_be(&buf, 0), 12345678901234);

    pack_u64_be(&mut buf, 0, 0);
    assert_eq!(fold_bytes(&buf), 0);
    pack_u64_be(&mut buf, 0, 1);
    assert_eq!(fold_bytes(&buf), 1);
    pack_u64_be(&mut buf, 0, 0x0000000100000002);
    assert_eq!(fold_bytes(&buf), 3);
}

#[test]
fn test_to_host_port() {
    assert_eq!(to_host_port("localhost: 9000", 1234), ("localhost".to_string(), 9000));
    assert_eq!(to_host_port("localhost:9000", 1234), ("localhost".to_string(), 9000));
    assert_eq!(to_host_port(" localhost:9000", 1234), ("localhost".to_string(), 9000));
    assert_eq!(to_host_port(" localhost : 9000 ", 1234), ("localhost".to_string(), 9000));
    assert_eq!(to_host_port("localhost : 9000 ", 1234), ("localhost".to_string(), 9000));
    assert_eq!(to_host_port("localhost ", 1111), ("localhost".to_string(), 1111));
    assert_eq!(to_host_port(" localhost ", 2222), ("localhost".to_string(), 2222));
    assert_eq!(to_host_port(" localhost: ", 3333), ("localhost".to_string(), 3333));
    assert_eq!(to_host_port(" localhost:abc ", 4444), ("localhost".to_string(), 4444));
}

#[test]
fn test_to_num() {
    assert_eq!(to_num("9000", 1234), 9000);
    assert_eq!(to_num("123", 1234), 123);
    assert_eq!(to_num("abc", 1234), 1234);
}

#[test]
fn test_clean_split() {
    assert_eq!(clean_split("a.b.c", '.'), vec!["a", "b", "c"]);
    assert_eq!(clean_split("a.123.c", '.'), vec!["a", "123", "c"]);
    assert_eq!(clean_split(" a :123.c ", ':'), vec!["a", "123.c"]);
}

#[test]
fn to_num_bounds() {
    assert_eq!(to_num("", 7), 7);
    assert_eq!(to_num("  42  ", 7), 42);
    assert_eq!(to_num("18446744073709551615", 7), u64::MAX);
    // one past u64::MAX must fall back to the default
    assert_eq!(to_num("18446744073709551616", 7), 7);
    assert_eq!(to_num("-3", 7), 7);
    assert_eq!(parse_num("0"), Some(0));
    assert_eq!(parse_num("007"), Some(7));
    assert_eq!(parse_num(""), None);
    assert_eq!(parse_num("1 2"), None);
    assert_eq!(maybe_to_num(&Some("55".to_string()), 1), 55);
    assert_eq!(maybe_to_num(&None, 1), 1);
}

#[test]
fn trimming() {
    assert_eq!(trim_str("  a b \t\r\n"), "a b");
    assert_eq!(trim_str("\t \n"), "");
    assert_eq!(trim_nul("\0\0x y\0"), "x y");
    assert_eq!(trim_nul("\0\0\0"), "");
    assert!(str_eq("abc", "abc"));
    assert!(!str_eq("abc", "abd"));
    assert!(!str_eq("abc", "ab"));
}

#[test]
fn utf8_decoding() {
    assert_eq!(bytes_to_string(b"hello".to_vec()), Some("hello".to_string()));
    assert_eq!(bytes_to_string(vec![0xFF, 0xFE]), None);
}

#[test]
fn host_addr() {
    let a = HostAddr::with_host_port("10.1.2.3:11300", 11211);
    assert_eq!(a.get_host(), "10.1.2.3");
    assert_eq!(a.get_port(), 11300);
    assert_eq!(a.get_ip_v4(), IpV4 { a: 10, b: 1, c: 2, d: 3 });
    let sock = a.get_sock_addr();
    assert_eq!(sock.ip, IpV4 { a: 10, b: 1, c: 2, d: 3 });
    assert_eq!(sock.port, 11300);
    assert_eq!(a.to_str(), "10.1.2.3:11300");

    let b = HostAddr::with_host_port("cache-3", 11211);
    assert_eq!(b.get_host(), "cache-3");
    assert_eq!(b.get_port(), 11211);

    let empty = HostAddr::new();
    assert_eq!(empty.get_host(), "");
    assert_eq!(empty.get_port(), 0);
    assert_eq!(empty.to_str(), "");

    let mut buf: Vec<u8> = vec![0u8; 4];
    let end = copy_bytes(&mut buf, 1, &[9, 8], 0, 2);
    assert_eq!(end, 3);
    assert_eq!(buf, vec![0, 9, 8, 0]);
}

#[test]
fn program_name() {
    let args = vec!["/usr/local/bin/cachectl.bin".to_string()];
    assert_eq!(get_program(&args), "cachectl");
    let args2 = vec!["tool".to_string()];
    assert_eq!(get_program(&args2), "tool");
    let args3 = vec![".hidden".to_string()];
    assert_eq!(get_program(&args3), ".hidden");
}
