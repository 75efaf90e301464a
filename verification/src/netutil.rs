//! Parsing and holding of `host[:port]` network addresses.

use vstd::prelude::*;
use vstd::string::StringExecFns;

use crate::strutil;
use crate::strutil::{all_digits, clean_split_spec, dec_chars, dec_val, split_spec, trim_spec};

verus! {

/// The host part that `to_host_port` extracts from `s`.
pub open spec fn host_of(s: Seq<char>) -> Seq<char> {
    clean_split_spec(s, ':')[0]
}

/// A decimal port token, or the default where it is absent or unparseable.
pub open spec fn parsed_port(token: Seq<char>, default_port: u16) -> u16 {
    if all_digits(token) && dec_val(token) <= 0xFFFF {
        dec_val(token) as u16
    } else {
        default_port
    }
}

/// The port that `to_host_port` extracts from `s`.
pub open spec fn port_of(s: Seq<char>, default_port: u16) -> u16 {
    let tokens = clean_split_spec(s, ':');
    if tokens.len() == 1 {
        default_port
    } else {
        parsed_port(tokens[1], default_port)
    }
}

/// Parse a `host[:port]` string.  A missing or unparseable port gives
/// `default_port`; everything is trimmed of surrounding whitespace.
pub fn to_host_port(host_port_str: &str, default_port: u16) -> (r: (String, u16))
    ensures
        r.0@ == host_of(host_port_str@),
        r.1 == port_of(host_port_str@, default_port),
{
    let mut tokens = strutil::clean_split(host_port_str, ':');
    let ghost spec_tokens = clean_split_spec(host_port_str@, ':');
    proof {
        assert(tokens@.map_values(|p: String| p@).len() == tokens@.len());
        assert(tokens@.len() == spec_tokens.len());
        assert(forall|i: int|
            0 <= i < tokens@.len() ==> #[trigger] tokens@[i]@ == spec_tokens[i]);
    }
    if tokens.len() == 1 {
        let host = tokens.remove(0);
        (host, default_port)
    } else {
        let port_token = tokens.remove(1);
        let host = tokens.remove(0);
        let v = strutil::to_num(port_token.as_str(), default_port as u64);
        proof {
            let raw = split_spec(trim_spec(host_port_str@), ':')[1];
            assert(spec_tokens[1] == trim_spec(raw));
            strutil::lemma_trim_idempotent(raw);
            assert(port_token@ == spec_tokens[1]);
        }
        let port: u16 = if v <= 0xFFFF {
            v as u16
        } else {
            default_port
        };
        (host, port)
    }
}

/// A hostname (or dotted IPv4 address) together with an optional port.
pub struct HostAddr {
    /// The hostname or IP address.
    pub host: String,
    /// The port number, where one was given.
    pub port: Option<u16>,
}

/// Four octets of an IPv4 address.
#[derive(Clone, Copy, Debug, PartialEq, Eq, Structural)]
pub struct IpV4 {
    pub a: u8,
    pub b: u8,
    pub c: u8,
    pub d: u8,
}

/// An IPv4 address with its port.
#[derive(Clone, Copy, Debug, PartialEq, Eq, Structural)]
pub struct SockAddr {
    pub ip: IpV4,
    pub port: u16,
}

/// A dotted-decimal token read as one address octet; anything unparseable
/// or out of range counts as zero.
pub open spec fn parsed_octet(token: Seq<char>) -> u8 {
    if all_digits(token) && dec_val(token) <= 255 {
        dec_val(token) as u8
    } else {
        0
    }
}

impl HostAddr {
    /// An empty address: no host, no port.
    pub fn new() -> (r: HostAddr)
        ensures
            r.host@ == Seq::<char>::empty(),
            r.port is None,
    {
        HostAddr { host: String::new(), port: None }
    }

    /// Parse a `host[:port]` string into an address; a missing or
    /// unparseable port gives `default_port`.
    pub fn with_host_port(host_port_str: &str, default_port: u16) -> (r: HostAddr)
        ensures
            r.host@ == host_of(host_port_str@),
            r.port == Some(port_of(host_port_str@, default_port)),
    {
        let (host, port) = to_host_port(host_port_str, default_port);
        HostAddr { host, port: Some(port) }
    }

    /// The host as an owned string.
    pub fn get_host(&self) -> (r: String)
        ensures
            r@ == self.host@,
    {
        self.host.clone()
    }

    /// The port, or 0 where none was set.
    pub fn get_port(&self) -> (r: u16)
        ensures
            r == (match self.port {
                Some(p) => p,
                None => 0u16,
            }),
    {
        match self.port {
            Some(p) => p,
            None => 0,
        }
    }

    /// Read the host as a dotted-decimal IPv4 address.  The host must have
    /// at least four dot-separated tokens; each becomes one octet, with
    /// unparseable tokens read as zero.
    pub fn get_ip_v4(&self) -> (r: IpV4)
        requires
            clean_split_spec(self.host@, '.').len() >= 4,
        ensures
            r.a == parsed_octet(clean_split_spec(self.host@, '.')[0]),
            r.b == parsed_octet(clean_split_spec(self.host@, '.')[1]),
            r.c == parsed_octet(clean_split_spec(self.host@, '.')[2]),
            r.d == parsed_octet(clean_split_spec(self.host@, '.')[3]),
    {
        let parts = strutil::clean_split(self.host.as_str(), '.');
        proof {
            let raws = split_spec(trim_spec(self.host@), '.');
            let cs = clean_split_spec(self.host@, '.');
            assert forall|i: int|
                0 <= i < cs.len() implies #[trigger] parts@[i]@ == cs[i] && trim_spec(cs[i])
                == cs[i] by {
                assert(parts@.map_values(|p: String| p@)[i] == parts@[i]@);
                assert(cs[i] == trim_spec(raws[i]));
                strutil::lemma_trim_idempotent(raws[i]);
            }
        }
        let a = Self::octet_of_token(&parts, 0);
        let b = Self::octet_of_token(&parts, 1);
        let c = Self::octet_of_token(&parts, 2);
        let d = Self::octet_of_token(&parts, 3);
        IpV4 { a, b, c, d }
    }

    fn octet_of_token(parts: &Vec<String>, i: usize) -> (r: u8)
        requires
            i < parts@.len(),
            parts@[i as int]@ == trim_spec(parts@[i as int]@),
        ensures
            r == parsed_octet(parts@[i as int]@),
    {
        let v = strutil::to_num(parts[i].as_str(), 0);
        if v <= 255 {
            v as u8
        } else {
            0
        }
    }

    /// The address as a socket address; the host must be dotted-decimal
    /// IPv4 as for `get_ip_v4`.
    pub fn get_sock_addr(&self) -> (r: SockAddr)
        requires
            clean_split_spec(self.host@, '.').len() >= 4,
        ensures
            r.ip.a == parsed_octet(clean_split_spec(self.host@, '.')[0]),
            r.ip.b == parsed_octet(clean_split_spec(self.host@, '.')[1]),
            r.ip.c == parsed_octet(clean_split_spec(self.host@, '.')[2]),
            r.ip.d == parsed_octet(clean_split_spec(self.host@, '.')[3]),
            r.port == (match self.port {
                Some(p) => p,
                None => 0u16,
            }),
    {
        SockAddr { ip: self.get_ip_v4(), port: self.get_port() }
    }

    /// The address rendered as `host:port`, or just the host where no
    /// port was set.
    pub fn to_str(&self) -> (r: String)
        ensures
            r@ == (match self.port {
                Some(p) => self.host@ + seq![':'] + dec_chars(p as nat),
                None => self.host@,
            }),
    {
        match self.port {
            Some(p) => {
                let mut out = self.host.clone();
                proof {
                    reveal_strlit(":");
                }
                out.append(":");
                strutil::push_dec_chars(&mut out, p as u64);
                assert(out@ =~= self.host@ + seq![':'] + dec_chars(p as nat));
                out
            },
            None => self.host.clone(),
        }
    }
}

} // verus!
