//! A client library for memcached-compatible cache servers.
//!
//! The crate maps a key/value API onto one or more byte-stream connections,
//! speaking either the line-oriented text protocol or the length-prefixed
//! binary protocol.  Keys are routed across the server pool by hashing, and
//! bulk reads fan out per partition and merge their results.

#![allow(non_camel_case_types)]

pub mod apputil;
pub mod ascii_conn;
pub mod binary_conn;
pub mod ioutil;
pub mod netutil;
pub mod proto;
pub mod stream;
pub mod strutil;

use vstd::prelude::*;
use vstd::multiset::Multiset;
use vstd::string::StrSliceExecFns;
use vstd::string::StringExecFns;
use vstd::string::StringSliceAdditionalSpecFns;

use crate::ioutil::be_u32;
use crate::netutil::{host_of, port_of, HostAddr};
use crate::proto::ProtoConnection;
use crate::stream::ByteStream;
use crate::strutil::clean_split_spec;

verus! {

/// The well-known cache server port.
pub const DEFAULT_PORT: u16 = 11211;

/// Pool configuration: the server list and the protocol and shard method
/// used for every connection.
#[derive(Clone, Debug)]
pub struct MemParams {
    /// Whitespace-separated `host[:port]` tokens.
    pub servers: String,
    /// The wire protocol spoken on every connection.
    pub protocol: MemProtocol,
    /// How keys map to connections.
    pub shard: ShardMethod,
}

/// The wire protocol of a connection.
#[derive(Clone, Copy, Debug, PartialEq, Eq, Structural)]
pub enum MemProtocol {
    /// The line-oriented text protocol.
    P_ASCII,
    /// The length-prefixed binary protocol.
    P_BINARY,
}

/// How a key is mapped to a connection index.
#[derive(Clone, Copy, Debug, PartialEq, Eq, Structural)]
pub enum ShardMethod {
    /// Hash the key with MD5, truncate, and take the remainder by the
    /// connection count.
    HASH_MOD,
}

/// Response status of a cache call: the binary protocol's numeric codes,
/// plus a few client-local conditions.
#[derive(Clone, Copy, Debug, PartialEq, Eq, Structural)]
pub enum MemStatus {
    Success,
    Key_Not_Found,
    Key_Exists,
    Value_Too_Large,
    Invalid_Arguments,
    Item_Not_Stored,
    Non_Numeric_Value,
    Vbucket_Belongs_Another_Server,
    Authentication_Error,
    Authentication_Continue,
    Unknown_Command,
    Out_Of_Memory,
    Not_Supported,
    Internal_Error,
    Busy,
    Temporary_Failure,
    Network_Error,
    Unknown_Response,
    Not_Implemented,
}

/// The numeric code of a status, as the binary protocol carries it.
pub open spec fn status_code(s: MemStatus) -> u16 {
    match s {
        MemStatus::Success => 0x0000,
        MemStatus::Key_Not_Found => 0x0001,
        MemStatus::Key_Exists => 0x0002,
        MemStatus::Value_Too_Large => 0x0003,
        MemStatus::Invalid_Arguments => 0x0004,
        MemStatus::Item_Not_Stored => 0x0005,
        MemStatus::Non_Numeric_Value => 0x0006,
        MemStatus::Vbucket_Belongs_Another_Server => 0x0007,
        MemStatus::Authentication_Error => 0x0008,
        MemStatus::Authentication_Continue => 0x0009,
        MemStatus::Unknown_Command => 0x0081,
        MemStatus::Out_Of_Memory => 0x0082,
        MemStatus::Not_Supported => 0x0083,
        MemStatus::Internal_Error => 0x0084,
        MemStatus::Busy => 0x0085,
        MemStatus::Temporary_Failure => 0x0086,
        MemStatus::Network_Error => 0x0200,
        MemStatus::Unknown_Response => 0x0201,
        MemStatus::Not_Implemented => 0x0202,
    }
}

/// The status that a numeric wire code denotes; unknown codes read as
/// `Unknown_Response`.
pub open spec fn map_status_spec(code: u16) -> MemStatus {
    if code == 0x0000 { MemStatus::Success }
    else if code == 0x0001 { MemStatus::Key_Not_Found }
    else if code == 0x0002 { MemStatus::Key_Exists }
    else if code == 0x0003 { MemStatus::Value_Too_Large }
    else if code == 0x0004 { MemStatus::Invalid_Arguments }
    else if code == 0x0005 { MemStatus::Item_Not_Stored }
    else if code == 0x0006 { MemStatus::Non_Numeric_Value }
    else if code == 0x0007 { MemStatus::Vbucket_Belongs_Another_Server }
    else if code == 0x0008 { MemStatus::Authentication_Error }
    else if code == 0x0009 { MemStatus::Authentication_Continue }
    else if code == 0x0081 { MemStatus::Unknown_Command }
    else if code == 0x0082 { MemStatus::Out_Of_Memory }
    else if code == 0x0083 { MemStatus::Not_Supported }
    else if code == 0x0084 { MemStatus::Internal_Error }
    else if code == 0x0085 { MemStatus::Busy }
    else if code == 0x0086 { MemStatus::Temporary_Failure }
    else if code == 0x0200 { MemStatus::Network_Error }
    else if code == 0x0201 { MemStatus::Unknown_Response }
    else if code == 0x0202 { MemStatus::Not_Implemented }
    else { MemStatus::Unknown_Response }
}

/// The status that a text-protocol response token denotes; unknown tokens
/// read as `Unknown_Response`.
pub open spec fn ascii_status_spec(token: Seq<char>) -> MemStatus {
    if token == "OK"@ { MemStatus::Success }
    else if token == "STORED"@ { MemStatus::Success }
    else if token == "NOT_STORED"@ { MemStatus::Item_Not_Stored }
    else if token == "EXISTS"@ { MemStatus::Key_Exists }
    else if token == "NOT_FOUND"@ { MemStatus::Key_Not_Found }
    else if token == "DELETED"@ { MemStatus::Success }
    else if token == "TOUCHED"@ { MemStatus::Success }
    else if token == "ERROR"@ { MemStatus::Unknown_Command }
    else if token == "CLIENT_ERROR"@ { MemStatus::Invalid_Arguments }
    else if token == "SERVER_ERROR"@ { MemStatus::Internal_Error }
    else { MemStatus::Unknown_Response }
}

/// The status that a whole text-protocol response line denotes: the first
/// whitespace-delimited token decides; a failed read is a network error.
pub open spec fn ascii_line_status_spec(r: Result<Seq<char>, Seq<char>>) -> MemStatus {
    match r {
        Ok(line) => ascii_status_spec(clean_split_spec(line, ' ')[0]),
        Err(_) => MemStatus::Network_Error,
    }
}

impl MemStatus {
    /// Map a whole text-protocol response line (or a failed read) to a
    /// status.
    pub fn ascii_to_status(r: Result<String, String>) -> (s: MemStatus)
        ensures
            s == ascii_line_status_spec(match r {
                Ok(line) => Ok::<Seq<char>, Seq<char>>(line@),
                Err(e) => Err::<Seq<char>, Seq<char>>(e@),
            }),
    {
        match r {
            Ok(line) => {
                let tokens = strutil::clean_split(line.as_str(), ' ');
                proof {
                    assert(tokens@.map_values(|p: String| p@)[0] == tokens@[0]@);
                }
                Self::map_ascii_status(tokens[0].as_str())
            },
            Err(_) => MemStatus::Network_Error,
        }
    }

    /// Map one text-protocol response token to a status.
    pub fn map_ascii_status(response_token: &str) -> (s: MemStatus)
        ensures
            s == ascii_status_spec(response_token@),
    {
        let t = response_token;
        if strutil::str_eq(t, "OK") { MemStatus::Success }
        else if strutil::str_eq(t, "STORED") { MemStatus::Success }
        else if strutil::str_eq(t, "NOT_STORED") { MemStatus::Item_Not_Stored }
        else if strutil::str_eq(t, "EXISTS") { MemStatus::Key_Exists }
        else if strutil::str_eq(t, "NOT_FOUND") { MemStatus::Key_Not_Found }
        else if strutil::str_eq(t, "DELETED") { MemStatus::Success }
        else if strutil::str_eq(t, "TOUCHED") { MemStatus::Success }
        else if strutil::str_eq(t, "ERROR") { MemStatus::Unknown_Command }
        else if strutil::str_eq(t, "CLIENT_ERROR") { MemStatus::Invalid_Arguments }
        else if strutil::str_eq(t, "SERVER_ERROR") { MemStatus::Internal_Error }
        else { MemStatus::Unknown_Response }
    }

    /// Map a numeric wire status code to a status.
    pub fn map_status(status: u16) -> (s: MemStatus)
        ensures
            s == map_status_spec(status),
    {
        if status == 0x0000 { MemStatus::Success }
        else if status == 0x0001 { MemStatus::Key_Not_Found }
        else if status == 0x0002 { MemStatus::Key_Exists }
        else if status == 0x0003 { MemStatus::Value_Too_Large }
        else if status == 0x0004 { MemStatus::Invalid_Arguments }
        else if status == 0x0005 { MemStatus::Item_Not_Stored }
        else if status == 0x0006 { MemStatus::Non_Numeric_Value }
        else if status == 0x0007 { MemStatus::Vbucket_Belongs_Another_Server }
        else if status == 0x0008 { MemStatus::Authentication_Error }
        else if status == 0x0009 { MemStatus::Authentication_Continue }
        else if status == 0x0081 { MemStatus::Unknown_Command }
        else if status == 0x0082 { MemStatus::Out_Of_Memory }
        else if status == 0x0083 { MemStatus::Not_Supported }
        else if status == 0x0084 { MemStatus::Internal_Error }
        else if status == 0x0085 { MemStatus::Busy }
        else if status == 0x0086 { MemStatus::Temporary_Failure }
        else if status == 0x0200 { MemStatus::Network_Error }
        else if status == 0x0201 { MemStatus::Unknown_Response }
        else if status == 0x0202 { MemStatus::Not_Implemented }
        else { MemStatus::Unknown_Response }
    }
}

/// Each status maps to a distinct code, and that code maps back to it.
pub proof fn lemma_status_codes_faithful(s: MemStatus)
    ensures
        map_status_spec(status_code(s)) == s,
{
}

/// The outcome of a cache call: a status, and a value that means something
/// only when the status is `Success`.
#[derive(Clone, Copy, Debug)]
pub struct MemResult<T> {
    /// How the call ended.
    pub status: MemStatus,
    /// For storage calls, the item's new CAS token (0 on the text path).
    pub value: T,
}

/// One item returned by a retrieval call.
#[derive(Clone, Debug)]
pub struct MemData {
    /// The key the item was stored under.
    pub key: String,
    /// The item's payload bytes.
    pub data: Vec<u8>,
    /// The CAS token for a later check-and-set; 0 where the protocol
    /// carries none.
    pub cas: u64,
    /// The flags stored beside the data.
    pub flags: u32,
}

impl MemData {
    /// A borrow of the payload bytes.
    pub fn as_data_ptr(&self) -> (r: &Vec<u8>)
        ensures
            r@ == self.data@,
    {
        &self.data
    }

    /// The payload bytes, cloned.
    pub fn as_bytes(&self) -> (r: Vec<u8>)
        ensures
            r@ == self.data@,
    {
        let mut out: Vec<u8> = Vec::new();
        let mut i: usize = 0;
        while i < self.data.len()
            invariant
                i <= self.data@.len(),
                out@ == self.data@.take(i as int),
            decreases self.data@.len() - i,
        {
            out.push(self.data[i]);
            proof {
                assert(out@ =~= self.data@.take(i + 1));
            }
            i = i + 1;
        }
        proof {
            assert(self.data@.take(self.data@.len() as int) =~= self.data@);
        }
        out
    }

    /// The payload decoded as UTF-8, or `None` where it is not valid
    /// UTF-8.
    pub fn as_str(&self) -> (r: Option<String>)
        ensures
            match r {
                Some(s) => vstd::utf8::valid_utf8(self.data@) && s@ == vstd::utf8::decode_utf8(
                    self.data@,
                ),
                None => !vstd::utf8::valid_utf8(self.data@),
            },
    {
        strutil::bytes_to_string(self.as_bytes())
    }

    /// The payload parsed as one JSON document; the error exactly where
    /// the payload is not one.
    pub fn as_json(&self) -> (r: Result<serde_json::Value, JsonError>)
        ensures
            r is Ok <==> json_doc_of(self.data@) is Some,
            r is Ok ==> r.unwrap() == json_doc_of(self.data@).unwrap(),
    {
        match json_from_slice(self.data.as_slice()) {
            Ok(v) => Ok(v),
            Err(_) => Err(JsonError),
        }
    }

    /// The payload read as a scalar: decoded as UTF-8, stripped of
    /// surrounding ASCII whitespace and NUL padding, then parsed as `T`.
    /// `None` where any step fails.
    pub fn as_type<T: core::str::FromStr>(&self) -> (r: Option<T>)
        ensures
            !vstd::utf8::valid_utf8(self.data@) ==> r is None,
    {
        let s = match self.as_str() {
            None => { return None; },
            Some(s) => s,
        };
        let trimmed = strutil::trim_str(s.as_str());
        let cleaned = strutil::trim_nul(trimmed.as_str());
        parse_scalar(cleaned.as_str())
    }

    /// `as_type`, with a default for anything unparseable.
    pub fn as_type_of<T: core::str::FromStr>(&self, default_value: T) -> (r: T)
        ensures
            !vstd::utf8::valid_utf8(self.data@) ==> r == default_value,
    {
        match self.as_type::<T>() {
            Some(value) => value,
            None => default_value,
        }
    }
}

/// One entry of a server's statistics report.
#[derive(Clone, Debug)]
pub struct MemcachedStat {
    /// The statistic's name.
    pub name: String,
    /// The statistic's value, as the server printed it.
    pub value: String,
}

#[verifier::external_type_specification]
#[verifier::external_body]
pub struct ExJsonValue(serde_json::Value);

#[verifier::external_type_specification]
#[verifier::external_body]
pub struct ExJsonError(serde_json::Error);

/// A payload could not be read as a JSON document.
#[derive(Clone, Copy, Debug, PartialEq, Eq, Structural)]
pub struct JsonError;

/// The JSON document that a byte string holds, where it holds exactly
/// one: a function of the bytes alone.
pub uninterp spec fn json_doc_of(bytes: Seq<u8>) -> Option<serde_json::Value>;

/// Relies on serde_json::from_slice: parses one JSON document from bytes,
/// failing exactly on input that is not one; the outcome depends on the
/// bytes alone.
#[verifier::external_body]
fn json_from_slice(data: &[u8]) -> (r: Result<serde_json::Value, serde_json::Error>)
    ensures
        r is Ok <==> json_doc_of(data@) is Some,
        r is Ok ==> r.unwrap() == json_doc_of(data@).unwrap(),
{
    serde_json::from_slice(data)
}

/// The UTF-8 rendering of a JSON value: a function of the value alone.
pub uninterp spec fn json_bytes_of(v: serde_json::Value) -> Seq<u8>;

/// Relies on serde_json::to_vec: renders a JSON value as UTF-8 bytes, a
/// function of the value alone (serializing a `Value` does not fail).
#[verifier::external_body]
fn json_to_vec(value: &serde_json::Value) -> (r: Vec<u8>)
    ensures
        r@ == json_bytes_of(*value),
{
    serde_json::to_vec(value).unwrap_or_default()
}

/// Relies on str::parse through the standard FromStr trait: reads a value
/// of `T` out of text.
#[verifier::external_body]
fn parse_scalar<T: core::str::FromStr>(s: &str) -> (r: Option<T>) {
    s.parse::<T>().ok()
}

/// The MD5 digest of a byte string: 16 bytes, a function of the input
/// alone.
pub uninterp spec fn md5_of(bytes: Seq<u8>) -> Seq<u8>;

/// Relies on md5::compute: the MD5 digest of the input, 16 bytes, a
/// function of the input bytes alone.
#[verifier::external_body]
fn md5_digest(data: &[u8]) -> (r: Vec<u8>)
    ensures
        r@ == md5_of(data@),
        r@.len() == 16,
{
    md5::compute(data).0.to_vec()
}

/// The partition a key routes to in a pool of `n` connections: the first
/// four digest bytes, big-endian, taken modulo `n`.
pub open spec fn index_of_spec(key: Seq<u8>, n: nat) -> nat
    recommends
        n > 0,
{
    (be_u32(md5_of(key)) as nat) % n
}

/// Routing is pure and total: for every key and pool size `n > 0` the
/// index lies in `[0, n)`, a pool of one routes everything to 0, and the
/// index is a function of the key bytes and `n` alone.
pub proof fn lemma_index_of_range(key: Seq<u8>, n: nat)
    requires
        n > 0,
    ensures
        index_of_spec(key, n) < n,
        n == 1 ==> index_of_spec(key, n) == 0,
{
}

/// The tokens of a server list: split on spaces, empty tokens dropped.
pub open spec fn nonempty_tokens(toks: Seq<Seq<char>>) -> Seq<Seq<char>>
    decreases toks.len(),
{
    if toks.len() == 0 {
        Seq::empty()
    } else if toks[0].len() > 0 {
        seq![toks[0]] + nonempty_tokens(toks.skip(1))
    } else {
        nonempty_tokens(toks.skip(1))
    }
}

/// The server tokens of a pool's server-list string.
pub open spec fn server_tokens(servers: Seq<char>) -> Seq<Seq<char>> {
    nonempty_tokens(clean_split_spec(servers, ' '))
}

proof fn lemma_nonempty_push(toks: Seq<Seq<char>>, t: Seq<char>)
    ensures
        nonempty_tokens(toks.push(t)) == nonempty_tokens(toks) + (if t.len() > 0 {
            seq![t]
        } else {
            Seq::<Seq<char>>::empty()
        }),
    decreases toks.len(),
{
    if toks.len() == 0 {
        assert(toks.push(t)[0] == t);
        assert(toks.push(t).skip(1) =~= Seq::<Seq<char>>::empty());
        assert(nonempty_tokens(toks.push(t).skip(1)) == Seq::<Seq<char>>::empty());
        if t.len() > 0 {
            assert(nonempty_tokens(toks.push(t)) == seq![toks.push(t)[0]] + nonempty_tokens(
                toks.push(t).skip(1),
            ));
            assert(nonempty_tokens(toks.push(t)) =~= seq![t]);
            assert(nonempty_tokens(toks) + seq![t] =~= seq![t]);
        } else {
            assert(nonempty_tokens(toks.push(t)) =~= Seq::<Seq<char>>::empty());
            assert(nonempty_tokens(toks) + Seq::<Seq<char>>::empty()
                =~= Seq::<Seq<char>>::empty());
        }
    } else {
        assert(toks.push(t).skip(1) =~= toks.skip(1).push(t));
        lemma_nonempty_push(toks.skip(1), t);
        assert(toks.push(t)[0] == toks[0]);
        if t.len() > 0 {
            if toks[0].len() > 0 {
                assert(nonempty_tokens(toks.push(t)) =~= nonempty_tokens(toks) + seq![t]);
            } else {
                assert(nonempty_tokens(toks.push(t)) =~= nonempty_tokens(toks) + seq![t]);
            }
        } else {
            if toks[0].len() > 0 {
                assert(nonempty_tokens(toks.push(t)) =~= nonempty_tokens(toks)
                    + Seq::<Seq<char>>::empty());
            } else {
                assert(nonempty_tokens(toks.push(t)) =~= nonempty_tokens(toks)
                    + Seq::<Seq<char>>::empty());
            }
        }
    }
}

/// One connection to one parsed `host[:port]` server address, speaking
/// the given protocol over the given stream.
pub fn new_protocol_connection<S: ByteStream>(
    server_addr: &str,
    protocol: MemProtocol,
    stream: S,
) -> (c: ProtoConnection<S>)
    ensures
        c.addr().host@ == host_of(server_addr@),
        c.addr().port == Some(port_of(server_addr@, DEFAULT_PORT)),
        c.is_text() == (protocol is P_ASCII),
{
    let host_addr = HostAddr::with_host_port(server_addr, DEFAULT_PORT);
    match protocol {
        MemProtocol::P_ASCII => ProtoConnection::Ascii(
            ascii_conn::AsciiConnection::new_connection(host_addr, stream),
        ),
        MemProtocol::P_BINARY => ProtoConnection::Binary(
            binary_conn::BinaryConnection::new_connection(host_addr, stream),
        ),
    }
}

/// A client for a pool of cache servers: one connection per server, in
/// the order the server list names them.
pub struct RustyMem<S: ByteStream> {
    /// The pool configuration.
    pub params: MemParams,
    /// The connections, one per server, in server-list order.
    pub connections: Vec<ProtoConnection<S>>,
}

/// Connect to one server or a whitespace-separated list of servers,
/// speaking the binary protocol, over one already-open stream per server.
pub fn connect<S: ByteStream>(server_addrs: &str, streams: Vec<S>) -> (rm: RustyMem<S>)
    requires
        streams@.len() == server_tokens(server_addrs@).len(),
    ensures
        rm.connections@.len() == server_tokens(server_addrs@).len(),
        forall|i: int|
            0 <= i < rm.connections@.len() ==> {
                let tok = server_tokens(server_addrs@)[i];
                #[trigger] rm.connections@[i].addr().host@ == host_of(tok)
                    && rm.connections@[i].addr().port == Some(port_of(tok, DEFAULT_PORT))
                    && !rm.connections@[i].is_text()
            },
{
    let params = MemParams {
        servers: String::from_str(server_addrs),
        protocol: MemProtocol::P_BINARY,
        shard: ShardMethod::HASH_MOD,
    };
    connect_with(params, streams)
}

/// Connect to the servers that `params` names, with the configured
/// protocol, over one already-open stream per server: the n-th stream
/// carries the n-th server of the list.
pub fn connect_with<S: ByteStream>(params: MemParams, streams: Vec<S>) -> (rm: RustyMem<S>)
    requires
        streams@.len() == server_tokens(params.servers@).len(),
    ensures
        rm.params == params,
        rm.connections@.len() == server_tokens(params.servers@).len(),
        forall|i: int|
            0 <= i < rm.connections@.len() ==> {
                let tok = server_tokens(params.servers@)[i];
                #[trigger] rm.connections@[i].addr().host@ == host_of(tok)
                    && rm.connections@[i].addr().port == Some(port_of(tok, DEFAULT_PORT))
                    && rm.connections@[i].is_text() == (params.protocol is P_ASCII)
            },
{
    let tokens = strutil::clean_split(params.servers.as_str(), ' ');
    let ghost spec_toks = clean_split_spec(params.servers@, ' ');
    proof {
        assert(tokens@.map_values(|p: String| p@).len() == tokens@.len());
        assert(tokens@.len() == spec_toks.len());
        assert(forall|i: int|
            0 <= i < tokens@.len() ==> #[trigger] tokens@[i]@ == spec_toks[i]);
    }
    let ghost streams0 = streams@;
    let mut streams = streams;
    let mut connections: Vec<ProtoConnection<S>> = Vec::new();
    let n = tokens.len();
    let mut i: usize = 0;
    proof {
        assert(spec_toks.take(0) =~= Seq::<Seq<char>>::empty());
        assert(spec_toks.skip(0) =~= spec_toks);
        assert(nonempty_tokens(spec_toks.take(0)) == Seq::<Seq<char>>::empty());
        assert(Seq::<Seq<char>>::empty() + nonempty_tokens(spec_toks) =~= nonempty_tokens(
            spec_toks,
        ));
        assert(streams@.skip(0) =~= streams@);
    }
    while i < n
        invariant
            i <= n == tokens@.len() == spec_toks.len(),
            forall|k: int| 0 <= k < tokens@.len() ==> #[trigger] tokens@[k]@ == spec_toks[k],
            connections@.len() == nonempty_tokens(spec_toks.take(i as int)).len(),
            connections@.len() <= i,
            streams@ == streams0.skip(connections@.len() as int),
            streams0.len() == nonempty_tokens(spec_toks).len(),
            nonempty_tokens(spec_toks) == nonempty_tokens(spec_toks.take(i as int))
                + nonempty_tokens(spec_toks.skip(i as int)),
            forall|k: int| #![trigger connections@[k]]
                0 <= k < connections@.len() ==> {
                    let tok = nonempty_tokens(spec_toks.take(i as int))[k];
                    connections@[k].addr().host@ == host_of(tok)
                        && connections@[k].addr().port == Some(port_of(tok, DEFAULT_PORT))
                        && connections@[k].is_text() == (params.protocol is P_ASCII)
                },
        decreases n - i,
    {
        proof {
            assert(spec_toks.take(i + 1) =~= spec_toks.take(i as int).push(spec_toks[i as int]));
            lemma_nonempty_push(spec_toks.take(i as int), spec_toks[i as int]);
            assert(spec_toks.skip(i as int)[0] == spec_toks[i as int]);
            assert(spec_toks.skip(i as int).skip(1) =~= spec_toks.skip(i + 1));
        }
        if !tokens[i].as_str().is_empty() {
            proof {
                assert(nonempty_tokens(spec_toks.skip(i as int)) == seq![spec_toks[i as int]]
                    + nonempty_tokens(spec_toks.skip(i + 1)));
                assert(nonempty_tokens(spec_toks).len() > nonempty_tokens(
                    spec_toks.take(i as int),
                ).len());
            }
            let stream = streams.remove(0);
            let c = new_protocol_connection(tokens[i].as_str(), params.protocol, stream);
            connections.push(c);
            proof {
                assert(streams@ =~= streams0.skip(connections@.len() as int));
                assert(nonempty_tokens(spec_toks.take(i + 1)) =~= nonempty_tokens(
                    spec_toks.take(i as int),
                ).push(spec_toks[i as int]));
                assert forall|k: int| #![trigger connections@[k]]
                    0 <= k < connections@.len() implies {
                    let tok = nonempty_tokens(spec_toks.take(i + 1))[k];
                    connections@[k].addr().host@ == host_of(tok)
                        && connections@[k].addr().port == Some(port_of(tok, DEFAULT_PORT))
                        && connections@[k].is_text() == (params.protocol is P_ASCII)
                } by {
                    if k == connections@.len() - 1 {
                        assert(connections@[k] == c);
                        assert(nonempty_tokens(spec_toks.take(i + 1))[k] == spec_toks[i as int]);
                        assert(tokens@[i as int]@ == spec_toks[i as int]);
                    }
                }
            }
        } else {
            proof {
                assert(nonempty_tokens(spec_toks.take(i + 1)) =~= nonempty_tokens(
                    spec_toks.take(i as int),
                ));
            }
        }
        i = i + 1;
        proof {
            assert(nonempty_tokens(spec_toks) =~= nonempty_tokens(spec_toks.take(i as int))
                + nonempty_tokens(spec_toks.skip(i as int)));
        }
    }
    proof {
        assert(spec_toks.take(n as int) =~= spec_toks);
    }
    RustyMem { params, connections }
}

/// The keys of `keys` that route to partition `p` of an `n`-way pool, in
/// the order they were encountered.
pub open spec fn keys_for_partition<'a>(keys: Seq<&'a str>, n: nat, p: nat) -> Seq<&'a str> {
    keys.filter(|k: &str| index_of_spec(k.spec_bytes(), n) == p)
}

proof fn lemma_partition_key_from(keys: Seq<&str>, n: nat, p: nat, t: int)
    requires
        0 <= t < keys_for_partition(keys, n, p).len(),
    ensures
        exists|w: int| 0 <= w < keys.len() && keys[w] == keys_for_partition(keys, n, p)[t],
    decreases keys.len(),
{
    reveal(Seq::filter);
    if keys.len() > 0 {
        let prev = keys.drop_last();
        let fp_prev = keys_for_partition(prev, n, p);
        let fp = keys_for_partition(keys, n, p);
        if t < fp_prev.len() {
            lemma_partition_key_from(prev, n, p, t);
            let w = choose|w: int| 0 <= w < prev.len() && prev[w] == fp_prev[t];
            assert(keys[w] == fp[t]);
        } else {
            assert(fp[t] == keys.last());
            assert(keys[keys.len() - 1] == fp[t]);
        }
    }
}

/// The multiset union of the first `p` of an `n`-way distribution's
/// partitions.
pub open spec fn partitions_multiset<'a>(keys: Seq<&'a str>, n: nat, p: nat) -> Multiset<&'a str>
    decreases p,
{
    if p == 0 {
        Multiset::empty()
    } else {
        partitions_multiset(keys, n, (p - 1) as nat).add(
            keys_for_partition(keys, n, (p - 1) as nat).to_multiset(),
        )
    }
}

proof fn lemma_partitions_empty(n: nat, p: nat)
    ensures
        partitions_multiset(Seq::<&str>::empty(), n, p) == Multiset::<&str>::empty(),
    decreases p,
{
    broadcast use vstd::multiset::group_multiset_axioms;

    reveal(Seq::filter);
    if p > 0 {
        lemma_partitions_empty(n, (p - 1) as nat);
        let fp = keys_for_partition(Seq::<&str>::empty(), n, (p - 1) as nat);
        assert(fp == Seq::<&str>::empty());
        Seq::<&str>::empty().to_multiset_ensures();
        vstd::multiset::lemma_multiset_empty_len(fp.to_multiset());
        assert(partitions_multiset(Seq::<&str>::empty(), n, p) =~= Multiset::<&str>::empty());
    }
}

proof fn lemma_partitions_push(s: Seq<&str>, k: &str, n: nat, p: nat)
    requires
        p <= n,
    ensures
        partitions_multiset(s.push(k), n, p) == (if index_of_spec(k.spec_bytes(), n) < p {
            partitions_multiset(s, n, p).insert(k)
        } else {
            partitions_multiset(s, n, p)
        }),
    decreases p,
{
    broadcast use vstd::multiset::group_multiset_axioms;

    reveal(Seq::filter);
    if p > 0 {
        lemma_partitions_push(s, k, n, (p - 1) as nat);
        let q = (p - 1) as nat;
        let idx = index_of_spec(k.spec_bytes(), n);
        assert(s.push(k).drop_last() =~= s);
        assert(s.push(k).last() == k);
        let fp_old = keys_for_partition(s, n, q);
        let fp_new = keys_for_partition(s.push(k), n, q);
        fp_old.to_multiset_ensures();
        if idx == q {
            assert(fp_new == fp_old.push(k));
            assert(partitions_multiset(s.push(k), n, p) == partitions_multiset(s, n, q).add(
                fp_old.to_multiset().insert(k),
            ));
            assert(partitions_multiset(s, n, q).add(fp_old.to_multiset().insert(k))
                =~= partitions_multiset(s, n, p).insert(k));
        } else {
            assert(fp_new == fp_old);
            if idx < q {
                assert(partitions_multiset(s.push(k), n, p) == partitions_multiset(
                    s,
                    n,
                    q,
                ).insert(k).add(fp_old.to_multiset()));
                assert(partitions_multiset(s, n, q).insert(k).add(fp_old.to_multiset())
                    =~= partitions_multiset(s, n, p).insert(k));
            } else {
                assert(partitions_multiset(s.push(k), n, p) =~= partitions_multiset(s, n, p));
            }
        }
    }
}

/// Distribution preserves the keys: the partitions of an `n`-way split,
/// taken together as a multiset, are exactly the input keys.  (Each
/// partition also keeps its keys in encounter order: it is precisely
/// `keys_for_partition`, a filter of the input.)
pub proof fn lemma_distribute_preserves_keys(keys: Seq<&str>, n: nat)
    requires
        n > 0,
    ensures
        partitions_multiset(keys, n, n) == keys.to_multiset(),
    decreases keys.len(),
{
    broadcast use vstd::multiset::group_multiset_axioms;

    if keys.len() == 0 {
        lemma_partitions_empty(n, n);
        keys.to_multiset_ensures();
        vstd::multiset::lemma_multiset_empty_len(keys.to_multiset());
        assert(keys =~= Seq::<&str>::empty());
        assert(keys.to_multiset().len() == 0);
        assert(keys.to_multiset() =~= Multiset::<&str>::empty());
    } else {
        let s = keys.drop_last();
        let k = keys.last();
        lemma_distribute_preserves_keys(s, n);
        lemma_partitions_push(s, k, n, n);
        assert(keys =~= s.push(k));
        s.to_multiset_ensures();
        assert(index_of_spec(k.spec_bytes(), n) < n);
        assert(partitions_multiset(keys, n, n) == s.to_multiset().insert(k));
        assert(s.push(k).to_multiset() =~= s.to_multiset().insert(k));
    }
}

/// The item lists of all connections, joined in pool order.
pub open spec fn seqs_concat(parts: Seq<Seq<MemData>>) -> Seq<MemData>
    decreases parts.len(),
{
    if parts.len() == 0 {
        Seq::<MemData>::empty()
    } else {
        parts[0] + seqs_concat(parts.skip(1))
    }
}

proof fn lemma_seqs_concat_push(parts: Seq<Seq<MemData>>, x: Seq<MemData>)
    ensures
        seqs_concat(parts.push(x)) == seqs_concat(parts) + x,
    decreases parts.len(),
{
    if parts.len() == 0 {
        assert(parts.push(x)[0] == x);
        assert(parts.push(x).skip(1) =~= Seq::<Seq<MemData>>::empty());
        assert(seqs_concat(Seq::<Seq<MemData>>::empty()) == Seq::<MemData>::empty());
        assert(seqs_concat(parts.push(x)) =~= x);
        assert(seqs_concat(parts) + x =~= x);
    } else {
        assert(parts.push(x)[0] == parts[0]);
        assert(parts.push(x).skip(1) =~= parts.skip(1).push(x));
        lemma_seqs_concat_push(parts.skip(1), x);
        assert(seqs_concat(parts.push(x)) =~= seqs_concat(parts) + x);
    }
}

/// A pool of one routes every key to its only partition.
proof fn lemma_partition_all(keys: Seq<&str>)
    ensures
        keys_for_partition(keys, 1, 0) == keys,
    decreases keys.len(),
{
    reveal(Seq::filter);
    if keys.len() == 0 {
    } else {
        lemma_partition_all(keys.drop_last());
        assert(index_of_spec(keys.last().spec_bytes(), 1) == 0);
        assert(keys_for_partition(keys, 1, 0) =~= keys);
    }
}

impl<S: ByteStream> RustyMem<S> {
    /// What every operation leaves intact: the configuration, and every
    /// connection's server address and protocol.
    pub open spec fn pool_shape(old_rm: &Self, new_rm: &Self) -> bool {
        &&& new_rm.params == old_rm.params
        &&& new_rm.connections@.len() == old_rm.connections@.len()
        &&& forall|j: int| #![trigger new_rm.connections@[j]]
            0 <= j < old_rm.connections@.len() ==> ProtoConnection::same_shape(
                &old_rm.connections@[j],
                &new_rm.connections@[j],
            )
    }

    /// Whether every connection but the one at `i` is exactly as before:
    /// a single-key operation touches only the connection its key routes
    /// to.
    pub open spec fn untouched_except(old_rm: &Self, new_rm: &Self, i: int) -> bool {
        forall|j: int| #![trigger new_rm.connections@[j]]
            0 <= j < old_rm.connections@.len() && j != i ==> new_rm.connections@[j]
                == old_rm.connections@[j]
    }

    /// What a single-key read's item means: the routed connection was
    /// sent exactly the one-key multi-get, answered with a parsed item
    /// list whose first element is `md`.
    pub open spec fn get_item_post(
        old_rm: &Self,
        new_rm: &Self,
        key: Seq<u8>,
        md: MemData,
    ) -> bool {
        let i = old_rm.route_spec(key);
        exists|items: Seq<MemData>| {
            &&& new_rm.connections@[i].stream_outbox() == old_rm.connections@[
                i
            ].stream_outbox() + old_rm.connections@[i].gets_request_wire(seq![key])
            &&& #[trigger] ProtoConnection::gets_reply_post(
                &old_rm.connections@[i],
                &new_rm.connections@[i],
                items,
            )
            &&& items.len() >= 1
            &&& md == items[0]
        }
    }

    /// What a bulk read's items mean: one (possibly empty) item list per
    /// connection, joined in pool order; every connection that
    /// contributed items was sent exactly its partition's multi-get and
    /// answered with exactly those items.
    pub open spec fn bulk_reply_post(
        old_rm: &Self,
        new_rm: &Self,
        keys: Seq<&str>,
        r: Seq<MemData>,
    ) -> bool {
        exists|parts: Seq<Seq<MemData>>| {
            &&& parts.len() == old_rm.connections@.len()
            &&& r == #[trigger] seqs_concat(parts)
            &&& forall|p: int| #![trigger parts[p]]
                0 <= p < parts.len() ==> (parts[p].len() > 0 ==> {
                    let pkeys = keys_for_partition(
                        keys,
                        old_rm.connections@.len() as nat,
                        p as nat,
                    ).map_values(|k: &str| k.spec_bytes());
                    &&& new_rm.connections@[p].stream_outbox() == old_rm.connections@[
                        p
                    ].stream_outbox() + old_rm.connections@[p].gets_request_wire(pkeys)
                    &&& ProtoConnection::gets_reply_post(
                        &old_rm.connections@[p],
                        &new_rm.connections@[p],
                        parts[p],
                    )
                })
        }
    }

    /// The connection index this pool routes `key` to.
    pub open spec fn route_spec(&self, key: Seq<u8>) -> int {
        index_of_spec(key, self.connections@.len() as nat) as int
    }

    /// Compute a key's connection index: the first four bytes of the MD5
    /// digest, big-endian, modulo the connection count.  The index
    /// depends on the key and the count alone.
    pub fn md5_mod_indexer(key: &str, connection_count: usize) -> (i: usize)
        requires
            connection_count > 0,
        ensures
            i == index_of_spec(key.spec_bytes(), connection_count as nat),
            i < connection_count,
    {
        if connection_count == 1 {
            return 0;
        }
        let digest = md5_digest(key.as_bytes());
        let val4 = ioutil::unpack_u32_be(&digest, 0);
        proof {
            assert(digest@.skip(0) =~= digest@);
        }
        (val4 as usize) % connection_count
    }

    /// Index of the connection that `key` routes to.
    pub fn conn(&self, key: &str) -> (i: usize)
        requires
            self.connections@.len() > 0,
        ensures
            i == self.route_spec(key.spec_bytes()),
            i < self.connections@.len(),
    {
        if self.connections.len() == 1 {
            0
        } else {
            Self::md5_mod_indexer(key, self.connections.len())
        }
    }

    /// How many connections the pool holds.
    pub fn get_connection_count(&self) -> (n: usize)
        ensures
            n == self.connections@.len(),
    {
        self.connections.len()
    }

    /// The connection at a pool index.
    pub fn get_connection(&mut self, index: usize) -> (c: &mut ProtoConnection<S>)
        requires
            index < old(self).connections@.len(),
    {
        &mut self.connections[index]
    }

    /// Store `data_bytes` under `key`; `exptime` seconds until expiry
    /// (0 for none).
    pub fn set_bytes(&mut self, key: &str, exptime: u32, data_bytes: &[u8]) -> (r: MemResult<u64>)
        requires
            old(self).connections@.len() > 0,
            key.spec_bytes().len() <= u16::MAX,
            8 + key.spec_bytes().len() + data_bytes@.len() <= u32::MAX,
        ensures
            Self::pool_shape(old(self), final(self)),
            Self::untouched_except(
                old(self),
                final(self),
                old(self).route_spec(key.spec_bytes()),
            ),
            old(self).connections@[old(self).route_spec(key.spec_bytes())].is_text() ==> r.value
                == 0,
            r.status != MemStatus::Network_Error ==> {
                let i = old(self).route_spec(key.spec_bytes());
                final(self).connections@[i].stream_outbox() == old(self).connections@[
                    i
                ].stream_outbox() + old(self).connections@[i].set_request_wire(key.spec_bytes(), data_bytes@, 0, 0, exptime, false) && ProtoConnection::status_reply_post(
                    &old(self).connections@[i],
                    &final(self).connections@[i],
                    r.status,
                    r.value,
                    false,
                )
            },
    {
        let i = self.conn(key);
        let c = &mut self.connections[i];
        c.p_set(key, data_bytes, 0, 0, exptime, false)
    }

    /// Store a string under `key`.
    pub fn set_str(&mut self, key: &str, exptime: u32, data_str: &str) -> (r: MemResult<u64>)
        requires
            old(self).connections@.len() > 0,
            key.spec_bytes().len() <= u16::MAX,
            8 + key.spec_bytes().len() + data_str.spec_bytes().len() <= u32::MAX,
        ensures
            Self::pool_shape(old(self), final(self)),
            Self::untouched_except(
                old(self),
                final(self),
                old(self).route_spec(key.spec_bytes()),
            ),
            old(self).connections@[old(self).route_spec(key.spec_bytes())].is_text() ==> r.value
                == 0,
            r.status != MemStatus::Network_Error ==> {
                let i = old(self).route_spec(key.spec_bytes());
                final(self).connections@[i].stream_outbox() == old(self).connections@[
                    i
                ].stream_outbox() + old(self).connections@[i].set_request_wire(key.spec_bytes(), data_str.spec_bytes(), 0, 0, exptime, false) && ProtoConnection::status_reply_post(
                    &old(self).connections@[i],
                    &final(self).connections@[i],
                    r.status,
                    r.value,
                    false,
                )
            },
    {
        let i = self.conn(key);
        let c = &mut self.connections[i];
        c.p_set(key, data_str.as_bytes(), 0, 0, exptime, false)
    }

    /// Check-and-set `data_bytes` under `key`: the store succeeds only if
    /// the entry still carries the CAS token of the last fetch.
    pub fn cas_bytes(&mut self, key: &str, cas: u64, exptime: u32, data_bytes: &[u8]) -> (r:
        MemResult<u64>)
        requires
            old(self).connections@.len() > 0,
            key.spec_bytes().len() <= u16::MAX,
            8 + key.spec_bytes().len() + data_bytes@.len() <= u32::MAX,
        ensures
            Self::pool_shape(old(self), final(self)),
            Self::untouched_except(
                old(self),
                final(self),
                old(self).route_spec(key.spec_bytes()),
            ),
            old(self).connections@[old(self).route_spec(key.spec_bytes())].is_text() ==> r.value
                == 0,
            ({
                let i = old(self).route_spec(key.spec_bytes());
                !old(self).connections@[i].is_text()
            }) && cas == 0 ==> r.status == MemStatus::Key_Exists && r.value == 0 && final(self).connections@ == old(self).connections@,
            r.status != MemStatus::Network_Error && ({
                let i = old(self).route_spec(key.spec_bytes());
                old(self).connections@[i].is_text() || cas != 0
            }) ==> {
                let i = old(self).route_spec(key.spec_bytes());
                final(self).connections@[i].stream_outbox() == old(self).connections@[
                    i
                ].stream_outbox() + old(self).connections@[i].cas_request_wire(key.spec_bytes(), data_bytes@, cas, 0, exptime, false) && ProtoConnection::status_reply_post(
                    &old(self).connections@[i],
                    &final(self).connections@[i],
                    r.status,
                    r.value,
                    false,
                )
            },
    {
        let i = self.conn(key);
        let c = &mut self.connections[i];
        c.p_cas(key, data_bytes, cas, 0, exptime, false)
    }

    /// Check-and-set a string under `key`.
    pub fn cas_str(&mut self, key: &str, cas: u64, exptime: u32, data_str: &str) -> (r: MemResult<
        u64,
    >)
        requires
            old(self).connections@.len() > 0,
            key.spec_bytes().len() <= u16::MAX,
            8 + key.spec_bytes().len() + data_str.spec_bytes().len() <= u32::MAX,
        ensures
            Self::pool_shape(old(self), final(self)),
            Self::untouched_except(
                old(self),
                final(self),
                old(self).route_spec(key.spec_bytes()),
            ),
            old(self).connections@[old(self).route_spec(key.spec_bytes())].is_text() ==> r.value
                == 0,
            ({
                let i = old(self).route_spec(key.spec_bytes());
                !old(self).connections@[i].is_text()
            }) && cas == 0 ==> r.status == MemStatus::Key_Exists && r.value == 0 && final(self).connections@ == old(self).connections@,
            r.status != MemStatus::Network_Error && ({
                let i = old(self).route_spec(key.spec_bytes());
                old(self).connections@[i].is_text() || cas != 0
            }) ==> {
                let i = old(self).route_spec(key.spec_bytes());
                final(self).connections@[i].stream_outbox() == old(self).connections@[
                    i
                ].stream_outbox() + old(self).connections@[i].cas_request_wire(key.spec_bytes(), data_str.spec_bytes(), cas, 0, exptime, false) && ProtoConnection::status_reply_post(
                    &old(self).connections@[i],
                    &final(self).connections@[i],
                    r.status,
                    r.value,
                    false,
                )
            },
    {
        let i = self.conn(key);
        let c = &mut self.connections[i];
        c.p_cas(key, data_str.as_bytes(), cas, 0, exptime, false)
    }

    /// Store only where the server holds nothing for `key`.
    pub fn add_bytes(&mut self, key: &str, exptime: u32, data_bytes: &[u8]) -> (r: MemResult<u64>)
        requires
            old(self).connections@.len() > 0,
            key.spec_bytes().len() <= u16::MAX,
            8 + key.spec_bytes().len() + data_bytes@.len() <= u32::MAX,
        ensures
            Self::pool_shape(old(self), final(self)),
            Self::untouched_except(
                old(self),
                final(self),
                old(self).route_spec(key.spec_bytes()),
            ),
            old(self).connections@[old(self).route_spec(key.spec_bytes())].is_text() ==> r.value
                == 0,
            r.status != MemStatus::Network_Error ==> {
                let i = old(self).route_spec(key.spec_bytes());
                final(self).connections@[i].stream_outbox() == old(self).connections@[
                    i
                ].stream_outbox() + old(self).connections@[i].add_request_wire(key.spec_bytes(), data_bytes@, 0, 0, exptime, false) && ProtoConnection::status_reply_post(
                    &old(self).connections@[i],
                    &final(self).connections@[i],
                    r.status,
                    r.value,
                    false,
                )
            },
    {
        let i = self.conn(key);
        let c = &mut self.connections[i];
        c.p_add(key, data_bytes, 0, 0, exptime, false)
    }

    /// Store a string only where the server holds nothing for `key`.
    pub fn add_str(&mut self, key: &str, exptime: u32, data_str: &str) -> (r: MemResult<u64>)
        requires
            old(self).connections@.len() > 0,
            key.spec_bytes().len() <= u16::MAX,
            8 + key.spec_bytes().len() + data_str.spec_bytes().len() <= u32::MAX,
        ensures
            Self::pool_shape(old(self), final(self)),
            Self::untouched_except(
                old(self),
                final(self),
                old(self).route_spec(key.spec_bytes()),
            ),
            old(self).connections@[old(self).route_spec(key.spec_bytes())].is_text() ==> r.value
                == 0,
            r.status != MemStatus::Network_Error ==> {
                let i = old(self).route_spec(key.spec_bytes());
                final(self).connections@[i].stream_outbox() == old(self).connections@[
                    i
                ].stream_outbox() + old(self).connections@[i].add_request_wire(key.spec_bytes(), data_str.spec_bytes(), 0, 0, exptime, false) && ProtoConnection::status_reply_post(
                    &old(self).connections@[i],
                    &final(self).connections@[i],
                    r.status,
                    r.value,
                    false,
                )
            },
    {
        let i = self.conn(key);
        let c = &mut self.connections[i];
        c.p_add(key, data_str.as_bytes(), 0, 0, exptime, false)
    }

    /// Store only where the server already holds data for `key`; the CAS
    /// is passed through, and its meaning there is server-dependent.
    pub fn replace_bytes(&mut self, key: &str, cas: u64, exptime: u32, data_bytes: &[u8]) -> (r:
        MemResult<u64>)
        requires
            old(self).connections@.len() > 0,
            key.spec_bytes().len() <= u16::MAX,
            8 + key.spec_bytes().len() + data_bytes@.len() <= u32::MAX,
        ensures
            Self::pool_shape(old(self), final(self)),
            Self::untouched_except(
                old(self),
                final(self),
                old(self).route_spec(key.spec_bytes()),
            ),
            old(self).connections@[old(self).route_spec(key.spec_bytes())].is_text() ==> r.value
                == 0,
            r.status != MemStatus::Network_Error ==> {
                let i = old(self).route_spec(key.spec_bytes());
                final(self).connections@[i].stream_outbox() == old(self).connections@[
                    i
                ].stream_outbox() + old(self).connections@[i].replace_request_wire(key.spec_bytes(), data_bytes@, cas, 0, exptime, false) && ProtoConnection::status_reply_post(
                    &old(self).connections@[i],
                    &final(self).connections@[i],
                    r.status,
                    r.value,
                    false,
                )
            },
    {
        let i = self.conn(key);
        let c = &mut self.connections[i];
        c.p_replace(key, data_bytes, cas, 0, exptime, false)
    }

    /// Store a string only where the server already holds data for `key`.
    pub fn replace_str(&mut self, key: &str, cas: u64, exptime: u32, data_str: &str) -> (r:
        MemResult<u64>)
        requires
            old(self).connections@.len() > 0,
            key.spec_bytes().len() <= u16::MAX,
            8 + key.spec_bytes().len() + data_str.spec_bytes().len() <= u32::MAX,
        ensures
            Self::pool_shape(old(self), final(self)),
            Self::untouched_except(
                old(self),
                final(self),
                old(self).route_spec(key.spec_bytes()),
            ),
            old(self).connections@[old(self).route_spec(key.spec_bytes())].is_text() ==> r.value
                == 0,
            r.status != MemStatus::Network_Error ==> {
                let i = old(self).route_spec(key.spec_bytes());
                final(self).connections@[i].stream_outbox() == old(self).connections@[
                    i
                ].stream_outbox() + old(self).connections@[i].replace_request_wire(key.spec_bytes(), data_str.spec_bytes(), cas, 0, exptime, false) && ProtoConnection::status_reply_post(
                    &old(self).connections@[i],
                    &final(self).connections@[i],
                    r.status,
                    r.value,
                    false,
                )
            },
    {
        let i = self.conn(key);
        let c = &mut self.connections[i];
        c.p_replace(key, data_str.as_bytes(), cas, 0, exptime, false)
    }

    /// Append `data_bytes` after the existing data at `key`.
    pub fn append_bytes(&mut self, key: &str, data_bytes: &[u8]) -> (r: MemResult<u64>)
        requires
            old(self).connections@.len() > 0,
            key.spec_bytes().len() <= u16::MAX,
            8 + key.spec_bytes().len() + data_bytes@.len() <= u32::MAX,
        ensures
            Self::pool_shape(old(self), final(self)),
            Self::untouched_except(
                old(self),
                final(self),
                old(self).route_spec(key.spec_bytes()),
            ),
            old(self).connections@[old(self).route_spec(key.spec_bytes())].is_text() ==> r.value
                == 0,
            r.status != MemStatus::Network_Error ==> {
                let i = old(self).route_spec(key.spec_bytes());
                final(self).connections@[i].stream_outbox() == old(self).connections@[
                    i
                ].stream_outbox() + old(self).connections@[i].append_request_wire(key.spec_bytes(), data_bytes@, false) && ProtoConnection::status_reply_post(
                    &old(self).connections@[i],
                    &final(self).connections@[i],
                    r.status,
                    r.value,
                    false,
                )
            },
    {
        let i = self.conn(key);
        let c = &mut self.connections[i];
        c.p_append(key, data_bytes, false)
    }

    /// Prepend `data_bytes` before the existing data at `key`.
    pub fn prepend_bytes(&mut self, key: &str, data_bytes: &[u8]) -> (r: MemResult<u64>)
        requires
            old(self).connections@.len() > 0,
            key.spec_bytes().len() <= u16::MAX,
            8 + key.spec_bytes().len() + data_bytes@.len() <= u32::MAX,
        ensures
            Self::pool_shape(old(self), final(self)),
            Self::untouched_except(
                old(self),
                final(self),
                old(self).route_spec(key.spec_bytes()),
            ),
            old(self).connections@[old(self).route_spec(key.spec_bytes())].is_text() ==> r.value
                == 0,
            r.status != MemStatus::Network_Error ==> {
                let i = old(self).route_spec(key.spec_bytes());
                final(self).connections@[i].stream_outbox() == old(self).connections@[
                    i
                ].stream_outbox() + old(self).connections@[i].prepend_request_wire(key.spec_bytes(), data_bytes@, false) && ProtoConnection::status_reply_post(
                    &old(self).connections@[i],
                    &final(self).connections@[i],
                    r.status,
                    r.value,
                    false,
                )
            },
    {
        let i = self.conn(key);
        let c = &mut self.connections[i];
        c.p_prepend(key, data_bytes, false)
    }

    /// Update the expiration time of the entry at `key`.
    pub fn touch(&mut self, key: &str, exptime: u32) -> (s: MemStatus)
        requires
            old(self).connections@.len() > 0,
            key.spec_bytes().len() <= u16::MAX,
        ensures
            Self::pool_shape(old(self), final(self)),
            Self::untouched_except(
                old(self),
                final(self),
                old(self).route_spec(key.spec_bytes()),
            ),
            s != MemStatus::Network_Error ==> {
                let i = old(self).route_spec(key.spec_bytes());
                final(self).connections@[i].stream_outbox() == old(self).connections@[
                    i
                ].stream_outbox() + old(self).connections@[i].touch_request_wire(key.spec_bytes(), exptime, false) && ProtoConnection::status_only_post(
                    &old(self).connections@[i],
                    &final(self).connections@[i],
                    s,
                    false,
                )
            },
    {
        let i = self.conn(key);
        let c = &mut self.connections[i];
        c.p_touch(key, exptime, false)
    }

    /// Delete the entry at `key`.
    pub fn delete(&mut self, key: &str) -> (s: MemStatus)
        requires
            old(self).connections@.len() > 0,
            key.spec_bytes().len() <= u16::MAX,
        ensures
            Self::pool_shape(old(self), final(self)),
            Self::untouched_except(
                old(self),
                final(self),
                old(self).route_spec(key.spec_bytes()),
            ),
            s != MemStatus::Network_Error ==> {
                let i = old(self).route_spec(key.spec_bytes());
                final(self).connections@[i].stream_outbox() == old(self).connections@[
                    i
                ].stream_outbox() + old(self).connections@[i].delete_request_wire(key.spec_bytes(), false) && ProtoConnection::status_only_post(
                    &old(self).connections@[i],
                    &final(self).connections@[i],
                    s,
                    false,
                )
            },
    {
        let i = self.conn(key);
        let c = &mut self.connections[i];
        c.p_delete(key, false)
    }

    /// Increment the 64-bit counter at `key` by `inc_amount`.  On the
    /// binary path an absent key is created with `init_value` unless
    /// `exptime` is 0xFFFFFFFF; the text path ignores `init_value` and
    /// `exptime` and returns value 0.
    pub fn incr(&mut self, key: &str, inc_amount: u64, init_value: u64, exptime: u32) -> (r:
        MemResult<u64>)
        requires
            old(self).connections@.len() > 0,
            key.spec_bytes().len() <= u16::MAX,
        ensures
            Self::pool_shape(old(self), final(self)),
            Self::untouched_except(
                old(self),
                final(self),
                old(self).route_spec(key.spec_bytes()),
            ),
            old(self).connections@[old(self).route_spec(key.spec_bytes())].is_text() ==> r.value
                == 0,
            r.status != MemStatus::Network_Error ==> {
                let i = old(self).route_spec(key.spec_bytes());
                final(self).connections@[i].stream_outbox() == old(self).connections@[
                    i
                ].stream_outbox() + old(self).connections@[i].incr_request_wire(key.spec_bytes(), inc_amount, init_value, exptime, false) && ProtoConnection::counter_reply_post(
                    &old(self).connections@[i],
                    &final(self).connections@[i],
                    r.status,
                    r.value,
                    false,
                )
            },
    {
        let i = self.conn(key);
        let c = &mut self.connections[i];
        c.p_incr(key, inc_amount, init_value, exptime, false)
    }

    /// Decrement the 64-bit counter at `key` by `dec_amount`; see `incr`.
    pub fn decr(&mut self, key: &str, dec_amount: u64, init_value: u64, exptime: u32) -> (r:
        MemResult<u64>)
        requires
            old(self).connections@.len() > 0,
            key.spec_bytes().len() <= u16::MAX,
        ensures
            Self::pool_shape(old(self), final(self)),
            Self::untouched_except(
                old(self),
                final(self),
                old(self).route_spec(key.spec_bytes()),
            ),
            old(self).connections@[old(self).route_spec(key.spec_bytes())].is_text() ==> r.value
                == 0,
            r.status != MemStatus::Network_Error ==> {
                let i = old(self).route_spec(key.spec_bytes());
                final(self).connections@[i].stream_outbox() == old(self).connections@[
                    i
                ].stream_outbox() + old(self).connections@[i].decr_request_wire(key.spec_bytes(), dec_amount, init_value, exptime, false) && ProtoConnection::counter_reply_post(
                    &old(self).connections@[i],
                    &final(self).connections@[i],
                    r.status,
                    r.value,
                    false,
                )
            },
    {
        let i = self.conn(key);
        let c = &mut self.connections[i];
        c.p_decr(key, dec_amount, init_value, exptime, false)
    }

    /// Retrieve the entry at `key` with all its metadata, or `None` where
    /// the key is absent or the request fails.
    pub fn get_data(&mut self, key: &str) -> (r: Option<MemData>)
        requires
            old(self).connections@.len() > 0,
            key.spec_bytes().len() <= u16::MAX,
        ensures
            Self::pool_shape(old(self), final(self)),
            Self::untouched_except(
                old(self),
                final(self),
                old(self).route_spec(key.spec_bytes()),
            ),
            r is Some ==> Self::get_item_post(
                old(self),
                final(self),
                key.spec_bytes(),
                r.unwrap(),
            ),
    {
        let i = self.conn(key);
        let c = &mut self.connections[i];
        let keys: Vec<&str> = vec![key];
        proof {
            assert(keys@[0] == key);
            assert(keys@.map_values(|k: &str| k.spec_bytes()) =~= seq![key.spec_bytes()]);
        }
        let mut md_list = c.p_gets(keys.as_slice());
        let ghost items = md_list@;
        if md_list.len() == 0 {
            None
        } else {
            let md = md_list.remove(0);
            proof {
                assert(md == items[0]);
                assert(ProtoConnection::gets_reply_post(
                    &old(self).connections@[i as int],
                    &self.connections@[i as int],
                    items,
                ));
            }
            Some(md)
        }
    }

    /// Store a value rendered to its textual form under `key`; it can be
    /// read back with `get_as`.  An encoding too large for one request
    /// gives `Value_Too_Large` without touching the wire.
    pub fn set_as<T: core::fmt::Display>(&mut self, key: &str, exptime: u32, value: &T) -> (r:
        MemResult<u64>)
        requires
            old(self).connections@.len() > 0,
            key.spec_bytes().len() <= u16::MAX,
        ensures
            Self::pool_shape(old(self), final(self)),
            Self::untouched_except(
                old(self),
                final(self),
                old(self).route_spec(key.spec_bytes()),
            ),
            old(self).connections@[old(self).route_spec(key.spec_bytes())].is_text()
                && r.status != MemStatus::Value_Too_Large ==> r.value == 0,
    {
        let rendered = value.to_string();
        self.set_rendered(key, exptime, 0, false, rendered.as_str().as_bytes())
    }

    /// Store a value rendered as JSON text under `key`; it can be read
    /// back with `get_json`.  An encoding too large for one request gives
    /// `Value_Too_Large` without touching the wire.
    pub fn set_json(&mut self, key: &str, exptime: u32, data_json: &serde_json::Value) -> (r:
        MemResult<u64>)
        requires
            old(self).connections@.len() > 0,
            key.spec_bytes().len() <= u16::MAX,
        ensures
            Self::pool_shape(old(self), final(self)),
            Self::untouched_except(
                old(self),
                final(self),
                old(self).route_spec(key.spec_bytes()),
            ),
            old(self).connections@[old(self).route_spec(key.spec_bytes())].is_text()
                && r.status != MemStatus::Value_Too_Large ==> r.value == 0,
            8 + key.spec_bytes().len() + json_bytes_of(*data_json).len() > u32::MAX ==> r.status
                == MemStatus::Value_Too_Large && r.value == 0 && final(self).connections@ == old(
                self,
            ).connections@,
            8 + key.spec_bytes().len() + json_bytes_of(*data_json).len() <= u32::MAX && r.status
                != MemStatus::Network_Error ==> {
                let i = old(self).route_spec(key.spec_bytes());
                final(self).connections@[i].stream_outbox() == old(self).connections@[
                    i
                ].stream_outbox() + old(self).connections@[i].set_request_wire(
                    key.spec_bytes(),
                    json_bytes_of(*data_json),
                    0,
                    0,
                    exptime,
                    false,
                ) && ProtoConnection::status_reply_post(
                    &old(self).connections@[i],
                    &final(self).connections@[i],
                    r.status,
                    r.value,
                    false,
                )
            },
    {
        let data = json_to_vec(data_json);
        self.set_rendered(key, exptime, 0, false, data.as_slice())
    }

    /// Check-and-set a value rendered to its textual form under `key`.
    pub fn cas_as<T: core::fmt::Display>(
        &mut self,
        key: &str,
        cas: u64,
        exptime: u32,
        value: &T,
    ) -> (r: MemResult<u64>)
        requires
            old(self).connections@.len() > 0,
            key.spec_bytes().len() <= u16::MAX,
        ensures
            Self::pool_shape(old(self), final(self)),
            Self::untouched_except(
                old(self),
                final(self),
                old(self).route_spec(key.spec_bytes()),
            ),
            old(self).connections@[old(self).route_spec(key.spec_bytes())].is_text()
                && r.status != MemStatus::Value_Too_Large ==> r.value == 0,
    {
        let rendered = value.to_string();
        self.set_rendered(key, exptime, cas, true, rendered.as_str().as_bytes())
    }

    /// Check-and-set a value rendered as JSON text under `key`.
    pub fn cas_json(&mut self, key: &str, cas: u64, exptime: u32, data_json: &serde_json::Value)
        -> (r: MemResult<u64>)
        requires
            old(self).connections@.len() > 0,
            key.spec_bytes().len() <= u16::MAX,
        ensures
            Self::pool_shape(old(self), final(self)),
            Self::untouched_except(
                old(self),
                final(self),
                old(self).route_spec(key.spec_bytes()),
            ),
            old(self).connections@[old(self).route_spec(key.spec_bytes())].is_text()
                && r.status != MemStatus::Value_Too_Large ==> r.value == 0,
            8 + key.spec_bytes().len() + json_bytes_of(*data_json).len() > u32::MAX ==> r.status
                == MemStatus::Value_Too_Large && r.value == 0 && final(self).connections@ == old(
                self,
            ).connections@,
            cas == 0 && 8 + key.spec_bytes().len() + json_bytes_of(*data_json).len() <= u32::MAX
                && !old(self).connections@[old(self).route_spec(key.spec_bytes())].is_text()
                ==> r.status == MemStatus::Key_Exists && r.value == 0 && final(self).connections@
                == old(self).connections@,
            8 + key.spec_bytes().len() + json_bytes_of(*data_json).len() <= u32::MAX && r.status
                != MemStatus::Network_Error && ({
                let i = old(self).route_spec(key.spec_bytes());
                old(self).connections@[i].is_text() || cas != 0
            }) ==> {
                let i = old(self).route_spec(key.spec_bytes());
                final(self).connections@[i].stream_outbox() == old(self).connections@[
                    i
                ].stream_outbox() + old(self).connections@[i].cas_request_wire(
                    key.spec_bytes(),
                    json_bytes_of(*data_json),
                    cas,
                    0,
                    exptime,
                    false,
                ) && ProtoConnection::status_reply_post(
                    &old(self).connections@[i],
                    &final(self).connections@[i],
                    r.status,
                    r.value,
                    false,
                )
            },
    {
        let data = json_to_vec(data_json);
        self.set_rendered(key, exptime, cas, true, data.as_slice())
    }

    /// Add a value rendered to its textual form under `key`.
    pub fn add_as<T: core::fmt::Display>(&mut self, key: &str, exptime: u32, value: &T) -> (r:
        MemResult<u64>)
        requires
            old(self).connections@.len() > 0,
            key.spec_bytes().len() <= u16::MAX,
        ensures
            Self::pool_shape(old(self), final(self)),
            Self::untouched_except(
                old(self),
                final(self),
                old(self).route_spec(key.spec_bytes()),
            ),
            old(self).connections@[old(self).route_spec(key.spec_bytes())].is_text()
                && r.status != MemStatus::Value_Too_Large ==> r.value == 0,
    {
        let rendered = value.to_string();
        self.add_rendered(key, exptime, rendered.as_str().as_bytes())
    }

    /// Add a value rendered as JSON text under `key`.
    pub fn add_json(&mut self, key: &str, exptime: u32, data_json: &serde_json::Value) -> (r:
        MemResult<u64>)
        requires
            old(self).connections@.len() > 0,
            key.spec_bytes().len() <= u16::MAX,
        ensures
            Self::pool_shape(old(self), final(self)),
            Self::untouched_except(
                old(self),
                final(self),
                old(self).route_spec(key.spec_bytes()),
            ),
            old(self).connections@[old(self).route_spec(key.spec_bytes())].is_text()
                && r.status != MemStatus::Value_Too_Large ==> r.value == 0,
            8 + key.spec_bytes().len() + json_bytes_of(*data_json).len() > u32::MAX ==> r.status
                == MemStatus::Value_Too_Large && r.value == 0 && final(self).connections@ == old(
                self,
            ).connections@,
            8 + key.spec_bytes().len() + json_bytes_of(*data_json).len() <= u32::MAX && r.status
                != MemStatus::Network_Error ==> {
                let i = old(self).route_spec(key.spec_bytes());
                final(self).connections@[i].stream_outbox() == old(self).connections@[
                    i
                ].stream_outbox() + old(self).connections@[i].add_request_wire(
                    key.spec_bytes(),
                    json_bytes_of(*data_json),
                    0,
                    0,
                    exptime,
                    false,
                ) && ProtoConnection::status_reply_post(
                    &old(self).connections@[i],
                    &final(self).connections@[i],
                    r.status,
                    r.value,
                    false,
                )
            },
    {
        let data = json_to_vec(data_json);
        self.add_rendered(key, exptime, data.as_slice())
    }

    /// Replace the entry at `key` with a value rendered to its textual
    /// form.
    pub fn replace_as<T: core::fmt::Display>(
        &mut self,
        key: &str,
        cas: u64,
        exptime: u32,
        value: &T,
    ) -> (r: MemResult<u64>)
        requires
            old(self).connections@.len() > 0,
            key.spec_bytes().len() <= u16::MAX,
        ensures
            Self::pool_shape(old(self), final(self)),
            Self::untouched_except(
                old(self),
                final(self),
                old(self).route_spec(key.spec_bytes()),
            ),
            old(self).connections@[old(self).route_spec(key.spec_bytes())].is_text()
                && r.status != MemStatus::Value_Too_Large ==> r.value == 0,
    {
        let rendered = value.to_string();
        self.replace_rendered(key, cas, exptime, rendered.as_str().as_bytes())
    }

    /// Replace the entry at `key` with a value rendered as JSON text.
    pub fn replace_json(&mut self, key: &str, cas: u64, exptime: u32, data_json:
        &serde_json::Value) -> (r: MemResult<u64>)
        requires
            old(self).connections@.len() > 0,
            key.spec_bytes().len() <= u16::MAX,
        ensures
            Self::pool_shape(old(self), final(self)),
            Self::untouched_except(
                old(self),
                final(self),
                old(self).route_spec(key.spec_bytes()),
            ),
            old(self).connections@[old(self).route_spec(key.spec_bytes())].is_text()
                && r.status != MemStatus::Value_Too_Large ==> r.value == 0,
            8 + key.spec_bytes().len() + json_bytes_of(*data_json).len() > u32::MAX ==> r.status
                == MemStatus::Value_Too_Large && r.value == 0 && final(self).connections@ == old(
                self,
            ).connections@,
            8 + key.spec_bytes().len() + json_bytes_of(*data_json).len() <= u32::MAX && r.status
                != MemStatus::Network_Error ==> {
                let i = old(self).route_spec(key.spec_bytes());
                final(self).connections@[i].stream_outbox() == old(self).connections@[
                    i
                ].stream_outbox() + old(self).connections@[i].replace_request_wire(
                    key.spec_bytes(),
                    json_bytes_of(*data_json),
                    cas,
                    0,
                    exptime,
                    false,
                ) && ProtoConnection::status_reply_post(
                    &old(self).connections@[i],
                    &final(self).connections@[i],
                    r.status,
                    r.value,
                    false,
                )
            },
    {
        let data = json_to_vec(data_json);
        self.replace_rendered(key, cas, exptime, data.as_slice())
    }

    /// Store an already-rendered payload of unchecked size: too large for
    /// one request gives `Value_Too_Large` without touching the wire.
    fn set_rendered(&mut self, key: &str, exptime: u32, cas: u64, conditional: bool, data: &[u8])
        -> (r: MemResult<u64>)
        requires
            old(self).connections@.len() > 0,
            key.spec_bytes().len() <= u16::MAX,
        ensures
            Self::pool_shape(old(self), final(self)),
            Self::untouched_except(
                old(self),
                final(self),
                old(self).route_spec(key.spec_bytes()),
            ),
            old(self).connections@[old(self).route_spec(key.spec_bytes())].is_text()
                && r.status != MemStatus::Value_Too_Large ==> r.value == 0,
            8 + key.spec_bytes().len() + data@.len() > u32::MAX ==> r.status
                == MemStatus::Value_Too_Large && r.value == 0 && final(self).connections@ == old(
                self,
            ).connections@,
            conditional && cas == 0 && 8 + key.spec_bytes().len() + data@.len() <= u32::MAX
                && !old(self).connections@[old(self).route_spec(key.spec_bytes())].is_text()
                ==> r.status == MemStatus::Key_Exists && r.value == 0 && final(self).connections@
                == old(self).connections@,
            8 + key.spec_bytes().len() + data@.len() <= u32::MAX && r.status
                != MemStatus::Network_Error && ({
                let i = old(self).route_spec(key.spec_bytes());
                !conditional || old(self).connections@[i].is_text() || cas != 0
            }) ==> {
                let i = old(self).route_spec(key.spec_bytes());
                final(self).connections@[i].stream_outbox() == old(self).connections@[
                    i
                ].stream_outbox() + (if conditional {
                    old(self).connections@[i].cas_request_wire(
                        key.spec_bytes(),
                        data@,
                        cas,
                        0,
                        exptime,
                        false,
                    )
                } else {
                    old(self).connections@[i].set_request_wire(
                        key.spec_bytes(),
                        data@,
                        cas,
                        0,
                        exptime,
                        false,
                    )
                }) && ProtoConnection::status_reply_post(
                    &old(self).connections@[i],
                    &final(self).connections@[i],
                    r.status,
                    r.value,
                    false,
                )
            },
    {
        let key_len = key.as_bytes().len();
        if data.len() as u64 > u32::MAX as u64 - 8 - key_len as u64 {
            return MemResult { status: MemStatus::Value_Too_Large, value: 0 };
        }
        let i = self.conn(key);
        let c = &mut self.connections[i];
        if conditional {
            c.p_cas(key, data, cas, 0, exptime, false)
        } else {
            c.p_set(key, data, cas, 0, exptime, false)
        }
    }

    /// Add an already-rendered payload of unchecked size; see
    /// `set_rendered`.
    fn add_rendered(&mut self, key: &str, exptime: u32, data: &[u8]) -> (r: MemResult<u64>)
        requires
            old(self).connections@.len() > 0,
            key.spec_bytes().len() <= u16::MAX,
        ensures
            Self::pool_shape(old(self), final(self)),
            Self::untouched_except(
                old(self),
                final(self),
                old(self).route_spec(key.spec_bytes()),
            ),
            old(self).connections@[old(self).route_spec(key.spec_bytes())].is_text()
                && r.status != MemStatus::Value_Too_Large ==> r.value == 0,
            8 + key.spec_bytes().len() + data@.len() > u32::MAX ==> r.status
                == MemStatus::Value_Too_Large && r.value == 0 && final(self).connections@ == old(
                self,
            ).connections@,
            8 + key.spec_bytes().len() + data@.len() <= u32::MAX && r.status
                != MemStatus::Network_Error ==> {
                let i = old(self).route_spec(key.spec_bytes());
                final(self).connections@[i].stream_outbox() == old(self).connections@[
                    i
                ].stream_outbox() + old(self).connections@[i].add_request_wire(
                    key.spec_bytes(),
                    data@,
                    0,
                    0,
                    exptime,
                    false,
                ) && ProtoConnection::status_reply_post(
                    &old(self).connections@[i],
                    &final(self).connections@[i],
                    r.status,
                    r.value,
                    false,
                )
            },
    {
        let key_len = key.as_bytes().len();
        if data.len() as u64 > u32::MAX as u64 - 8 - key_len as u64 {
            return MemResult { status: MemStatus::Value_Too_Large, value: 0 };
        }
        let i = self.conn(key);
        let c = &mut self.connections[i];
        c.p_add(key, data, 0, 0, exptime, false)
    }

    /// Replace with an already-rendered payload of unchecked size; see
    /// `set_rendered`.
    fn replace_rendered(&mut self, key: &str, cas: u64, exptime: u32, data: &[u8]) -> (r:
        MemResult<u64>)
        requires
            old(self).connections@.len() > 0,
            key.spec_bytes().len() <= u16::MAX,
        ensures
            Self::pool_shape(old(self), final(self)),
            Self::untouched_except(
                old(self),
                final(self),
                old(self).route_spec(key.spec_bytes()),
            ),
            old(self).connections@[old(self).route_spec(key.spec_bytes())].is_text()
                && r.status != MemStatus::Value_Too_Large ==> r.value == 0,
            8 + key.spec_bytes().len() + data@.len() > u32::MAX ==> r.status
                == MemStatus::Value_Too_Large && r.value == 0 && final(self).connections@ == old(
                self,
            ).connections@,
            8 + key.spec_bytes().len() + data@.len() <= u32::MAX && r.status
                != MemStatus::Network_Error ==> {
                let i = old(self).route_spec(key.spec_bytes());
                final(self).connections@[i].stream_outbox() == old(self).connections@[
                    i
                ].stream_outbox() + old(self).connections@[i].replace_request_wire(
                    key.spec_bytes(),
                    data@,
                    cas,
                    0,
                    exptime,
                    false,
                ) && ProtoConnection::status_reply_post(
                    &old(self).connections@[i],
                    &final(self).connections@[i],
                    r.status,
                    r.value,
                    false,
                )
            },
    {
        let key_len = key.as_bytes().len();
        if data.len() as u64 > u32::MAX as u64 - 8 - key_len as u64 {
            return MemResult { status: MemStatus::Value_Too_Large, value: 0 };
        }
        let i = self.conn(key);
        let c = &mut self.connections[i];
        c.p_replace(key, data, cas, 0, exptime, false)
    }

    /// The payload at `key`, or `None` where the key is absent or the
    /// request fails.
    pub fn get_bytes(&mut self, key: &str) -> (r: Option<Vec<u8>>)
        requires
            old(self).connections@.len() > 0,
            key.spec_bytes().len() <= u16::MAX,
        ensures
            Self::pool_shape(old(self), final(self)),
            r is Some ==> exists|md: MemData| {
                &&& #[trigger] Self::get_item_post(old(self), final(self), key.spec_bytes(), md)
                &&& r.unwrap()@ == md.data@
            },
    {
        match self.get_data(key) {
            Some(md) => {
                let out = md.as_bytes();
                proof {
                    assert(Self::get_item_post(old(self), self, key.spec_bytes(), md));
                }
                Some(out)
            },
            None => None,
        }
    }

    /// The payload at `key` decoded as UTF-8, or `None` where the key is
    /// absent, the request fails, or the payload is not UTF-8.
    pub fn get_str(&mut self, key: &str) -> (r: Option<String>)
        requires
            old(self).connections@.len() > 0,
            key.spec_bytes().len() <= u16::MAX,
        ensures
            Self::pool_shape(old(self), final(self)),
            r is Some ==> exists|md: MemData| {
                &&& #[trigger] Self::get_item_post(old(self), final(self), key.spec_bytes(), md)
                &&& vstd::utf8::valid_utf8(md.data@)
                &&& r.unwrap()@ == vstd::utf8::decode_utf8(md.data@)
            },
    {
        match self.get_data(key) {
            Some(md) => {
                let out = md.as_str();
                proof {
                    if out is Some {
                        assert(Self::get_item_post(old(self), self, key.spec_bytes(), md));
                    }
                }
                out
            },
            None => None,
        }
    }

    /// The payload at `key` read as a scalar of `T`, or `None` where the
    /// key is absent or the payload does not parse.
    pub fn get_as<T: core::str::FromStr>(&mut self, key: &str) -> (r: Option<T>)
        requires
            old(self).connections@.len() > 0,
            key.spec_bytes().len() <= u16::MAX,
        ensures
            Self::pool_shape(old(self), final(self)),
            r is Some ==> exists|md: MemData| {
                &&& #[trigger] Self::get_item_post(old(self), final(self), key.spec_bytes(), md)
                &&& vstd::utf8::valid_utf8(md.data@)
            },
    {
        match self.get_data(key) {
            Some(md) => {
                let out = md.as_type::<T>();
                proof {
                    if out is Some {
                        assert(Self::get_item_post(old(self), self, key.spec_bytes(), md));
                    }
                }
                out
            },
            None => None,
        }
    }

    /// The payload at `key` parsed as JSON, or `None` where the key is
    /// absent or the payload is not a JSON document.
    pub fn get_json(&mut self, key: &str) -> (r: Option<serde_json::Value>)
        requires
            old(self).connections@.len() > 0,
            key.spec_bytes().len() <= u16::MAX,
        ensures
            Self::pool_shape(old(self), final(self)),
            r is Some ==> exists|md: MemData| {
                &&& #[trigger] Self::get_item_post(old(self), final(self), key.spec_bytes(), md)
                &&& json_doc_of(md.data@) is Some
                &&& r.unwrap() == json_doc_of(md.data@).unwrap()
            },
    {
        match self.get_data(key) {
            Some(md) => match md.as_json() {
                Ok(j) => {
                    proof {
                        assert(Self::get_item_post(old(self), self, key.spec_bytes(), md));
                    }
                    Some(j)
                },
                Err(_) => None,
            },
            None => None,
        }
    }

    /// The payloads at many keys, as `(key, bytes)` pairs.
    pub fn get_bulk_bytes(&mut self, keys: &[&str]) -> (r: Vec<(String, Vec<u8>)>)
        requires
            old(self).connections@.len() > 0,
            keys@.len() >= 1,
            forall|i: int| 0 <= i < keys@.len() ==> #[trigger] keys@[i].spec_bytes().len()
                <= u16::MAX,
        ensures
            Self::pool_shape(old(self), final(self)),
            exists|mds: Seq<MemData>| {
                &&& #[trigger] Self::bulk_reply_post(old(self), final(self), keys@, mds)
                &&& r@.len() == mds.len()
                &&& forall|t: int| #![trigger r@[t]]
                    0 <= t < r@.len() ==> (r@[t].0@ == mds[t].key@ && r@[t].1@ == mds[t].data@)
            },
    {
        let md_list = self.get_bulk_data(keys);
        let ghost mds = md_list@;
        let mut out: Vec<(String, Vec<u8>)> = Vec::new();
        let mut i: usize = 0;
        while i < md_list.len()
            invariant
                i <= md_list@.len(),
                md_list@ == mds,
                out@.len() == i,
                forall|t: int| #![trigger out@[t]]
                    0 <= t < i ==> (out@[t].0@ == mds[t].key@ && out@[t].1@ == mds[t].data@),
            decreases md_list@.len() - i,
        {
            out.push((md_list[i].key.clone(), md_list[i].as_bytes()));
            i = i + 1;
        }
        proof {
        }
        out
    }

    /// The payloads at many keys decoded as UTF-8, as `(key, text)`
    /// pairs; an undecodable payload reads as `None`.
    pub fn get_bulk_str(&mut self, keys: &[&str]) -> (r: Vec<(String, Option<String>)>)
        requires
            old(self).connections@.len() > 0,
            keys@.len() >= 1,
            forall|i: int| 0 <= i < keys@.len() ==> #[trigger] keys@[i].spec_bytes().len()
                <= u16::MAX,
        ensures
            Self::pool_shape(old(self), final(self)),
            exists|mds: Seq<MemData>| {
                &&& #[trigger] Self::bulk_reply_post(old(self), final(self), keys@, mds)
                &&& r@.len() == mds.len()
                &&& forall|t: int| #![trigger r@[t]]
                    0 <= t < r@.len() ==> (r@[t].0@ == mds[t].key@ && (r@[t].1 is Some <==> vstd::utf8::valid_utf8(mds[t].data@)) && (r@[t].1 is Some ==> r@[t].1.unwrap()@ == vstd::utf8::decode_utf8(mds[t].data@)))
            },
    {
        let md_list = self.get_bulk_data(keys);
        let ghost mds = md_list@;
        let mut out: Vec<(String, Option<String>)> = Vec::new();
        let mut i: usize = 0;
        while i < md_list.len()
            invariant
                i <= md_list@.len(),
                md_list@ == mds,
                out@.len() == i,
                forall|t: int| #![trigger out@[t]]
                    0 <= t < i ==> (out@[t].0@ == mds[t].key@ && (out@[t].1 is Some <==> vstd::utf8::valid_utf8(mds[t].data@)) && (out@[t].1 is Some ==> out@[t].1.unwrap()@ == vstd::utf8::decode_utf8(mds[t].data@))),
            decreases md_list@.len() - i,
        {
            out.push((md_list[i].key.clone(), md_list[i].as_str()));
            i = i + 1;
        }
        proof {
        }
        out
    }

    /// The payloads at many keys read as scalars of `T`, as
    /// `(key, value)` pairs; an unparseable payload reads as `None`.
    pub fn get_bulk_as<T: core::str::FromStr>(&mut self, keys: &[&str]) -> (r: Vec<
        (String, Option<T>),
    >)
        requires
            old(self).connections@.len() > 0,
            keys@.len() >= 1,
            forall|i: int| 0 <= i < keys@.len() ==> #[trigger] keys@[i].spec_bytes().len()
                <= u16::MAX,
        ensures
            Self::pool_shape(old(self), final(self)),
            exists|mds: Seq<MemData>| {
                &&& #[trigger] Self::bulk_reply_post(old(self), final(self), keys@, mds)
                &&& r@.len() == mds.len()
                &&& forall|t: int| #![trigger r@[t]]
                    0 <= t < r@.len() ==> (r@[t].0@ == mds[t].key@ && (!vstd::utf8::valid_utf8(mds[t].data@) ==> r@[t].1 is None))
            },
    {
        let md_list = self.get_bulk_data(keys);
        let ghost mds = md_list@;
        let mut out: Vec<(String, Option<T>)> = Vec::new();
        let mut i: usize = 0;
        while i < md_list.len()
            invariant
                i <= md_list@.len(),
                md_list@ == mds,
                out@.len() == i,
                forall|t: int| #![trigger out@[t]]
                    0 <= t < i ==> (out@[t].0@ == mds[t].key@ && (!vstd::utf8::valid_utf8(mds[t].data@) ==> out@[t].1 is None)),
            decreases md_list@.len() - i,
        {
            out.push((md_list[i].key.clone(), md_list[i].as_type::<T>()));
            i = i + 1;
        }
        proof {
        }
        out
    }

    /// The payloads at many keys parsed as JSON, as `(key, document)`
    /// pairs; a payload that is no JSON document reads as the error.
    pub fn get_bulk_json(&mut self, keys: &[&str]) -> (r: Vec<
        (String, Result<serde_json::Value, JsonError>),
    >)
        requires
            old(self).connections@.len() > 0,
            keys@.len() >= 1,
            forall|i: int| 0 <= i < keys@.len() ==> #[trigger] keys@[i].spec_bytes().len()
                <= u16::MAX,
        ensures
            Self::pool_shape(old(self), final(self)),
            exists|mds: Seq<MemData>| {
                &&& #[trigger] Self::bulk_reply_post(old(self), final(self), keys@, mds)
                &&& r@.len() == mds.len()
                &&& forall|t: int| #![trigger r@[t]]
                    0 <= t < r@.len() ==> (r@[t].0@ == mds[t].key@ && (r@[t].1 is Ok <==> json_doc_of(mds[t].data@) is Some) && (r@[t].1 is Ok ==> r@[t].1.unwrap() == json_doc_of(mds[t].data@).unwrap()))
            },
    {
        let md_list = self.get_bulk_data(keys);
        let ghost mds = md_list@;
        let mut out: Vec<(String, Result<serde_json::Value, JsonError>)> = Vec::new();
        let mut i: usize = 0;
        while i < md_list.len()
            invariant
                i <= md_list@.len(),
                md_list@ == mds,
                out@.len() == i,
                forall|t: int| #![trigger out@[t]]
                    0 <= t < i ==> (out@[t].0@ == mds[t].key@ && (out@[t].1 is Ok <==> json_doc_of(mds[t].data@) is Some) && (out@[t].1 is Ok ==> out@[t].1.unwrap() == json_doc_of(mds[t].data@).unwrap())),
            decreases md_list@.len() - i,
        {
            out.push((md_list[i].key.clone(), md_list[i].as_json()));
            i = i + 1;
        }
        proof {
        }
        out
    }

    /// Invalidate every entry on every server, after `delay_in_seconds`;
    /// one status per connection, in pool order.
    pub fn flush(&mut self, delay_in_seconds: u32) -> (r: Vec<MemStatus>)
        ensures
            Self::pool_shape(old(self), final(self)),
            r@.len() == old(self).connections@.len(),
            forall|j: int| #![trigger r@[j]]
                0 <= j < r@.len() && r@[j] != MemStatus::Network_Error ==> final(self).connections@[j].stream_outbox() == old(self).connections@[j].stream_outbox()
                    + old(self).connections@[j].flush_request_wire(delay_in_seconds, false)
                    && ProtoConnection::status_only_post(
                    &old(self).connections@[j],
                    &final(self).connections@[j],
                    r@[j],
                    false,
                ),
    {
        let mut result: Vec<MemStatus> = Vec::new();
        let n = self.connections.len();
        let mut i: usize = 0;
        while i < n
            invariant
                i <= n,
                result@.len() == i,
                n == self.connections@.len(),
                Self::pool_shape(old(self), self),
                forall|j: int| i <= j < n ==> #[trigger] self.connections@[j] == old(
                    self,
                ).connections@[j],
                forall|j: int| #![trigger result@[j]]
                    0 <= j < i && result@[j] != MemStatus::Network_Error
                        ==> self.connections@[j].stream_outbox() == old(self).connections@[
                        j
                    ].stream_outbox() + old(self).connections@[j].flush_request_wire(
                        delay_in_seconds,
                        false,
                    ) && ProtoConnection::status_only_post(
                        &old(self).connections@[j],
                        &self.connections@[j],
                        result@[j],
                        false,
                    ),
            decreases n - i,
        {
            let c = &mut self.connections[i];
            let s = c.p_flush(delay_in_seconds, false);
            result.push(s);
            i = i + 1;
        }
        result
    }

    /// Set every server's logging verbosity; one status per connection,
    /// in pool order.
    pub fn verbosity(&mut self, verbosity: u32) -> (r: Vec<MemStatus>)
        ensures
            Self::pool_shape(old(self), final(self)),
            r@.len() == old(self).connections@.len(),
            forall|j: int| #![trigger r@[j]]
                0 <= j < r@.len() && r@[j] != MemStatus::Network_Error ==> final(self).connections@[j].stream_outbox() == old(self).connections@[j].stream_outbox()
                    + old(self).connections@[j].verbosity_request_wire(verbosity, false)
                    && ProtoConnection::status_only_post(
                    &old(self).connections@[j],
                    &final(self).connections@[j],
                    r@[j],
                    false,
                ),
    {
        let mut result: Vec<MemStatus> = Vec::new();
        let n = self.connections.len();
        let mut i: usize = 0;
        while i < n
            invariant
                i <= n,
                result@.len() == i,
                n == self.connections@.len(),
                Self::pool_shape(old(self), self),
                forall|j: int| i <= j < n ==> #[trigger] self.connections@[j] == old(
                    self,
                ).connections@[j],
                forall|j: int| #![trigger result@[j]]
                    0 <= j < i && result@[j] != MemStatus::Network_Error
                        ==> self.connections@[j].stream_outbox() == old(self).connections@[
                        j
                    ].stream_outbox() + old(self).connections@[j].verbosity_request_wire(
                        verbosity,
                        false,
                    ) && ProtoConnection::status_only_post(
                        &old(self).connections@[j],
                        &self.connections@[j],
                        result@[j],
                        false,
                    ),
            decreases n - i,
        {
            let c = &mut self.connections[i];
            let s = c.p_verbosity(verbosity, false);
            result.push(s);
            i = i + 1;
        }
        result
    }

    /// Every server's statistics; one report per connection, in pool
    /// order.
    pub fn stats(&mut self) -> (r: Vec<Vec<MemcachedStat>>)
        ensures
            Self::pool_shape(old(self), final(self)),
            r@.len() == old(self).connections@.len(),
            forall|j: int| #![trigger r@[j]]
                0 <= j < r@.len() && r@[j].len() > 0 ==> final(self).connections@[
                    j
                ].stream_outbox() == old(self).connections@[j].stream_outbox() + old(
                    self,
                ).connections@[j].stats_request_wire() && ProtoConnection::stats_reply_post(
                    &old(self).connections@[j],
                    &final(self).connections@[j],
                    r@[j]@,
                ),
    {
        let mut result: Vec<Vec<MemcachedStat>> = Vec::new();
        let n = self.connections.len();
        let mut i: usize = 0;
        while i < n
            invariant
                i <= n,
                result@.len() == i,
                n == self.connections@.len(),
                Self::pool_shape(old(self), self),
                forall|j: int| i <= j < n ==> #[trigger] self.connections@[j] == old(
                    self,
                ).connections@[j],
                forall|j: int| #![trigger result@[j]]
                    0 <= j < i && result@[j].len() > 0 ==> self.connections@[
                        j
                    ].stream_outbox() == old(self).connections@[j].stream_outbox() + old(
                        self,
                    ).connections@[j].stats_request_wire()
                        && ProtoConnection::stats_reply_post(
                        &old(self).connections@[j],
                        &self.connections@[j],
                        result@[j]@,
                    ),
            decreases n - i,
        {
            let c = &mut self.connections[i];
            let s = c.p_stats();
            result.push(s);
            i = i + 1;
        }
        result
    }

    /// End the session on every connection; one status per connection, in
    /// pool order.
    pub fn quit(&mut self) -> (r: Vec<MemStatus>)
        ensures
            Self::pool_shape(old(self), final(self)),
            r@.len() == old(self).connections@.len(),
            forall|j: int| #![trigger r@[j]]
                0 <= j < r@.len() && r@[j] != MemStatus::Network_Error ==> final(self).connections@[j].stream_outbox() == old(self).connections@[j].stream_outbox()
                    + old(self).connections@[j].quit_request_wire()
                    && ProtoConnection::quit_reply_post(
                    &old(self).connections@[j],
                    &final(self).connections@[j],
                    r@[j],
                ),
    {
        let mut result: Vec<MemStatus> = Vec::new();
        let n = self.connections.len();
        let mut i: usize = 0;
        while i < n
            invariant
                i <= n,
                result@.len() == i,
                n == self.connections@.len(),
                Self::pool_shape(old(self), self),
                forall|j: int| i <= j < n ==> #[trigger] self.connections@[j] == old(
                    self,
                ).connections@[j],
                forall|j: int| #![trigger result@[j]]
                    0 <= j < i && result@[j] != MemStatus::Network_Error
                        ==> self.connections@[j].stream_outbox() == old(self).connections@[
                        j
                    ].stream_outbox() + old(self).connections@[j].quit_request_wire()
                        && ProtoConnection::quit_reply_post(
                        &old(self).connections@[j],
                        &self.connections@[j],
                        result@[j],
                    ),
            decreases n - i,
        {
            let c = &mut self.connections[i];
            let s = c.p_quit();
            result.push(s);
            i = i + 1;
        }
        result
    }

    /// Distribute the keys over `partition_count` partitions: each key
    /// goes to the partition its hash routes it to, and every partition
    /// keeps its keys in the order they were encountered.
    pub fn distribute_keys(keys: &[&str], partition_count: usize) -> (r: Vec<Vec<String>>)
        requires
            partition_count > 0,
        ensures
            r@.len() == partition_count,
            forall|p: int| #![trigger r@[p]]
                0 <= p < partition_count ==> r@[p]@.map_values(|s: String| s@)
                    == keys_for_partition(keys@, partition_count as nat, p as nat).map_values(
                    |k: &str| k@,
                ),
    {
        broadcast use vstd::seq_lib::group_seq_properties;

        let n = partition_count;
        let mut parts: Vec<Vec<String>> = Vec::new();
        let mut p: usize = 0;
        while p < n
            invariant
                p <= n,
                parts@.len() == p,
                forall|q: int| #![trigger parts@[q]] 0 <= q < p ==> parts@[q]@ =~= Seq::<
                    String,
                >::empty(),
            decreases n - p,
        {
            parts.push(Vec::new());
            p = p + 1;
        }
        proof {
            assert(keys@.take(0) =~= Seq::<&str>::empty());
            reveal(Seq::filter);
            assert forall|q: int| #![trigger parts@[q]] 0 <= q < n implies parts@[q]@.map_values(
                |s: String| s@,
            ) == keys_for_partition(keys@.take(0), n as nat, q as nat).map_values(
                |k: &str| k@,
            ) by {
                assert(keys_for_partition(keys@.take(0), n as nat, q as nat)
                    == Seq::<&str>::empty());
                assert(parts@[q]@.map_values(|s: String| s@) =~= Seq::<Seq<char>>::empty());
                assert(Seq::<&str>::empty().map_values(|k: &str| k@) =~= Seq::<
                    Seq<char>,
                >::empty());
            }
        }
        let mut i: usize = 0;
        while i < keys.len()
            invariant
                i <= keys@.len(),
                parts@.len() == n,
                n > 0,
                forall|q: int| #![trigger parts@[q]]
                    0 <= q < n ==> parts@[q]@.map_values(|s: String| s@) == keys_for_partition(
                        keys@.take(i as int),
                        n as nat,
                        q as nat,
                    ).map_values(|k: &str| k@),
            decreases keys@.len() - i,
        {
            let idx = Self::md5_mod_indexer(keys[i], n);
            let owned: String = keys[i].to_owned();
            let part = &mut parts[idx];
            part.push(owned);
            proof {
                reveal(Seq::filter);
                let k = keys@[i as int];
                let prev = keys@.take(i as int);
                assert(keys@.take(i + 1) =~= prev.push(k));
                assert(prev.push(k).drop_last() =~= prev);
                assert(prev.push(k).last() == k);
                assert forall|q: int| #![trigger parts@[q]]
                    0 <= q < n implies parts@[q]@.map_values(|s: String| s@)
                    == keys_for_partition(keys@.take(i + 1), n as nat, q as nat).map_values(
                    |k2: &str| k2@,
                ) by {
                    if q == idx {
                        assert(keys_for_partition(prev.push(k), n as nat, q as nat)
                            == keys_for_partition(prev, n as nat, q as nat).push(k));
                        assert(parts@[q]@.map_values(|s: String| s@) =~= keys_for_partition(
                            prev,
                            n as nat,
                            q as nat,
                        ).map_values(|k2: &str| k2@).push(k@));
                        assert(keys_for_partition(prev, n as nat, q as nat).map_values(
                            |k2: &str| k2@,
                        ).push(k@) =~= keys_for_partition(prev.push(k), n as nat, q as nat)
                            .map_values(|k2: &str| k2@));
                    } else {
                        assert(keys_for_partition(prev.push(k), n as nat, q as nat)
                            == keys_for_partition(prev, n as nat, q as nat));
                    }
                }
            }
            i = i + 1;
        }
        proof {
            assert(keys@.take(keys@.len() as int) =~= keys@);
        }
        parts
    }

    /// Retrieve the entries at many keys at once.  A single-server pool
    /// forwards the whole list; otherwise the keys are distributed over
    /// the pool and one multi-get goes to each partition that received
    /// any.  The order of returned items is unspecified.
    pub fn get_bulk_data(&mut self, keys: &[&str]) -> (r: Vec<MemData>)
        requires
            old(self).connections@.len() > 0,
            keys@.len() >= 1,
            forall|i: int| 0 <= i < keys@.len() ==> #[trigger] keys@[i].spec_bytes().len()
                <= u16::MAX,
        ensures
            Self::pool_shape(old(self), final(self)),
            Self::bulk_reply_post(old(self), final(self), keys@, r@),
    {
        let count = self.get_connection_count();
        if count == 1 {
            let c = &mut self.connections[0];
            let items = c.p_gets(keys);
            proof {
                lemma_partition_all(keys@);
                let parts = seq![items@];
                assert(parts[0] == items@);
                assert(parts.skip(1) =~= Seq::<Seq<MemData>>::empty());
                assert(seqs_concat(Seq::<Seq<MemData>>::empty()) == Seq::<MemData>::empty());
                assert(seqs_concat(parts) =~= items@);
                assert(keys_for_partition(keys@, 1, 0).map_values(|k: &str| k.spec_bytes())
                    == keys@.map_values(|k: &str| k.spec_bytes()));
                assert forall|p: int| #![trigger parts[p]]
                    0 <= p < parts.len() implies (parts[p].len() > 0 ==> {
                    let pkeys = keys_for_partition(keys@, 1, p as nat).map_values(
                        |k: &str| k.spec_bytes(),
                    );
                    &&& self.connections@[p].stream_outbox() == old(self).connections@[
                        p
                    ].stream_outbox() + old(self).connections@[p].gets_request_wire(pkeys)
                    &&& ProtoConnection::gets_reply_post(
                        &old(self).connections@[p],
                        &self.connections@[p],
                        parts[p],
                    )
                }) by {
                }
                assert(Self::bulk_reply_post(old(self), self, keys@, items@));
            }
            return items;
        }
        let key_arrays = Self::distribute_keys(keys, count);
        let mut result: Vec<MemData> = Vec::new();
        let ghost mut parts: Seq<Seq<MemData>> = Seq::empty();
        let mut i: usize = 0;
        proof {
            assert(seqs_concat(parts) =~= result@);
        }
        while i < count
            invariant
                i <= count,
                count == self.connections@.len(),
                count == old(self).connections@.len(),
                key_arrays@.len() == count,
                Self::pool_shape(old(self), self),
                parts.len() == i,
                result@ == seqs_concat(parts),
                forall|j: int| i <= j < count ==> #[trigger] self.connections@[j] == old(
                    self,
                ).connections@[j],
                forall|p: int| #![trigger parts[p]]
                    0 <= p < i ==> (parts[p].len() > 0 ==> {
                        let pkeys = keys_for_partition(keys@, count as nat, p as nat).map_values(
                            |k: &str| k.spec_bytes(),
                        );
                        &&& self.connections@[p].stream_outbox() == old(self).connections@[
                            p
                        ].stream_outbox() + old(self).connections@[p].gets_request_wire(pkeys)
                        &&& ProtoConnection::gets_reply_post(
                            &old(self).connections@[p],
                            &self.connections@[p],
                            parts[p],
                        )
                    }),
                forall|p: int| #![trigger key_arrays@[p]]
                    0 <= p < count ==> key_arrays@[p]@.map_values(|s: String| s@)
                        == keys_for_partition(keys@, count as nat, p as nat).map_values(
                        |k: &str| k@,
                    ),
                forall|k: int| 0 <= k < keys@.len() ==> #[trigger] keys@[k].spec_bytes().len()
                    <= u16::MAX,
            decreases count - i,
        {
            let part = &key_arrays[i];
            if part.len() > 0 {
                let mut refs: Vec<&str> = Vec::new();
                let mut j: usize = 0;
                while j < part.len()
                    invariant
                        j <= part@.len(),
                        refs@.len() == j,
                        forall|t: int| 0 <= t < j ==> #[trigger] refs@[t]@ == part@[t]@,
                    decreases part@.len() - j,
                {
                    refs.push(part[j].as_str());
                    j = j + 1;
                }
                proof {
                    let fp = keys_for_partition(keys@, count as nat, i as nat);
                    assert(part@.map_values(|s: String| s@).len() == part@.len());
                    assert(fp.map_values(|k: &str| k@).len() == fp.len());
                    assert forall|t: int| 0 <= t < refs@.len() implies #[trigger] refs@[t]
                        .spec_bytes().len() <= u16::MAX by {
                        assert(part@.map_values(|s: String| s@)[t] == part@[t]@);
                        assert(fp.map_values(|k: &str| k@)[t] == fp[t]@);
                        assert(refs@[t]@ == fp[t]@);
                        lemma_partition_key_from(keys@, count as nat, i as nat, t);
                        let orig = fp[t];
                        let w = choose|w: int| 0 <= w < keys@.len() && keys@[w] == orig;
                        assert(keys@[w].spec_bytes().len() <= u16::MAX);
                        assert(refs@[t].spec_bytes() == orig.spec_bytes());
                    }
                    let rmapped = refs@.map_values(|k: &str| k.spec_bytes());
                    let fmapped = fp.map_values(|k: &str| k.spec_bytes());
                    assert(rmapped.len() == refs@.len());
                    assert(fmapped.len() == fp.len());
                    assert forall|t: int| 0 <= t < refs@.len() implies #[trigger] rmapped[t]
                        == fmapped[t] by {
                        assert(part@.map_values(|s: String| s@)[t] == part@[t]@);
                        assert(fp.map_values(|k: &str| k@)[t] == fp[t]@);
                        assert(refs@[t]@ == fp[t]@);
                        assert(rmapped[t] == refs@[t].spec_bytes());
                        assert(fmapped[t] == fp[t].spec_bytes());
                    }
                    assert(rmapped =~= fmapped);
                }
                let c = &mut self.connections[i];
                let mut conn_result = c.p_gets(refs.as_slice());
                let ghost conn_items = conn_result@;
                result.append(&mut conn_result);
                proof {
                    lemma_seqs_concat_push(parts, conn_items);
                    parts = parts.push(conn_items);
                }
            } else {
                proof {
                    lemma_seqs_concat_push(parts, Seq::<MemData>::empty());
                    parts = parts.push(Seq::<MemData>::empty());
                    assert(result@ =~= seqs_concat(parts));
                }
            }
            i = i + 1;
        }
        proof {
            assert(Self::bulk_reply_post(old(self), self, keys@, result@));
        }
        result
    }

    /// Every server's version string (or the error text where the call
    /// failed); one entry per connection, in pool order.
    pub fn versions(&mut self) -> (r: Vec<String>)
        ensures
            Self::pool_shape(old(self), final(self)),
            r@.len() == old(self).connections@.len(),
            forall|j: int| #![trigger r@[j]]
                0 <= j < r@.len() && r@[j]@.len() > 0 ==> final(self).connections@[
                    j
                ].stream_outbox() == old(self).connections@[j].stream_outbox() + old(
                    self,
                ).connections@[j].version_request_wire() && ProtoConnection::version_reply_post(
                    &old(self).connections@[j],
                    &final(self).connections@[j],
                    r@[j]@,
                ),
    {
        let mut result: Vec<String> = Vec::new();
        let n = self.connections.len();
        let mut i: usize = 0;
        while i < n
            invariant
                i <= n,
                result@.len() == i,
                n == self.connections@.len(),
                Self::pool_shape(old(self), self),
                forall|j: int| i <= j < n ==> #[trigger] self.connections@[j] == old(
                    self,
                ).connections@[j],
                forall|j: int| #![trigger result@[j]]
                    0 <= j < i && result@[j]@.len() > 0 ==> self.connections@[
                        j
                    ].stream_outbox() == old(self).connections@[j].stream_outbox() + old(
                        self,
                    ).connections@[j].version_request_wire()
                        && ProtoConnection::version_reply_post(
                        &old(self).connections@[j],
                        &self.connections@[j],
                        result@[j]@,
                    ),
            decreases n - i,
        {
            let c = &mut self.connections[i];
            let v = match c.p_version() {
                Ok(v) => v,
                Err(_) => String::new(),
            };
            result.push(v);
            i = i + 1;
        }
        result
    }
}

} // verus!
