//! The line-oriented text protocol: request formatting, response line
//! parsing, and the connection that speaks them over a byte stream.

use vstd::prelude::*;
use vstd::string::StringSliceAdditionalSpecFns;

use crate::netutil::HostAddr;
use crate::stream::{ByteStream, CR, LF};
use crate::strutil;
use crate::strutil::dec_bytes;
use crate::{ascii_status_spec, MemData, MemResult, MemStatus, MemcachedStat};

verus! {

/// Space, the token separator of the text protocol.
pub const SP: u8 = 32;

/// The ` noreply` suffix of a command line, where asked for.
pub open spec fn noreply_suffix(noreply: bool) -> Seq<u8> {
    if noreply {
        seq![SP] + "noreply".spec_bytes()
    } else {
        Seq::<u8>::empty()
    }
}

/// A store command line:
/// `<cmd> <key> <flags> <exptime> <bytes>[ noreply]\r\n`.
pub open spec fn store_cmd_line(
    cmd: Seq<u8>,
    key: Seq<u8>,
    flags: u32,
    exptime: u32,
    nbytes: nat,
    noreply: bool,
) -> Seq<u8> {
    cmd + seq![SP] + key + seq![SP] + dec_bytes(flags as nat) + seq![SP] + dec_bytes(
        exptime as nat,
    ) + seq![SP] + dec_bytes(nbytes) + noreply_suffix(noreply) + seq![CR, LF]
}

/// The check-and-set command line:
/// `cas <key> <flags> <exptime> <bytes> <cas>[ noreply]\r\n`.
pub open spec fn cas_cmd_line(
    key: Seq<u8>,
    flags: u32,
    exptime: u32,
    nbytes: nat,
    cas: u64,
    noreply: bool,
) -> Seq<u8> {
    "cas".spec_bytes() + seq![SP] + key + seq![SP] + dec_bytes(flags as nat) + seq![SP]
        + dec_bytes(exptime as nat) + seq![SP] + dec_bytes(nbytes) + seq![SP] + dec_bytes(
        cas as nat,
    ) + noreply_suffix(noreply) + seq![CR, LF]
}

/// A command line of a key and a number: `<cmd> <key> <n>[ noreply]\r\n`
/// (touch, incr, decr).
pub open spec fn key_num_cmd_line(cmd: Seq<u8>, key: Seq<u8>, n: nat, noreply: bool) -> Seq<u8> {
    cmd + seq![SP] + key + seq![SP] + dec_bytes(n) + noreply_suffix(noreply) + seq![CR, LF]
}

/// A command line of just a key: `<cmd> <key>[ noreply]\r\n` (delete).
pub open spec fn key_cmd_line(cmd: Seq<u8>, key: Seq<u8>, noreply: bool) -> Seq<u8> {
    cmd + seq![SP] + key + noreply_suffix(noreply) + seq![CR, LF]
}

/// A command line of just a number: `<cmd> <n>[ noreply]\r\n`
/// (verbosity, flush_all).
pub open spec fn num_cmd_line(cmd: Seq<u8>, n: nat, noreply: bool) -> Seq<u8> {
    cmd + seq![SP] + dec_bytes(n) + noreply_suffix(noreply) + seq![CR, LF]
}

/// The keys of a retrieval line, separated by single spaces.
pub open spec fn join_keys(keys: Seq<Seq<u8>>) -> Seq<u8>
    decreases keys.len(),
{
    if keys.len() == 0 {
        Seq::<u8>::empty()
    } else if keys.len() == 1 {
        keys[0]
    } else {
        keys[0] + seq![SP] + join_keys(keys.skip(1))
    }
}

/// A retrieval command line: `<cmd> <k1> <k2> ...\r\n`.
pub open spec fn get_cmd_line(cmd: Seq<u8>, keys: Seq<Seq<u8>>) -> Seq<u8> {
    cmd + seq![SP] + join_keys(keys) + seq![CR, LF]
}

/// A bare command line: `<cmd>\r\n` (version, stats, quit).
pub open spec fn plain_cmd_line(cmd: Seq<u8>) -> Seq<u8> {
    cmd + seq![CR, LF]
}

/// Index of the first CR in `s` (its length where there is none).
pub open spec fn first_cr(s: Seq<u8>) -> nat
    decreases s.len(),
{
    if s.len() == 0 {
        0
    } else if s[0] == CR {
        0
    } else {
        1 + first_cr(s.skip(1))
    }
}

/// Whether `inbox` begins with a whole CRLF-terminated line.
pub open spec fn line_wf(inbox: Seq<u8>) -> bool {
    first_cr(inbox) + 1 < inbox.len() && inbox[first_cr(inbox) as int + 1] == LF
}

/// The first line of `inbox`, without its CRLF.
pub open spec fn line_bytes_of(inbox: Seq<u8>) -> Seq<u8> {
    inbox.take(first_cr(inbox) as int)
}

/// What remains of `inbox` after its first line and CRLF.
pub open spec fn line_rest(inbox: Seq<u8>) -> Seq<u8> {
    inbox.skip(first_cr(inbox) as int + 2)
}

proof fn lemma_first_cr_is(s: Seq<u8>, i: int)
    requires
        0 <= i <= s.len(),
        forall|j: int| 0 <= j < i ==> #[trigger] s[j] != CR,
        i == s.len() || s[i] == CR,
    ensures
        first_cr(s) == i,
    decreases i,
{
    if i == 0 {
    } else {
        assert(forall|j: int| 0 <= j < i - 1 ==> #[trigger] s.skip(1)[j] == s[j + 1]);
        lemma_first_cr_is(s.skip(1), i - 1);
    }
}

/// The items of a text retrieval response at the front of `inbox`, with
/// how many bytes they occupy: each leading `VALUE <key> <flags>
/// <bytes>[ <cas>]` line contributes (key, flags, cas, payload), the
/// payload being the announced number of bytes after the line followed
/// by a consumed CRLF; the first line of any other shape ends the
/// stream and is consumed.  `None` where the stream is cut short or a
/// numeric field is malformed.
pub open spec fn ascii_get_items(inbox: Seq<u8>) -> Option<
    (Seq<(Seq<char>, u32, u64, Seq<u8>)>, int),
>
    decreases inbox.len(),
{
    if !line_wf(inbox) || !vstd::utf8::valid_utf8(line_bytes_of(inbox)) {
        None
    } else {
        let toks = strutil::clean_split_spec(
            vstd::utf8::decode_utf8(line_bytes_of(inbox)),
            ' ',
        );
        let lconsumed = first_cr(inbox) as int + 2;
        if !(toks[0] == "VALUE"@ && toks.len() >= 4) {
            Some((Seq::<(Seq<char>, u32, u64, Seq<u8>)>::empty(), lconsumed))
        } else if !(strutil::all_digits(toks[3]) && strutil::dec_val(toks[3]) <= u64::MAX
            && strutil::dec_val(toks[3]) <= usize::MAX && strutil::all_digits(toks[2])
            && strutil::dec_val(toks[2]) <= u32::MAX && (toks.len() < 5 || (strutil::all_digits(
            toks[4],
        ) && strutil::dec_val(toks[4]) <= u64::MAX))) {
            None
        } else {
            let nb = strutil::dec_val(toks[3]) as int;
            let rest = line_rest(inbox);
            if rest.len() < nb + 2 {
                None
            } else {
                let data = rest.take(nb);
                let cas = if toks.len() >= 5 {
                    strutil::dec_val(toks[4]) as u64
                } else {
                    0u64
                };
                let flags = strutil::dec_val(toks[2]) as u32;
                match ascii_get_items(rest.skip(nb + 2)) {
                    None => None,
                    Some(r2) => Some(
                        (seq![(toks[1], flags, cas, data)] + r2.0, lconsumed + nb + 2 + r2.1),
                    ),
                }
            }
        }
    }
}

/// Whether one returned item is one parsed `VALUE` block, field for
/// field.
pub open spec fn ascii_hit_matches(md: MemData, t: (Seq<char>, u32, u64, Seq<u8>)) -> bool {
    &&& md.key@ == t.0
    &&& md.flags == t.1
    &&& md.cas == t.2
    &&& md.data@ == t.3
}

/// Whether the returned items are exactly the parsed `VALUE` blocks, in
/// order.
pub open spec fn ascii_hits_match(
    r: Seq<MemData>,
    items: Seq<(Seq<char>, u32, u64, Seq<u8>)>,
) -> bool {
    &&& r.len() == items.len()
    &&& forall|i: int| 0 <= i < r.len() ==> ascii_hit_matches(#[trigger] r[i], items[i])
}

/// The entries of a text statistics response at the front of `inbox`,
/// with how many bytes they occupy: each leading `STAT <name> <value>`
/// line contributes its name and value tokens; the first line of any
/// other shape ends the stream and is consumed.  `None` where the
/// stream is cut short.
pub open spec fn ascii_stat_items(inbox: Seq<u8>) -> Option<(Seq<(Seq<char>, Seq<char>)>, int)>
    decreases inbox.len(),
{
    if !line_wf(inbox) || !vstd::utf8::valid_utf8(line_bytes_of(inbox)) {
        None
    } else {
        let toks = strutil::clean_split_spec(
            vstd::utf8::decode_utf8(line_bytes_of(inbox)),
            ' ',
        );
        let lc = first_cr(inbox) as int + 2;
        if !(toks[0] == "STAT"@ && toks.len() >= 3) {
            Some((Seq::<(Seq<char>, Seq<char>)>::empty(), lc))
        } else {
            match ascii_stat_items(line_rest(inbox)) {
                None => None,
                Some(r2) => Some((seq![(toks[1], toks[2])] + r2.0, lc + r2.1)),
            }
        }
    }
}

/// Whether one returned statistics entry is one parsed `STAT` line's
/// name and value.
pub open spec fn ascii_stat_matches(st: MemcachedStat, t: (Seq<char>, Seq<char>)) -> bool {
    &&& st.name@ == t.0
    &&& st.value@ == t.1
}

/// Whether the returned entries are exactly the parsed `STAT` lines, in
/// order.
pub open spec fn ascii_stats_match(
    r: Seq<MemcachedStat>,
    items: Seq<(Seq<char>, Seq<char>)>,
) -> bool {
    &&& r.len() == items.len()
    &&& forall|i: int| 0 <= i < r.len() ==> ascii_stat_matches(#[trigger] r[i], items[i])
}

/// What holds of a command's status reply: with `noreply` nothing was
/// read and the status is `Success`; otherwise the first line of the old
/// inbox decided the status and was consumed.
pub open spec fn ascii_status_post(
    old_inbox: Seq<u8>,
    new_inbox: Seq<u8>,
    s: MemStatus,
    noreply: bool,
) -> bool {
    &&& (noreply ==> s == MemStatus::Success && new_inbox == old_inbox)
    &&& (!noreply ==> {
        &&& line_wf(old_inbox)
        &&& vstd::utf8::valid_utf8(line_bytes_of(old_inbox))
        &&& s == crate::ascii_line_status_spec(
            Ok(vstd::utf8::decode_utf8(line_bytes_of(old_inbox))),
        )
        &&& new_inbox == line_rest(old_inbox)
    })
}

/// One connection speaking the text protocol over a byte stream.
pub struct AsciiConnection<S: ByteStream> {
    /// The server this connection talks to.
    pub server_addr: HostAddr,
    /// The byte stream to that server.
    pub stream: S,
}

impl<S: ByteStream> AsciiConnection<S> {
    /// A text-protocol connection over an open stream to `server_addr`.
    pub fn new_connection(server_addr: HostAddr, stream: S) -> (c: Self)
        ensures
            c.server_addr == server_addr,
            c.stream == stream,
    {
        AsciiConnection { server_addr, stream }
    }

    /// The address of the server this connection talks to, as `host:port`.
    pub fn ascii_get_server_addr(&self) -> (r: String)
        ensures
            r@ == (match self.server_addr.port {
                Some(p) => self.server_addr.host@ + seq![':'] + strutil::dec_chars(p as nat),
                None => self.server_addr.host@,
            }),
    {
        self.server_addr.to_str()
    }

    /// Format a store command line for `cmd` over `data`.
    pub fn ascii_format_store_cmd(
        &self,
        cmd: &str,
        key: &str,
        data: &[u8],
        flags: u32,
        exptime: u32,
        noreply: bool,
    ) -> (r: Vec<u8>)
        ensures
            r@ == store_cmd_line(
                cmd.spec_bytes(),
                key.spec_bytes(),
                flags,
                exptime,
                data@.len(),
                noreply,
            ),
    {
        let mut out: Vec<u8> = Vec::new();
        out.extend_from_slice(cmd.as_bytes());
        out.push(SP);
        out.extend_from_slice(key.as_bytes());
        out.push(SP);
        strutil::push_dec_u64(&mut out, flags as u64);
        out.push(SP);
        strutil::push_dec_u64(&mut out, exptime as u64);
        out.push(SP);
        strutil::push_dec_u64(&mut out, data.len() as u64);
        if noreply {
            out.push(SP);
            out.extend_from_slice("noreply".as_bytes());
        }
        out.push(CR);
        out.push(LF);
        proof {
            assert(out@ =~= store_cmd_line(
                cmd.spec_bytes(),
                key.spec_bytes(),
                flags,
                exptime,
                data@.len(),
                noreply,
            ));
        }
        out
    }

    /// Format the check-and-set command line over `data`.
    pub fn ascii_format_cas_cmd(
        &self,
        key: &str,
        data: &[u8],
        cas: u64,
        flags: u32,
        exptime: u32,
        noreply: bool,
    ) -> (r: Vec<u8>)
        ensures
            r@ == cas_cmd_line(key.spec_bytes(), flags, exptime, data@.len(), cas, noreply),
    {
        let mut out: Vec<u8> = Vec::new();
        out.extend_from_slice("cas".as_bytes());
        out.push(SP);
        out.extend_from_slice(key.as_bytes());
        out.push(SP);
        strutil::push_dec_u64(&mut out, flags as u64);
        out.push(SP);
        strutil::push_dec_u64(&mut out, exptime as u64);
        out.push(SP);
        strutil::push_dec_u64(&mut out, data.len() as u64);
        out.push(SP);
        strutil::push_dec_u64(&mut out, cas);
        if noreply {
            out.push(SP);
            out.extend_from_slice("noreply".as_bytes());
        }
        out.push(CR);
        out.push(LF);
        proof {
            assert(out@ =~= cas_cmd_line(
                key.spec_bytes(),
                flags,
                exptime,
                data@.len(),
                cas,
                noreply,
            ));
        }
        out
    }

    /// Format a command line of a key and a number (touch, incr, decr).
    fn format_key_num_cmd(&self, cmd: &str, key: &str, n: u64, noreply: bool) -> (r: Vec<u8>)
        ensures
            r@ == key_num_cmd_line(cmd.spec_bytes(), key.spec_bytes(), n as nat, noreply),
    {
        let mut out: Vec<u8> = Vec::new();
        out.extend_from_slice(cmd.as_bytes());
        out.push(SP);
        out.extend_from_slice(key.as_bytes());
        out.push(SP);
        strutil::push_dec_u64(&mut out, n);
        if noreply {
            out.push(SP);
            out.extend_from_slice("noreply".as_bytes());
        }
        out.push(CR);
        out.push(LF);
        proof {
            assert(out@ =~= key_num_cmd_line(cmd.spec_bytes(), key.spec_bytes(), n as nat, noreply));
        }
        out
    }

    /// Write every byte of `data` to the stream.
    pub fn ascii_write_data(&mut self, data: &[u8]) -> (ok: bool)
        ensures
            final(self).server_addr == old(self).server_addr,
            ok ==> final(self).stream.outbox() == old(self).stream.outbox() + data@
                && final(self).stream.inbox() == old(self).stream.inbox(),
    {
        self.stream.bs_write_all(data)
    }

    /// Read one CRLF-terminated line and decode it as UTF-8.  A transport
    /// failure, a CR not followed by LF, or undecodable bytes give `Err`.
    pub fn ascii_read_line(&mut self) -> (r: Result<String, String>)
        ensures
            final(self).server_addr == old(self).server_addr,
            final(self).stream.outbox() == old(self).stream.outbox(),
            r is Ok ==> {
                let old_inbox = old(self).stream.inbox();
                &&& line_wf(old_inbox)
                &&& vstd::utf8::valid_utf8(line_bytes_of(old_inbox))
                &&& r.unwrap()@ == vstd::utf8::decode_utf8(line_bytes_of(old_inbox))
                &&& final(self).stream.inbox() == line_rest(old_inbox)
            },
    {
        match self.stream.bs_read_line() {
            None => Err(String::new()),
            Some(line) => {
                proof {
                    let old_inbox = old(self).stream.inbox();
                    lemma_first_cr_is(old_inbox, line@.len() as int);
                }
                match strutil::bytes_to_string(line) {
                    Some(s) => Ok(s),
                    None => Err(String::new()),
                }
            },
        }
    }

    /// Send a store request: the command line, the payload, CRLF.  With
    /// `noreply` no response is read and the result is `Success`.
    pub fn ascii_send_store_request(&mut self, request: &Vec<u8>, data: &[u8], noreply: bool) -> (s:
        MemStatus)
        ensures
            final(self).server_addr == old(self).server_addr,
            s != MemStatus::Network_Error ==> final(self).stream.outbox() == old(
                self,
            ).stream.outbox() + request@ + data@ + seq![CR, LF] && ascii_status_post(
                old(self).stream.inbox(),
                final(self).stream.inbox(),
                s,
                noreply,
            ),
    {
        if !self.ascii_write_data(request.as_slice()) {
            return MemStatus::Network_Error;
        }
        if !self.ascii_write_data(data) {
            return MemStatus::Network_Error;
        }
        let crlf: Vec<u8> = vec![CR, LF];
        if !self.ascii_write_data(crlf.as_slice()) {
            return MemStatus::Network_Error;
        }
        proof {
            assert(crlf@ =~= seq![CR, LF]);
        }
        if noreply {
            return MemStatus::Success;
        }
        let line = self.ascii_read_line();
        if line.is_err() {
            return MemStatus::Network_Error;
        }
        MemStatus::ascii_to_status(line)
    }

    /// Send a one-line request.  With `noreply` no response is read and
    /// the result is `Success`.
    pub fn ascii_send_simple_request(&mut self, request: &Vec<u8>, noreply: bool) -> (s: MemStatus)
        ensures
            final(self).server_addr == old(self).server_addr,
            s != MemStatus::Network_Error ==> final(self).stream.outbox() == old(
                self,
            ).stream.outbox() + request@ && ascii_status_post(
                old(self).stream.inbox(),
                final(self).stream.inbox(),
                s,
                noreply,
            ),
    {
        if !self.ascii_write_data(request.as_slice()) {
            return MemStatus::Network_Error;
        }
        if noreply {
            return MemStatus::Success;
        }
        let line = self.ascii_read_line();
        if line.is_err() {
            return MemStatus::Network_Error;
        }
        MemStatus::ascii_to_status(line)
    }

    /// Format a command line of just a key (delete).
    fn format_key_cmd(&self, cmd: &str, key: &str, noreply: bool) -> (r: Vec<u8>)
        ensures
            r@ == key_cmd_line(cmd.spec_bytes(), key.spec_bytes(), noreply),
    {
        let mut out: Vec<u8> = Vec::new();
        out.extend_from_slice(cmd.as_bytes());
        out.push(SP);
        out.extend_from_slice(key.as_bytes());
        if noreply {
            out.push(SP);
            out.extend_from_slice("noreply".as_bytes());
        }
        out.push(CR);
        out.push(LF);
        proof {
            assert(out@ =~= key_cmd_line(cmd.spec_bytes(), key.spec_bytes(), noreply));
        }
        out
    }

    /// Format a command line of just a number (verbosity, flush_all).
    fn format_num_cmd(&self, cmd: &str, n: u64, noreply: bool) -> (r: Vec<u8>)
        ensures
            r@ == num_cmd_line(cmd.spec_bytes(), n as nat, noreply),
    {
        let mut out: Vec<u8> = Vec::new();
        out.extend_from_slice(cmd.as_bytes());
        out.push(SP);
        strutil::push_dec_u64(&mut out, n);
        if noreply {
            out.push(SP);
            out.extend_from_slice("noreply".as_bytes());
        }
        out.push(CR);
        out.push(LF);
        proof {
            assert(out@ =~= num_cmd_line(cmd.spec_bytes(), n as nat, noreply));
        }
        out
    }

    /// Format a bare command line (version, stats, quit).
    fn format_plain_cmd(&self, cmd: &str) -> (r: Vec<u8>)
        ensures
            r@ == plain_cmd_line(cmd.spec_bytes()),
    {
        let mut out: Vec<u8> = Vec::new();
        out.extend_from_slice(cmd.as_bytes());
        out.push(CR);
        out.push(LF);
        proof {
            assert(out@ =~= plain_cmd_line(cmd.spec_bytes()));
        }
        out
    }

    /// Format a retrieval command line over the keys.
    fn format_get_cmd(&self, cmd: &str, keys: &[&str]) -> (r: Vec<u8>)
        requires
            keys@.len() >= 1,
        ensures
            r@ == get_cmd_line(cmd.spec_bytes(), keys@.map_values(|k: &str| k.spec_bytes())),
    {
        let ghost kmap = keys@.map_values(|k: &str| k.spec_bytes());
        let mut out: Vec<u8> = Vec::new();
        out.extend_from_slice(cmd.as_bytes());
        out.push(SP);
        let n = keys.len();
        let mut i: usize = 0;
        out.extend_from_slice(keys[0].as_bytes());
        proof {
            assert(kmap.take(1) =~= seq![kmap[0]]);
            assert(join_keys(kmap.take(1)) == kmap[0]);
            assert(out@ =~= cmd.spec_bytes() + seq![SP] + join_keys(kmap.take(1)));
        }
        i = 1;
        while i < n
            invariant
                1 <= i <= n == kmap.len(),
                kmap == keys@.map_values(|k: &str| k.spec_bytes()),
                out@ == cmd.spec_bytes() + seq![SP] + join_keys(kmap.take(i as int)),
            decreases n - i,
        {
            out.push(SP);
            out.extend_from_slice(keys[i].as_bytes());
            proof {
                assert(kmap.take(i + 1) =~= kmap.take(i as int).push(kmap[i as int]));
                lemma_join_push(kmap.take(i as int), kmap[i as int]);
                assert(out@ =~= cmd.spec_bytes() + seq![SP] + join_keys(kmap.take(i + 1)));
            }
            i = i + 1;
        }
        out.push(CR);
        out.push(LF);
        proof {
            assert(kmap.take(n as int) =~= kmap);
            assert(out@ =~= get_cmd_line(cmd.spec_bytes(), kmap));
        }
        out
    }

    /// Store the data under the key.  A non-zero CAS turns this into the
    /// check-and-set command; the returned value is always 0, as text
    /// storage replies carry no CAS.
    pub fn p_set(&mut self, key: &str, data: &[u8], cas: u64, flags: u32, exptime: u32, noreply:
        bool) -> (r: MemResult<u64>)
        ensures
            r.value == 0,
            final(self).server_addr == old(self).server_addr,
            r.status != MemStatus::Network_Error ==> final(self).stream.outbox() == old(
                self,
            ).stream.outbox() + (if cas == 0 {
                store_cmd_line(
                    "set".spec_bytes(),
                    key.spec_bytes(),
                    flags,
                    exptime,
                    data@.len(),
                    noreply,
                )
            } else {
                cas_cmd_line(key.spec_bytes(), flags, exptime, data@.len(), cas, noreply)
            }) + data@ + seq![CR, LF] && ascii_status_post(
                old(self).stream.inbox(),
                final(self).stream.inbox(),
                r.status,
                noreply,
            ),
    {
        if cas == 0 {
            let req = self.ascii_format_store_cmd("set", key, data, flags, exptime, noreply);
            MemResult { status: self.ascii_send_store_request(&req, data, noreply), value: 0 }
        } else {
            self.p_cas(key, data, cas, flags, exptime, noreply)
        }
    }

    /// Check-and-set: store only if nobody updated the entry since it was
    /// fetched with the given CAS.  The returned value is always 0.
    pub fn p_cas(&mut self, key: &str, data: &[u8], cas: u64, flags: u32, exptime: u32, noreply:
        bool) -> (r: MemResult<u64>)
        ensures
            r.value == 0,
            final(self).server_addr == old(self).server_addr,
            r.status != MemStatus::Network_Error ==> final(self).stream.outbox() == old(
                self,
            ).stream.outbox() + cas_cmd_line(
                key.spec_bytes(),
                flags,
                exptime,
                data@.len(),
                cas,
                noreply,
            ) + data@ + seq![CR, LF] && ascii_status_post(
                old(self).stream.inbox(),
                final(self).stream.inbox(),
                r.status,
                noreply,
            ),
    {
        let req = self.ascii_format_cas_cmd(key, data, cas, flags, exptime, noreply);
        MemResult { status: self.ascii_send_store_request(&req, data, noreply), value: 0 }
    }

    /// Store only where the server holds nothing for the key; the CAS
    /// parameter is ignored on the text path.  The returned value is
    /// always 0.
    pub fn p_add(&mut self, key: &str, data: &[u8], cas: u64, flags: u32, exptime: u32, noreply:
        bool) -> (r: MemResult<u64>)
        ensures
            r.value == 0,
            final(self).server_addr == old(self).server_addr,
            r.status != MemStatus::Network_Error ==> final(self).stream.outbox() == old(
                self,
            ).stream.outbox() + store_cmd_line(
                "add".spec_bytes(),
                key.spec_bytes(),
                flags,
                exptime,
                data@.len(),
                noreply,
            ) + data@ + seq![CR, LF] && ascii_status_post(
                old(self).stream.inbox(),
                final(self).stream.inbox(),
                r.status,
                noreply,
            ),
    {
        let _ = cas;
        let req = self.ascii_format_store_cmd("add", key, data, flags, exptime, noreply);
        MemResult { status: self.ascii_send_store_request(&req, data, noreply), value: 0 }
    }

    /// Store only where the server already holds data for the key; the
    /// CAS parameter is ignored on the text path.  The returned value is
    /// always 0.
    pub fn p_replace(&mut self, key: &str, data: &[u8], cas: u64, flags: u32, exptime: u32,
        noreply: bool) -> (r: MemResult<u64>)
        ensures
            r.value == 0,
            final(self).server_addr == old(self).server_addr,
            r.status != MemStatus::Network_Error ==> final(self).stream.outbox() == old(
                self,
            ).stream.outbox() + store_cmd_line(
                "replace".spec_bytes(),
                key.spec_bytes(),
                flags,
                exptime,
                data@.len(),
                noreply,
            ) + data@ + seq![CR, LF] && ascii_status_post(
                old(self).stream.inbox(),
                final(self).stream.inbox(),
                r.status,
                noreply,
            ),
    {
        let _ = cas;
        let req = self.ascii_format_store_cmd("replace", key, data, flags, exptime, noreply);
        MemResult { status: self.ascii_send_store_request(&req, data, noreply), value: 0 }
    }

    /// Append the data after the key's existing data; the server ignores
    /// flags and exptime here.  The returned value is always 0.
    pub fn p_append(&mut self, key: &str, data: &[u8], noreply: bool) -> (r: MemResult<u64>)
        ensures
            r.value == 0,
            final(self).server_addr == old(self).server_addr,
            r.status != MemStatus::Network_Error ==> final(self).stream.outbox() == old(
                self,
            ).stream.outbox() + store_cmd_line(
                "append".spec_bytes(),
                key.spec_bytes(),
                0,
                0,
                data@.len(),
                noreply,
            ) + data@ + seq![CR, LF] && ascii_status_post(
                old(self).stream.inbox(),
                final(self).stream.inbox(),
                r.status,
                noreply,
            ),
    {
        let req = self.ascii_format_store_cmd("append", key, data, 0, 0, noreply);
        MemResult { status: self.ascii_send_store_request(&req, data, noreply), value: 0 }
    }

    /// Prepend the data before the key's existing data; the server
    /// ignores flags and exptime here.  The returned value is always 0.
    pub fn p_prepend(&mut self, key: &str, data: &[u8], noreply: bool) -> (r: MemResult<u64>)
        ensures
            r.value == 0,
            final(self).server_addr == old(self).server_addr,
            r.status != MemStatus::Network_Error ==> final(self).stream.outbox() == old(
                self,
            ).stream.outbox() + store_cmd_line(
                "prepend".spec_bytes(),
                key.spec_bytes(),
                0,
                0,
                data@.len(),
                noreply,
            ) + data@ + seq![CR, LF] && ascii_status_post(
                old(self).stream.inbox(),
                final(self).stream.inbox(),
                r.status,
                noreply,
            ),
    {
        let req = self.ascii_format_store_cmd("prepend", key, data, 0, 0, noreply);
        MemResult { status: self.ascii_send_store_request(&req, data, noreply), value: 0 }
    }

    /// Update a cached entry's expiration time without fetching it.
    pub fn p_touch(&mut self, key: &str, exptime: u32, noreply: bool) -> (s: MemStatus)
        ensures
            final(self).server_addr == old(self).server_addr,
            s != MemStatus::Network_Error ==> final(self).stream.outbox() == old(
                self,
            ).stream.outbox() + key_num_cmd_line(
                "touch".spec_bytes(),
                key.spec_bytes(),
                exptime as nat,
                noreply,
            ) && ascii_status_post(
                old(self).stream.inbox(),
                final(self).stream.inbox(),
                s,
                noreply,
            ),
    {
        let req = self.format_key_num_cmd("touch", key, exptime as u64, noreply);
        self.ascii_send_simple_request(&req, noreply)
    }

    /// Increment the counter at the key.  The text path neither returns
    /// the new value (the result's value is always 0) nor emulates an
    /// initial value: `init_value` and `exptime` are ignored here.
    pub fn p_incr(&mut self, key: &str, inc_amount: u64, init_value: u64, exptime: u32, noreply:
        bool) -> (r: MemResult<u64>)
        ensures
            r.value == 0,
            final(self).server_addr == old(self).server_addr,
            r.status != MemStatus::Network_Error ==> final(self).stream.outbox() == old(
                self,
            ).stream.outbox() + key_num_cmd_line(
                "incr".spec_bytes(),
                key.spec_bytes(),
                inc_amount as nat,
                noreply,
            ) && ascii_status_post(
                old(self).stream.inbox(),
                final(self).stream.inbox(),
                r.status,
                noreply,
            ),
    {
        let _ = init_value;
        let _ = exptime;
        let req = self.format_key_num_cmd("incr", key, inc_amount, noreply);
        MemResult { status: self.ascii_send_simple_request(&req, noreply), value: 0 }
    }

    /// Decrement the counter at the key.  The text path neither returns
    /// the new value (the result's value is always 0) nor emulates an
    /// initial value: `init_value` and `exptime` are ignored here.
    pub fn p_decr(&mut self, key: &str, dec_amount: u64, init_value: u64, exptime: u32, noreply:
        bool) -> (r: MemResult<u64>)
        ensures
            r.value == 0,
            final(self).server_addr == old(self).server_addr,
            r.status != MemStatus::Network_Error ==> final(self).stream.outbox() == old(
                self,
            ).stream.outbox() + key_num_cmd_line(
                "decr".spec_bytes(),
                key.spec_bytes(),
                dec_amount as nat,
                noreply,
            ) && ascii_status_post(
                old(self).stream.inbox(),
                final(self).stream.inbox(),
                r.status,
                noreply,
            ),
    {
        let _ = init_value;
        let _ = exptime;
        let req = self.format_key_num_cmd("decr", key, dec_amount, noreply);
        MemResult { status: self.ascii_send_simple_request(&req, noreply), value: 0 }
    }

    /// Delete the entry at the key.
    pub fn p_delete(&mut self, key: &str, noreply: bool) -> (s: MemStatus)
        ensures
            final(self).server_addr == old(self).server_addr,
            s != MemStatus::Network_Error ==> final(self).stream.outbox() == old(
                self,
            ).stream.outbox() + key_cmd_line("delete".spec_bytes(), key.spec_bytes(), noreply)
                && ascii_status_post(
                old(self).stream.inbox(),
                final(self).stream.inbox(),
                s,
                noreply,
            ),
    {
        let req = self.format_key_cmd("delete", key, noreply);
        self.ascii_send_simple_request(&req, noreply)
    }

    /// Retrieve the entries at the keys with `get` (no CAS in the reply).
    pub fn p_get(&mut self, keys: &[&str]) -> (r: Vec<MemData>)
        requires
            keys@.len() >= 1,
        ensures
            final(self).server_addr == old(self).server_addr,
            r@.len() > 0 ==> {
                let old_inbox = old(self).stream.inbox();
                &&& final(self).stream.outbox() == old(self).stream.outbox() + get_cmd_line(
                    "get".spec_bytes(),
                    keys@.map_values(|k: &str| k.spec_bytes()),
                )
                &&& ascii_get_items(old_inbox) is Some
                &&& ascii_hits_match(r@, ascii_get_items(old_inbox).unwrap().0)
                &&& final(self).stream.inbox() == old_inbox.skip(
                    ascii_get_items(old_inbox).unwrap().1,
                )
            },
    {
        let req = self.format_get_cmd("get", keys);
        self.ascii_send_get_request(&req)
    }

    /// Retrieve the entries at the keys with `gets`, which carries each
    /// item's CAS token.
    pub fn p_gets(&mut self, keys: &[&str]) -> (r: Vec<MemData>)
        requires
            keys@.len() >= 1,
        ensures
            final(self).server_addr == old(self).server_addr,
            r@.len() > 0 ==> {
                let old_inbox = old(self).stream.inbox();
                &&& final(self).stream.outbox() == old(self).stream.outbox() + get_cmd_line(
                    "gets".spec_bytes(),
                    keys@.map_values(|k: &str| k.spec_bytes()),
                )
                &&& ascii_get_items(old_inbox) is Some
                &&& ascii_hits_match(r@, ascii_get_items(old_inbox).unwrap().0)
                &&& final(self).stream.inbox() == old_inbox.skip(
                    ascii_get_items(old_inbox).unwrap().1,
                )
            },
    {
        let req = self.format_get_cmd("gets", keys);
        self.ascii_send_get_request(&req)
    }

    /// Send a retrieval request and read `VALUE` items until `END`: each
    /// `VALUE <key> <flags> <bytes>[ <cas>]` line is followed by that many
    /// payload bytes and CRLF.  A malformed line or a failed read stops
    /// the parse and returns what was collected.
    #[verifier::rlimit(100)]
    pub fn ascii_send_get_request(&mut self, request: &Vec<u8>) -> (r: Vec<MemData>)
        ensures
            final(self).server_addr == old(self).server_addr,
            r@.len() > 0 ==> {
                let old_inbox = old(self).stream.inbox();
                &&& final(self).stream.outbox() == old(self).stream.outbox() + request@
                &&& ascii_get_items(old_inbox) is Some
                &&& ascii_hits_match(r@, ascii_get_items(old_inbox).unwrap().0)
                &&& final(self).stream.inbox() == old_inbox.skip(
                    ascii_get_items(old_inbox).unwrap().1,
                )
            },
    {
        let mut mdata_list: Vec<MemData> = Vec::new();
        if !self.ascii_write_data(request.as_slice()) {
            return Vec::new();
        }
        let ghost inbox0 = self.stream.inbox();
        let ghost mut done: Seq<(Seq<char>, u32, u64, Seq<u8>)> = Seq::empty();
        let ghost mut used: int = 0;
        proof {
            assert(inbox0.skip(0) =~= inbox0);
            if ascii_get_items(inbox0) is Some {
                let rest = ascii_get_items(inbox0).unwrap();
                assert(done + rest.0 =~= rest.0);
            }
        }
        loop
            invariant
                self.server_addr == old(self).server_addr,
                self.stream.outbox() == old(self).stream.outbox() + request@,
                inbox0 == old(self).stream.inbox(),
                0 <= used <= inbox0.len(),
                self.stream.inbox() == inbox0.skip(used),
                ascii_hits_match(mdata_list@, done),
                match ascii_get_items(inbox0.skip(used)) {
                    Some(rest) => ascii_get_items(inbox0) == Some(
                        (done + rest.0, used + rest.1),
                    ),
                    None => ascii_get_items(inbox0) is None,
                },
            decreases self.stream.inbox().len(),
        {
            let ghost cur = self.stream.inbox();
            let line = match self.ascii_read_line() {
                Err(_) => { return Vec::new(); },
                Ok(l) => l,
            };
            let ghost lc = first_cr(cur) as int + 2;
            let tokens = strutil::clean_split(line.as_str(), ' ');
            let ghost spec_toks = strutil::clean_split_spec(line@, ' ');
            proof {
                assert(tokens@.map_values(|p: String| p@).len() == tokens@.len());
                assert(tokens@.len() == spec_toks.len());
                assert(forall|i: int|
                    0 <= i < tokens@.len() ==> #[trigger] tokens@[i]@ == spec_toks[i]);
                assert(self.stream.inbox() == line_rest(cur));
            }
            if !(strutil::str_eq(tokens[0].as_str(), "VALUE") && tokens.len() >= 4) {
                proof {
                    assert(ascii_get_items(cur) == Some(
                        (Seq::<(Seq<char>, u32, u64, Seq<u8>)>::empty(), lc),
                    ));
                    assert(done + Seq::<(Seq<char>, u32, u64, Seq<u8>)>::empty() =~= done);
                    assert(ascii_get_items(inbox0) == Some((done, used + lc)));
                    assert(self.stream.inbox() =~= inbox0.skip(used + lc));
                }
                return mdata_list;
            }
            let nbytes = match strutil::parse_num(tokens[3].as_str()) {
                None => { return Vec::new(); },
                Some(v) => v,
            };
            if nbytes > usize::MAX as u64 {
                return Vec::new();
            }
            let flags_raw = match strutil::parse_num(tokens[2].as_str()) {
                None => { return Vec::new(); },
                Some(v) => v,
            };
            if flags_raw > u32::MAX as u64 {
                return Vec::new();
            }
            let cas: u64 = if tokens.len() >= 5 {
                match strutil::parse_num(tokens[4].as_str()) {
                    None => { return Vec::new(); },
                    Some(v) => v,
                }
            } else {
                0
            };
            let data = match self.stream.bs_read_exact(nbytes as usize) {
                None => { return Vec::new(); },
                Some(v) => v,
            };
            match self.stream.bs_read_exact(2) {
                None => { return Vec::new(); },
                Some(_) => {},
            }
            let ghost data_bytes = data@;
            let ghost done0 = done;
            let ghost mdata0 = mdata_list@;
            let key = tokens[1].clone();
            let ghost key_view = key@;
            mdata_list.push(MemData { key, data, cas, flags: flags_raw as u32 });
            proof {
                let nb = strutil::dec_val(spec_toks[3]) as int;
                let rest = line_rest(cur);
                assert(nb == nbytes as int);
                assert(rest.skip(nb).skip(2) =~= rest.skip(nb + 2));
                assert(rest.len() >= nb + 2);
                assert(data_bytes == rest.take(nb));
                let flags_s = strutil::dec_val(spec_toks[2]) as u32;
                let cas_s = if spec_toks.len() >= 5 {
                    strutil::dec_val(spec_toks[4]) as u64
                } else {
                    0u64
                };
                let this = seq![(spec_toks[1], flags_s, cas_s, data_bytes)];
                assert(key_view == spec_toks[1]);
                assert(flags_raw as u32 == flags_s);
                assert(cas == cas_s);
                done = done.push((spec_toks[1], flags_s, cas_s, data_bytes));
                assert(ascii_hits_match(mdata_list@, done)) by {
                    assert(mdata_list@.len() == done.len());
                    assert forall|i: int| 0 <= i < mdata_list@.len() implies ascii_hit_matches(
                        #[trigger] mdata_list@[i],
                        done[i],
                    ) by {
                        if i < mdata_list@.len() - 1 {
                            assert(mdata_list@[i] == mdata0[i]);
                            assert(done[i] == done0[i]);
                            assert(ascii_hit_matches(mdata0[i], done0[i]));
                        } else {
                            assert(mdata_list@[i].key@ == key_view);
                            assert(done[i] == (spec_toks[1], flags_s, cas_s, data_bytes));
                        }
                    }
                }
                assert(done =~= done0 + this);
                assert(self.stream.inbox() == rest.skip(nb + 2));
                assert(rest.skip(nb + 2) =~= inbox0.skip(used + (lc + nb + 2)));
                match ascii_get_items(rest.skip(nb + 2)) {
                    Some(r2) => {
                        assert(ascii_get_items(cur) == Some(
                            (this + r2.0, lc + nb + 2 + r2.1),
                        ));
                        assert(ascii_get_items(inbox0) == Some(
                            (done0 + (this + r2.0), used + (lc + nb + 2 + r2.1)),
                        ));
                        assert((done0 + this) + r2.0 =~= done0 + (this + r2.0));
                    },
                    None => {
                        assert(ascii_get_items(cur) is None);
                    },
                }
                used = used + (lc + nb + 2);
            }
        }
    }

    /// Ask the server for its version line.
    pub fn p_version(&mut self) -> (r: Result<String, String>)
        ensures
            final(self).server_addr == old(self).server_addr,
            r is Ok ==> {
                let old_inbox = old(self).stream.inbox();
                &&& final(self).stream.outbox() == old(self).stream.outbox() + plain_cmd_line(
                    "version".spec_bytes(),
                )
                &&& line_wf(old_inbox)
                &&& vstd::utf8::valid_utf8(line_bytes_of(old_inbox))
                &&& r.unwrap()@ == vstd::utf8::decode_utf8(line_bytes_of(old_inbox))
                &&& final(self).stream.inbox() == line_rest(old_inbox)
            },
    {
        let req = self.format_plain_cmd("version");
        if !self.ascii_write_data(req.as_slice()) {
            return Err(String::new());
        }
        self.ascii_read_line()
    }

    /// Set the server's logging verbosity.
    pub fn p_verbosity(&mut self, verbosity: u32, noreply: bool) -> (s: MemStatus)
        ensures
            final(self).server_addr == old(self).server_addr,
            s != MemStatus::Network_Error ==> final(self).stream.outbox() == old(
                self,
            ).stream.outbox() + num_cmd_line("verbosity".spec_bytes(), verbosity as nat, noreply)
                && ascii_status_post(
                old(self).stream.inbox(),
                final(self).stream.inbox(),
                s,
                noreply,
            ),
    {
        let req = self.format_num_cmd("verbosity", verbosity as u64, noreply);
        self.ascii_send_simple_request(&req, noreply)
    }

    /// Invalidate every entry on the server, after `delay_in_seconds`.
    pub fn p_flush(&mut self, delay_in_seconds: u32, noreply: bool) -> (s: MemStatus)
        ensures
            final(self).server_addr == old(self).server_addr,
            s != MemStatus::Network_Error ==> final(self).stream.outbox() == old(
                self,
            ).stream.outbox() + num_cmd_line(
                "flush_all".spec_bytes(),
                delay_in_seconds as nat,
                noreply,
            ) && ascii_status_post(
                old(self).stream.inbox(),
                final(self).stream.inbox(),
                s,
                noreply,
            ),
    {
        let req = self.format_num_cmd("flush_all", delay_in_seconds as u64, noreply);
        self.ascii_send_simple_request(&req, noreply)
    }

    /// Ask the server for its statistics: `STAT <name> <value>` lines
    /// stream in until `END`.
    #[verifier::rlimit(100)]
    pub fn p_stats(&mut self) -> (r: Vec<MemcachedStat>)
        ensures
            final(self).server_addr == old(self).server_addr,
            r@.len() > 0 ==> {
                let old_inbox = old(self).stream.inbox();
                &&& final(self).stream.outbox() == old(self).stream.outbox() + plain_cmd_line(
                    "stats".spec_bytes(),
                )
                &&& ascii_stat_items(old_inbox) is Some
                &&& ascii_stats_match(r@, ascii_stat_items(old_inbox).unwrap().0)
                &&& final(self).stream.inbox() == old_inbox.skip(
                    ascii_stat_items(old_inbox).unwrap().1,
                )
            },
    {
        let mut stats: Vec<MemcachedStat> = Vec::new();
        let req = self.format_plain_cmd("stats");
        if !self.ascii_write_data(req.as_slice()) {
            return Vec::new();
        }
        let ghost inbox0 = self.stream.inbox();
        let ghost mut done: Seq<(Seq<char>, Seq<char>)> = Seq::empty();
        let ghost mut used: int = 0;
        proof {
            assert(inbox0.skip(0) =~= inbox0);
            if ascii_stat_items(inbox0) is Some {
                let rest = ascii_stat_items(inbox0).unwrap();
                assert(done + rest.0 =~= rest.0);
            }
        }
        loop
            invariant
                self.server_addr == old(self).server_addr,
                self.stream.outbox() == old(self).stream.outbox() + plain_cmd_line(
                    "stats".spec_bytes(),
                ),
                inbox0 == old(self).stream.inbox(),
                0 <= used <= inbox0.len(),
                self.stream.inbox() == inbox0.skip(used),
                ascii_stats_match(stats@, done),
                match ascii_stat_items(inbox0.skip(used)) {
                    Some(rest) => ascii_stat_items(inbox0) == Some(
                        (done + rest.0, used + rest.1),
                    ),
                    None => ascii_stat_items(inbox0) is None,
                },
            decreases self.stream.inbox().len(),
        {
            let ghost cur = self.stream.inbox();
            let line = match self.ascii_read_line() {
                Err(_) => { return Vec::new(); },
                Ok(l) => l,
            };
            let ghost lc = first_cr(cur) as int + 2;
            let tokens = strutil::clean_split(line.as_str(), ' ');
            let ghost spec_toks = strutil::clean_split_spec(line@, ' ');
            proof {
                assert(tokens@.map_values(|p: String| p@).len() == tokens@.len());
                assert(tokens@.len() == spec_toks.len());
                assert(forall|i: int|
                    0 <= i < tokens@.len() ==> #[trigger] tokens@[i]@ == spec_toks[i]);
                assert(self.stream.inbox() == line_rest(cur));
            }
            if strutil::str_eq(tokens[0].as_str(), "STAT") && tokens.len() >= 3 {
                let ghost done0 = done;
                let ghost stats0 = stats@;
                let name = tokens[1].clone();
                let value = tokens[2].clone();
                let ghost name_view = name@;
                let ghost value_view = value@;
                stats.push(MemcachedStat { name, value });
                proof {
                    let this = seq![(spec_toks[1], spec_toks[2])];
                    done = done.push((spec_toks[1], spec_toks[2]));
                    assert(ascii_stats_match(stats@, done)) by {
                        assert(stats@.len() == done.len());
                        assert forall|i: int| 0 <= i < stats@.len() implies ascii_stat_matches(
                            #[trigger] stats@[i],
                            done[i],
                        ) by {
                            if i < stats@.len() - 1 {
                                assert(stats@[i] == stats0[i]);
                                assert(done[i] == done0[i]);
                                assert(ascii_stat_matches(stats0[i], done0[i]));
                            } else {
                                assert(stats@[i].name@ == name_view);
                                assert(stats@[i].value@ == value_view);
                                assert(done[i] == (spec_toks[1], spec_toks[2]));
                            }
                        }
                    }
                    assert(done =~= done0 + this);
                    assert(line_rest(cur) =~= inbox0.skip(used + lc));
                    match ascii_stat_items(line_rest(cur)) {
                        Some(r2) => {
                            assert(ascii_stat_items(cur) == Some((this + r2.0, lc + r2.1)));
                            assert(ascii_stat_items(inbox0) == Some(
                                (done0 + (this + r2.0), used + (lc + r2.1)),
                            ));
                            assert((done0 + this) + r2.0 =~= done0 + (this + r2.0));
                        },
                        None => {
                            assert(ascii_stat_items(cur) is None);
                        },
                    }
                    used = used + lc;
                }
            } else {
                proof {
                    assert(ascii_stat_items(cur) == Some(
                        (Seq::<(Seq<char>, Seq<char>)>::empty(), lc),
                    ));
                    assert(done + Seq::<(Seq<char>, Seq<char>)>::empty() =~= done);
                    assert(ascii_stat_items(inbox0) == Some((done, used + lc)));
                    assert(self.stream.inbox() =~= inbox0.skip(used + lc));
                }
                return stats;
            }
        }
    }

    /// Tell the server the session ends.
    pub fn p_quit(&mut self) -> (s: MemStatus)
        ensures
            final(self).server_addr == old(self).server_addr,
            s != MemStatus::Network_Error ==> final(self).stream.outbox() == old(
                self,
            ).stream.outbox() + plain_cmd_line("quit".spec_bytes()) && ascii_status_post(
                old(self).stream.inbox(),
                final(self).stream.inbox(),
                s,
                false,
            ),
    {
        let req = self.format_plain_cmd("quit");
        self.ascii_send_simple_request(&req, false)
    }
}

proof fn lemma_join_push(keys: Seq<Seq<u8>>, k: Seq<u8>)
    requires
        keys.len() >= 1,
    ensures
        join_keys(keys.push(k)) == join_keys(keys) + seq![SP] + k,
    decreases keys.len(),
{
    if keys.len() == 1 {
        assert(keys.push(k)[0] == keys[0]);
        assert(keys.push(k).skip(1) =~= seq![k]);
        assert(join_keys(keys.push(k)) == keys[0] + seq![SP] + join_keys(seq![k]));
        assert(join_keys(seq![k]) == k);
        assert(join_keys(keys) == keys[0]);
    } else {
        assert(keys.push(k).skip(1) =~= keys.skip(1).push(k));
        lemma_join_push(keys.skip(1), k);
        assert(keys.push(k)[0] == keys[0]);
        assert(join_keys(keys) + seq![SP] + k =~= keys[0] + seq![SP] + (join_keys(keys.skip(1))
            + seq![SP] + k));
    }
}

} // verus!
