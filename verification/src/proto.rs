//! The protocol-independent connection API: one capability set, spoken by
//! the text codec and the binary codec alike, so the client facade never
//! branches on the protocol at its call sites.

use vstd::prelude::*;
use vstd::string::StringSliceAdditionalSpecFns;

use crate::ascii_conn;
use crate::ascii_conn::{
    ascii_status_post, cas_cmd_line, key_cmd_line, key_num_cmd_line, num_cmd_line,
    plain_cmd_line, store_cmd_line, AsciiConnection,
};
use crate::binary_conn;
use crate::binary_conn::{
    append_request_bytes, inc_request_bytes, key_request_bytes, simple_resp_post,
    status_resp_post, store_request_bytes, touch_request_bytes, u32_request_bytes,
    BinaryConnection,
};
use crate::netutil::HostAddr;
use crate::stream::{ByteStream, CR, LF};
use crate::strutil;
use crate::{MemData, MemResult, MemStatus, MemcachedStat};

verus! {

/// A connection to one cache server, speaking either wire protocol.
pub enum ProtoConnection<S: ByteStream> {
    /// The line-oriented text protocol.
    Ascii(AsciiConnection<S>),
    /// The length-prefixed binary protocol.
    Binary(BinaryConnection<S>),
}

impl<S: ByteStream> ProtoConnection<S> {
    /// The address of the server this connection talks to.
    pub open spec fn addr(&self) -> HostAddr {
        match self {
            ProtoConnection::Ascii(c) => c.server_addr,
            ProtoConnection::Binary(c) => c.server_addr,
        }
    }

    /// Whether this connection speaks the text protocol.
    pub open spec fn is_text(&self) -> bool {
        self is Ascii
    }

    /// What every command leaves unchanged: the server address and the
    /// protocol spoken.
    pub open spec fn same_shape(old_c: &Self, new_c: &Self) -> bool {
        new_c.addr() == old_c.addr() && new_c.is_text() == old_c.is_text()
    }

    /// The bytes this connection has written to its stream.
    pub open spec fn stream_outbox(&self) -> Seq<u8> {
        match self {
            ProtoConnection::Ascii(c) => c.stream.outbox(),
            ProtoConnection::Binary(c) => c.stream.outbox(),
        }
    }

    /// The bytes this connection's peer will deliver next.
    pub open spec fn stream_inbox(&self) -> Seq<u8> {
        match self {
            ProtoConnection::Ascii(c) => c.stream.inbox(),
            ProtoConnection::Binary(c) => c.stream.inbox(),
        }
    }

    /// What a status reply means on this connection's protocol: on the
    /// text path the first line of the old inbox decided `status` (or,
    /// with `noreply`, nothing was read); on the binary path a response
    /// header did, and `cas_value` came from it.
    pub open spec fn status_reply_post(
        old_c: &Self,
        new_c: &Self,
        status: MemStatus,
        cas_value: u64,
        noreply: bool,
    ) -> bool {
        if old_c.is_text() {
            ascii_status_post(old_c.stream_inbox(), new_c.stream_inbox(), status, noreply)
                && cas_value == 0
        } else {
            simple_resp_post(old_c.stream_inbox(), new_c.stream_inbox(), status, cas_value)
        }
    }

    /// The exact bytes a store-family command puts on the wire for this
    /// connection's protocol.
    pub open spec fn store_wire_bytes(
        &self,
        op_text: Seq<u8>,
        op_bin: u8,
        key: Seq<u8>,
        data: Seq<u8>,
        cas: u64,
        flags: u32,
        exptime: u32,
        noreply: bool,
    ) -> Seq<u8> {
        if self.is_text() {
            store_cmd_line(op_text, key, flags, exptime, data.len(), noreply) + data
                + seq![CR, LF]
        } else {
            store_request_bytes(op_bin, key, data, cas, flags, exptime)
        }
    }

    /// What a counter reply (incr / decr) means on this connection's
    /// protocol: the status as in `status_only_post`; on the binary path
    /// the returned value is the 8-byte big-endian counter of a
    /// successful response (0 otherwise), on the text path it is 0.
    pub open spec fn counter_reply_post(
        old_c: &Self,
        new_c: &Self,
        status: MemStatus,
        value: u64,
        noreply: bool,
    ) -> bool {
        &&& Self::status_only_post(old_c, new_c, status, noreply)
        &&& (if old_c.is_text() {
            value == 0
        } else {
            value == ({
                let h = binary_conn::header_of_bytes(old_c.stream_inbox());
                if binary_conn::data_len_of(h) == 8 && h.status_vbucket == 0 {
                    crate::ioutil::be_u64(old_c.stream_inbox().skip(24))
                } else {
                    0u64
                }
            })
        })
    }

    /// What a `quit` reply means on this connection's protocol: the text
    /// path reads one status line; the binary path reads one response
    /// header and nothing more.
    pub open spec fn quit_reply_post(old_c: &Self, new_c: &Self, status: MemStatus) -> bool {
        if old_c.is_text() {
            ascii_status_post(old_c.stream_inbox(), new_c.stream_inbox(), status, false)
        } else {
            &&& old_c.stream_inbox().len() >= 24
            &&& status == crate::map_status_spec(
                binary_conn::header_of_bytes(old_c.stream_inbox()).status_vbucket,
            )
            &&& new_c.stream_inbox() == old_c.stream_inbox().skip(24)
        }
    }

    /// What a `version` reply means on this connection's protocol: `v` is
    /// the UTF-8 decoding of the response's payload (the first line on the
    /// text path, the response body on the binary path), and exactly that
    /// response was consumed.
    pub open spec fn version_reply_post(old_c: &Self, new_c: &Self, v: Seq<char>) -> bool {
        let inbox = old_c.stream_inbox();
        if old_c.is_text() {
            &&& ascii_conn::line_wf(inbox)
            &&& vstd::utf8::valid_utf8(ascii_conn::line_bytes_of(inbox))
            &&& v == vstd::utf8::decode_utf8(ascii_conn::line_bytes_of(inbox))
            &&& new_c.stream_inbox() == ascii_conn::line_rest(inbox)
        } else {
            &&& binary_conn::resp_wf(inbox)
            &&& v == vstd::utf8::decode_utf8(
                inbox.skip(24).take(
                    binary_conn::data_len_of(binary_conn::header_of_bytes(inbox)) as int,
                ),
            )
            &&& new_c.stream_inbox() == inbox.skip(binary_conn::resp_len(inbox))
        }
    }

    /// What a multi-get reply means on this connection's protocol: the
    /// returned items are exactly the parsed hits of the old inbox, in
    /// order, and exactly those responses were consumed.
    pub open spec fn gets_reply_post(old_c: &Self, new_c: &Self, r: Seq<MemData>) -> bool {
        let inbox = old_c.stream_inbox();
        if old_c.is_text() {
            &&& ascii_conn::ascii_get_items(inbox) is Some
            &&& ascii_conn::ascii_hits_match(r, ascii_conn::ascii_get_items(inbox).unwrap().0)
            &&& new_c.stream_inbox() == inbox.skip(
                ascii_conn::ascii_get_items(inbox).unwrap().1,
            )
        } else {
            &&& binary_conn::gets_items(inbox) is Some
            &&& binary_conn::hits_match(r, binary_conn::gets_items(inbox).unwrap().0)
            &&& new_c.stream_inbox() == inbox.skip(binary_conn::gets_items(inbox).unwrap().1)
        }
    }

    /// What a statistics reply means on this connection's protocol: the
    /// returned entries are exactly the parsed pairs of the old inbox,
    /// in order, and exactly those responses were consumed.
    pub open spec fn stats_reply_post(old_c: &Self, new_c: &Self, r: Seq<MemcachedStat>) -> bool {
        let inbox = old_c.stream_inbox();
        if old_c.is_text() {
            &&& ascii_conn::ascii_stat_items(inbox) is Some
            &&& ascii_conn::ascii_stats_match(
                r,
                ascii_conn::ascii_stat_items(inbox).unwrap().0,
            )
            &&& new_c.stream_inbox() == inbox.skip(
                ascii_conn::ascii_stat_items(inbox).unwrap().1,
            )
        } else {
            &&& binary_conn::stat_items(inbox) is Some
            &&& binary_conn::stats_match(r, binary_conn::stat_items(inbox).unwrap().0)
            &&& new_c.stream_inbox() == inbox.skip(binary_conn::stat_items(inbox).unwrap().1)
        }
    }

    /// What a status-only reply means on this connection's protocol.
    pub open spec fn status_only_post(
        old_c: &Self,
        new_c: &Self,
        status: MemStatus,
        noreply: bool,
    ) -> bool {
        if old_c.is_text() {
            ascii_status_post(old_c.stream_inbox(), new_c.stream_inbox(), status, noreply)
        } else {
            status_resp_post(old_c.stream_inbox(), new_c.stream_inbox(), status)
        }
    }

    /// The exact request bytes of a `set` on this connection's protocol.
    pub open spec fn set_request_wire(
        &self,
        key: Seq<u8>,
        data: Seq<u8>,
        cas: u64,
        flags: u32,
        exptime: u32,
        noreply: bool,
    ) -> Seq<u8> {
        if self.is_text() {
            if cas == 0 {
                store_cmd_line("set".spec_bytes(), key, flags, exptime, data.len(), noreply)
                    + data + seq![CR, LF]
            } else {
                cas_cmd_line(key, flags, exptime, data.len(), cas, noreply) + data
                    + seq![CR, LF]
            }
        } else {
            store_request_bytes(binary_conn::BP_OP_SET, key, data, cas, flags, exptime)
        }
    }

    /// The exact request bytes of a `cas` on this connection's protocol.
    pub open spec fn cas_request_wire(
        &self,
        key: Seq<u8>,
        data: Seq<u8>,
        cas: u64,
        flags: u32,
        exptime: u32,
        noreply: bool,
    ) -> Seq<u8> {
        if self.is_text() {
            cas_cmd_line(key, flags, exptime, data.len(), cas, noreply) + data + seq![CR, LF]
        } else {
            store_request_bytes(binary_conn::BP_OP_SET, key, data, cas, flags, exptime)
        }
    }

    /// The exact request bytes of an `add` on this connection's protocol.
    pub open spec fn add_request_wire(
        &self,
        key: Seq<u8>,
        data: Seq<u8>,
        cas: u64,
        flags: u32,
        exptime: u32,
        noreply: bool,
    ) -> Seq<u8> {
        self.store_wire_bytes(
            "add".spec_bytes(),
            binary_conn::BP_OP_ADD,
            key,
            data,
            cas,
            flags,
            exptime,
            noreply,
        )
    }

    /// The exact request bytes of a `replace` on this connection's
    /// protocol.
    pub open spec fn replace_request_wire(
        &self,
        key: Seq<u8>,
        data: Seq<u8>,
        cas: u64,
        flags: u32,
        exptime: u32,
        noreply: bool,
    ) -> Seq<u8> {
        self.store_wire_bytes(
            "replace".spec_bytes(),
            binary_conn::BP_OP_REPLACE,
            key,
            data,
            cas,
            flags,
            exptime,
            noreply,
        )
    }

    /// The exact request bytes of an `append` on this connection's
    /// protocol.
    pub open spec fn append_request_wire(&self, key: Seq<u8>, data: Seq<u8>, noreply: bool)
        -> Seq<u8> {
        if self.is_text() {
            store_cmd_line("append".spec_bytes(), key, 0, 0, data.len(), noreply) + data
                + seq![CR, LF]
        } else {
            append_request_bytes(binary_conn::BP_OP_APPEND, key, data)
        }
    }

    /// The exact request bytes of a `prepend` on this connection's
    /// protocol.
    pub open spec fn prepend_request_wire(&self, key: Seq<u8>, data: Seq<u8>, noreply: bool)
        -> Seq<u8> {
        if self.is_text() {
            store_cmd_line("prepend".spec_bytes(), key, 0, 0, data.len(), noreply) + data
                + seq![CR, LF]
        } else {
            append_request_bytes(binary_conn::BP_OP_PREPEND, key, data)
        }
    }

    /// The exact request bytes of a `touch` on this connection's protocol.
    pub open spec fn touch_request_wire(&self, key: Seq<u8>, exptime: u32, noreply: bool)
        -> Seq<u8> {
        if self.is_text() {
            key_num_cmd_line("touch".spec_bytes(), key, exptime as nat, noreply)
        } else {
            touch_request_bytes(key, exptime)
        }
    }

    /// The exact request bytes of an `incr` on this connection's protocol.
    pub open spec fn incr_request_wire(
        &self,
        key: Seq<u8>,
        inc_amount: u64,
        init_value: u64,
        exptime: u32,
        noreply: bool,
    ) -> Seq<u8> {
        if self.is_text() {
            key_num_cmd_line("incr".spec_bytes(), key, inc_amount as nat, noreply)
        } else {
            inc_request_bytes(
                binary_conn::BP_OP_INCREMENT,
                key,
                inc_amount,
                init_value,
                exptime,
            )
        }
    }

    /// The exact request bytes of a `decr` on this connection's protocol.
    pub open spec fn decr_request_wire(
        &self,
        key: Seq<u8>,
        dec_amount: u64,
        init_value: u64,
        exptime: u32,
        noreply: bool,
    ) -> Seq<u8> {
        if self.is_text() {
            key_num_cmd_line("decr".spec_bytes(), key, dec_amount as nat, noreply)
        } else {
            inc_request_bytes(
                binary_conn::BP_OP_DECREMENT,
                key,
                dec_amount,
                init_value,
                exptime,
            )
        }
    }

    /// The exact request bytes of a `delete` on this connection's
    /// protocol.
    pub open spec fn delete_request_wire(&self, key: Seq<u8>, noreply: bool) -> Seq<u8> {
        if self.is_text() {
            key_cmd_line("delete".spec_bytes(), key, noreply)
        } else {
            key_request_bytes(binary_conn::BP_OP_DELETE, key)
        }
    }

    /// The exact request bytes of a pipelined multi-get over the keys on
    /// this connection's protocol.
    pub open spec fn gets_request_wire(&self, keys: Seq<Seq<u8>>) -> Seq<u8> {
        if self.is_text() {
            ascii_conn::get_cmd_line("gets".spec_bytes(), keys)
        } else {
            binary_conn::gets_request_bytes(keys)
        }
    }

    /// The exact request bytes of a `verbosity` command on this
    /// connection's protocol.
    pub open spec fn verbosity_request_wire(&self, verbosity: u32, noreply: bool) -> Seq<u8> {
        if self.is_text() {
            num_cmd_line("verbosity".spec_bytes(), verbosity as nat, noreply)
        } else {
            u32_request_bytes(binary_conn::BP_OP_VERBOSITY, verbosity)
        }
    }

    /// The exact request bytes of a flush command on this connection's
    /// protocol.
    pub open spec fn flush_request_wire(&self, delay_in_seconds: u32, noreply: bool) -> Seq<u8> {
        if self.is_text() {
            num_cmd_line("flush_all".spec_bytes(), delay_in_seconds as nat, noreply)
        } else {
            u32_request_bytes(binary_conn::BP_OP_FLUSH, delay_in_seconds)
        }
    }

    /// The exact request bytes of a `quit` on this connection's protocol.
    pub open spec fn quit_request_wire(&self) -> Seq<u8> {
        if self.is_text() {
            plain_cmd_line("quit".spec_bytes())
        } else {
            binary_conn::plain_request_bytes(binary_conn::BP_OP_QUIT)
        }
    }

    /// The exact request bytes of a `version` on this connection's
    /// protocol.
    pub open spec fn version_request_wire(&self) -> Seq<u8> {
        if self.is_text() {
            plain_cmd_line("version".spec_bytes())
        } else {
            binary_conn::plain_request_bytes(binary_conn::BP_OP_VERSION)
        }
    }

    /// The exact request bytes of a statistics request on this
    /// connection's protocol.
    pub open spec fn stats_request_wire(&self) -> Seq<u8> {
        if self.is_text() {
            plain_cmd_line("stats".spec_bytes())
        } else {
            binary_conn::plain_request_bytes(binary_conn::BP_OP_STAT)
        }
    }

    /// Store the data under the key; a non-zero CAS makes it conditional.
    pub fn p_set(&mut self, key: &str, data: &[u8], cas: u64, flags: u32, exptime: u32, noreply:
        bool) -> (r: MemResult<u64>)
        requires
            key.spec_bytes().len() <= u16::MAX,
            8 + key.spec_bytes().len() + data@.len() <= u32::MAX,
        ensures
            Self::same_shape(old(self), final(self)),
            old(self).is_text() ==> r.value == 0,
            r.status != MemStatus::Network_Error ==> final(self).stream_outbox() == old(
                self,
            ).stream_outbox() + old(self).set_request_wire(key.spec_bytes(), data@, cas, flags, exptime, noreply) && Self::status_reply_post(
                old(self),
                final(self),
                r.status,
                r.value,
                noreply,
            ),
    {
        match self {
            ProtoConnection::Ascii(c) => c.p_set(key, data, cas, flags, exptime, noreply),
            ProtoConnection::Binary(c) => c.p_set(key, data, cas, flags, exptime, noreply),
        }
    }

    /// Check-and-set: store only if the entry still carries `cas`.
    pub fn p_cas(&mut self, key: &str, data: &[u8], cas: u64, flags: u32, exptime: u32, noreply:
        bool) -> (r: MemResult<u64>)
        requires
            key.spec_bytes().len() <= u16::MAX,
            8 + key.spec_bytes().len() + data@.len() <= u32::MAX,
        ensures
            Self::same_shape(old(self), final(self)),
            old(self).is_text() ==> r.value == 0,
            !old(self).is_text() && cas == 0 ==> r.status == MemStatus::Key_Exists && r.value
                == 0 && *final(self) == *old(self),
            (old(self).is_text() || cas != 0) && r.status != MemStatus::Network_Error ==> final(self).stream_outbox() == old(self).stream_outbox() + old(self).cas_request_wire(
                key.spec_bytes(),
                data@,
                cas,
                flags,
                exptime,
                noreply,
            ) && Self::status_reply_post(
                old(self),
                final(self),
                r.status,
                r.value,
                noreply,
            ),
    {
        match self {
            ProtoConnection::Ascii(c) => c.p_cas(key, data, cas, flags, exptime, noreply),
            ProtoConnection::Binary(c) => c.p_cas(key, data, cas, flags, exptime, noreply),
        }
    }

    /// Store only where the server holds nothing for the key.
    pub fn p_add(&mut self, key: &str, data: &[u8], cas: u64, flags: u32, exptime: u32, noreply:
        bool) -> (r: MemResult<u64>)
        requires
            key.spec_bytes().len() <= u16::MAX,
            8 + key.spec_bytes().len() + data@.len() <= u32::MAX,
        ensures
            Self::same_shape(old(self), final(self)),
            old(self).is_text() ==> r.value == 0,
            r.status != MemStatus::Network_Error ==> final(self).stream_outbox() == old(
                self,
            ).stream_outbox() + old(self).add_request_wire(key.spec_bytes(), data@, cas, flags, exptime, noreply) && Self::status_reply_post(
                old(self),
                final(self),
                r.status,
                r.value,
                noreply,
            ),
    {
        match self {
            ProtoConnection::Ascii(c) => c.p_add(key, data, cas, flags, exptime, noreply),
            ProtoConnection::Binary(c) => c.p_add(key, data, cas, flags, exptime, noreply),
        }
    }

    /// Store only where the server already holds data for the key.
    pub fn p_replace(&mut self, key: &str, data: &[u8], cas: u64, flags: u32, exptime: u32,
        noreply: bool) -> (r: MemResult<u64>)
        requires
            key.spec_bytes().len() <= u16::MAX,
            8 + key.spec_bytes().len() + data@.len() <= u32::MAX,
        ensures
            Self::same_shape(old(self), final(self)),
            old(self).is_text() ==> r.value == 0,
            r.status != MemStatus::Network_Error ==> final(self).stream_outbox() == old(
                self,
            ).stream_outbox() + old(self).replace_request_wire(key.spec_bytes(), data@, cas, flags, exptime, noreply) && Self::status_reply_post(
                old(self),
                final(self),
                r.status,
                r.value,
                noreply,
            ),
    {
        match self {
            ProtoConnection::Ascii(c) => c.p_replace(key, data, cas, flags, exptime, noreply),
            ProtoConnection::Binary(c) => c.p_replace(key, data, cas, flags, exptime, noreply),
        }
    }

    /// Append the data after the key's existing data.
    pub fn p_append(&mut self, key: &str, data: &[u8], noreply: bool) -> (r: MemResult<u64>)
        requires
            key.spec_bytes().len() <= u16::MAX,
            key.spec_bytes().len() + data@.len() <= u32::MAX,
        ensures
            Self::same_shape(old(self), final(self)),
            old(self).is_text() ==> r.value == 0,
            r.status != MemStatus::Network_Error ==> final(self).stream_outbox() == old(
                self,
            ).stream_outbox() + old(self).append_request_wire(key.spec_bytes(), data@, noreply) && Self::status_reply_post(
                old(self),
                final(self),
                r.status,
                r.value,
                noreply,
            ),
    {
        match self {
            ProtoConnection::Ascii(c) => c.p_append(key, data, noreply),
            ProtoConnection::Binary(c) => c.p_append(key, data, noreply),
        }
    }

    /// Prepend the data before the key's existing data.
    pub fn p_prepend(&mut self, key: &str, data: &[u8], noreply: bool) -> (r: MemResult<u64>)
        requires
            key.spec_bytes().len() <= u16::MAX,
            key.spec_bytes().len() + data@.len() <= u32::MAX,
        ensures
            Self::same_shape(old(self), final(self)),
            old(self).is_text() ==> r.value == 0,
            r.status != MemStatus::Network_Error ==> final(self).stream_outbox() == old(
                self,
            ).stream_outbox() + old(self).prepend_request_wire(key.spec_bytes(), data@, noreply) && Self::status_reply_post(
                old(self),
                final(self),
                r.status,
                r.value,
                noreply,
            ),
    {
        match self {
            ProtoConnection::Ascii(c) => c.p_prepend(key, data, noreply),
            ProtoConnection::Binary(c) => c.p_prepend(key, data, noreply),
        }
    }

    /// Update a cached entry's expiration time without fetching it.
    pub fn p_touch(&mut self, key: &str, exptime: u32, noreply: bool) -> (s: MemStatus)
        requires
            key.spec_bytes().len() <= u16::MAX,
        ensures
            Self::same_shape(old(self), final(self)),
            s != MemStatus::Network_Error ==> final(self).stream_outbox() == old(
                self,
            ).stream_outbox() + (old(self).touch_request_wire(key.spec_bytes(), exptime, noreply)) && Self::status_only_post(old(self), final(self), s, noreply),
    {
        match self {
            ProtoConnection::Ascii(c) => c.p_touch(key, exptime, noreply),
            ProtoConnection::Binary(c) => c.p_touch(key, exptime, noreply),
        }
    }

    /// Increment the counter at the key.  On the text path the result's
    /// value is always 0 and `init_value` / `exptime` are ignored.
    pub fn p_incr(&mut self, key: &str, inc_amount: u64, init_value: u64, exptime: u32, noreply:
        bool) -> (r: MemResult<u64>)
        requires
            key.spec_bytes().len() <= u16::MAX,
        ensures
            Self::same_shape(old(self), final(self)),
            old(self).is_text() ==> r.value == 0,
            r.status != MemStatus::Network_Error ==> final(self).stream_outbox() == old(
                self,
            ).stream_outbox() + (old(self).incr_request_wire(key.spec_bytes(), inc_amount, init_value, exptime, noreply)) && Self::counter_reply_post(old(self), final(self), r.status, r.value, noreply),
    {
        match self {
            ProtoConnection::Ascii(c) => c.p_incr(key, inc_amount, init_value, exptime, noreply),
            ProtoConnection::Binary(c) => c.p_incr(key, inc_amount, init_value, exptime, noreply),
        }
    }

    /// Decrement the counter at the key.  On the text path the result's
    /// value is always 0 and `init_value` / `exptime` are ignored.
    pub fn p_decr(&mut self, key: &str, dec_amount: u64, init_value: u64, exptime: u32, noreply:
        bool) -> (r: MemResult<u64>)
        requires
            key.spec_bytes().len() <= u16::MAX,
        ensures
            Self::same_shape(old(self), final(self)),
            old(self).is_text() ==> r.value == 0,
            r.status != MemStatus::Network_Error ==> final(self).stream_outbox() == old(
                self,
            ).stream_outbox() + (old(self).decr_request_wire(key.spec_bytes(), dec_amount, init_value, exptime, noreply)) && Self::counter_reply_post(old(self), final(self), r.status, r.value, noreply),
    {
        match self {
            ProtoConnection::Ascii(c) => c.p_decr(key, dec_amount, init_value, exptime, noreply),
            ProtoConnection::Binary(c) => c.p_decr(key, dec_amount, init_value, exptime, noreply),
        }
    }

    /// Delete the entry at the key.
    pub fn p_delete(&mut self, key: &str, noreply: bool) -> (s: MemStatus)
        requires
            key.spec_bytes().len() <= u16::MAX,
        ensures
            Self::same_shape(old(self), final(self)),
            s != MemStatus::Network_Error ==> final(self).stream_outbox() == old(
                self,
            ).stream_outbox() + (old(self).delete_request_wire(key.spec_bytes(), noreply)) && Self::status_only_post(old(self), final(self), s, noreply),
    {
        match self {
            ProtoConnection::Ascii(c) => c.p_delete(key, noreply),
            ProtoConnection::Binary(c) => c.p_delete(key, noreply),
        }
    }

    /// Retrieve the entries at the keys.
    pub fn p_get(&mut self, keys: &[&str]) -> (r: Vec<MemData>)
        requires
            keys@.len() >= 1,
            forall|i: int| 0 <= i < keys@.len() ==> #[trigger] keys@[i].spec_bytes().len()
                <= u16::MAX,
        ensures
            Self::same_shape(old(self), final(self)),
            r@.len() > 0 ==> final(self).stream_outbox() == old(self).stream_outbox() + (if old(
                self,
            ).is_text() {
                ascii_conn::get_cmd_line(
                    "get".spec_bytes(),
                    keys@.map_values(|k: &str| k.spec_bytes()),
                )
            } else {
                binary_conn::gets_request_bytes(keys@.map_values(|k: &str| k.spec_bytes()))
            }),
    {
        match self {
            ProtoConnection::Ascii(c) => c.p_get(keys),
            ProtoConnection::Binary(c) => c.p_get(keys),
        }
    }

    /// Retrieve the entries at the keys, with their CAS tokens where the
    /// protocol carries them.
    pub fn p_gets(&mut self, keys: &[&str]) -> (r: Vec<MemData>)
        requires
            keys@.len() >= 1,
            forall|i: int| 0 <= i < keys@.len() ==> #[trigger] keys@[i].spec_bytes().len()
                <= u16::MAX,
        ensures
            Self::same_shape(old(self), final(self)),
            r@.len() > 0 ==> final(self).stream_outbox() == old(self).stream_outbox() + old(
                self,
            ).gets_request_wire(keys@.map_values(|k: &str| k.spec_bytes()))
                && Self::gets_reply_post(old(self), final(self), r@),
    {
        match self {
            ProtoConnection::Ascii(c) => c.p_gets(keys),
            ProtoConnection::Binary(c) => c.p_gets(keys),
        }
    }

    /// Ask the server for its version string.
    pub fn p_version(&mut self) -> (r: Result<String, String>)
        ensures
            Self::same_shape(old(self), final(self)),
            r is Ok ==> final(self).stream_outbox() == old(self).stream_outbox() + (old(
                self,
            ).version_request_wire()) && Self::version_reply_post(
                old(self),
                final(self),
                r.unwrap()@,
            ),
    {
        match self {
            ProtoConnection::Ascii(c) => c.p_version(),
            ProtoConnection::Binary(c) => c.p_version(),
        }
    }

    /// Set the server's logging verbosity.
    pub fn p_verbosity(&mut self, verbosity: u32, noreply: bool) -> (s: MemStatus)
        ensures
            Self::same_shape(old(self), final(self)),
            s != MemStatus::Network_Error ==> final(self).stream_outbox() == old(
                self,
            ).stream_outbox() + (old(self).verbosity_request_wire(verbosity, noreply)) && Self::status_only_post(old(self), final(self), s, noreply),
    {
        match self {
            ProtoConnection::Ascii(c) => c.p_verbosity(verbosity, noreply),
            ProtoConnection::Binary(c) => c.p_verbosity(verbosity, noreply),
        }
    }

    /// Invalidate every entry on the server, after `delay_in_seconds`.
    pub fn p_flush(&mut self, delay_in_seconds: u32, noreply: bool) -> (s: MemStatus)
        ensures
            Self::same_shape(old(self), final(self)),
            s != MemStatus::Network_Error ==> final(self).stream_outbox() == old(
                self,
            ).stream_outbox() + (old(self).flush_request_wire(delay_in_seconds, noreply)) && Self::status_only_post(old(self), final(self), s, noreply),
    {
        match self {
            ProtoConnection::Ascii(c) => c.p_flush(delay_in_seconds, noreply),
            ProtoConnection::Binary(c) => c.p_flush(delay_in_seconds, noreply),
        }
    }

    /// Ask the server for its statistics.
    pub fn p_stats(&mut self) -> (r: Vec<MemcachedStat>)
        ensures
            Self::same_shape(old(self), final(self)),
            r@.len() > 0 ==> final(self).stream_outbox() == old(self).stream_outbox() + (old(
                self,
            ).stats_request_wire()) && Self::stats_reply_post(old(self), final(self), r@),
    {
        match self {
            ProtoConnection::Ascii(c) => c.p_stats(),
            ProtoConnection::Binary(c) => c.p_stats(),
        }
    }

    /// Tell the server the session ends.
    pub fn p_quit(&mut self) -> (s: MemStatus)
        ensures
            Self::same_shape(old(self), final(self)),
            s != MemStatus::Network_Error ==> final(self).stream_outbox() == old(
                self,
            ).stream_outbox() + (old(self).quit_request_wire()) && Self::quit_reply_post(
                old(self),
                final(self),
                s,
            ),
    {
        match self {
            ProtoConnection::Ascii(c) => c.p_quit(),
            ProtoConnection::Binary(c) => c.p_quit(),
        }
    }

    /// The address of the server this connection talks to, as `host:port`.
    pub fn p_get_server_addr(&self) -> (r: String)
        ensures
            r@ == (match self.addr().port {
                Some(p) => self.addr().host@ + seq![':'] + strutil::dec_chars(p as nat),
                None => self.addr().host@,
            }),
    {
        match self {
            ProtoConnection::Ascii(c) => c.ascii_get_server_addr(),
            ProtoConnection::Binary(c) => c.p_get_server_addr(),
        }
    }
}

} // verus!
