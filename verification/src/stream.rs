//! The byte-stream abstraction that both codecs talk to, and an in-memory
//! stream for driving them without a network.

use vstd::prelude::*;

verus! {

/// Carriage return.
pub const CR: u8 = 13;

/// Line feed.
pub const LF: u8 = 10;

/// A blocking bidirectional byte stream.
///
/// `inbox` models the bytes the peer will deliver next; `outbox` models the
/// bytes written so far.  A failed call promises nothing about the bytes it
/// moved, so after one a connection must be treated as poisoned.
pub trait ByteStream {
    /// The bytes still to be read from the peer.  An implementation kept
    /// outside the verifier may leave this model at its default.
    open spec fn inbox(&self) -> Seq<u8> {
        Seq::<u8>::empty()
    }

    /// The bytes written so far.  An implementation kept outside the
    /// verifier may leave this model at its default.
    open spec fn outbox(&self) -> Seq<u8> {
        Seq::<u8>::empty()
    }

    /// Write every byte of `data`; `false` on a transport failure.
    fn bs_write_all(&mut self, data: &[u8]) -> (ok: bool)
        ensures
            ok ==> final(self).outbox() == old(self).outbox() + data@ && final(self).inbox()
                == old(self).inbox(),
    ;

    /// Read exactly `n` bytes; `None` where the peer closes or the
    /// transport fails first.
    fn bs_read_exact(&mut self, n: usize) -> (r: Option<Vec<u8>>)
        ensures
            final(self).outbox() == old(self).outbox(),
            match r {
                Some(v) => old(self).inbox().len() >= n && v@ == old(self).inbox().take(n as int)
                    && final(self).inbox() == old(self).inbox().skip(n as int),
                None => true,
            },
    ;

    /// Read up to and including the next CRLF; returns the line without it.
    /// `None` where the peer closes first or a CR is not followed by LF.
    fn bs_read_line(&mut self) -> (r: Option<Vec<u8>>)
        ensures
            final(self).outbox() == old(self).outbox(),
            match r {
                Some(line) => {
                    let i = line@.len() as int;
                    &&& i + 2 <= old(self).inbox().len()
                    &&& line@ == old(self).inbox().take(i)
                    &&& forall|j: int| 0 <= j < i ==> old(self).inbox()[j] != CR
                    &&& old(self).inbox()[i] == CR
                    &&& old(self).inbox()[i + 1] == LF
                    &&& final(self).inbox() == old(self).inbox().skip(i + 2)
                },
                None => true,
            },
    ;
}

/// A stream over in-memory buffers: reads consume a preloaded input,
/// writes accumulate.  Tests and scripted sessions run the codecs on it.
pub struct MemoryStream {
    input: Vec<u8>,
    pos: usize,
    output: Vec<u8>,
}

impl MemoryStream {
    /// A stream whose peer will deliver exactly `input`.
    pub fn new(input: Vec<u8>) -> (s: Self)
        ensures
            s.inbox() == input@,
            s.outbox() == Seq::<u8>::empty(),
    {
        let s = MemoryStream { input, pos: 0, output: Vec::new() };
        proof {
            assert(s.inbox() =~= s.input@);
        }
        s
    }

    /// The bytes written so far.
    pub fn written(&self) -> (r: &Vec<u8>)
        ensures
            r@ == self.outbox(),
    {
        &self.output
    }

}

impl ByteStream for MemoryStream {
    closed spec fn inbox(&self) -> Seq<u8> {
        if self.pos <= self.input@.len() {
            self.input@.skip(self.pos as int)
        } else {
            Seq::empty()
        }
    }

    closed spec fn outbox(&self) -> Seq<u8> {
        self.output@
    }

    fn bs_write_all(&mut self, data: &[u8]) -> (ok: bool) {
        self.output.extend_from_slice(data);
        true
    }

    fn bs_read_exact(&mut self, n: usize) -> (r: Option<Vec<u8>>) {
        if self.pos > self.input.len() || self.input.len() - self.pos < n {
            return None;
        }
        let ghost old_self = *self;
        let mut v: Vec<u8> = Vec::new();
        let mut i: usize = 0;
        while i < n
            invariant
                i <= n,
                *self == old_self,
                old_self.pos + n <= old_self.input@.len(),
                old_self.pos + n <= usize::MAX,
                v@ == old_self.input@.subrange(
                    old_self.pos as int,
                    old_self.pos + i,
                ),
            decreases n - i,
        {
            v.push(self.input[self.pos + i]);
            proof {
                assert(v@ =~= old_self.input@.subrange(
                    old_self.pos as int,
                    old_self.pos + i + 1,
                ));
            }
            i = i + 1;
        }
        self.pos = self.pos + n;
        proof {
            assert(v@ =~= old_self.inbox().take(n as int));
            assert(self.inbox() =~= old_self.inbox().skip(n as int));
        }
        Some(v)
    }

    fn bs_read_line(&mut self) -> (r: Option<Vec<u8>>) {
        if self.pos > self.input.len() {
            return None;
        }
        let ghost old_self = *self;
        let mut i: usize = self.pos;
        while i < self.input.len() && self.input[i] != CR
            invariant
                old_self.pos <= i <= self.input@.len(),
                *self == old_self,
                forall|j: int| old_self.pos <= j < i ==> self.input@[j] != CR,
            decreases self.input@.len() - i,
        {
            i = i + 1;
        }
        if i >= self.input.len() || i + 1 >= self.input.len() {
            return None;
        }
        if self.input[i + 1] != LF {
            return None;
        }
        let line_len = i - self.pos;
        let mut v: Vec<u8> = Vec::new();
        let mut k: usize = 0;
        while k < line_len
            invariant
                k <= line_len,
                *self == old_self,
                old_self.pos + line_len + 2 <= old_self.input@.len(),
                old_self.pos + line_len <= usize::MAX,
                v@ == old_self.input@.subrange(
                    old_self.pos as int,
                    old_self.pos + k,
                ),
            decreases line_len - k,
        {
            v.push(self.input[self.pos + k]);
            proof {
                assert(v@ =~= old_self.input@.subrange(
                    old_self.pos as int,
                    old_self.pos + k + 1,
                ));
            }
            k = k + 1;
        }
        self.pos = i + 2;
        proof {
            let inbox = old_self.inbox();
            assert(v@ =~= inbox.take(line_len as int));
            assert(forall|j: int|
                0 <= j < line_len ==> inbox[j] == old_self.input@[old_self.pos + j]);
            assert(inbox[line_len as int] == CR);
            assert(inbox[line_len as int + 1] == LF);
            assert(self.inbox() =~= inbox.skip(line_len as int + 2));
        }
        Some(v)
    }
}

} // verus!
