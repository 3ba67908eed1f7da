use vstd::prelude::*;
use crate::error::Error;
use crate::stream::{
    write_bytes, ReadStream, SeekAbsolute, SeekBackward, SeekEnd, SeekForward, SeekFrom,
    SeekRewind, SeekStream, StreamView, Tell, WriteStream,
};

verus! {

/// An in-memory stream over a byte vector: the random-access primitive the
/// capability adapters decompose, and the sink the coding engine writes to.
///
/// The cursor may sit past the end of the content; reading there yields an
/// empty result, and writing there first fills the gap with zero bytes.
pub struct MemStream {
    data: Vec<u8>,
    pos: u64,
}

/// `data` extended with zero bytes up to offset `p`, if it is shorter.
pub open spec fn padded_to(data: Seq<u8>, p: nat) -> Seq<u8> {
    if data.len() >= p {
        data
    } else {
        data + crate::stream::zero_bytes((p - data.len()) as nat)
    }
}

proof fn lemma_write_over_padded(data: Seq<u8>, p: nat, buf: Seq<u8>)
    requires
        buf.len() > 0,
    ensures
        write_bytes(padded_to(data, p), p, buf) == write_bytes(data, p, buf),
{
    assert(write_bytes(padded_to(data, p), p, buf) =~= write_bytes(data, p, buf));
}

impl StreamView for MemStream {
    closed spec fn bytes(&self) -> Seq<u8> {
        self.data@
    }

    closed spec fn pos(&self) -> nat {
        self.pos as nat
    }

    closed spec fn cap(&self) -> nat {
        usize::MAX as nat
    }

    closed spec fn inv(&self) -> bool {
        self.pos as nat <= usize::MAX as nat
    }

    closed spec fn infallible(&self) -> bool {
        true
    }

    proof fn lemma_inv(&self) {
        vstd::std_specs::vec::axiom_spec_len(&self.data);
    }
}

impl MemStream {
    /// Creates a stream over `data` with the cursor at the start.
    pub fn new(data: Vec<u8>) -> (r: MemStream)
        ensures
            r.inv(),
            r.bytes() == data@,
            r.pos() == 0,
            r.cap() == usize::MAX as nat,
            r.infallible(),
    {
        MemStream { data, pos: 0 }
    }

    /// Unwraps the stream, returning its content.
    pub fn into_inner(self) -> (r: Vec<u8>)
        ensures
            r@ == self.bytes(),
    {
        self.data
    }

    /// The current cursor, without the ceremony of the `Tell` capability.
    pub fn position(&self) -> (r: u64)
        ensures
            r as nat == self.pos(),
    {
        self.pos
    }
}

impl ReadStream for MemStream {
    fn read(&mut self, n: usize) -> (r: Result<Vec<u8>, Error>)
        ensures
            r is Ok,
            r matches Ok(v) ==> v@.len() == if n as nat <= old(self).avail_spec() {
                n as nat
            } else {
                old(self).avail_spec()
            },
    {
        let len = self.data.len();
        proof {
            assert(old(self).pos() <= usize::MAX as nat);
        }
        let pu = self.pos as usize;
        let avail: usize = if pu >= len {
            0
        } else {
            len - pu
        };
        let k: usize = if n <= avail {
            n
        } else {
            avail
        };
        let mut out: Vec<u8> = Vec::new();
        proof {
            vstd::std_specs::vec::axiom_spec_len(&self.data);
        }
        let mut i: usize = 0;
        while i < k
            invariant
                i <= k,
                k <= n,
                k > 0 ==> pu + k <= self.data@.len(),
                self.data@.len() <= usize::MAX as nat,
                pu == old(self).pos(),
                *self == *old(self),
                out@.len() == i,
                forall|j: int| 0 <= j < i ==> out@[j] == self.data@[pu + j],
            decreases k - i,
        {
            let b = self.data[pu + i];
            out.push(b);
            i += 1;
        }
        self.pos = self.pos + k as u64;
        Ok(out)
    }
}

impl MemStream {
    /// How many bytes lie between the cursor and the end of the content.
    pub closed spec fn avail_spec(&self) -> nat {
        if self.pos() >= self.bytes().len() {
            0
        } else {
            (self.bytes().len() - self.pos()) as nat
        }
    }
}

impl WriteStream for MemStream {
    fn write(&mut self, buf: &[u8]) -> (r: Result<usize, Error>)
        ensures
            r is Ok,
            r matches Ok(k) ==> k as int == if buf@.len() as int <= usize::MAX - old(self).pos() {
                buf@.len() as int
            } else {
                usize::MAX - old(self).pos()
            },
    {
        let pu = self.pos as usize;
        let room: usize = usize::MAX - pu;
        let blen = buf.len();
        let k: usize = if blen <= room {
            blen
        } else {
            room
        };
        if k == 0 {
            assert(buf@.take(0) =~= Seq::<u8>::empty());
            return Ok(0);
        }
        let ghost orig: Seq<u8> = self.data@;
        while self.data.len() < pu
            invariant
                orig.len() <= self.data@.len(),
                self.data@.len() <= if orig.len() >= pu as nat {
                    orig.len()
                } else {
                    pu as nat
                },
                self.data@ == padded_to(orig, self.data@.len()),
                self.pos == old(self).pos,
                pu as nat == old(self).pos(),
            decreases pu - self.data@.len(),
        {
            self.data.push(0u8);
            assert(self.data@ =~= padded_to(orig, self.data@.len()));
        }
        assert(self.data@ =~= padded_to(orig, pu as nat));
        let ghost base: Seq<u8> = self.data@;
        let mut i: usize = 0;
        while i < k
            invariant
                i <= k,
                k <= buf@.len(),
                pu as nat + k as nat <= usize::MAX as nat,
                base.len() >= pu as nat,
                self.data@ == write_bytes(base, pu as nat, buf@.take(i as int)),
                self.data@.len() == if base.len() >= pu + i {
                    base.len()
                } else {
                    (pu + i) as nat
                },
                self.pos == old(self).pos,
                pu as nat == old(self).pos(),
            decreases k - i,
        {
            let b = buf[i];
            if pu + i < self.data.len() {
                self.data[pu + i] = b;
            } else {
                self.data.push(b);
            }
            i += 1;
            assert(self.data@ =~= write_bytes(base, pu as nat, buf@.take(i as int)));
        }
        proof {
            lemma_write_over_padded(orig, pu as nat, buf@.take(k as int));
        }
        self.pos = self.pos + k as u64;
        Ok(k)
    }
}

impl SeekStream for MemStream {
    fn seek(&mut self, from: SeekFrom) -> (r: Result<u64, Error>) {
        let len = self.data.len();
        let cap_u64: u64 = usize::MAX as u64;
        let target: u64 = match from {
            SeekFrom::Start(p) => {
                if p > cap_u64 {
                    cap_u64
                } else {
                    p
                }
            },
            SeekFrom::Current(off) => {
                let t: i128 = self.pos as i128 + off as i128;
                clamp_i128(t, cap_u64)
            },
            SeekFrom::End(off) => {
                let t: i128 = len as i128 + off as i128;
                clamp_i128(t, cap_u64)
            },
        };
        self.pos = target;
        Ok(target)
    }
}

/// Clamps a wide signed offset into `[0, cap]`.
fn clamp_i128(t: i128, cap: u64) -> (r: u64)
    ensures
        r as int == if t < 0 {
            0
        } else if t > cap {
            cap as int
        } else {
            t as int
        },
{
    if t < 0 {
        0
    } else if t > cap as i128 {
        cap
    } else {
        t as u64
    }
}


impl Tell for MemStream {
    fn tell(&mut self) -> (r: Result<u64, Error>) {
        Ok(self.pos)
    }
}

impl SeekForward for MemStream {
    fn seek_forward(&mut self, offset: u64) -> (r: Result<u64, Error>) {
        proof {
            vstd::std_specs::vec::axiom_spec_len(&self.data);
        }
        let p0 = self.pos;
        let target: u64 = if offset > u64::MAX - p0 {
            u64::MAX
        } else {
            p0 + offset
        };
        match self.seek(SeekFrom::Start(target)) {
            Ok(np) => Ok(np - p0),
            Err(e) => Err(e),
        }
    }
}

impl SeekBackward for MemStream {
    fn seek_backward(&mut self, offset: u64) -> (r: Result<u64, Error>) {
        let p0 = self.pos;
        let k: u64 = if offset <= p0 {
            offset
        } else {
            p0
        };
        match self.seek(SeekFrom::Start(p0 - k)) {
            Ok(_) => Ok(k),
            Err(e) => Err(e),
        }
    }
}

impl SeekAbsolute for MemStream {
    fn seek_absolute(&mut self, pos: u64) -> (r: Result<u64, Error>) {
        self.seek(SeekFrom::Start(pos))
    }
}

impl SeekEnd for MemStream {
    fn seek_end(&mut self, offset: i64) -> (r: Result<u64, Error>) {
        self.seek(SeekFrom::End(offset))
    }
}

impl SeekRewind for MemStream {
    fn seek_rewind(&mut self) -> (r: Result<(), Error>) {
        match self.seek(SeekFrom::Start(0)) {
            Ok(_) => Ok(()),
            Err(e) => Err(e),
        }
    }
}

} // verus!
