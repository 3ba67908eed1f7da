use vstd::prelude::*;
use crate::error::Error;
use crate::stream::{
    lemma_write_bytes_concat, lemma_zero_bytes_concat, lemma_zero_fill_below, min_nat, sat_sub_nat,
    write_bytes, zero_bytes, ReadStream, SeekAbsolute, SeekBackward, SeekEnd, SeekForward,
    SeekFrom, SeekRewind, SeekStream, StreamView, Tell, WriteStream,
};

verus! {

/// A forward-seeking wrapper around a readable stream: synthesizes
/// `seek_forward` by reading and discarding exactly the skipped bytes, so a
/// forward seek can stop short only at the end of the stream.
pub struct SeekForwardRead<T> {
    inner: T,
}

/// A forward-seeking wrapper around a writable sink: synthesizes
/// `seek_forward` by writing zero filler bytes, which makes forward seeking
/// meaningful for write-only sinks and pads gaps deterministically.
pub struct SeekForwardWrite<T> {
    inner: T,
}

/// An absolute-seeking wrapper over a stream that can only rewind and seek
/// forward: a target at or after the cursor seeks the difference, an
/// earlier one rewinds first and seeks the whole way.
pub struct SeekAbsoluteRewind<T> {
    inner: T,
}

/// A wrapper that decomposes true random-access seeking into the six
/// capability traits.
pub struct SeekAll<T> {
    inner: T,
}

/// A position-tracking wrapper for streams exposing no `tell` of their own:
/// it keeps a running offset counter, incremented on every successful read,
/// write and forward seek and reset on rewind.
///
/// The wrapper must be attached at the stream's origin: its counter, its
/// rewind target and the absolute positions it reports are all measured
/// from the start of the stream, and none of them is meaningful from a
/// nonzero attach point.
///
/// If an operation fails after moving the underlying stream an unknown
/// distance, the counter can no longer be trusted; the wrapper then resets
/// it and refuses further work instead of reporting wrong positions.
pub struct ReadWriteTell<T> {
    inner: T,
    pos: u64,
    ok: bool,
}

impl<T: StreamView> StreamView for SeekForwardRead<T> {
    closed spec fn bytes(&self) -> Seq<u8> {
        self.inner.bytes()
    }

    closed spec fn pos(&self) -> nat {
        self.inner.pos()
    }

    closed spec fn cap(&self) -> nat {
        self.inner.cap()
    }

    closed spec fn inv(&self) -> bool {
        self.inner.inv()
    }

    closed spec fn infallible(&self) -> bool {
        self.inner.infallible()
    }

    proof fn lemma_inv(&self) {
        self.inner.lemma_inv();
    }
}

impl<T: StreamView> SeekForwardRead<T> {
    /// Wraps a readable stream.
    pub fn new(inner: T) -> (r: SeekForwardRead<T>)
        ensures
            r.inv() == inner.inv(),
            r.bytes() == inner.bytes(),
            r.pos() == inner.pos(),
            r.cap() == inner.cap(),
            r.infallible() == inner.infallible(),
    {
        SeekForwardRead { inner }
    }

    /// Unwraps the adapter, returning the inner stream.
    pub fn into_inner(self) -> (r: T)
        ensures
            r.bytes() == self.bytes(),
            r.pos() == self.pos(),
    {
        self.inner
    }
}

impl<T: ReadStream> SeekForward for SeekForwardRead<T> {
    fn seek_forward(&mut self, offset: u64) -> (r: Result<u64, Error>)
        ensures
            r matches Ok(k) ==> k as nat == min_nat(
                offset as nat,
                sat_sub_nat(old(self).bytes().len(), old(self).pos()),
            ),
            r is Ok ==> final(self).bytes() == old(self).bytes(),
    {
        let mut advanced: u64 = 0;
        let mut done = false;
        while !done && advanced < offset
            invariant
                old(self).inv(),
                self.inv(),
                advanced <= offset,
                self.bytes() == old(self).bytes(),
                self.cap() == old(self).cap(),
                self.pos() == old(self).pos() + advanced,
                advanced > 0 ==> old(self).pos() + advanced <= old(self).bytes().len(),
                done ==> self.pos() >= self.bytes().len(),
                old(self).infallible() ==> self.infallible(),
            decreases offset - advanced, if done {
                0int
            } else {
                1int
            },
        {
            let rem = offset - advanced;
            let chunk: usize = if rem > 0x10000 {
                0x10000
            } else {
                rem as usize
            };
            match self.inner.read(chunk) {
                Ok(v) => {
                    if v.len() == 0 {
                        done = true;
                    } else {
                        advanced = advanced + v.len() as u64;
                    }
                },
                Err(e) => {
                    return Err(e);
                },
            }
        }
        Ok(advanced)
    }
}

impl<T: ReadStream> ReadStream for SeekForwardRead<T> {
    fn read(&mut self, n: usize) -> (r: Result<Vec<u8>, Error>) {
        self.inner.read(n)
    }
}

impl<T: Tell> Tell for SeekForwardRead<T> {
    fn tell(&mut self) -> (r: Result<u64, Error>) {
        self.inner.tell()
    }
}

impl<T: SeekRewind> SeekRewind for SeekForwardRead<T> {
    fn seek_rewind(&mut self) -> (r: Result<(), Error>) {
        self.inner.seek_rewind()
    }
}

impl<T: SeekAbsolute> SeekAbsolute for SeekForwardRead<T> {
    fn seek_absolute(&mut self, pos: u64) -> (r: Result<u64, Error>) {
        self.inner.seek_absolute(pos)
    }
}

impl<T: SeekEnd> SeekEnd for SeekForwardRead<T> {
    fn seek_end(&mut self, offset: i64) -> (r: Result<u64, Error>) {
        self.inner.seek_end(offset)
    }
}

impl<T: SeekBackward> SeekBackward for SeekForwardRead<T> {
    fn seek_backward(&mut self, offset: u64) -> (r: Result<u64, Error>) {
        self.inner.seek_backward(offset)
    }
}

impl<T: StreamView> StreamView for SeekForwardWrite<T> {
    closed spec fn bytes(&self) -> Seq<u8> {
        self.inner.bytes()
    }

    closed spec fn pos(&self) -> nat {
        self.inner.pos()
    }

    closed spec fn cap(&self) -> nat {
        self.inner.cap()
    }

    closed spec fn inv(&self) -> bool {
        self.inner.inv()
    }

    closed spec fn infallible(&self) -> bool {
        false
    }

    proof fn lemma_inv(&self) {
        self.inner.lemma_inv();
    }
}

impl<T: StreamView> SeekForwardWrite<T> {
    /// Wraps a writable sink.
    pub fn new(inner: T) -> (r: SeekForwardWrite<T>)
        ensures
            r.inv() == inner.inv(),
            r.bytes() == inner.bytes(),
            r.pos() == inner.pos(),
            r.cap() == inner.cap(),
            !r.infallible(),
    {
        SeekForwardWrite { inner }
    }

    /// Unwraps the adapter, returning the inner sink.
    pub fn into_inner(self) -> (r: T)
        ensures
            r.bytes() == self.bytes(),
            r.pos() == self.pos(),
    {
        self.inner
    }
}

impl<T: WriteStream> SeekForward for SeekForwardWrite<T> {
    /// Skips by writing zero filler: on success exactly `offset` zero bytes
    /// were written. A sink too small for the filler is an error, not a
    /// short skip — falling short silently is for read-backed skipping.
    fn seek_forward(&mut self, offset: u64) -> (r: Result<u64, Error>)
        ensures
            r matches Ok(k) ==> k == offset && final(self).bytes() == crate::stream::write_bytes(
                old(self).bytes(),
                old(self).pos(),
                zero_bytes(offset as nat),
            ) && final(self).pos() == old(self).pos() + offset,
            old(self).pos() + offset > old(self).cap() ==> r is Err,
    {
        let mut advanced: u64 = 0;
        proof {
            self.lemma_inv();
            assert(write_bytes(old(self).bytes(), old(self).pos(), zero_bytes(0)) == old(
                self,
            ).bytes());
        }
        while advanced < offset
            invariant
                old(self).inv(),
                self.inv(),
                advanced <= offset,
                self.cap() == old(self).cap(),
                self.bytes() == write_bytes(
                    old(self).bytes(),
                    old(self).pos(),
                    zero_bytes(advanced as nat),
                ),
                self.pos() == old(self).pos() + advanced,
                old(self).pos() + advanced <= old(self).cap(),
            decreases offset - advanced,
        {
            let rem = offset - advanced;
            let chunk: usize = if rem > 0x1000 {
                0x1000
            } else {
                rem as usize
            };
            let filler = vec![0u8; chunk];
            let ghost pre_bytes = self.bytes();
            let ghost pre_pos = self.pos();
            match self.inner.write(filler.as_slice()) {
                Ok(k) => {
                    proof {
                        self.lemma_inv();
                        assert(filler@.take(k as int) =~= zero_bytes(k as nat));
                        lemma_write_bytes_concat(
                            old(self).bytes(),
                            old(self).pos(),
                            zero_bytes(advanced as nat),
                            zero_bytes(k as nat),
                        );
                        lemma_zero_bytes_concat(advanced as nat, k as nat);
                    }
                    if k < chunk {
                        return Err(Error::WriteZero);
                    }
                    advanced = advanced + k as u64;
                },
                Err(e) => {
                    return Err(e);
                },
            }
        }
        proof {
            lemma_zero_fill_below(old(self).bytes(), old(self).pos(), advanced as nat);
        }
        Ok(advanced)
    }
}

impl<T: WriteStream> WriteStream for SeekForwardWrite<T> {
    fn write(&mut self, buf: &[u8]) -> (r: Result<usize, Error>) {
        self.inner.write(buf)
    }
}

impl<T: Tell> Tell for SeekForwardWrite<T> {
    fn tell(&mut self) -> (r: Result<u64, Error>) {
        self.inner.tell()
    }
}

impl<T: SeekRewind> SeekRewind for SeekForwardWrite<T> {
    fn seek_rewind(&mut self) -> (r: Result<(), Error>) {
        self.inner.seek_rewind()
    }
}

impl<T: SeekAbsolute> SeekAbsolute for SeekForwardWrite<T> {
    fn seek_absolute(&mut self, pos: u64) -> (r: Result<u64, Error>) {
        self.inner.seek_absolute(pos)
    }
}

impl<T: SeekEnd> SeekEnd for SeekForwardWrite<T> {
    fn seek_end(&mut self, offset: i64) -> (r: Result<u64, Error>) {
        self.inner.seek_end(offset)
    }
}

impl<T: SeekBackward> SeekBackward for SeekForwardWrite<T> {
    fn seek_backward(&mut self, offset: u64) -> (r: Result<u64, Error>) {
        self.inner.seek_backward(offset)
    }
}

impl<T: StreamView> StreamView for SeekAbsoluteRewind<T> {
    closed spec fn bytes(&self) -> Seq<u8> {
        self.inner.bytes()
    }

    closed spec fn pos(&self) -> nat {
        self.inner.pos()
    }

    closed spec fn cap(&self) -> nat {
        self.inner.cap()
    }

    closed spec fn inv(&self) -> bool {
        self.inner.inv()
    }

    closed spec fn infallible(&self) -> bool {
        false
    }

    proof fn lemma_inv(&self) {
        self.inner.lemma_inv();
    }
}

impl<T: StreamView> SeekAbsoluteRewind<T> {
    /// Wraps a stream that can tell, seek forward and rewind.
    pub fn new(inner: T) -> (r: SeekAbsoluteRewind<T>)
        ensures
            r.inv() == inner.inv(),
            r.bytes() == inner.bytes(),
            r.pos() == inner.pos(),
            r.cap() == inner.cap(),
            !r.infallible(),
    {
        SeekAbsoluteRewind { inner }
    }

    /// Unwraps the adapter, returning the inner stream.
    pub fn into_inner(self) -> (r: T)
        ensures
            r.bytes() == self.bytes(),
            r.pos() == self.pos(),
    {
        self.inner
    }
}

impl<T: Tell + SeekForward + SeekRewind> SeekAbsolute for SeekAbsoluteRewind<T> {
    /// Lands exactly on the target, stopping short only where a read-backed
    /// forward seek ran out of stream.
    fn seek_absolute(&mut self, pos: u64) -> (r: Result<u64, Error>)
        ensures
            r matches Ok(np) ==> (np as nat == pos as nat || np as nat >= old(
                self,
            ).bytes().len()),
    {
        if pos == 0 {
            return match self.inner.seek_rewind() {
                Ok(_) => Ok(0),
                Err(e) => Err(e),
            };
        }
        let cur = match self.inner.tell() {
            Ok(p) => p,
            Err(e) => {
                return Err(e);
            },
        };
        let base: u64 = if cur > pos {
            match self.inner.seek_rewind() {
                Ok(_) => 0,
                Err(e) => {
                    return Err(e);
                },
            }
        } else {
            cur
        };
        let diff = pos - base;
        let ghost pre_bytes = self.inner.bytes();
        match self.inner.seek_forward(diff) {
            Ok(v) => {
                proof {
                    if self.inner.bytes() != pre_bytes {
                        lemma_zero_fill_below(pre_bytes, base as nat, v as nat);
                    }
                }
                Ok(base + v)
            },
            Err(e) => Err(e),
        }
    }
}

impl<T: Tell> Tell for SeekAbsoluteRewind<T> {
    fn tell(&mut self) -> (r: Result<u64, Error>) {
        self.inner.tell()
    }
}

impl<T: SeekForward> SeekForward for SeekAbsoluteRewind<T> {
    fn seek_forward(&mut self, offset: u64) -> (r: Result<u64, Error>) {
        self.inner.seek_forward(offset)
    }
}

impl<T: SeekRewind> SeekRewind for SeekAbsoluteRewind<T> {
    fn seek_rewind(&mut self) -> (r: Result<(), Error>) {
        self.inner.seek_rewind()
    }
}

impl<T: SeekEnd> SeekEnd for SeekAbsoluteRewind<T> {
    fn seek_end(&mut self, offset: i64) -> (r: Result<u64, Error>) {
        self.inner.seek_end(offset)
    }
}

impl<T: SeekBackward> SeekBackward for SeekAbsoluteRewind<T> {
    fn seek_backward(&mut self, offset: u64) -> (r: Result<u64, Error>) {
        self.inner.seek_backward(offset)
    }
}

impl<T: ReadStream> ReadStream for SeekAbsoluteRewind<T> {
    fn read(&mut self, n: usize) -> (r: Result<Vec<u8>, Error>) {
        self.inner.read(n)
    }
}

impl<T: WriteStream> WriteStream for SeekAbsoluteRewind<T> {
    fn write(&mut self, buf: &[u8]) -> (r: Result<usize, Error>) {
        self.inner.write(buf)
    }
}

impl<T: StreamView> StreamView for SeekAll<T> {
    closed spec fn bytes(&self) -> Seq<u8> {
        self.inner.bytes()
    }

    closed spec fn pos(&self) -> nat {
        self.inner.pos()
    }

    closed spec fn cap(&self) -> nat {
        self.inner.cap()
    }

    closed spec fn inv(&self) -> bool {
        self.inner.inv()
    }

    closed spec fn infallible(&self) -> bool {
        self.inner.infallible()
    }

    proof fn lemma_inv(&self) {
        self.inner.lemma_inv();
    }
}

impl<T: StreamView> SeekAll<T> {
    /// Wraps a stream with true random-access seeking.
    pub fn new(inner: T) -> (r: SeekAll<T>)
        ensures
            r.inv() == inner.inv(),
            r.bytes() == inner.bytes(),
            r.pos() == inner.pos(),
            r.cap() == inner.cap(),
            r.infallible() == inner.infallible(),
    {
        SeekAll { inner }
    }

    /// Unwraps the adapter, returning the inner stream.
    pub fn into_inner(self) -> (r: T)
        ensures
            r.bytes() == self.bytes(),
            r.pos() == self.pos(),
    {
        self.inner
    }
}

impl<T: SeekStream> Tell for SeekAll<T> {
    fn tell(&mut self) -> (r: Result<u64, Error>)
        ensures
            r is Ok,
    {
        proof {
            self.inner.lemma_inv();
        }
        self.inner.seek(SeekFrom::Current(0))
    }
}

impl<T: SeekStream> SeekForward for SeekAll<T> {
    /// A true random-access jump: it never reads or writes, and succeeds
    /// outright, clamped only at the stream's capacity.
    fn seek_forward(&mut self, offset: u64) -> (r: Result<u64, Error>)
        ensures
            r is Ok,
            r matches Ok(k) ==> final(self).bytes() == old(self).bytes(),
    {
        proof {
            self.inner.lemma_inv();
        }
        let p0 = match self.inner.seek(SeekFrom::Current(0)) {
            Ok(p) => p,
            Err(e) => {
                return Err(e);
            },
        };
        let target: u64 = if offset > u64::MAX - p0 {
            u64::MAX
        } else {
            p0 + offset
        };
        match self.inner.seek(SeekFrom::Start(target)) {
            Ok(np) => Ok(np - p0),
            Err(e) => Err(e),
        }
    }
}

impl<T: SeekStream> SeekBackward for SeekAll<T> {
    fn seek_backward(&mut self, offset: u64) -> (r: Result<u64, Error>)
        ensures
            r is Ok,
    {
        proof {
            self.inner.lemma_inv();
        }
        let p0 = match self.inner.seek(SeekFrom::Current(0)) {
            Ok(p) => p,
            Err(e) => {
                return Err(e);
            },
        };
        let k: u64 = if offset <= p0 {
            offset
        } else {
            p0
        };
        match self.inner.seek(SeekFrom::Start(p0 - k)) {
            Ok(_) => Ok(k),
            Err(e) => Err(e),
        }
    }
}

impl<T: SeekStream> SeekAbsolute for SeekAll<T> {
    fn seek_absolute(&mut self, pos: u64) -> (r: Result<u64, Error>)
        ensures
            r is Ok,
            r matches Ok(np) ==> np as nat == crate::stream::min_nat(
                pos as nat,
                old(self).cap(),
            ) && final(self).bytes() == old(self).bytes(),
    {
        proof {
            self.inner.lemma_inv();
        }
        self.inner.seek(SeekFrom::Start(pos))
    }
}

impl<T: SeekStream> SeekRewind for SeekAll<T> {
    fn seek_rewind(&mut self) -> (r: Result<(), Error>)
        ensures
            r is Ok,
    {
        match self.inner.seek(SeekFrom::Start(0)) {
            Ok(_) => Ok(()),
            Err(e) => Err(e),
        }
    }
}

impl<T: SeekStream> SeekEnd for SeekAll<T> {
    fn seek_end(&mut self, offset: i64) -> (r: Result<u64, Error>)
        ensures
            r is Ok,
            r matches Ok(np) ==> np as nat == crate::stream::resolve_seek(
                crate::stream::SeekFrom::End(offset),
                old(self).pos(),
                old(self).bytes().len(),
                old(self).cap(),
            ),
    {
        self.inner.seek(SeekFrom::End(offset))
    }
}

impl<T: ReadStream> ReadStream for SeekAll<T> {
    fn read(&mut self, n: usize) -> (r: Result<Vec<u8>, Error>) {
        self.inner.read(n)
    }
}

impl<T: WriteStream> WriteStream for SeekAll<T> {
    fn write(&mut self, buf: &[u8]) -> (r: Result<usize, Error>) {
        self.inner.write(buf)
    }
}

impl<T: StreamView> StreamView for ReadWriteTell<T> {
    closed spec fn bytes(&self) -> Seq<u8> {
        self.inner.bytes()
    }

    closed spec fn pos(&self) -> nat {
        self.pos as nat
    }

    closed spec fn cap(&self) -> nat {
        self.inner.cap()
    }

    closed spec fn inv(&self) -> bool {
        &&& self.inner.inv()
        &&& if self.ok {
            self.pos as nat == self.inner.pos()
        } else {
            self.pos == 0
        }
    }

    closed spec fn infallible(&self) -> bool {
        self.inner.infallible() && self.ok
    }

    proof fn lemma_inv(&self) {
        self.inner.lemma_inv();
    }
}

impl<T: StreamView> ReadWriteTell<T> {
    /// Wraps a stream positioned at its start, so the running counter and
    /// the true position agree from the first operation on.
    pub fn new(inner: T) -> (r: ReadWriteTell<T>)
        requires
            inner.pos() == 0,
        ensures
            r.inv() == inner.inv(),
            r.bytes() == inner.bytes(),
            r.pos() == 0,
            r.cap() == inner.cap(),
            r.infallible() == inner.infallible(),
    {
        ReadWriteTell { inner, pos: 0, ok: true }
    }

    /// Unwraps the adapter, returning the inner stream.
    pub fn into_inner(self) -> (r: T)
        ensures
            r.bytes() == self.bytes(),
    {
        self.inner
    }
}

impl<T: StreamView> Tell for ReadWriteTell<T> {
    fn tell(&mut self) -> (r: Result<u64, Error>) {
        Ok(self.pos)
    }
}

impl<T: ReadStream> ReadStream for ReadWriteTell<T> {
    /// A failing inner read leaves the inner cursor unknowable, so the
    /// wrapper resets its counter and refuses further work.
    fn read(&mut self, n: usize) -> (r: Result<Vec<u8>, Error>)
        ensures
            r is Err ==> final(self).pos() == 0,
    {
        if !self.ok {
            return Err(Error::InvalidSeek);
        }
        match self.inner.read(n) {
            Ok(v) => {
                proof {
                    self.inner.lemma_inv();
                }
                self.pos = self.pos + v.len() as u64;
                Ok(v)
            },
            Err(e) => {
                self.pos = 0;
                self.ok = false;
                Err(e)
            },
        }
    }
}

impl<T: WriteStream> WriteStream for ReadWriteTell<T> {
    /// As with reads, a failing inner write resets the counter and poisons
    /// the wrapper.
    fn write(&mut self, buf: &[u8]) -> (r: Result<usize, Error>)
        ensures
            r is Err ==> final(self).pos() == 0,
    {
        if !self.ok {
            return Err(Error::WriteZero);
        }
        match self.inner.write(buf) {
            Ok(k) => {
                proof {
                    self.inner.lemma_inv();
                }
                self.pos = self.pos + k as u64;
                Ok(k)
            },
            Err(e) => {
                self.pos = 0;
                self.ok = false;
                Err(e)
            },
        }
    }
}

impl<T: SeekForward> SeekForward for ReadWriteTell<T> {
    /// A failing inner seek resets the counter and poisons the wrapper.
    fn seek_forward(&mut self, offset: u64) -> (r: Result<u64, Error>)
        ensures
            r is Err ==> final(self).pos() == 0,
    {
        if !self.ok {
            return Err(Error::InvalidSeek);
        }
        match self.inner.seek_forward(offset) {
            Ok(k) => {
                proof {
                    self.inner.lemma_inv();
                }
                self.pos = self.pos + k;
                Ok(k)
            },
            Err(e) => {
                self.pos = 0;
                self.ok = false;
                Err(e)
            },
        }
    }
}

impl<T: SeekRewind> SeekRewind for ReadWriteTell<T> {
    /// A failing inner rewind resets the counter and poisons the wrapper.
    fn seek_rewind(&mut self) -> (r: Result<(), Error>)
        ensures
            r is Err ==> final(self).pos() == 0,
    {
        if !self.ok {
            return Err(Error::InvalidSeek);
        }
        match self.inner.seek_rewind() {
            Ok(_) => {
                self.pos = 0;
                Ok(())
            },
            Err(e) => {
                self.pos = 0;
                self.ok = false;
                Err(e)
            },
        }
    }
}

impl<T: SeekAbsolute> SeekAbsolute for ReadWriteTell<T> {
    /// A failing inner seek resets the counter and poisons the wrapper.
    fn seek_absolute(&mut self, pos: u64) -> (r: Result<u64, Error>)
        ensures
            r is Err ==> final(self).pos() == 0,
    {
        if !self.ok {
            return Err(Error::InvalidSeek);
        }
        match self.inner.seek_absolute(pos) {
            Ok(np) => {
                self.pos = np;
                Ok(np)
            },
            Err(e) => {
                self.pos = 0;
                self.ok = false;
                Err(e)
            },
        }
    }
}

} // verus!
