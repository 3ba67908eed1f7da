use vstd::prelude::*;
use crate::error::Error;
use crate::stream::{
    copy_range, ReadStream, SeekAbsolute, SeekBackward, SeekEnd, SeekForward, SeekRewind,
    StreamView, Tell,
};

verus! {

/// The buffer size a plain `new` uses.
pub const DEFAULT_BUF_SIZE: usize = 0x10000;

/// A buffered reader whose buffer survives small seeks.
///
/// A forward or backward seek that stays within the buffered window is
/// satisfied by moving the internal cursor alone, without touching the
/// inner stream; any seek outside that window discards the buffer and
/// delegates to the inner stream's own capability.
pub struct BufSeeker<T> {
    inner: T,
    buf: Vec<u8>,
    pos: usize,
    cap: usize,
}

impl<T: StreamView> StreamView for BufSeeker<T> {
    closed spec fn bytes(&self) -> Seq<u8> {
        self.inner.bytes()
    }

    closed spec fn pos(&self) -> nat {
        (self.inner.pos() - (self.buf@.len() - self.pos as nat)) as nat
    }

    closed spec fn cap(&self) -> nat {
        self.inner.cap()
    }

    closed spec fn inv(&self) -> bool {
        &&& self.inner.inv()
        &&& self.pos as nat <= self.buf@.len()
        &&& self.buf@.len() <= self.inner.pos()
        &&& self.buf@.len() > 0 ==> self.inner.pos() <= self.inner.bytes().len()
        &&& self.buf@.len() > 0 ==> self.buf@ == self.inner.bytes().subrange(
            self.inner.pos() - self.buf@.len(),
            self.inner.pos() as int,
        )
        &&& self.cap >= 1
    }

    closed spec fn infallible(&self) -> bool {
        self.inner.infallible()
    }

    proof fn lemma_inv(&self) {
        self.inner.lemma_inv();
    }
}

impl<T: StreamView> BufSeeker<T> {
    /// How many buffered bytes lie ahead of the cursor: a forward seek by
    /// at most this much is served from the buffer alone.
    pub closed spec fn buffered_ahead(&self) -> nat {
        (self.buf@.len() - self.pos as nat) as nat
    }

    /// How many buffered bytes lie behind the cursor: a backward seek by
    /// at most this much is served from the buffer alone.
    pub closed spec fn buffered_behind(&self) -> nat {
        self.pos as nat
    }

    /// Creates a buffered seeker with the default buffer size.
    pub fn new(inner: T) -> (r: BufSeeker<T>)
        ensures
            r.inv() == inner.inv(),
            r.bytes() == inner.bytes(),
            r.pos() == inner.pos(),
            r.cap() == inner.cap(),
            r.infallible() == inner.infallible(),
    {
        BufSeeker::with_capacity(DEFAULT_BUF_SIZE, inner)
    }

    /// Creates a buffered seeker with a specific buffer size; a size of
    /// zero is raised to one so that reads always make progress.
    pub fn with_capacity(cap: usize, inner: T) -> (r: BufSeeker<T>)
        ensures
            r.inv() == inner.inv(),
            r.bytes() == inner.bytes(),
            r.pos() == inner.pos(),
            r.cap() == inner.cap(),
            r.infallible() == inner.infallible(),
    {
        let cap_actual: usize = if cap == 0 {
            1
        } else {
            cap
        };
        BufSeeker { inner, buf: Vec::new(), pos: 0, cap: cap_actual }
    }

    /// Unwraps the seeker, returning the underlying stream. Any data left
    /// in the buffer is lost: the inner stream stands at the end of what
    /// was buffered, not at this seeker's logical position.
    pub fn into_inner(self) -> (r: T)
        ensures
            r.bytes() == self.bytes(),
    {
        self.inner
    }
}

impl<T: ReadStream> ReadStream for BufSeeker<T> {
    fn read(&mut self, n: usize) -> (r: Result<Vec<u8>, Error>) {
        if self.pos >= self.buf.len() {
            // The buffer is exhausted; the logical and inner cursors agree.
            self.buf = Vec::new();
            self.pos = 0;
            if n >= self.cap {
                // A read at least as large as the buffer bypasses it.
                return self.inner.read(n);
            }
            // Refill the buffer from the inner stream.
            match self.inner.read(self.cap) {
                Ok(v) => {
                    self.buf = v;
                    self.pos = 0;
                    proof {
                        if self.buf@.len() > 0 {
                            assert(self.buf@ =~= self.inner.bytes().subrange(
                                self.inner.pos() - self.buf@.len(),
                                self.inner.pos() as int,
                            ));
                        }
                    }
                },
                Err(e) => {
                    return Err(e);
                },
            }
        }
        let avail = self.buf.len() - self.pos;
        let k: usize = if n <= avail {
            n
        } else {
            avail
        };
        let out = copy_range(&self.buf, self.pos, k);
        self.pos = self.pos + k;
        Ok(out)
    }
}

impl<T: SeekForward> SeekForward for BufSeeker<T> {
    /// A forward seek within the buffered window moves only the internal
    /// cursor: it always succeeds in full and touches nothing, not even on
    /// a write-filling inner stream. Seeking further discards the buffer
    /// and delegates the excess.
    fn seek_forward(&mut self, offset: u64) -> (r: Result<u64, Error>)
        ensures
            offset as nat <= old(self).buffered_ahead() ==> (r matches Ok(k) && k == offset
                && final(self).bytes() == old(self).bytes()),
    {
        let ahead: usize = self.buf.len() - self.pos;
        if offset <= ahead as u64 {
            self.pos = self.pos + offset as usize;
            proof {
                crate::stream::lemma_unchanged_within(
                    self.inner.bytes(),
                    old(self).pos(),
                    (old(self).pos() + offset) as nat,
                );
            }
            Ok(offset)
        } else {
            let extra = offset - ahead as u64;
            self.buf = Vec::new();
            self.pos = 0;
            let ghost mid = *self;
            match self.inner.seek_forward(extra) {
                Ok(k) => {
                    proof {
                        crate::stream::lemma_within_widen(
                            mid.inner.bytes(),
                            self.inner.bytes(),
                            mid.inner.pos(),
                            mid.inner.pos() + k as nat,
                            old(self).pos(),
                            (old(self).pos() + ahead as nat + k as nat) as nat,
                        );
                    }
                    Ok(ahead as u64 + k)
                },
                Err(e) => Err(e),
            }
        }
    }
}

impl<T: SeekBackward> SeekBackward for BufSeeker<T> {
    /// A backward seek within the buffered window moves only the internal
    /// cursor and always succeeds in full; seeking further back discards
    /// the buffer and delegates the whole distance.
    fn seek_backward(&mut self, offset: u64) -> (r: Result<u64, Error>)
        ensures
            offset as nat <= old(self).buffered_behind() ==> (r matches Ok(k) && k == offset),
    {
        if offset <= self.pos as u64 {
            self.pos = self.pos - offset as usize;
            Ok(offset)
        } else {
            let behind: u64 = (self.buf.len() - self.pos) as u64;
            self.buf = Vec::new();
            self.pos = 0;
            proof {
                self.inner.lemma_inv();
            }
            let back: u64 = if offset > u64::MAX - behind {
                u64::MAX
            } else {
                offset + behind
            };
            match self.inner.seek_backward(back) {
                Ok(k) => Ok(k - behind),
                Err(e) => Err(e),
            }
        }
    }
}

impl<T: SeekRewind> SeekRewind for BufSeeker<T> {
    fn seek_rewind(&mut self) -> (r: Result<(), Error>) {
        self.buf = Vec::new();
        self.pos = 0;
        self.inner.seek_rewind()
    }
}

impl<T: Tell> Tell for BufSeeker<T> {
    fn tell(&mut self) -> (r: Result<u64, Error>) {
        let behind: u64 = (self.buf.len() - self.pos) as u64;
        match self.inner.tell() {
            Ok(p) => Ok(p - behind),
            Err(e) => Err(e),
        }
    }
}

impl<T: SeekAbsolute> SeekAbsolute for BufSeeker<T> {
    fn seek_absolute(&mut self, pos: u64) -> (r: Result<u64, Error>) {
        self.buf = Vec::new();
        self.pos = 0;
        self.inner.seek_absolute(pos)
    }
}

impl<T: SeekEnd> SeekEnd for BufSeeker<T> {
    fn seek_end(&mut self, offset: i64) -> (r: Result<u64, Error>) {
        self.buf = Vec::new();
        self.pos = 0;
        self.inner.seek_end(offset)
    }
}

} // verus!
