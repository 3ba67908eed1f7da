use vstd::prelude::*;
use crate::error::Error;
use crate::stream::{
    min_nat, prefix_vec, write_bytes, zero_bytes, ReadStream, SeekForward, StreamView, Tell,
    WriteStream,
};

verus! {

/// Wraps a stream to limit how many bytes may pass through it.
///
/// Every read, write and forward seek is capped at the remaining `limit`,
/// and the limit shrinks by exactly the amount the inner operation reports
/// as completed. The limit can reach zero without error; operations there
/// simply complete with zero bytes.
pub struct Take<T> {
    inner: T,
    limit: u64,
}

/// The bytes a bounded view exposes: the inner content cut off at `stop`.
pub open spec fn cut_view(inner: Seq<u8>, stop: nat) -> Seq<u8> {
    inner.take(min_nat(inner.len(), stop) as int)
}

/// Writing within the bound commutes with cutting the view at the bound.
pub proof fn lemma_cut_write(data: Seq<u8>, pos: nat, buf: Seq<u8>, stop: nat)
    requires
        pos + buf.len() <= stop,
    ensures
        cut_view(write_bytes(data, pos, buf), stop) == write_bytes(cut_view(data, stop), pos, buf),
{
    if buf.len() == 0 {
        assert(cut_view(write_bytes(data, pos, buf), stop) =~= write_bytes(
            cut_view(data, stop),
            pos,
            buf,
        ));
    } else {
        assert(cut_view(write_bytes(data, pos, buf), stop) =~= write_bytes(
            cut_view(data, stop),
            pos,
            buf,
        ));
    }
}

impl<T: StreamView> Take<T> {
    /// The remaining byte budget.
    pub closed spec fn limit_spec(&self) -> nat {
        self.limit as nat
    }

    /// The absolute offset past which nothing may be read or written.
    pub closed spec fn stop_spec(&self) -> nat {
        self.inner.pos() + self.limit as nat
    }
}

impl<T: StreamView> StreamView for Take<T> {
    closed spec fn bytes(&self) -> Seq<u8> {
        cut_view(self.inner.bytes(), self.stop_spec())
    }

    closed spec fn pos(&self) -> nat {
        self.inner.pos()
    }

    closed spec fn cap(&self) -> nat {
        min_nat(self.inner.cap(), self.stop_spec())
    }

    closed spec fn inv(&self) -> bool {
        self.inner.inv()
    }

    closed spec fn infallible(&self) -> bool {
        self.inner.infallible()
    }

    proof fn lemma_inv(&self) {
        self.inner.lemma_inv();
    }
}

impl<T: StreamView> Take<T> {
    /// Creates a bounded view that lets at most `limit` bytes through.
    pub fn new(inner: T, limit: u64) -> (r: Take<T>)
        ensures
            r.limit_spec() == limit as nat,
            r.inv() == inner.inv(),
            r.pos() == inner.pos(),
            r.bytes() == cut_view(inner.bytes(), inner.pos() + limit as nat),
            r.cap() == crate::stream::min_nat(inner.cap(), inner.pos() + limit as nat),
            r.infallible() == inner.infallible(),
    {
        Take { inner, limit }
    }

    /// Unwraps the bound, returning the inner stream.
    pub fn into_inner(self) -> (r: T)
        ensures
            r == self.get_inner(),
    {
        self.inner
    }

    /// The wrapped stream, for stating how the bound relates to it.
    pub closed spec fn get_inner(&self) -> T {
        self.inner
    }
}

impl<T: ReadStream> ReadStream for Take<T> {
    fn read(&mut self, n: usize) -> (r: Result<Vec<u8>, Error>)
        ensures
            r matches Ok(v) ==> v@.len() <= old(self).limit_spec() && final(self).limit_spec()
                == old(self).limit_spec() - v@.len(),
            r is Err ==> final(self).limit_spec() == old(self).limit_spec(),
            old(self).limit_spec() == 0 ==> (r matches Ok(v) && v@.len() == 0 && *final(self)
                == *old(self)),
    {
        if self.limit == 0 {
            // An exhausted budget completes with zero bytes, touching
            // nothing: success, not an end-of-stream error.
            return Ok(Vec::new());
        }
        let want: usize = if n as u64 <= self.limit {
            n
        } else {
            self.limit as usize
        };
        proof {
            self.inner.lemma_inv();
        }
        match self.inner.read(want) {
            Ok(v) => {
                self.limit = self.limit - v.len() as u64;
                Ok(v)
            },
            Err(e) => Err(e),
        }
    }
}

impl<T: WriteStream> WriteStream for Take<T> {
    fn write(&mut self, buf: &[u8]) -> (r: Result<usize, Error>)
        ensures
            r matches Ok(k) ==> k <= old(self).limit_spec() && final(self).limit_spec() == old(
                self,
            ).limit_spec() - k,
            r is Err ==> final(self).limit_spec() == old(self).limit_spec(),
            old(self).limit_spec() == 0 ==> (r matches Ok(k) && k == 0 && *final(self) == *old(
                self,
            )),
    {
        if self.limit == 0 {
            // An exhausted budget accepts zero bytes, touching nothing.
            proof {
                assert(buf@.take(0) =~= Seq::<u8>::empty());
            }
            return Ok(0);
        }
        let want: usize = if buf.len() as u64 <= self.limit {
            buf.len()
        } else {
            self.limit as usize
        };
        let chunk = prefix_vec(buf, want);
        let ghost pre = *self;
        match self.inner.write(chunk.as_slice()) {
            Ok(k) => {
                self.limit = self.limit - k as u64;
                proof {
                    assert(chunk@.take(k as int) =~= buf@.take(k as int));
                    lemma_cut_write(
                        pre.inner.bytes(),
                        pre.inner.pos(),
                        buf@.take(k as int),
                        pre.stop_spec(),
                    );
                }
                Ok(k)
            },
            Err(e) => Err(e),
        }
    }
}

impl<T: SeekForward> SeekForward for Take<T> {
    fn seek_forward(&mut self, offset: u64) -> (r: Result<u64, Error>)
        ensures
            r matches Ok(k) ==> k as nat <= old(self).limit_spec() && final(self).limit_spec()
                == old(self).limit_spec() - k as nat,
            r is Err ==> final(self).limit_spec() == old(self).limit_spec(),
            old(self).limit_spec() == 0 ==> (r matches Ok(k) && k == 0 && *final(self) == *old(
                self,
            )),
    {
        if self.limit == 0 {
            proof {
                crate::stream::lemma_unchanged_within(self.bytes(), self.pos(), self.pos());
            }
            return Ok(0);
        }
        let want: u64 = if offset <= self.limit {
            offset
        } else {
            self.limit
        };
        let ghost pre = *self;
        match self.inner.seek_forward(want) {
            Ok(k) => {
                self.limit = self.limit - k;
                proof {
                    if self.inner.bytes() != pre.inner.bytes() {
                        lemma_cut_write(
                            pre.inner.bytes(),
                            pre.inner.pos(),
                            zero_bytes(k as nat),
                            pre.stop_spec(),
                        );
                    }
                }
                Ok(k)
            },
            Err(e) => Err(e),
        }
    }
}

impl<T: Tell> Tell for Take<T> {
    fn tell(&mut self) -> (r: Result<u64, Error>) {
        self.inner.tell()
    }
}

} // verus!
