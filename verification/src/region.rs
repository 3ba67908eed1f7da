use vstd::prelude::*;
use crate::error::Error;
use crate::stream::{
    max_nat, min_nat, prefix_vec, sat_sub_nat, write_bytes, zero_bytes, ReadStream, SeekAbsolute,
    SeekBackward, SeekEnd, SeekForward, SeekRewind, StreamView, Tell, WriteStream,
};

verus! {

/// An isolated segment `[start, end)` of an underlying stream.
///
/// All externally observable positions are relative to `start`; reads,
/// writes and seeks are clamped so that the underlying cursor never leaves
/// `[start, end]`, and reaching `end` reads or writes zero bytes rather
/// than failing.
pub struct Region<T> {
    inner: T,
    start: u64,
    end: u64,
}

impl<T: StreamView> Region<T> {
    /// The lower bound of the window, as an offset into the inner stream.
    pub closed spec fn start_spec(&self) -> nat {
        self.start as nat
    }

    /// The upper bound of the window, as an offset into the inner stream.
    pub closed spec fn end_spec(&self) -> nat {
        self.end as nat
    }

    /// The inner stream's content, for stating what the window never touches.
    pub closed spec fn inner_bytes(&self) -> Seq<u8> {
        self.inner.bytes()
    }

    /// The inner stream's cursor.
    pub closed spec fn inner_pos(&self) -> nat {
        self.inner.pos()
    }

    /// The inner stream's capacity.
    pub closed spec fn inner_cap(&self) -> nat {
        self.inner.cap()
    }

    /// The inner cursor clamped into the window.
    pub closed spec fn clamped_pos(&self) -> nat {
        min_nat(max_nat(self.inner.pos(), self.start as nat), self.end as nat)
    }
}

impl<T: StreamView> StreamView for Region<T> {
    closed spec fn bytes(&self) -> Seq<u8> {
        let l = self.inner.bytes().len();
        self.inner.bytes().subrange(
            min_nat(self.start as nat, l) as int,
            min_nat(self.end as nat, l) as int,
        )
    }

    closed spec fn pos(&self) -> nat {
        (self.clamped_pos() - self.start as nat) as nat
    }

    closed spec fn cap(&self) -> nat {
        sat_sub_nat(min_nat(self.end as nat, self.inner.cap()), self.start as nat)
    }

    closed spec fn inv(&self) -> bool {
        self.start <= self.end && self.inner.inv()
    }

    closed spec fn infallible(&self) -> bool {
        self.inner.infallible() && self.start as nat <= self.inner.cap()
    }

    proof fn lemma_inv(&self) {
        self.inner.lemma_inv();
    }
}

impl<T: StreamView> Region<T> {
    /// How the region's own view arises from the inner stream: its content
    /// is the inner window `[start, end)` cut to what the inner stream
    /// holds, its cursor is the inner cursor clamped into the window and
    /// made relative to `start`, and its capacity is the window cut to the
    /// inner capacity. This is the region's whole semantics, for callers
    /// that reason from the inner stream's state.
    pub proof fn lemma_view(&self)
        requires
            self.inv(),
        ensures
            self.bytes() == self.inner_bytes().subrange(
                min_nat(self.start_spec(), self.inner_bytes().len()) as int,
                min_nat(self.end_spec(), self.inner_bytes().len()) as int,
            ),
            self.pos() == (min_nat(
                max_nat(self.inner_pos(), self.start_spec()),
                self.end_spec(),
            ) - self.start_spec()) as nat,
            self.cap() == sat_sub_nat(
                min_nat(self.end_spec(), self.inner_cap()),
                self.start_spec(),
            ),
            self.start_spec() <= self.end_spec(),
    {
    }

    /// Creates a new region over `[start, end)` of `inner`.
    pub fn new(inner: T, start: u64, end: u64) -> (r: Region<T>)
        requires
            start <= end,
        ensures
            r.inv() == inner.inv(),
            r.start_spec() == start as nat,
            r.end_spec() == end as nat,
            r.inner_bytes() == inner.bytes(),
            r.inner_pos() == inner.pos(),
            r.inner_cap() == inner.cap(),
            r.infallible() == (inner.infallible() && start as nat <= inner.cap()),
            r.bytes() == inner.bytes().subrange(
                min_nat(start as nat, inner.bytes().len()) as int,
                min_nat(end as nat, inner.bytes().len()) as int,
            ),
            r.pos() == (min_nat(max_nat(inner.pos(), start as nat), end as nat) - start as nat)
                as nat,
            r.cap() == sat_sub_nat(min_nat(end as nat, inner.cap()), start as nat),
    {
        Region { inner, start, end }
    }

    /// Returns the region bounds.
    pub fn region(&self) -> (r: (u64, u64))
        ensures
            r.0 as nat == self.start_spec(),
            r.1 as nat == self.end_spec(),
    {
        (self.start, self.end)
    }

    /// Unwraps the region, returning the inner stream and discarding only
    /// the bound metadata.
    pub fn into_inner(self) -> (r: T)
        ensures
            r.bytes() == self.inner_bytes(),
            r.pos() == self.inner_pos(),
    {
        self.inner
    }
}

impl<T: Tell + SeekAbsolute> Region<T> {
    /// Pulls the inner cursor up to `start` if it sits below it, and
    /// returns the resulting absolute inner position. Fails with an invalid
    /// seek when the inner stream cannot reach `start`.
    fn position(&mut self) -> (r: Result<u64, Error>)
        requires
            old(self).inv(),
        ensures
            final(self).inv(),
            final(self).start_spec() == old(self).start_spec(),
            final(self).end_spec() == old(self).end_spec(),
            r matches Ok(p) ==> {
                &&& final(self).cap() == old(self).cap()
                &&& final(self).bytes() == old(self).bytes()
                &&& final(self).pos() == old(self).pos()
                &&& p as nat == final(self).inner_pos()
                &&& old(self).start_spec() <= p as nat
                &&& p as nat == max_nat(old(self).inner_pos(), old(self).start_spec())
                &&& crate::stream::same_or_zeroed_below(
                    old(self).inner_bytes(),
                    final(self).inner_bytes(),
                    old(self).start_spec(),
                )
            },
            old(self).inner_pos() >= old(self).start_spec() ==> ((r is Ok)
                && final(self).inner_bytes() == old(self).inner_bytes()),
            old(self).infallible() ==> r is Ok && final(self).infallible(),
    {
        let ghost pre = *self;
        proof {
            self.inner.lemma_inv();
        }
        let p = match self.inner.tell() {
            Ok(p) => p,
            Err(e) => {
                return Err(e);
            },
        };
        if p < self.start {
            let target = self.start;
            match self.inner.seek_absolute(target) {
                Ok(np) => {
                    proof {
                        lemma_window_unchanged(
                            pre.inner.bytes(),
                            self.inner.bytes(),
                            np as nat,
                            self.start as nat,
                            self.end as nat,
                        );
                    }
                    if np < target {
                        Err(Error::InvalidSeek)
                    } else {
                        Ok(np)
                    }
                },
                Err(e) => Err(e),
            }
        } else {
            Ok(p)
        }
    }

    /// Clamps a requested length to what fits between the inner cursor and
    /// `end`, pulling the cursor up to `start` first.
    fn limit(&mut self, len: u64) -> (r: Result<(u64, u64), Error>)
        requires
            old(self).inv(),
        ensures
            final(self).inv(),
            final(self).start_spec() == old(self).start_spec(),
            final(self).end_spec() == old(self).end_spec(),
            r matches Ok(pk) ==> {
                &&& final(self).cap() == old(self).cap()
                &&& final(self).bytes() == old(self).bytes()
                &&& final(self).pos() == old(self).pos()
                &&& pk.0 as nat == final(self).inner_pos()
                &&& old(self).start_spec() <= pk.0 as nat
                &&& pk.0 as nat == max_nat(old(self).inner_pos(), old(self).start_spec())
                &&& pk.1 as nat == min_nat(
                    sat_sub_nat(old(self).end_spec(), pk.0 as nat),
                    len as nat,
                )
                &&& crate::stream::same_or_zeroed_below(
                    old(self).inner_bytes(),
                    final(self).inner_bytes(),
                    old(self).start_spec(),
                )
            },
            old(self).inner_pos() >= old(self).start_spec() ==> ((r is Ok)
                && final(self).inner_bytes() == old(self).inner_bytes()),
            old(self).infallible() ==> r is Ok && final(self).infallible(),
    {
        let pos = match self.position() {
            Ok(p) => p,
            Err(e) => {
                return Err(e);
            },
        };
        let room: u64 = if pos >= self.end {
            0
        } else {
            self.end - pos
        };
        let k: u64 = if room <= len {
            room
        } else {
            len
        };
        Ok((pos, k))
    }
}

/// A signed inner-coordinate target clamped into `[lo, hi]`.
pub open spec fn clamp_target(t: int, lo: nat, hi: nat) -> nat {
    if t < lo {
        lo
    } else if t > hi {
        hi
    } else {
        t as nat
    }
}

/// Bytes written or zeroed strictly below `below <= start` leave the window
/// `[start, end)` untouched.
proof fn lemma_window_unchanged(old_b: Seq<u8>, new_b: Seq<u8>, below: nat, start: nat, end: nat)
    requires
        crate::stream::same_or_zeroed_below(old_b, new_b, below),
        below <= start,
        start <= end,
    ensures
        new_b.subrange(
            min_nat(start, new_b.len()) as int,
            min_nat(end, new_b.len()) as int,
        ) == old_b.subrange(min_nat(start, old_b.len()) as int, min_nat(end, old_b.len()) as int),
{
    assert(new_b.subrange(
        min_nat(start, new_b.len()) as int,
        min_nat(end, new_b.len()) as int,
    ) =~= old_b.subrange(min_nat(start, old_b.len()) as int, min_nat(end, old_b.len()) as int));
}

/// A write at `[p, p + buf.len())` inside `[start, end)` acts on the window
/// exactly as `write_bytes` acts on the window's own coordinates.
proof fn lemma_window_write(data: Seq<u8>, start: nat, end: nat, p: nat, buf: Seq<u8>)
    requires
        start <= p,
        p + buf.len() <= end,
    ensures
        ({
            let new_b = write_bytes(data, p, buf);
            new_b.subrange(
                min_nat(start, new_b.len()) as int,
                min_nat(end, new_b.len()) as int,
            ) == write_bytes(
                data.subrange(
                    min_nat(start, data.len()) as int,
                    min_nat(end, data.len()) as int,
                ),
                (p - start) as nat,
                buf,
            )
        }),
{
    let new_b = write_bytes(data, p, buf);
    assert(new_b.subrange(
        min_nat(start, new_b.len()) as int,
        min_nat(end, new_b.len()) as int,
    ) =~= write_bytes(
        data.subrange(min_nat(start, data.len()) as int, min_nat(end, data.len()) as int),
        (p - start) as nat,
        buf,
    ));
}

impl<T: ReadStream + Tell + SeekAbsolute> ReadStream for Region<T> {
    fn read(&mut self, n: usize) -> (r: Result<Vec<u8>, Error>)
        ensures
            r is Ok ==> crate::stream::same_or_zeroed_below(
                old(self).inner_bytes(),
                final(self).inner_bytes(),
                old(self).start_spec(),
            ),
            (r is Ok) && old(self).inner_pos() >= old(self).start_spec()
                ==> final(self).inner_bytes() == old(self).inner_bytes(),
            old(self).inner_pos() >= old(self).end_spec() ==> (r matches Ok(v) && v@.len() == 0),
    {
        let ghost pre = *self;
        let (pos, allowed) = match self.limit(n as u64) {
            Ok(pk) => pk,
            Err(e) => {
                return Err(e);
            },
        };
        if allowed == 0 {
            return Ok(Vec::new());
        }
        proof {
            self.inner.lemma_inv();
        }
        let want: usize = allowed as usize;
        match self.inner.read(want) {
            Ok(v) => Ok(v),
            Err(e) => Err(e),
        }
    }
}

impl<T: WriteStream + Tell + SeekAbsolute> WriteStream for Region<T> {
    fn write(&mut self, buf: &[u8]) -> (r: Result<usize, Error>)
        ensures
            r matches Ok(k) ==> {
                &&& forall|i: int|
                    old(self).end_spec() <= i < old(self).inner_bytes().len() ==> final(self).inner_bytes()[i] == old(self).inner_bytes()[i]
                &&& forall|i: int|
                    0 <= i < old(self).inner_bytes().len() && i < old(self).start_spec() ==> (
                    final(self).inner_bytes()[i] == old(self).inner_bytes()[i] || final(self).inner_bytes()[i] == 0u8)
                &&& final(self).inner_bytes().len() <= max_nat(
                    old(self).inner_bytes().len(),
                    old(self).end_spec(),
                )
            },
            r matches Ok(k) && old(self).inner_pos() >= old(self).start_spec() ==> forall|i: int|
                0 <= i < old(self).inner_bytes().len() && i < old(self).start_spec() ==> final(self).inner_bytes()[i] == old(self).inner_bytes()[i],
            old(self).inner_pos() >= old(self).end_spec() ==> (r matches Ok(k) && k == 0),
    {
        let ghost pre = *self;
        let (pos, allowed) = match self.limit(buf.len() as u64) {
            Ok(pk) => pk,
            Err(e) => {
                return Err(e);
            },
        };
        if allowed == 0 {
            assert(buf@.take(0) =~= Seq::<u8>::empty());
            return Ok(0);
        }
        let want: usize = allowed as usize;
        let chunk = prefix_vec(buf, want);
        let ghost mid = *self;
        match self.inner.write(chunk.as_slice()) {
            Ok(k) => {
                proof {
                    assert(chunk@.take(k as int) =~= buf@.take(k as int));
                    lemma_window_write(
                        mid.inner.bytes(),
                        self.start as nat,
                        self.end as nat,
                        mid.inner.pos(),
                        buf@.take(k as int),
                    );
                }
                Ok(k)
            },
            Err(e) => Err(e),
        }
    }
}

impl<T: SeekAbsolute> SeekAbsolute for Region<T> {
    /// Clamps the target into the window (`min(start + pos, end)` in inner
    /// coordinates) and reports where the inner cursor landed, relative to
    /// `start`. An inner stream that seeks exactly lands on the clamped
    /// target; one that synthesizes seeking may stop short of it.
    fn seek_absolute(&mut self, pos: u64) -> (r: Result<u64, Error>)
        ensures
            final(self).start_spec() == old(self).start_spec(),
            final(self).end_spec() == old(self).end_spec(),
            r matches Ok(np) ==> {
                &&& np as nat == sat_sub_nat(final(self).inner_pos(), old(self).start_spec())
                &&& final(self).inner_pos() <= min_nat(
                    (old(self).start_spec() + pos) as nat,
                    old(self).end_spec(),
                )
            },
            old(self).infallible() ==> (r matches Ok(np) ==> final(self).inner_pos() == min_nat(
                min_nat((old(self).start_spec() + pos) as nat, old(self).end_spec()),
                old(self).inner_cap(),
            )),
    {
        let ghost pre = *self;
        let target: u64 = if pos >= self.end - self.start {
            self.end
        } else {
            self.start + pos
        };
        match self.inner.seek_absolute(target) {
            Ok(np) => {
                proof {
                    lemma_window_seek(
                        pre.inner.bytes(),
                        self.inner.bytes(),
                        np as nat,
                        self.start as nat,
                        self.end as nat,
                    );
                }
                let rel: u64 = if np >= self.start {
                    np - self.start
                } else {
                    0
                };
                Ok(rel)
            },
            Err(e) => Err(e),
        }
    }
}

/// Zeroes left below an inner landing point `np <= end` act on the window
/// as zeroes below the window-relative landing point.
proof fn lemma_window_seek(old_b: Seq<u8>, new_b: Seq<u8>, np: nat, start: nat, end: nat)
    requires
        crate::stream::same_or_zeroed_below(old_b, new_b, np),
        np <= end,
        start <= end,
    ensures
        crate::stream::same_or_zeroed_below(
            old_b.subrange(min_nat(start, old_b.len()) as int, min_nat(end, old_b.len()) as int),
            new_b.subrange(min_nat(start, new_b.len()) as int, min_nat(end, new_b.len()) as int),
            sat_sub_nat(np, start),
        ),
{
    let old_w = old_b.subrange(
        min_nat(start, old_b.len()) as int,
        min_nat(end, old_b.len()) as int,
    );
    let new_w = new_b.subrange(
        min_nat(start, new_b.len()) as int,
        min_nat(end, new_b.len()) as int,
    );
    assert forall|i: int|
        0 <= i < old_w.len() && i >= sat_sub_nat(np, start) implies new_w[i] == old_w[i] by {
        assert(old_w[i] == old_b[min_nat(start, old_b.len()) + i]);
    }
}

/// A disturbance of the inner bytes confined to `[from, to)` inside the
/// window maps to the same disturbance of the window, in window coordinates.
proof fn lemma_window_within(o: Seq<u8>, n: Seq<u8>, start: nat, end: nat, from: nat, to: nat)
    requires
        crate::stream::same_or_zeroed_within(o, n, from, to),
        start <= from,
        from <= to,
        to <= end,
    ensures
        crate::stream::same_or_zeroed_within(
            o.subrange(min_nat(start, o.len()) as int, min_nat(end, o.len()) as int),
            n.subrange(min_nat(start, n.len()) as int, min_nat(end, n.len()) as int),
            (from - start) as nat,
            (to - start) as nat,
        ),
{
    let wo = o.subrange(min_nat(start, o.len()) as int, min_nat(end, o.len()) as int);
    let wn = n.subrange(min_nat(start, n.len()) as int, min_nat(end, n.len()) as int);
    assert(wo.len() <= wn.len() <= max_nat(wo.len(), (to - start) as nat));
    assert forall|i: int| 0 <= i < wo.len() implies wn[i] == wo[i] || (from - start <= i
        < to - start && wn[i] == 0u8) by {
        assert(wo[i] == o[min_nat(start, o.len()) + i]);
        assert(wn[i] == n[min_nat(start, n.len()) + i]);
    }
}

impl<T: SeekForward + Tell + SeekAbsolute> SeekForward for Region<T> {
    fn seek_forward(&mut self, offset: u64) -> (r: Result<u64, Error>) {
        let ghost pre = *self;
        let (pos, allowed) = match self.limit(offset) {
            Ok(pk) => pk,
            Err(e) => {
                return Err(e);
            },
        };
        if allowed == 0 {
            return Ok(0);
        }
        let ghost mid = *self;
        match self.inner.seek_forward(allowed) {
            Ok(k) => {
                proof {
                    lemma_window_within(
                        mid.inner.bytes(),
                        self.inner.bytes(),
                        self.start as nat,
                        self.end as nat,
                        mid.inner.pos(),
                        mid.inner.pos() + k as nat,
                    );
                }
                Ok(k)
            },
            Err(e) => Err(e),
        }
    }
}

impl<T: Tell + SeekBackward> SeekBackward for Region<T> {
    fn seek_backward(&mut self, offset: u64) -> (r: Result<u64, Error>) {
        let p = match self.inner.tell() {
            Ok(p) => p,
            Err(e) => {
                return Err(e);
            },
        };
        let excess: u64 = if p >= self.end {
            p - self.end
        } else {
            0
        };
        let base: u64 = if p >= self.end {
            self.end
        } else {
            p
        };
        let avail: u64 = if base >= self.start {
            base - self.start
        } else {
            0
        };
        let k: u64 = if offset <= avail {
            offset
        } else {
            avail
        };
        match self.inner.seek_backward(excess + k) {
            Ok(_) => Ok(k),
            Err(e) => Err(e),
        }
    }
}

impl<T: SeekAbsolute> SeekRewind for Region<T> {
    fn seek_rewind(&mut self) -> (r: Result<(), Error>) {
        let ghost pre = *self;
        let target = self.start;
        match self.inner.seek_absolute(target) {
            Ok(np) => {
                proof {
                    lemma_window_unchanged(
                        pre.inner.bytes(),
                        self.inner.bytes(),
                        np as nat,
                        self.start as nat,
                        self.end as nat,
                    );
                }
                Ok(())
            },
            Err(e) => Err(e),
        }
    }
}

impl<T: SeekAbsolute> SeekEnd for Region<T> {
    /// Resolves `end + offset` in the inner stream's coordinate space,
    /// clamps it into `[start, end]`, and reports where the inner cursor
    /// landed, relative to `start`.
    fn seek_end(&mut self, offset: i64) -> (r: Result<u64, Error>)
        ensures
            final(self).start_spec() == old(self).start_spec(),
            final(self).end_spec() == old(self).end_spec(),
            r matches Ok(np) ==> {
                &&& np as nat == sat_sub_nat(final(self).inner_pos(), old(self).start_spec())
                &&& final(self).inner_pos() <= clamp_target(
                    old(self).end_spec() as int + offset as int,
                    old(self).start_spec(),
                    old(self).end_spec(),
                )
            },
            old(self).infallible() ==> (r matches Ok(np) ==> final(self).inner_pos() == min_nat(
                clamp_target(
                    old(self).end_spec() as int + offset as int,
                    old(self).start_spec(),
                    old(self).end_spec(),
                ),
                old(self).inner_cap(),
            )),
    {
        let ghost pre = *self;
        let t: i128 = self.end as i128 + offset as i128;
        let target: u64 = if t < self.start as i128 {
            self.start
        } else if t > self.end as i128 {
            self.end
        } else {
            t as u64
        };
        match self.inner.seek_absolute(target) {
            Ok(np) => {
                proof {
                    lemma_window_seek(
                        pre.inner.bytes(),
                        self.inner.bytes(),
                        np as nat,
                        self.start as nat,
                        self.end as nat,
                    );
                }
                let rel: u64 = if np >= self.start {
                    np - self.start
                } else {
                    0
                };
                Ok(rel)
            },
            Err(e) => Err(e),
        }
    }
}

impl<T: Tell> Tell for Region<T> {
    fn tell(&mut self) -> (r: Result<u64, Error>) {
        let p = match self.inner.tell() {
            Ok(p) => p,
            Err(e) => {
                return Err(e);
            },
        };
        let span: u64 = self.end - self.start;
        let rel: u64 = if p <= self.start {
            0
        } else if p - self.start >= span {
            span
        } else {
            p - self.start
        };
        Ok(rel)
    }
}

} // verus!
