use vstd::prelude::*;
use crate::error::Error;

verus! {

/// The bytes of `data` after writing `buf` at offset `pos`: the write
/// overlays existing content, extends the data when it runs past the end,
/// and any gap between the old end and `pos` is filled with zero bytes.
/// Writing nothing is a no-op and fills no gap.
pub open spec fn write_bytes(data: Seq<u8>, pos: nat, buf: Seq<u8>) -> Seq<u8> {
    if buf.len() == 0 {
        data
    } else {
        Seq::new(
            if data.len() >= pos + buf.len() {
                data.len()
            } else {
                pos + buf.len()
            },
            |i: int|
                if pos <= i < pos + buf.len() {
                    buf[i - pos]
                } else if i < data.len() {
                    data[i]
                } else {
                    0u8
                },
        )
    }
}

/// A sequence of `n` zero bytes: what forward seeking writes into a sink.
pub open spec fn zero_bytes(n: nat) -> Seq<u8> {
    Seq::new(n, |i: int| 0u8)
}

/// The smaller of two lengths or offsets.
pub open spec fn min_nat(a: nat, b: nat) -> nat {
    if a <= b {
        a
    } else {
        b
    }
}

/// The larger of two lengths or offsets.
pub open spec fn max_nat(a: nat, b: nat) -> nat {
    if a >= b {
        a
    } else {
        b
    }
}

/// Subtraction on offsets that stops at zero.
pub open spec fn sat_sub_nat(a: nat, b: nat) -> nat {
    if a >= b {
        (a - b) as nat
    } else {
        0
    }
}

/// A fresh vector holding the first `k` bytes of `buf`.
pub fn prefix_vec(buf: &[u8], k: usize) -> (r: Vec<u8>)
    requires
        k <= buf@.len(),
    ensures
        r@ == buf@.take(k as int),
{
    let mut out: Vec<u8> = Vec::new();
    let mut i: usize = 0;
    while i < k
        invariant
            i <= k,
            k <= buf@.len(),
            out@.len() == i,
            forall|j: int| 0 <= j < i ==> out@[j] == buf@[j],
        decreases k - i,
    {
        let b = buf[i];
        out.push(b);
        i += 1;
    }
    assert(out@ =~= buf@.take(k as int));
    out
}

/// A fresh vector holding `k` bytes of `v` starting at `start`.
pub fn copy_range(v: &Vec<u8>, start: usize, k: usize) -> (r: Vec<u8>)
    requires
        start + k <= v@.len(),
    ensures
        r@ == v@.subrange(start as int, start + k),
{
    let mut out: Vec<u8> = Vec::new();
    proof {
        vstd::std_specs::vec::axiom_spec_len(v);
    }
    let mut i: usize = 0;
    while i < k
        invariant
            i <= k,
            start + k <= v@.len(),
            v@.len() <= usize::MAX as nat,
            out@.len() == i,
            forall|j: int| 0 <= j < i ==> out@[j] == v@[start + j],
        decreases k - i,
    {
        let b = v[start + i];
        out.push(b);
        i += 1;
    }
    assert(out@ =~= v@.subrange(start as int, start + k));
    out
}

/// Writes all of `buf`, or fails once the sink's capacity is reached with
/// nothing certain but the sink's well-formedness.
pub fn write_all<W: WriteStream>(w: &mut W, buf: &[u8]) -> (r: Result<(), Error>)
    requires
        old(w).inv(),
    ensures
        final(w).inv(),
        r is Ok ==> {
            &&& final(w).cap() == old(w).cap()
            &&& final(w).bytes() == write_bytes(old(w).bytes(), old(w).pos(), buf@)
            &&& final(w).pos() == old(w).pos() + buf@.len()
        },
        old(w).infallible() ==> final(w).infallible(),
        old(w).infallible() && old(w).pos() + buf@.len() <= old(w).cap() ==> r is Ok,
        buf@.len() == 0 ==> r is Ok,
{
    let mut written: usize = 0;
    proof {
        assert(buf@.skip(0) =~= buf@);
    }
    while written < buf.len()
        invariant
            old(w).inv(),
            w.inv(),
            written <= buf@.len(),
            w.cap() == old(w).cap(),
            w.bytes() == write_bytes(old(w).bytes(), old(w).pos(), buf@.take(written as int)),
            w.pos() == old(w).pos() + written,
            old(w).infallible() ==> w.infallible(),
        decreases buf@.len() - written,
    {
        let rest = prefix_rest(buf, written);
        match w.write(rest.as_slice()) {
            Ok(k) => {
                if k == 0 {
                    return Err(Error::WriteZero);
                }
                proof {
                    assert(rest@.take(k as int) =~= buf@.subrange(
                        written as int,
                        written + k,
                    ));
                    lemma_write_bytes_concat(
                        old(w).bytes(),
                        old(w).pos(),
                        buf@.take(written as int),
                        buf@.subrange(written as int, written + k),
                    );
                    assert(buf@.take(written as int) + buf@.subrange(written as int, written + k)
                        =~= buf@.take(written + k));
                }
                written = written + k;
            },
            Err(e) => {
                return Err(e);
            },
        }
    }
    proof {
        assert(buf@.take(written as int) =~= buf@);
    }
    Ok(())
}

/// A fresh vector holding the bytes of `buf` from `start` on.
pub fn prefix_rest(buf: &[u8], start: usize) -> (r: Vec<u8>)
    requires
        start <= buf@.len(),
    ensures
        r@ == buf@.skip(start as int),
{
    let mut out: Vec<u8> = Vec::new();
    let mut i: usize = start;
    let n = buf.len();
    while i < n
        invariant
            start <= i <= n,
            n == buf@.len(),
            out@.len() == i - start,
            forall|j: int| 0 <= j < out@.len() ==> out@[j] == buf@[start + j],
        decreases n - i,
    {
        let b = buf[i];
        out.push(b);
        i += 1;
    }
    assert(out@ =~= buf@.skip(start as int));
    out
}

/// `new` differs from `old` only inside `[from, to)`, and there only by zero
/// bytes; any growth past the old end is zero filler reaching at most `to`.
/// This is the mark a synthesized forward seek leaves on a write-backed
/// stream; a read-backed one changes nothing at all.
pub open spec fn same_or_zeroed_within(old: Seq<u8>, new: Seq<u8>, from: nat, to: nat) -> bool {
    &&& old.len() <= new.len() <= max_nat(old.len(), to)
    &&& forall|i: int| 0 <= i < old.len() && !(from <= i < to) ==> new[i] == old[i]
    &&& forall|i: int|
        0 <= i < old.len() && from <= i < to ==> new[i] == old[i] || new[i] == 0u8
    &&& forall|i: int| old.len() <= i < new.len() ==> new[i] == 0u8
}

/// The untouched stream satisfies `same_or_zeroed_within` over any range.
pub proof fn lemma_unchanged_within(data: Seq<u8>, from: nat, to: nat)
    ensures
        same_or_zeroed_within(data, data, from, to),
{
}

/// A disturbance confined to a narrow range is confined to any wider one.
pub proof fn lemma_within_widen(old: Seq<u8>, new: Seq<u8>, f1: nat, t1: nat, f2: nat, t2: nat)
    requires
        same_or_zeroed_within(old, new, f1, t1),
        f2 <= f1,
        t1 <= t2,
    ensures
        same_or_zeroed_within(old, new, f2, t2),
{
}

/// `new` differs from `old` only by zero bytes below offset `below`: what a
/// synthesized seek may leave behind on a write-backed stream.
pub open spec fn same_or_zeroed_below(old: Seq<u8>, new: Seq<u8>, below: nat) -> bool {
    &&& old.len() <= new.len() <= max_nat(old.len(), below)
    &&& forall|i: int| 0 <= i < old.len() && i >= below ==> new[i] == old[i]
    &&& forall|i: int| 0 <= i < old.len() && i < below ==> new[i] == old[i] || new[i] == 0u8
    &&& forall|i: int| old.len() <= i < new.len() ==> new[i] == 0u8
}

/// Zero filler written at `[p, p + k)` leaves everything from `p + k`
/// upward intact: the shape of a synthesized absolute seek.
pub proof fn lemma_zero_fill_below(data: Seq<u8>, p: nat, k: nat)
    ensures
        same_or_zeroed_below(data, write_bytes(data, p, zero_bytes(k)), p + k),
{
    if k == 0 {
        assert(write_bytes(data, p, zero_bytes(0)) == data);
    }
}

/// Zero runs concatenate.
pub proof fn lemma_zero_bytes_concat(a: nat, b: nat)
    ensures
        zero_bytes(a) + zero_bytes(b) == zero_bytes(a + b),
{
    assert(zero_bytes(a) + zero_bytes(b) =~= zero_bytes(a + b));
}

/// Writing two runs back to back is one longer write.
pub proof fn lemma_write_bytes_concat(data: Seq<u8>, pos: nat, a: Seq<u8>, b: Seq<u8>)
    ensures
        write_bytes(write_bytes(data, pos, a), pos + a.len(), b) == write_bytes(
            data,
            pos,
            a + b,
        ),
{
    assert(write_bytes(write_bytes(data, pos, a), pos + a.len(), b) =~= write_bytes(
        data,
        pos,
        a + b,
    ));
}

/// The model of a byte stream: its logical content, its cursor, and the
/// largest offset the content can ever reach.
pub trait StreamView {
    /// The logical bytes of the stream.
    spec fn bytes(&self) -> Seq<u8>;

    /// The cursor: the offset at which the next operation acts.
    spec fn pos(&self) -> nat;

    /// An upper bound on how far `bytes` can grow; a write falls short of
    /// its full length only when it runs into this bound.
    spec fn cap(&self) -> nat;

    /// Well-formedness of the stream value.
    spec fn inv(&self) -> bool;

    /// Whether every operation on this stream is guaranteed to succeed:
    /// true of an in-memory stream, and of any wrapper whose underlying
    /// stream has it and whose own bounds are reachable. On such a stream,
    /// each capability method promises `Ok` outright, so success flows
    /// through the contracts instead of being conditional everywhere.
    spec fn infallible(&self) -> bool;

    /// Every well-formed stream keeps its cursor and its content within
    /// its capacity, and the capacity itself fits a `u64` position.
    proof fn lemma_inv(&self)
        requires
            self.inv(),
        ensures
            self.pos() <= self.cap(),
            self.bytes().len() <= self.cap(),
            self.cap() <= u64::MAX as nat,
    ;
}

/// Reading bytes at the cursor.
pub trait ReadStream: StreamView {
    /// Reads up to `n` bytes at the cursor. Short reads are allowed, but an
    /// empty result means the cursor is at or past the end of the stream
    /// (or `n` was zero), so a retrying caller always makes progress.
    fn read(&mut self, n: usize) -> (r: Result<Vec<u8>, Error>)
        requires
            old(self).inv(),
        ensures
            final(self).inv(),
            r matches Ok(v) ==> {
                &&& final(self).cap() == old(self).cap()
                &&& v@.len() <= n
                &&& final(self).bytes() == old(self).bytes()
                &&& final(self).pos() == old(self).pos() + v@.len()
                &&& (v@.len() > 0 ==> old(self).pos() + v@.len() <= old(self).bytes().len())
                &&& (forall|i: int|
                    0 <= i < v@.len() ==> v@[i] == old(self).bytes()[old(self).pos() + i])
                &&& (v@.len() == 0 ==> n == 0 || old(self).pos() >= old(self).bytes().len())
            },
            old(self).infallible() ==> r is Ok && final(self).infallible(),
    ;
}

/// Writing bytes at the cursor.
pub trait WriteStream: StreamView {
    /// Writes a prefix of `buf` at the cursor. The write falls short of the
    /// whole buffer only when it runs into the stream's capacity.
    fn write(&mut self, buf: &[u8]) -> (r: Result<usize, Error>)
        requires
            old(self).inv(),
        ensures
            final(self).inv(),
            r matches Ok(k) ==> {
                &&& final(self).cap() == old(self).cap()
                &&& k <= buf@.len()
                &&& final(self).pos() == old(self).pos() + k
                &&& final(self).bytes() == write_bytes(
                    old(self).bytes(),
                    old(self).pos(),
                    buf@.take(k as int),
                )
                &&& (k < buf@.len() ==> old(self).pos() + k >= old(self).cap())
            },
            old(self).infallible() ==> r is Ok && final(self).infallible(),
    ;
}

/// Exposes the current position in the stream without changing it.
pub trait Tell: StreamView {
    /// Returns the current absolute position in the stream.
    fn tell(&mut self) -> (r: Result<u64, Error>)
        requires
            old(self).inv(),
        ensures
            final(self).inv(),
            final(self).bytes() == old(self).bytes(),
            final(self).pos() == old(self).pos(),
            final(self).cap() == old(self).cap(),
            final(self).infallible() == old(self).infallible(),
            r matches Ok(p) ==> p as nat == old(self).pos(),
            r is Ok,
    ;
}

/// A limited form of seeking that only allows seeking forward.
pub trait SeekForward: StreamView {
    /// Seeks forward in the stream and returns the number of bytes skipped.
    ///
    /// A read-backed implementation skips by discarding bytes and may stop
    /// short at the end of the stream; a write-backed one skips by writing
    /// zero filler bytes.
    fn seek_forward(&mut self, offset: u64) -> (r: Result<u64, Error>)
        requires
            old(self).inv(),
        ensures
            final(self).inv(),
            r matches Ok(k) ==> {
                &&& k <= offset
                &&& final(self).cap() == old(self).cap()
                &&& final(self).pos() == old(self).pos() + k
                &&& same_or_zeroed_within(
                    old(self).bytes(),
                    final(self).bytes(),
                    old(self).pos(),
                    (old(self).pos() + k) as nat,
                )
                &&& (k < offset ==> old(self).pos() + k >= old(self).bytes().len())
            },
            old(self).infallible() ==> r is Ok && final(self).infallible(),
    ;
}

/// A limited form of seeking that only allows seeking backward.
pub trait SeekBackward: StreamView {
    /// Seeks backward in the stream, clamping at its logical start, and
    /// returns the number of bytes reversed by.
    fn seek_backward(&mut self, offset: u64) -> (r: Result<u64, Error>)
        requires
            old(self).inv(),
        ensures
            final(self).inv(),
            r matches Ok(k) ==> {
                &&& final(self).cap() == old(self).cap()
                &&& k as nat == if offset as nat <= old(self).pos() {
                    offset as nat
                } else {
                    old(self).pos()
                }
                &&& final(self).pos() == old(self).pos() - k
                &&& final(self).bytes() == old(self).bytes()
            },
            old(self).infallible() ==> r is Ok && final(self).infallible(),
    ;
}

/// A limited form of seeking that only seeks to an absolute position.
pub trait SeekAbsolute: StreamView {
    /// Seeks to the specified position and returns the new position.
    ///
    /// An implementation that synthesizes absolute seeks from weaker
    /// capabilities may stop short of `pos` at the end of the stream, and a
    /// bounded view clamps the target into its own window; the returned
    /// value is always where the cursor actually landed.
    fn seek_absolute(&mut self, pos: u64) -> (r: Result<u64, Error>)
        requires
            old(self).inv(),
        ensures
            final(self).inv(),
            r matches Ok(np) ==> {
                &&& final(self).cap() == old(self).cap()
                &&& np as nat == final(self).pos()
                &&& np as nat <= pos as nat
                &&& same_or_zeroed_below(old(self).bytes(), final(self).bytes(), np as nat)
            },
            old(self).infallible() ==> r is Ok && final(self).infallible(),
            old(self).infallible() ==> (r matches Ok(np) ==> np as nat == min_nat(
                pos as nat,
                old(self).cap(),
            ) && final(self).bytes() == old(self).bytes()),
    ;
}

/// A limited form of seeking that only seeks relative to the end of the stream.
pub trait SeekEnd: StreamView {
    /// Seeks to the end of the stream plus `offset` and returns the new
    /// position.
    fn seek_end(&mut self, offset: i64) -> (r: Result<u64, Error>)
        requires
            old(self).inv(),
        ensures
            final(self).inv(),
            r matches Ok(np) ==> {
                &&& final(self).cap() == old(self).cap()
                &&& np as nat == final(self).pos()
                &&& same_or_zeroed_below(old(self).bytes(), final(self).bytes(), np as nat)
            },
            old(self).infallible() ==> r is Ok && final(self).infallible(),
    ;
}

/// A limited form of seeking that can only be reset to the beginning.
///
/// Useful for expressing compressed or cipher streams that only support a
/// restart from scratch.
pub trait SeekRewind: StreamView {
    /// Seeks back to the beginning of the stream.
    fn seek_rewind(&mut self) -> (r: Result<(), Error>)
        requires
            old(self).inv(),
        ensures
            final(self).inv(),
            r is Ok ==> final(self).pos() == 0 && final(self).bytes() == old(self).bytes()
                && final(self).cap() == old(self).cap(),
            old(self).infallible() ==> r is Ok && final(self).infallible(),
    ;
}

/// A position to seek to, for streams with true random access.
#[derive(Debug, Clone, Copy, PartialEq, Eq, Structural)]
pub enum SeekFrom {
    /// An absolute offset from the start of the stream.
    Start(u64),
    /// A signed offset from the current cursor.
    Current(i64),
    /// A signed offset from the end of the stream.
    End(i64),
}

/// Where a random-access seek lands: the resolved target, clamped into
/// `[0, cap]`.
pub open spec fn resolve_seek(from: SeekFrom, pos: nat, len: nat, cap: nat) -> nat {
    let target: int = match from {
        SeekFrom::Start(p) => p as int,
        SeekFrom::Current(off) => pos + off,
        SeekFrom::End(off) => len + off,
    };
    if target < 0 {
        0
    } else if target > cap {
        cap
    } else {
        target as nat
    }
}

/// True random-access seeking: the positional primitive that `SeekAll`
/// decomposes into the six capability traits.
pub trait SeekStream: StreamView {
    /// Moves the cursor to the resolved target, clamped into the stream's
    /// bounds, and returns the new position.
    fn seek(&mut self, from: SeekFrom) -> (r: Result<u64, Error>)
        requires
            old(self).inv(),
        ensures
            final(self).inv(),
            final(self).cap() == old(self).cap(),
            final(self).bytes() == old(self).bytes(),
            r matches Ok(np) ==> np as nat == resolve_seek(
                from,
                old(self).pos(),
                old(self).bytes().len(),
                old(self).cap(),
            ) && final(self).pos() == np as nat,
            final(self).infallible() == old(self).infallible(),
            r is Ok,
    ;
}

/// Composite seeking over the capability traits: dispatches a `SeekFrom`
/// to the capability that can honor it, as full random access would.
///
/// An absolute start goes to `seek_absolute`; a positive relative offset to
/// `seek_forward`; a negative one to `seek_backward`; a zero relative offset
/// only queries `tell`; an end-relative offset goes to `seek_end`. Returns
/// the new position.
pub fn seek_composite<T: Tell + SeekForward + SeekBackward + SeekAbsolute + SeekEnd>(
    stream: &mut T,
    from: SeekFrom,
) -> (r: Result<u64, Error>)
    requires
        old(stream).inv(),
    ensures
        final(stream).inv(),
        r is Ok ==> final(stream).cap() == old(stream).cap(),
        r matches Ok(np) ==> np as nat == final(stream).pos(),
        old(stream).infallible() ==> r is Ok && final(stream).infallible(),
        from == SeekFrom::Current(0) ==> r is Ok,
{
    match from {
        SeekFrom::Start(p) => stream.seek_absolute(p),
        SeekFrom::Current(off) => {
            if off > 0 {
                match stream.seek_forward(off as u64) {
                    Ok(_) => stream.tell(),
                    Err(e) => Err(e),
                }
            } else if off == 0 {
                stream.tell()
            } else {
                let back: u64 = if off == i64::MIN {
                    0x8000_0000_0000_0000u64
                } else {
                    (-off) as u64
                };
                match stream.seek_backward(back) {
                    Ok(_) => stream.tell(),
                    Err(e) => Err(e),
                }
            }
        },
        SeekFrom::End(off) => stream.seek_end(off),
    }
}

} // verus!
