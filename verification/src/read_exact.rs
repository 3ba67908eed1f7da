use vstd::prelude::*;
use crate::error::Error;
use crate::stream::{min_nat, sat_sub_nat, ReadStream, StreamView};

verus! {

/// Extension that reads an exact amount of data from any readable stream.
pub trait ReadExactExt: StreamView {
    /// Reads as much as possible up to `n` bytes, stopping only at the end
    /// of the stream: the result is exactly `min(n, remaining)` bytes.
    fn read_exact_eof(&mut self, n: usize) -> (r: Result<Vec<u8>, Error>)
        requires
            old(self).inv(),
        ensures
            final(self).inv(),
            r matches Ok(v) ==> {
                &&& final(self).cap() == old(self).cap()
                &&& final(self).bytes() == old(self).bytes()
                &&& v@.len() == min_nat(
                    n as nat,
                    sat_sub_nat(old(self).bytes().len(), old(self).pos()),
                )
                &&& final(self).pos() == old(self).pos() + v@.len()
                &&& (forall|i: int|
                    0 <= i < v@.len() ==> v@[i] == old(self).bytes()[old(self).pos() + i])
            },
            old(self).infallible() ==> r is Ok && final(self).infallible(),
            n == 0 ==> r is Ok,
    ;

    /// Reads exactly `n` bytes, or fails with an unexpected end-of-stream
    /// when fewer remain.
    fn read_exact(&mut self, n: usize) -> (r: Result<Vec<u8>, Error>)
        requires
            old(self).inv(),
        ensures
            final(self).inv(),
            r matches Ok(v) ==> {
                &&& final(self).cap() == old(self).cap()
                &&& final(self).bytes() == old(self).bytes()
                &&& v@.len() == n
                &&& (n > 0 ==> old(self).pos() + n <= old(self).bytes().len())
                &&& final(self).pos() == old(self).pos() + n
                &&& (forall|i: int|
                    0 <= i < n ==> v@[i] == old(self).bytes()[old(self).pos() + i])
            },
            n > 0 && old(self).pos() + n > old(self).bytes().len() ==> r is Err,
            old(self).infallible() && (n == 0 || old(self).pos() + n <= old(self).bytes().len())
                ==> r is Ok,
            old(self).infallible() ==> final(self).infallible(),
            old(self).infallible() && n > 0 && old(self).pos() + n > old(self).bytes().len()
                ==> r == Err::<Vec<u8>, Error>(Error::UnexpectedEof),
            n == 0 ==> r is Ok,
    ;
}

/// Reads and discards up to `n` bytes, stopping only at the end of the
/// stream, and returns how many were discarded: a read-backed skip.
pub fn discard<R: ReadStream>(r: &mut R, n: u64) -> (res: Result<u64, Error>)
    requires
        old(r).inv(),
    ensures
        final(r).inv(),
        res matches Ok(k) ==> {
            &&& final(r).cap() == old(r).cap()
            &&& final(r).bytes() == old(r).bytes()
            &&& k as nat == min_nat(n as nat, sat_sub_nat(old(r).bytes().len(), old(r).pos()))
            &&& final(r).pos() == old(r).pos() + k
        },
        old(r).infallible() ==> res is Ok && final(r).infallible(),
{
    let mut advanced: u64 = 0;
    let mut done = false;
    while !done && advanced < n
        invariant
            old(r).inv(),
            r.inv(),
            advanced <= n,
            r.bytes() == old(r).bytes(),
            r.cap() == old(r).cap(),
            r.pos() == old(r).pos() + advanced,
            advanced > 0 ==> old(r).pos() + advanced <= old(r).bytes().len(),
            done ==> r.pos() >= r.bytes().len(),
            old(r).infallible() ==> r.infallible(),
        decreases n - advanced, if done {
            0int
        } else {
            1int
        },
    {
        let rem = n - advanced;
        let chunk: usize = if rem > 0x10000 {
            0x10000
        } else {
            rem as usize
        };
        match r.read(chunk) {
            Ok(v) => {
                if v.len() == 0 {
                    done = true;
                } else {
                    advanced = advanced + v.len() as u64;
                }
            },
            Err(e) => {
                return Err(e);
            },
        }
    }
    Ok(advanced)
}

/// Reads every byte from the cursor to the end of the stream.
pub fn read_to_end<R: ReadStream>(r: &mut R) -> (res: Result<Vec<u8>, Error>)
    requires
        old(r).inv(),
    ensures
        final(r).inv(),
        res matches Ok(v) ==> {
            &&& final(r).cap() == old(r).cap()
            &&& final(r).bytes() == old(r).bytes()
            &&& v@.len() == sat_sub_nat(old(r).bytes().len(), old(r).pos())
            &&& final(r).pos() == old(r).pos() + v@.len()
            &&& (forall|i: int|
                0 <= i < v@.len() ==> v@[i] == old(r).bytes()[old(r).pos() + i])
        },
        old(r).infallible() ==> res is Ok && final(r).infallible(),
{
    let mut out: Vec<u8> = Vec::new();
    let mut done = false;
    while !done
        invariant
            old(r).inv(),
            r.inv(),
            r.bytes() == old(r).bytes(),
            r.cap() == old(r).cap(),
            r.pos() == old(r).pos() + out@.len(),
            out@.len() > 0 ==> old(r).pos() + out@.len() <= old(r).bytes().len(),
            forall|i: int| 0 <= i < out@.len() ==> out@[i] == old(r).bytes()[old(r).pos() + i],
            done ==> r.pos() >= r.bytes().len(),
            old(r).infallible() ==> r.infallible(),
        decreases r.bytes().len() - r.pos() + 1, if done {
            0int
        } else {
            1int
        },
    {
        match r.read(0x10000) {
            Ok(mut v) => {
                if v.len() == 0 {
                    done = true;
                } else {
                    out.append(&mut v);
                }
            },
            Err(e) => {
                return Err(e);
            },
        }
    }
    Ok(out)
}

impl<R: ReadStream> ReadExactExt for R {
    fn read_exact_eof(&mut self, n: usize) -> (r: Result<Vec<u8>, Error>) {
        let mut out: Vec<u8> = Vec::new();
        let mut done = false;
        while !done && out.len() < n
            invariant
                old(self).inv(),
                self.inv(),
                self.cap() == old(self).cap(),
                self.bytes() == old(self).bytes(),
                out@.len() <= n,
                self.pos() == old(self).pos() + out@.len(),
                out@.len() > 0 ==> old(self).pos() + out@.len() <= old(self).bytes().len(),
                forall|i: int|
                    0 <= i < out@.len() ==> out@[i] == old(self).bytes()[old(self).pos() + i],
                done ==> self.pos() >= self.bytes().len(),
                old(self).infallible() ==> self.infallible(),
            decreases n - out@.len(), if done {
                0int
            } else {
                1int
            },
        {
            let want = n - out.len();
            match self.read(want) {
                Ok(mut got) => {
                    if got.len() == 0 {
                        done = true;
                    } else {
                        out.append(&mut got);
                    }
                },
                Err(e) => {
                    return Err(e);
                },
            }
        }
        Ok(out)
    }

    fn read_exact(&mut self, n: usize) -> (r: Result<Vec<u8>, Error>) {
        match self.read_exact_eof(n) {
            Ok(v) => {
                if v.len() == n {
                    Ok(v)
                } else {
                    Err(Error::UnexpectedEof)
                }
            },
            Err(e) => Err(e),
        }
    }
}

} // verus!
