use vstd::prelude::*;
use crate::error::Error;
use crate::stream::{SeekForward, StreamView, Tell};

verus! {

/// The first multiple of `n` at or after `pos`.
pub open spec fn align_up(pos: nat, n: nat) -> nat
    recommends
        n >= 1,
{
    if pos % n == 0 {
        pos
    } else {
        (pos + (n - pos % n)) as nat
    }
}

/// Aligning is idempotent: a position that is already aligned aligns to
/// itself.
pub proof fn lemma_align_up_idempotent(pos: nat, n: nat)
    requires
        n >= 1,
    ensures
        align_up(align_up(pos, n), n) == align_up(pos, n),
{
    if pos % n != 0 {
        let a = (pos + (n - pos % n)) as nat;
        assert(a == (pos / n + 1) * n) by (nonlinear_arith)
            requires
                n >= 1 && a == pos + (n - pos % n),
        ;
        assert(a % n == 0) by (nonlinear_arith)
            requires
                n >= 1 && a == (pos / n + 1) * n,
        ;
    }
}

/// An extension that seeks forward to meet a specified alignment.
pub trait SeekAlignExt: StreamView {
    /// Seeks forward to the next multiple of `alignment`, measured from the
    /// start of the stream, and returns the resulting offset.
    ///
    /// A position that is already aligned performs no seek at all; the
    /// stream is left untouched. Otherwise the cursor lands on the next
    /// multiple, stopping short only at the end of a read-backed stream.
    fn align_to(&mut self, alignment: u64) -> (r: Result<u64, Error>)
        requires
            old(self).inv(),
            alignment >= 1,
        ensures
            final(self).inv(),
            r matches Ok(p) ==> {
                &&& final(self).cap() == old(self).cap()
                &&& p as nat == final(self).pos()
                &&& old(self).pos() <= final(self).pos()
                &&& final(self).pos() <= align_up(old(self).pos(), alignment as nat)
                &&& (final(self).pos() == align_up(old(self).pos(), alignment as nat) || final(self).pos() >= old(self).bytes().len())
                &&& crate::stream::same_or_zeroed_within(
                    old(self).bytes(),
                    final(self).bytes(),
                    old(self).pos(),
                    align_up(old(self).pos(), alignment as nat),
                )
            },
            old(self).pos() % (alignment as nat) == 0 ==> (r matches Ok(p) && p as nat == old(
                self,
            ).pos() && final(self).bytes() == old(self).bytes() && final(self).pos() == old(
                self,
            ).pos()),
            old(self).infallible() ==> r is Ok && final(self).infallible(),
    ;
}

impl<T: Tell + SeekForward> SeekAlignExt for T {
    fn align_to(&mut self, alignment: u64) -> (r: Result<u64, Error>) {
        let pos = match self.tell() {
            Ok(p) => p,
            Err(e) => {
                return Err(e);
            },
        };
        let rem = pos % alignment;
        if rem > 0 {
            match self.seek_forward(alignment - rem) {
                Ok(v) => {
                    proof {
                        self.lemma_inv();
                    }
                    Ok(pos + v)
                },
                Err(e) => Err(e),
            }
        } else {
            Ok(pos)
        }
    }
}

} // verus!
