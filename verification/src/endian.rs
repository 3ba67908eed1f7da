use vstd::prelude::*;

verus! {

/// `256^w`: the number of values a `w`-byte field can carry.
pub open spec fn pow256(w: nat) -> nat
    decreases w,
{
    if w == 0 {
        1
    } else {
        256 * pow256((w - 1) as nat)
    }
}

/// The `w` low-order bytes of `v`, least significant first.
pub open spec fn le_bytes(v: nat, w: nat) -> Seq<u8>
    decreases w,
{
    if w == 0 {
        Seq::empty()
    } else {
        seq![(v % 256) as u8] + le_bytes(v / 256, (w - 1) as nat)
    }
}

/// The `w` low-order bytes of `v`, most significant first.
pub open spec fn be_bytes(v: nat, w: nat) -> Seq<u8> {
    le_bytes(v, w).reverse()
}

/// The value the bytes carry, read least significant first.
pub open spec fn le_val(b: Seq<u8>) -> nat
    decreases b.len(),
{
    if b.len() == 0 {
        0
    } else {
        (b[0] + 256 * le_val(b.drop_first())) as nat
    }
}

/// The value the bytes carry, read most significant first.
pub open spec fn be_val(b: Seq<u8>) -> nat {
    le_val(b.reverse())
}

/// An encoding always has exactly the requested width.
pub proof fn lemma_le_bytes_len(v: nat, w: nat)
    ensures
        le_bytes(v, w).len() == w,
    decreases w,
{
    if w > 0 {
        lemma_le_bytes_len(v / 256, (w - 1) as nat);
    }
}

/// A value below `256^w` survives the round trip through its `w` bytes.
pub proof fn lemma_le_roundtrip(v: nat, w: nat)
    requires
        v < pow256(w),
    ensures
        le_val(le_bytes(v, w)) == v,
    decreases w,
{
    if w > 0 {
        let rest = le_bytes(v / 256, (w - 1) as nat);
        assert((seq![(v % 256) as u8] + rest).drop_first() =~= rest);
        assert(v / 256 < pow256((w - 1) as nat)) by (nonlinear_arith)
            requires
                v < 256 * pow256((w - 1) as nat),
        ;
        lemma_le_roundtrip(v / 256, (w - 1) as nat);
        assert(v % 256 + 256 * (v / 256) == v) by (nonlinear_arith);
    }
}

/// What bytes carry is bounded by their width.
pub proof fn lemma_le_val_bound(b: Seq<u8>)
    ensures
        le_val(b) < pow256(b.len()),
    decreases b.len(),
{
    if b.len() > 0 {
        lemma_le_val_bound(b.drop_first());
        assert(b[0] + 256 * le_val(b.drop_first()) < 256 * pow256((b.len() - 1) as nat))
            by (nonlinear_arith)
            requires
                b[0] < 256 && le_val(b.drop_first()) < pow256((b.len() - 1) as nat),
        ;
    }
}

/// Big-endian encoding round-trips the same way.
pub proof fn lemma_be_roundtrip(v: nat, w: nat)
    requires
        v < pow256(w),
    ensures
        be_val(be_bytes(v, w)) == v,
{
    assert(le_bytes(v, w).reverse().reverse() =~= le_bytes(v, w));
    lemma_le_roundtrip(v, w);
}

/// Eight bytes hold any `u64`.
pub proof fn lemma_pow256_u64()
    ensures
        pow256(8) == 0x1_0000_0000_0000_0000,
{
    reveal_with_fuel(pow256, 9);
    assert(pow256(8) == 0x1_0000_0000_0000_0000);
}

/// `pow256` grows with the width.
pub proof fn lemma_pow256_mono(a: nat, b: nat)
    requires
        a <= b,
    ensures
        pow256(a) <= pow256(b),
    decreases b,
{
    if a < b && b > 0 {
        lemma_pow256_mono(a, (b - 1) as nat);
        assert(pow256((b - 1) as nat) <= 256 * pow256((b - 1) as nat)) by (nonlinear_arith)
            requires
                pow256((b - 1) as nat) >= 0,
        ;
    }
}

/// `pow256` is at least one.
pub proof fn lemma_pow256_pos(w: nat)
    ensures
        pow256(w) >= 1,
    decreases w,
{
    if w > 0 {
        lemma_pow256_pos((w - 1) as nat);
    }
}

/// Encodes the `w` low-order bytes of `v`, least significant first.
pub fn u64_to_le(v: u64, w: usize) -> (r: Vec<u8>)
    ensures
        r@ == le_bytes(v as nat, w as nat),
{
    let mut out: Vec<u8> = Vec::new();
    let mut cur: u64 = v;
    let mut i: usize = 0;
    while i < w
        invariant
            i <= w,
            out@.len() == i,
            le_bytes(v as nat, w as nat) == out@ + le_bytes(cur as nat, (w - i) as nat),
        decreases w - i,
    {
        let b: u8 = (cur % 256) as u8;
        out.push(b);
        cur = cur / 256;
        i += 1;
        proof {
            assert(le_bytes(v as nat, w as nat) =~= out@ + le_bytes(cur as nat, (w - i) as nat));
        }
    }
    proof {
        assert(out@ + le_bytes(cur as nat, 0) =~= out@);
    }
    out
}

/// Encodes the `w` low-order bytes of `v`, most significant first.
pub fn u64_to_be(v: u64, w: usize) -> (r: Vec<u8>)
    ensures
        r@ == be_bytes(v as nat, w as nat),
{
    let le = u64_to_le(v, w);
    reverse_vec(&le)
}

/// A fresh vector with the bytes in opposite order.
pub fn reverse_vec(v: &Vec<u8>) -> (r: Vec<u8>)
    ensures
        r@ == v@.reverse(),
{
    let mut out: Vec<u8> = Vec::new();
    let mut i: usize = v.len();
    while i > 0
        invariant
            i <= v@.len(),
            v@.len() <= usize::MAX as nat,
            out@.len() == v@.len() - i,
            forall|j: int| 0 <= j < out@.len() ==> out@[j] == v@[v@.len() - 1 - j],
        decreases i,
    {
        i -= 1;
        let b = v[i];
        out.push(b);
    }
    assert(out@ =~= v@.reverse());
    out
}

/// Reads a little-endian value of up to eight bytes.
pub fn le_to_u64(b: &[u8]) -> (r: u64)
    requires
        b@.len() <= 8,
    ensures
        r as nat == le_val(b@),
{
    let w = b.len();
    let mut acc: u64 = 0;
    let mut i: usize = w;
    proof {
        assert(b@.subrange(w as int, w as int) =~= Seq::<u8>::empty());
        lemma_pow256_u64();
    }
    while i > 0
        invariant
            i <= w,
            w == b@.len() <= 8,
            acc as nat == le_val(b@.subrange(i as int, w as int)),
            (acc as nat) < pow256((w - i) as nat),
            pow256(8) == 0x1_0000_0000_0000_0000,
        decreases i,
    {
        i -= 1;
        let byte = b[i];
        proof {
            let tail = b@.subrange(i + 1, w as int);
            assert(b@.subrange(i as int, w as int).drop_first() =~= tail);
            lemma_pow256_mono((w - i - 1) as nat, 7);
            assert(pow256(8) == 256 * pow256(7));
            assert(byte + 256 * (acc as nat) < 256 * pow256((w - i - 1) as nat))
                by (nonlinear_arith)
                requires
                    byte < 256 && (acc as nat) < pow256((w - i - 1) as nat),
            ;
            assert(256 * pow256((w - i - 1) as nat) <= pow256(8)) by (nonlinear_arith)
                requires
                    pow256((w - i - 1) as nat) <= pow256(7) && pow256(7) * 256 == pow256(8),
            ;
        }
        acc = byte as u64 + 256 * acc;
    }
    proof {
        assert(b@.subrange(0, w as int) =~= b@);
    }
    acc
}

/// Reads a big-endian value of up to eight bytes.
pub fn be_to_u64(b: &[u8]) -> (r: u64)
    requires
        b@.len() <= 8,
    ensures
        r as nat == be_val(b@),
{
    let rev = reverse_slice(b);
    let r = le_to_u64(rev.as_slice());
    r
}

/// A fresh vector with a slice's bytes in opposite order.
pub fn reverse_slice(v: &[u8]) -> (r: Vec<u8>)
    ensures
        r@ == v@.reverse(),
{
    let mut out: Vec<u8> = Vec::new();
    let mut i: usize = v.len();
    while i > 0
        invariant
            i <= v@.len(),
            v@.len() <= usize::MAX as nat,
            out@.len() == v@.len() - i,
            forall|j: int| 0 <= j < out@.len() ==> out@[j] == v@[v@.len() - 1 - j],
        decreases i,
    {
        i -= 1;
        let b = v[i];
        out.push(b);
    }
    assert(out@ =~= v@.reverse());
    out
}

} // verus!
