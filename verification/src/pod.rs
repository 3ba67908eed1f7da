use vstd::prelude::*;
use core::marker::PhantomData;
use crate::endian::{
    be_bytes, be_to_u64, be_val, le_bytes, le_to_u64, le_val, lemma_be_roundtrip,
    lemma_le_bytes_len, lemma_le_roundtrip, pow256, u64_to_be, u64_to_le,
};

verus! {

/// Marker: the type's representation is valid at any byte address
/// (alignment requirement one).
pub trait Unaligned {
}

/// Marker: an `Unaligned` type whose fields sit in declaration order with
/// no implicit padding, so its size is the sum of its fields' sizes.
pub trait Packed: Unaligned {
}

/// A type with an alignment requirement over one, paired with an unaligned
/// stand-in: its little-endian bytes, safe to place at any offset.
pub trait Aligned: Sized {
    /// The unaligned representation.
    type Unaligned;

    /// What the unaligned representation holds, mathematically.
    spec fn spec_unaligned(self) -> Self::Unaligned;

    /// The value an unaligned representation carries.
    spec fn spec_from_unaligned(u: Self::Unaligned) -> Self;

    /// A value survives the trip through its unaligned representation.
    proof fn lemma_unaligned_roundtrip(self)
        ensures
            Self::spec_from_unaligned(self.spec_unaligned()) == self,
    ;

    /// Converts the value to its unaligned representation.
    fn unaligned(self) -> (r: Self::Unaligned)
        ensures
            r == self.spec_unaligned(),
    ;

    /// Copies a value back from its unaligned representation: the inverse
    /// of `unaligned`.
    fn from_unaligned(u: Self::Unaligned) -> (r: Self)
        ensures
            r == Self::spec_from_unaligned(u),
    ;
}

impl Aligned for u16 {
    type Unaligned = [u8; 2];

    closed spec fn spec_unaligned(self) -> [u8; 2] {
        [(self % 256) as u8, (self / 256) as u8]
    }

    closed spec fn spec_from_unaligned(u: [u8; 2]) -> u16 {
        (u[0] + 256 * u[1]) as u16
    }

    proof fn lemma_unaligned_roundtrip(self) {
        assert((self % 256) as u8 + 256 * ((self / 256) as u8) == self) by (bit_vector);
    }

    fn unaligned(self) -> (r: [u8; 2]) {
        [(self % 256) as u8, (self / 256) as u8]
    }

    fn from_unaligned(u: [u8; 2]) -> (r: u16) {
        u[0] as u16 + 256 * u[1] as u16
    }
}

impl Aligned for u32 {
    type Unaligned = [u8; 4];

    closed spec fn spec_unaligned(self) -> [u8; 4] {
        [
            (self % 256) as u8,
            ((self / 0x100) % 256) as u8,
            ((self / 0x1_0000) % 256) as u8,
            ((self / 0x100_0000) % 256) as u8,
        ]
    }

    closed spec fn spec_from_unaligned(u: [u8; 4]) -> u32 {
        (u[0] + 0x100 * u[1] + 0x1_0000 * u[2] + 0x100_0000 * u[3]) as u32
    }

    proof fn lemma_unaligned_roundtrip(self) {
        assert((self % 256) as u8 + 0x100 * (((self / 0x100) % 256) as u8) + 0x1_0000 * (((self
            / 0x1_0000) % 256) as u8) + 0x100_0000 * (((self / 0x100_0000) % 256) as u8) == self)
            by (bit_vector);
    }

    fn unaligned(self) -> (r: [u8; 4]) {
        [
            (self % 256) as u8,
            ((self / 0x100) % 256) as u8,
            ((self / 0x1_0000) % 256) as u8,
            ((self / 0x100_0000) % 256) as u8,
        ]
    }

    fn from_unaligned(u: [u8; 4]) -> (r: u32) {
        u[0] as u32 + 0x100 * u[1] as u32 + 0x1_0000 * u[2] as u32 + 0x100_0000 * u[3] as u32
    }
}

/// Plain old data: a type whose value is completely and safely carried by
/// a byte sequence of a fixed declared size, so that serializing and then
/// reading the bytes back yields the very same value.
pub trait Pod: Sized {
    /// The declared size on the wire, in bytes.
    spec fn spec_size() -> nat;

    /// The value's byte representation.
    spec fn spec_to_bytes(&self) -> Seq<u8>;

    /// The value a byte representation carries.
    spec fn spec_from_bytes(b: Seq<u8>) -> Self;

    /// The representation always has the declared size, and that size is
    /// addressable.
    proof fn lemma_size(&self)
        ensures
            self.spec_to_bytes().len() == Self::spec_size(),
            Self::spec_size() <= usize::MAX as nat,
    ;

    /// Reading a value's own bytes back yields the value: the byte
    /// representation loses nothing.
    proof fn lemma_from_to(&self)
        ensures
            Self::spec_from_bytes(self.spec_to_bytes()) == *self,
    ;

    /// The declared size, as a runtime value.
    fn size() -> (n: usize)
        ensures
            n as nat == Self::spec_size(),
    ;

    /// Serializes the value.
    fn to_bytes(&self) -> (r: Vec<u8>)
        ensures
            r@ == self.spec_to_bytes(),
    ;

    /// Reads a value back from exactly its declared size of bytes.
    fn from_bytes(b: &[u8]) -> (r: Self)
        requires
            b@.len() == Self::spec_size(),
        ensures
            r == Self::spec_from_bytes(b@),
    ;
}

/// Byte-slice conveniences shared by every `Pod` type.
pub trait PodExt: Pod {
    /// Reads a value from a byte vector of exactly the declared size.
    fn from_vec(v: &Vec<u8>) -> (r: Self)
        requires
            v@.len() == Self::spec_size(),
        ensures
            r == Self::spec_from_bytes(v@),
    ;

    /// Reads a value from a byte slice of exactly the declared size.
    fn from_slice(b: &[u8]) -> (r: Self)
        requires
            b@.len() == Self::spec_size(),
        ensures
            r == Self::spec_from_bytes(b@),
    ;

    /// Serializes the value to a fresh byte vector.
    fn to_vec(&self) -> (r: Vec<u8>)
        ensures
            r@ == self.spec_to_bytes(),
    ;

    /// A fresh value with all bytes zero.
    fn zeroed() -> (r: Self)
        ensures
            r == Self::spec_from_bytes(crate::stream::zero_bytes(Self::spec_size())),
    ;
}

impl<T: Pod> PodExt for T {
    fn from_vec(v: &Vec<u8>) -> (r: Self) {
        T::from_bytes(v.as_slice())
    }

    fn from_slice(b: &[u8]) -> (r: Self) {
        T::from_bytes(b)
    }

    fn to_vec(&self) -> (r: Vec<u8>) {
        self.to_bytes()
    }

    fn zeroed() -> (r: Self) {
        let n = T::size();
        let zeros = vec![0u8; n];
        proof {
            assert(zeros@ =~= crate::stream::zero_bytes(T::spec_size()));
        }
        T::from_bytes(zeros.as_slice())
    }
}

impl Unaligned for u8 {

}

impl Packed for u8 {

}

impl Unaligned for i8 {

}

impl Packed for i8 {

}

impl Unaligned for bool {

}

impl Packed for bool {

}

impl Unaligned for () {

}

impl Packed for () {

}

impl<A: Unaligned, B: Unaligned> Unaligned for (A, B) {

}

impl<A: Unaligned, B: Unaligned> Packed for (A, B) {

}

impl<A: Unaligned, B: Unaligned, C: Unaligned> Unaligned for (A, B, C) {

}

impl<A: Unaligned, B: Unaligned, C: Unaligned> Packed for (A, B, C) {

}

impl Pod for u8 {
    open spec fn spec_size() -> nat {
        1
    }

    open spec fn spec_to_bytes(&self) -> Seq<u8> {
        seq![*self]
    }

    open spec fn spec_from_bytes(b: Seq<u8>) -> u8 {
        b[0]
    }

    proof fn lemma_size(&self) {
    }

    proof fn lemma_from_to(&self) {
    }

    fn size() -> (n: usize) {
        1
    }

    fn to_bytes(&self) -> (r: Vec<u8>) {
        let mut out: Vec<u8> = Vec::new();
        out.push(*self);
        proof {
            assert(out@ =~= seq![*self]);
        }
        out
    }

    fn from_bytes(b: &[u8]) -> (r: u8) {
        b[0]
    }
}

impl Pod for i8 {
    open spec fn spec_size() -> nat {
        1
    }

    open spec fn spec_to_bytes(&self) -> Seq<u8> {
        seq![*self as u8]
    }

    open spec fn spec_from_bytes(b: Seq<u8>) -> i8 {
        b[0] as i8
    }

    proof fn lemma_size(&self) {
    }

    proof fn lemma_from_to(&self) {
        assert(*self as u8 as i8 == *self) by (bit_vector);
    }

    fn size() -> (n: usize) {
        1
    }

    fn to_bytes(&self) -> (r: Vec<u8>) {
        let mut out: Vec<u8> = Vec::new();
        out.push(*self as u8);
        proof {
            assert(out@ =~= seq![*self as u8]);
        }
        out
    }

    fn from_bytes(b: &[u8]) -> (r: i8) {
        b[0] as i8
    }
}

impl Pod for () {
    open spec fn spec_size() -> nat {
        0
    }

    open spec fn spec_to_bytes(&self) -> Seq<u8> {
        Seq::empty()
    }

    open spec fn spec_from_bytes(b: Seq<u8>) -> () {
        ()
    }

    proof fn lemma_size(&self) {
    }

    proof fn lemma_from_to(&self) {
    }

    fn size() -> (n: usize) {
        0
    }

    fn to_bytes(&self) -> (r: Vec<u8>) {
        let out: Vec<u8> = Vec::new();
        proof {
            assert(out@ =~= Seq::<u8>::empty());
        }
        out
    }

    fn from_bytes(b: &[u8]) -> (r: ()) {
        ()
    }
}

impl<const N: usize> Unaligned for [u8; N] {

}

impl<const N: usize> Packed for [u8; N] {

}

impl<const N: usize> Pod for [u8; N] {
    open spec fn spec_size() -> nat {
        N as nat
    }

    open spec fn spec_to_bytes(&self) -> Seq<u8> {
        self@
    }

    open spec fn spec_from_bytes(b: Seq<u8>) -> [u8; N] {
        choose|a: [u8; N]| a@ == b
    }

    proof fn lemma_size(&self) {
        assert(self@.len() == N);
    }

    proof fn lemma_from_to(&self) {
        assert(exists|x: [u8; N]| x@ == self.spec_to_bytes()) by {
            assert((*self)@ == self.spec_to_bytes());
        }
        let a = Self::spec_from_bytes(self.spec_to_bytes());
        vstd::array::axiom_array_ext_equal(a, *self);
        assert(a@ =~= (*self)@);
    }

    fn size() -> (n: usize) {
        N
    }

    fn to_bytes(&self) -> (r: Vec<u8>) {
        let mut out: Vec<u8> = Vec::new();
        let mut i: usize = 0;
        while i < N
            invariant
                i <= N,
                out@.len() == i,
                forall|j: int| 0 <= j < i ==> out@[j] == self@[j],
            decreases N - i,
        {
            let b = self[i];
            out.push(b);
            i += 1;
        }
        proof {
            assert(out@ =~= self@);
        }
        out
    }

    fn from_bytes(b: &[u8]) -> (r: [u8; N]) {
        let mut out = [0u8; N];
        let mut i: usize = 0;
        while i < N
            invariant
                i <= N,
                b@.len() == N,
                out@.len() == N,
                forall|j: int| 0 <= j < i ==> out@[j] == b@[j],
            decreases N - i,
        {
            let v = b[i];
            out[i] = v;
            i += 1;
        }
        proof {
            assert(out@ =~= b@);
            assert(exists|x: [u8; N]| x@ == b@) by {
                assert(out@ == b@);
            }
            let a = Self::spec_from_bytes(b@);
            vstd::array::axiom_array_ext_equal(a, out);
            assert(a@ =~= out@);
        }
        out
    }
}

/// A byte order tag for endian-explicit primitives.
pub trait ByteOrder {
    /// Whether this order stores the least significant byte first.
    spec fn spec_is_le() -> bool;

    /// The order, as a runtime value.
    fn is_le() -> (r: bool)
        ensures
            r == Self::spec_is_le(),
    ;
}

/// Least significant byte first.
pub struct LittleEndian;

/// Most significant byte first.
pub struct BigEndian;

impl ByteOrder for LittleEndian {
    open spec fn spec_is_le() -> bool {
        true
    }

    fn is_le() -> (r: bool) {
        true
    }
}

impl ByteOrder for BigEndian {
    open spec fn spec_is_le() -> bool {
        false
    }

    fn is_le() -> (r: bool) {
        false
    }
}

/// A primitive that can cross an endian boundary: it has a fixed width of
/// one to eight bytes and converts to and from the value those bytes carry.
pub trait EndianConvert: Sized + Copy {
    /// The width in bytes.
    spec fn spec_width() -> nat;

    /// The value as an unsigned number (the bit pattern for signed types).
    spec fn spec_to_nat(self) -> nat;

    /// The value a number carries.
    spec fn spec_from_nat(n: nat) -> Self;

    /// The width is addressable and the value fits it; reading a value's
    /// own number back yields the value.
    proof fn lemma_convert(self)
        ensures
            1 <= Self::spec_width() <= 8,
            self.spec_to_nat() < pow256(Self::spec_width()),
            Self::spec_from_nat(self.spec_to_nat()) == self,
    ;

    /// The width, as a runtime value.
    fn width() -> (w: usize)
        ensures
            w as nat == Self::spec_width(),
    ;

    /// Converts to the number the wire carries.
    fn to_u64(self) -> (r: u64)
        ensures
            r as nat == self.spec_to_nat(),
    ;

    /// Converts back from the number the wire carried.
    fn of_u64(n: u64) -> (r: Self)
        requires
            (n as nat) < pow256(Self::spec_width()),
        ensures
            r == Self::spec_from_nat(n as nat),
    ;
}

impl EndianConvert for u16 {
    open spec fn spec_width() -> nat {
        2
    }

    open spec fn spec_to_nat(self) -> nat {
        self as nat
    }

    open spec fn spec_from_nat(n: nat) -> u16 {
        n as u16
    }

    proof fn lemma_convert(self) {
        crate::endian::lemma_pow256_u64();
        assert(pow256(2) == 0x1_0000) by {
            reveal_with_fuel(pow256, 3);
        }
    }

    fn width() -> (w: usize) {
        2
    }

    fn to_u64(self) -> (r: u64) {
        self as u64
    }

    fn of_u64(n: u64) -> (r: u16) {
        proof {
            assert(pow256(2) == 0x1_0000) by {
                reveal_with_fuel(pow256, 3);
            }
        }
        n as u16
    }
}

impl EndianConvert for u32 {
    open spec fn spec_width() -> nat {
        4
    }

    open spec fn spec_to_nat(self) -> nat {
        self as nat
    }

    open spec fn spec_from_nat(n: nat) -> u32 {
        n as u32
    }

    proof fn lemma_convert(self) {
        assert(pow256(4) == 0x1_0000_0000) by {
            reveal_with_fuel(pow256, 5);
        }
    }

    fn width() -> (w: usize) {
        4
    }

    fn to_u64(self) -> (r: u64) {
        self as u64
    }

    fn of_u64(n: u64) -> (r: u32) {
        proof {
            assert(pow256(4) == 0x1_0000_0000) by {
                reveal_with_fuel(pow256, 5);
            }
        }
        n as u32
    }
}

impl EndianConvert for u64 {
    open spec fn spec_width() -> nat {
        8
    }

    open spec fn spec_to_nat(self) -> nat {
        self as nat
    }

    open spec fn spec_from_nat(n: nat) -> u64 {
        n as u64
    }

    proof fn lemma_convert(self) {
        crate::endian::lemma_pow256_u64();
    }

    fn width() -> (w: usize) {
        8
    }

    fn to_u64(self) -> (r: u64) {
        self
    }

    fn of_u64(n: u64) -> (r: u64) {
        n
    }
}

impl EndianConvert for i16 {
    open spec fn spec_width() -> nat {
        2
    }

    open spec fn spec_to_nat(self) -> nat {
        (self as u16) as nat
    }

    open spec fn spec_from_nat(n: nat) -> i16 {
        (n as u16) as i16
    }

    proof fn lemma_convert(self) {
        assert(pow256(2) == 0x1_0000) by {
            reveal_with_fuel(pow256, 3);
        }
        assert(self as u16 as i16 == self) by (bit_vector);
    }

    fn width() -> (w: usize) {
        2
    }

    fn to_u64(self) -> (r: u64) {
        self as u16 as u64
    }

    fn of_u64(n: u64) -> (r: i16) {
        proof {
            assert(pow256(2) == 0x1_0000) by {
                reveal_with_fuel(pow256, 3);
            }
        }
        n as u16 as i16
    }
}

impl EndianConvert for i32 {
    open spec fn spec_width() -> nat {
        4
    }

    open spec fn spec_to_nat(self) -> nat {
        (self as u32) as nat
    }

    open spec fn spec_from_nat(n: nat) -> i32 {
        (n as u32) as i32
    }

    proof fn lemma_convert(self) {
        assert(pow256(4) == 0x1_0000_0000) by {
            reveal_with_fuel(pow256, 5);
        }
        assert(self as u32 as i32 == self) by (bit_vector);
    }

    fn width() -> (w: usize) {
        4
    }

    fn to_u64(self) -> (r: u64) {
        self as u32 as u64
    }

    fn of_u64(n: u64) -> (r: i32) {
        proof {
            assert(pow256(4) == 0x1_0000_0000) by {
                reveal_with_fuel(pow256, 5);
            }
        }
        n as u32 as i32
    }
}

impl EndianConvert for i64 {
    open spec fn spec_width() -> nat {
        8
    }

    open spec fn spec_to_nat(self) -> nat {
        (self as u64) as nat
    }

    open spec fn spec_from_nat(n: nat) -> i64 {
        (n as u64) as i64
    }

    proof fn lemma_convert(self) {
        crate::endian::lemma_pow256_u64();
        assert(self as u64 as i64 == self) by (bit_vector);
    }

    fn width() -> (w: usize) {
        8
    }

    fn to_u64(self) -> (r: u64) {
        self as u64
    }

    fn of_u64(n: u64) -> (r: i64) {
        n as i64
    }
}

impl EndianConvert for bool {
    open spec fn spec_width() -> nat {
        1
    }

    open spec fn spec_to_nat(self) -> nat {
        if self {
            1
        } else {
            0
        }
    }

    open spec fn spec_from_nat(n: nat) -> bool {
        n != 0
    }

    proof fn lemma_convert(self) {
        reveal_with_fuel(pow256, 2);
    }

    fn width() -> (w: usize) {
        1
    }

    fn to_u64(self) -> (r: u64) {
        if self {
            1
        } else {
            0
        }
    }

    fn of_u64(n: u64) -> (r: bool) {
        n != 0
    }
}

/// A plain-old-data container that stores a primitive in the declared byte
/// order regardless of the platform's own, converting on `get` and `set`.
pub struct EndianPrimitive<B, T: EndianConvert> {
    value: T,
    order: PhantomData<B>,
}

/// An unaligned little-endian primitive.
pub type Le<T> = EndianPrimitive<LittleEndian, T>;

/// An unaligned big-endian primitive.
pub type Be<T> = EndianPrimitive<BigEndian, T>;

impl<B: ByteOrder, T: EndianConvert> EndianPrimitive<B, T> {
    /// The native value held.
    pub closed spec fn spec_get(&self) -> T {
        self.value
    }

    /// Creates a new tagged value.
    pub fn new(v: T) -> (r: EndianPrimitive<B, T>)
        ensures
            r.spec_get() == v,
    {
        EndianPrimitive { value: v, order: PhantomData }
    }

    /// Transforms to the native value.
    pub fn get(&self) -> (r: T)
        ensures
            r == self.spec_get(),
    {
        self.value
    }

    /// Transforms from a native value.
    pub fn set(&mut self, v: T)
        ensures
            final(self).spec_get() == v,
    {
        self.value = v;
    }
}

impl<B, T: EndianConvert> Unaligned for EndianPrimitive<B, T> {

}

impl<B, T: EndianConvert> Packed for EndianPrimitive<B, T> {

}

impl<B: ByteOrder, T: EndianConvert> Pod for EndianPrimitive<B, T> {
    open spec fn spec_size() -> nat {
        T::spec_width()
    }

    open spec fn spec_to_bytes(&self) -> Seq<u8> {
        if B::spec_is_le() {
            le_bytes(self.spec_get().spec_to_nat(), T::spec_width())
        } else {
            be_bytes(self.spec_get().spec_to_nat(), T::spec_width())
        }
    }

    closed spec fn spec_from_bytes(b: Seq<u8>) -> EndianPrimitive<B, T> {
        EndianPrimitive {
            value: T::spec_from_nat(
                if B::spec_is_le() {
                    le_val(b)
                } else {
                    be_val(b)
                },
            ),
            order: PhantomData,
        }
    }

    proof fn lemma_size(&self) {
        self.spec_get().lemma_convert();
        lemma_le_bytes_len(self.spec_get().spec_to_nat(), T::spec_width());
    }

    proof fn lemma_from_to(&self) {
        self.spec_get().lemma_convert();
        if B::spec_is_le() {
            lemma_le_roundtrip(self.spec_get().spec_to_nat(), T::spec_width());
        } else {
            lemma_be_roundtrip(self.spec_get().spec_to_nat(), T::spec_width());
        }
    }

    fn size() -> (n: usize) {
        T::width()
    }

    fn to_bytes(&self) -> (r: Vec<u8>) {
        let n = self.value.to_u64();
        let w = T::width();
        if B::is_le() {
            u64_to_le(n, w)
        } else {
            u64_to_be(n, w)
        }
    }

    fn from_bytes(b: &[u8]) -> (r: EndianPrimitive<B, T>) {
        proof {
            T::spec_from_nat(0).lemma_convert();
        }
        let w = T::width();
        let n: u64 = if B::is_le() {
            le_to_u64(b)
        } else {
            be_to_u64(b)
        };
        proof {
            if B::spec_is_le() {
                crate::endian::lemma_le_val_bound(b@);
            } else {
                crate::endian::lemma_le_val_bound(b@.reverse());
            }
        }
        let v = T::of_u64(n);
        EndianPrimitive { value: v, order: PhantomData }
    }
}

} // verus!
