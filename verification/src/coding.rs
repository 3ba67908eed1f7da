use vstd::prelude::*;
use crate::align::align_up;
use crate::code::string_from_utf8;
use crate::endian::{be_bytes, be_to_u64, be_val, le_bytes, le_to_u64, le_val, pow256};
use crate::error::Error;
use crate::read_exact::{discard, read_to_end, ReadExactExt};
use crate::stream::{
    max_nat, min_nat, sat_sub_nat, write_all, write_bytes, zero_bytes, ReadStream, StreamView,
    Tell, WriteStream,
};
use vstd::utf8::{decode_utf8, encode_utf8, valid_utf8};

verus! {

/// The byte order of a multi-byte field on the wire.
#[derive(Debug, Clone, Copy, PartialEq, Eq, Structural)]
pub enum Endianness {
    /// Least significant byte first.
    Little,
    /// Most significant byte first.
    Big,
}

/// What a single field holds on the wire.
#[derive(Debug, Clone, Copy, PartialEq, Eq, Structural)]
pub enum FieldKind {
    /// An unsigned integer of one to eight bytes in the given byte order.
    UInt { width: usize, order: Endianness },
    /// A zero-byte field.
    Unit,
    /// A fixed-length run of raw bytes.
    Bytes { len: usize },
    /// UTF-8 text that runs to the end of its limited region, or of the
    /// stream when no limit is set.
    Text,
    /// Bytes terminated by the first zero byte, which is consumed but not
    /// part of the value.
    NulText,
}

/// A decoded or encodable field value.
#[derive(Debug)]
pub enum Value {
    /// An unsigned integer.
    UInt(u64),
    /// Nothing.
    Unit,
    /// A fixed-length run of raw bytes.
    Bytes(Vec<u8>),
    /// UTF-8 text.
    Text(String),
    /// Nul-terminated bytes, held without the terminator.
    NulText(Vec<u8>),
}

/// The mathematical shadow of a `Value`.
pub enum AbstractValue {
    /// An unsigned integer.
    UInt(nat),
    /// Nothing.
    Unit,
    /// A fixed-length run of raw bytes.
    Bytes(Seq<u8>),
    /// UTF-8 text.
    Text(Seq<char>),
    /// Nul-terminated bytes, without the terminator.
    NulText(Seq<u8>),
}

impl View for Value {
    type V = AbstractValue;

    open spec fn view(&self) -> AbstractValue {
        match self {
            Value::UInt(n) => AbstractValue::UInt(*n as nat),
            Value::Unit => AbstractValue::Unit,
            Value::Bytes(v) => AbstractValue::Bytes(v@),
            Value::Text(s) => AbstractValue::Text(s@),
            Value::NulText(v) => AbstractValue::NulText(v@),
        }
    }
}

/// The conditional presence of a field.
#[derive(Debug, Clone, Copy, PartialEq, Eq, Structural)]
pub enum Cond {
    /// The field is always present.
    Always,
    /// The condition is statically false: the field and all its stream
    /// positioning directives are skipped entirely.
    Never,
    /// The condition was evaluated at run time; when false, the
    /// positioning directives still execute but the value itself is
    /// neither read nor written, and decoding substitutes the default.
    When(bool),
}

/// One field of a composite value: its wire shape and the ordered directive
/// set that governs how it is coded. Directives are computed once per
/// encode or decode call and evaluated in a fixed order: `skip`, `align`,
/// `limit`, the conditional, the value's own coding, `consume`, and
/// the assertion (which on encode is checked before anything is written).
#[derive(Debug)]
pub struct FieldDesc {
    /// The field's wire shape.
    pub kind: FieldKind,
    /// Seek forward to the next multiple of this, measured from the start
    /// of the stream; an aligned position does not move. Zero is rejected.
    pub align: Option<u64>,
    /// Unconditionally advance this many bytes before the field.
    pub skip: Option<u64>,
    /// The field's own coding sees at most this many bytes.
    pub limit: Option<u64>,
    /// Whether the field is present at all.
    pub cond: Cond,
    /// What decoding yields when the condition is false; the kind's
    /// zero-equivalent if absent.
    pub default: Option<Value>,
    /// Force the full limited region to be consumed: on decode the unused
    /// remainder is discarded, on encode it is padded with zero bytes.
    pub consume: bool,
    /// The value the field must equal: on decode checked after the field
    /// is populated, on encode before anything is written. Failure is a
    /// hard error, not a panic.
    pub expect: Option<Value>,
}

impl FieldDesc {
    /// A field with the given shape and no directives.
    pub fn plain(kind: FieldKind) -> (r: FieldDesc)
        ensures
            r.kind == kind,
            r.align is None,
            r.skip is None,
            r.limit is None,
            r.cond == Cond::Always,
            r.default is None,
            r.consume == false,
            r.expect is None,
    {
        FieldDesc {
            kind,
            align: None,
            skip: None,
            limit: None,
            cond: Cond::Always,
            default: None,
            consume: false,
            expect: None,
        }
    }
}

/// Whether the conditional lets the field's own coding run.
pub open spec fn cond_active(c: Cond) -> bool {
    match c {
        Cond::Always => true,
        Cond::Never => false,
        Cond::When(b) => b,
    }
}

/// The zero-equivalent of a wire shape.
pub open spec fn spec_zero_value(kind: FieldKind) -> AbstractValue {
    match kind {
        FieldKind::UInt { .. } => AbstractValue::UInt(0),
        FieldKind::Unit => AbstractValue::Unit,
        FieldKind::Bytes { len } => AbstractValue::Bytes(zero_bytes(len as nat)),
        FieldKind::Text => AbstractValue::Text(Seq::empty()),
        FieldKind::NulText => AbstractValue::NulText(Seq::empty()),
    }
}

/// What decoding substitutes when the condition is false.
pub open spec fn spec_default_value(f: FieldDesc) -> AbstractValue {
    match f.default {
        Some(v) => v@,
        None => spec_zero_value(f.kind),
    }
}

/// Whether a value has the wire shape and fits it.
pub open spec fn spec_value_fits(kind: FieldKind, v: AbstractValue) -> bool {
    match kind {
        FieldKind::UInt { width, order } => v matches AbstractValue::UInt(n) && 1 <= width <= 8
            && n < pow256(width as nat),
        FieldKind::Unit => v is Unit,
        FieldKind::Bytes { len } => v matches AbstractValue::Bytes(s) && s.len() == len,
        FieldKind::Text => v is Text,
        FieldKind::NulText => v matches AbstractValue::NulText(s) && (forall|i: int|
            0 <= i < s.len() ==> s[i] != 0u8),
    }
}

/// Whether the field's assertion accepts the value.
pub open spec fn spec_assert_ok(f: FieldDesc, v: AbstractValue) -> bool {
    match f.expect {
        Some(x) => v == x@,
        None => true,
    }
}

/// Where a read-backed skip of `n` bytes lands: it stops at the end of the
/// content.
pub open spec fn read_skip(len: nat, pos: nat, n: nat) -> nat {
    pos + min_nat(n, sat_sub_nat(len, pos))
}

/// The skip amount of a field, zero when absent.
pub open spec fn skip_amount(f: FieldDesc) -> nat {
    match f.skip {
        Some(n) => n as nat,
        None => 0,
    }
}

/// Where the cursor stands after a field's positioning directives, on
/// decode: first the skip, then the alignment, both stopping at the end of
/// the content.
pub open spec fn spec_staged(len: nat, pos: nat, f: FieldDesc) -> nat {
    let p1 = read_skip(len, pos, skip_amount(f));
    match f.align {
        Some(a) => if a == 0 {
            p1
        } else {
            read_skip(len, p1, (align_up(p1, a as nat) - p1) as nat)
        },
        None => p1,
    }
}

/// The first zero byte of `b` in `[i, end)`.
pub open spec fn find_nul_in(b: Seq<u8>, i: nat, end: nat) -> Option<nat>
    decreases (if i >= end {
        0int
    } else {
        end - i
    }),
{
    if i >= end || i >= b.len() {
        None
    } else if b[i as int] == 0 {
        Some(i)
    } else {
        find_nul_in(b, i + 1, end)
    }
}

/// Decodes one field's own value at a staged position, inside its limited
/// region: the value and the cursor after it, or nothing when the bytes do
/// not suffice or are malformed.
pub open spec fn spec_decode_value(
    bytes: Seq<u8>,
    staged: nat,
    limit: Option<u64>,
    kind: FieldKind,
) -> Option<(AbstractValue, nat)> {
    let len = bytes.len();
    let lo = min_nat(staged, len);
    let hi = match limit {
        Some(l) => min_nat(len, (staged + l) as nat),
        None => len,
    };
    match kind {
        FieldKind::UInt { width, order } => if 1 <= width <= 8 && staged + width <= hi {
            let s = bytes.subrange(staged as int, staged + width as int);
            Some(
                (
                    AbstractValue::UInt(
                        if order is Little {
                            le_val(s)
                        } else {
                            be_val(s)
                        },
                    ),
                    (staged + width) as nat,
                ),
            )
        } else {
            None
        },
        FieldKind::Unit => Some((AbstractValue::Unit, staged)),
        FieldKind::Bytes { len: blen } => if blen == 0 {
            Some((AbstractValue::Bytes(Seq::empty()), staged))
        } else if staged + blen <= hi {
            Some(
                (
                    AbstractValue::Bytes(bytes.subrange(staged as int, staged + blen as int)),
                    (staged + blen) as nat,
                ),
            )
        } else {
            None
        },
        FieldKind::Text => {
            let s = bytes.subrange(lo as int, max_nat(lo, hi) as int);
            if valid_utf8(s) {
                Some((AbstractValue::Text(decode_utf8(s)), (staged + (max_nat(lo, hi) - lo)) as nat))
            } else {
                None
            }
        },
        FieldKind::NulText => {
            let e = max_nat(lo, hi);
            match find_nul_in(bytes, lo, e) {
                Some(j) => Some(
                    (AbstractValue::NulText(bytes.subrange(lo as int, j as int)), (j + 1) as nat),
                ),
                None => Some(
                    (
                        AbstractValue::NulText(bytes.subrange(lo as int, e as int)),
                        (staged + (e - lo)) as nat,
                    ),
                ),
            }
        },
    }
}

/// Where the cursor stands after the `consume` directive discards the
/// unused remainder of the limited region.
pub open spec fn spec_consumed(len: nat, staged: nat, p3: nat, limit: Option<u64>) -> nat {
    match limit {
        Some(l) => max_nat(p3, min_nat(len, (staged + l) as nat)),
        None => max_nat(p3, len),
    }
}

/// Decodes one directive-wrapped field: the value and the cursor after it,
/// or nothing when decoding must fail.
pub open spec fn spec_decode_field(bytes: Seq<u8>, pos: nat, f: FieldDesc) -> Option<
    (AbstractValue, nat),
> {
    if f.cond is Never {
        Some((spec_default_value(f), pos))
    } else if f.align == Some(0u64) {
        None
    } else {
        let staged = spec_staged(bytes.len(), pos, f);
        if !cond_active(f.cond) {
            Some((spec_default_value(f), staged))
        } else {
            match spec_decode_value(bytes, staged, f.limit, f.kind) {
                Some((v, p3)) => if spec_assert_ok(f, v) {
                    if f.consume {
                        Some((v, spec_consumed(bytes.len(), staged, p3, f.limit)))
                    } else {
                        Some((v, p3))
                    }
                } else {
                    None
                },
                None => None,
            }
        }
    }
}

/// Decodes a field list in declaration order, starting at index `i`.
pub open spec fn spec_decode_fields(bytes: Seq<u8>, pos: nat, fs: Seq<FieldDesc>, i: nat) -> Option<
    (Seq<AbstractValue>, nat),
>
    decreases (if i >= fs.len() {
        0int
    } else {
        fs.len() - i
    }),
{
    if i >= fs.len() {
        Some((Seq::empty(), pos))
    } else {
        match spec_decode_field(bytes, pos, fs[i as int]) {
            Some((v, p)) => match spec_decode_fields(bytes, p, fs, i + 1) {
                Some((vs, pn)) => Some((seq![v] + vs, pn)),
                None => None,
            },
            None => None,
        }
    }
}


/// Reads up to `n` bytes, stopping only at the end of the stream.
fn read_up_to<R: ReadStream>(r: &mut R, n: u64) -> (res: Result<Vec<u8>, Error>)
    requires
        old(r).inv(),
    ensures
        final(r).inv(),
        res matches Ok(v) ==> {
            &&& final(r).cap() == old(r).cap()
            &&& final(r).bytes() == old(r).bytes()
            &&& v@.len() == min_nat(n as nat, sat_sub_nat(old(r).bytes().len(), old(r).pos()))
            &&& final(r).pos() == old(r).pos() + v@.len()
            &&& (forall|i: int|
                0 <= i < v@.len() ==> v@[i] == old(r).bytes()[old(r).pos() + i])
        },
        old(r).infallible() ==> res is Ok && final(r).infallible(),
{
    let mut out: Vec<u8> = Vec::new();
    let mut done = false;
    while !done && (out.len() as u64) < n
        invariant
            old(r).inv(),
            r.inv(),
            out@.len() <= n,
            r.bytes() == old(r).bytes(),
            r.cap() == old(r).cap(),
            r.pos() == old(r).pos() + out@.len(),
            out@.len() > 0 ==> old(r).pos() + out@.len() <= old(r).bytes().len(),
            forall|i: int| 0 <= i < out@.len() ==> out@[i] == old(r).bytes()[old(r).pos() + i],
            done ==> r.pos() >= r.bytes().len(),
            old(r).infallible() ==> r.infallible(),
        decreases n - out@.len(), if done {
            0int
        } else {
            1int
        },
    {
        let rem = n - out.len() as u64;
        let chunk: usize = if rem > 0x10000 {
            0x10000
        } else {
            rem as usize
        };
        match r.read(chunk) {
            Ok(mut v) => {
                if v.len() == 0 {
                    done = true;
                } else {
                    out.append(&mut v);
                }
            },
            Err(e) => {
                return Err(e);
            },
        }
    }
    Ok(out)
}

/// Compares two byte vectors for equal content.
fn bytes_eq(a: &Vec<u8>, b: &Vec<u8>) -> (r: bool)
    ensures
        r == (a@ == b@),
{
    if a.len() != b.len() {
        proof {
            assert(a@.len() != b@.len());
        }
        return false;
    }
    let n = a.len();
    let mut i: usize = 0;
    while i < n
        invariant
            i <= n,
            n == a@.len(),
            n == b@.len(),
            forall|j: int| 0 <= j < i ==> a@[j] == b@[j],
        decreases n - i,
    {
        if a[i] != b[i] {
            return false;
        }
        i += 1;
    }
    proof {
        assert(a@ =~= b@);
    }
    true
}

/// Compares two values for equal content.
pub fn value_eq(a: &Value, b: &Value) -> (r: bool)
    ensures
        r == (a@ == b@),
{
    match (a, b) {
        (Value::UInt(x), Value::UInt(y)) => *x == *y,
        (Value::Unit, Value::Unit) => true,
        (Value::Bytes(x), Value::Bytes(y)) => bytes_eq(x, y),
        (Value::NulText(x), Value::NulText(y)) => bytes_eq(x, y),
        (Value::Text(x), Value::Text(y)) => {
            let r = x.eq(y);
            r
        },
        _ => false,
    }
}

/// A fresh value with the same content.
pub fn value_clone(v: &Value) -> (r: Value)
    ensures
        r@ == v@,
{
    match v {
        Value::UInt(n) => Value::UInt(*n),
        Value::Unit => Value::Unit,
        Value::Bytes(b) => {
            let c = crate::stream::copy_range(b, 0, b.len());
            proof {
                assert(c@ =~= b@);
            }
            Value::Bytes(c)
        },
        Value::Text(s) => Value::Text(s.as_str().to_owned()),
        Value::NulText(b) => {
            let c = crate::stream::copy_range(b, 0, b.len());
            proof {
                assert(c@ =~= b@);
            }
            Value::NulText(c)
        },
    }
}

/// The value decoding substitutes for an absent field.
fn default_value(f: &FieldDesc) -> (r: Value)
    ensures
        r@ == spec_default_value(*f),
{
    match &f.default {
        Some(v) => value_clone(v),
        None => match f.kind {
            FieldKind::UInt { .. } => Value::UInt(0),
            FieldKind::Unit => Value::Unit,
            FieldKind::Bytes { len } => {
                let z = vec![0u8; len];
                proof {
                    assert(z@ =~= zero_bytes(len as nat));
                }
                Value::Bytes(z)
            },
            FieldKind::Text => Value::Text(String::new()),
            FieldKind::NulText => Value::NulText(Vec::new()),
        },
    }
}


/// Decodes one field's own value from the stream, honoring its limit.
fn decode_value<R: ReadStream + Tell>(r: &mut R, limit: Option<u64>, kind: FieldKind) -> (res:
    Result<Value, Error>)
    requires
        old(r).inv(),
    ensures
        final(r).inv(),
        res matches Ok(v) ==> {
            &&& final(r).cap() == old(r).cap()
            &&& final(r).bytes() == old(r).bytes()
            &&& spec_decode_value(old(r).bytes(), old(r).pos(), limit, kind) matches Some((av, np))
                && v@ == av && final(r).pos() == np
        },
        spec_decode_value(old(r).bytes(), old(r).pos(), limit, kind) is None ==> res is Err,
        old(r).infallible() ==> final(r).infallible(),
        old(r).infallible() && spec_decode_value(old(r).bytes(), old(r).pos(), limit, kind)
            is Some ==> res is Ok,
{
    match kind {
        FieldKind::UInt { width, order } => {
            if width == 0 || width > 8 {
                return Err(Error::InvalidData);
            }
            if let Some(l) = limit {
                if width as u64 > l {
                    return Err(Error::UnexpectedEof);
                }
            }
            match r.read_exact(width) {
                Ok(v) => {
                    proof {
                        assert(v@ =~= old(r).bytes().subrange(
                            old(r).pos() as int,
                            old(r).pos() + width as int,
                        ));
                    }
                    let n: u64 = match order {
                        Endianness::Little => le_to_u64(v.as_slice()),
                        Endianness::Big => be_to_u64(v.as_slice()),
                    };
                    Ok(Value::UInt(n))
                },
                Err(e) => Err(e),
            }
        },
        FieldKind::Unit => Ok(Value::Unit),
        FieldKind::Bytes { len } => {
            if let Some(l) = limit {
                if len as u64 > l {
                    return Err(Error::UnexpectedEof);
                }
            }
            match r.read_exact(len) {
                Ok(v) => {
                    proof {
                        if len > 0 {
                            assert(v@ =~= old(r).bytes().subrange(
                                old(r).pos() as int,
                                old(r).pos() + len as int,
                            ));
                        } else {
                            assert(v@ =~= Seq::<u8>::empty());
                        }
                    }
                    Ok(Value::Bytes(v))
                },
                Err(e) => Err(e),
            }
        },
        FieldKind::Text => {
            let got = match limit {
                Some(l) => read_up_to(r, l),
                None => read_to_end(r),
            };
            match got {
                Ok(v) => {
                    proof {
                        let len = old(r).bytes().len();
                        let lo = min_nat(old(r).pos(), len);
                        let hi = match limit {
                            Some(l) => min_nat(len, (old(r).pos() + l) as nat),
                            None => len,
                        };
                        assert(v@ =~= old(r).bytes().subrange(
                            lo as int,
                            max_nat(lo, hi) as int,
                        ));
                    }
                    match string_from_utf8(v) {
                        Ok(s) => Ok(Value::Text(s)),
                        Err(e) => Err(e),
                    }
                },
                Err(e) => Err(e),
            }
        },
        FieldKind::NulText => decode_nul_text(r, limit),
    }
}

/// Decodes a nul-terminated byte run, stopping at the first zero byte, the
/// end of the limited region, or the end of the stream, whichever is first.
fn decode_nul_text<R: ReadStream>(r: &mut R, limit: Option<u64>) -> (res: Result<Value, Error>)
    requires
        old(r).inv(),
    ensures
        final(r).inv(),
        res matches Ok(v) ==> {
            &&& final(r).cap() == old(r).cap()
            &&& final(r).bytes() == old(r).bytes()
            &&& spec_decode_value(old(r).bytes(), old(r).pos(), limit, FieldKind::NulText)
                matches Some((av, np)) && v@ == av && final(r).pos() == np
        },
        spec_decode_value(old(r).bytes(), old(r).pos(), limit, FieldKind::NulText) is None
            ==> res is Err,
        old(r).infallible() ==> res is Ok && final(r).infallible(),
{
    let ghost len = old(r).bytes().len();
    let ghost lo = min_nat(old(r).pos(), len);
    let ghost hi0 = match limit {
        Some(l) => min_nat(len, (old(r).pos() + l) as nat),
        None => len,
    };
    let ghost e = max_nat(lo, hi0);
    let mut out: Vec<u8> = Vec::new();
    loop
        invariant
            old(r).inv(),
            r.inv(),
            r.bytes() == old(r).bytes(),
            r.cap() == old(r).cap(),
            r.pos() == old(r).pos() + out@.len(),
            len == old(r).bytes().len(),
            lo == min_nat(old(r).pos(), len),
            hi0 == match limit {
                Some(l) => min_nat(len, (old(r).pos() + l) as nat),
                None => len,
            },
            e == max_nat(lo, hi0),
            out@.len() > 0 ==> old(r).pos() + out@.len() <= e && old(r).pos() <= len,
            forall|i: int|
                0 <= i < out@.len() ==> out@[i] == old(r).bytes()[old(r).pos() + i] && out@[i]
                    != 0,
            find_nul_in(old(r).bytes(), lo, e) == find_nul_in(
                old(r).bytes(),
                (lo + out@.len()) as nat,
                e,
            ),
            old(r).infallible() ==> r.infallible(),
        decreases e + 1 - r.pos(),
    {
        let still_allowed: bool = match limit {
            Some(l) => (out.len() as u64) < l,
            None => true,
        };
        if !still_allowed {
            // The limited region is exhausted with no terminator in it.
            proof {
                assert(out@ =~= old(r).bytes().subrange(lo as int, e as int));
            }
            return Ok(Value::NulText(out));
        }
        match r.read(1) {
            Ok(v) => {
                if v.len() == 0 {
                    // End of stream before a terminator.
                    proof {
                        assert(out@ =~= old(r).bytes().subrange(lo as int, e as int));
                    }
                    return Ok(Value::NulText(out));
                }
                let b = v[0];
                if b == 0 {
                    proof {
                        assert(out@ =~= old(r).bytes().subrange(
                            lo as int,
                            (lo + out@.len()) as int,
                        ));
                    }
                    return Ok(Value::NulText(out));
                }
                out.push(b);
            },
            Err(e2) => {
                return Err(e2);
            },
        }
    }
}

/// Decodes one directive-wrapped field from the stream.
#[verifier::rlimit(80)]
pub fn decode_field<R: ReadStream + Tell>(r: &mut R, f: &FieldDesc) -> (res: Result<Value, Error>)
    requires
        old(r).inv(),
    ensures
        final(r).inv(),
        res matches Ok(v) ==> {
            &&& final(r).cap() == old(r).cap()
            &&& final(r).bytes() == old(r).bytes()
            &&& spec_decode_field(old(r).bytes(), old(r).pos(), *f) matches Some((av, np)) && v@
                == av && final(r).pos() == np
        },
        spec_decode_field(old(r).bytes(), old(r).pos(), *f) is None ==> res is Err,
        f.cond is Never ==> (res is Ok && *final(r) == *old(r)),
        old(r).infallible() ==> final(r).infallible(),
        old(r).infallible() && spec_decode_field(old(r).bytes(), old(r).pos(), *f) is Some
            ==> res is Ok,
{
    if let Cond::Never = f.cond {
        return Ok(default_value(f));
    }
    if let Some(a) = f.align {
        if a == 0 {
            return Err(Error::InvalidData);
        }
    }
    // Positioning: skip, then align, both read-backed.
    if let Some(n) = f.skip {
        match discard(r, n) {
            Ok(_) => {},
            Err(e) => {
                return Err(e);
            },
        }
    }
    let ghost p1 = r.pos();
    proof {
        assert(p1 == read_skip(old(r).bytes().len(), old(r).pos(), skip_amount(*f)));
    }
    if let Some(a) = f.align {
        let p = match r.tell() {
            Ok(p) => p,
            Err(e) => {
                return Err(e);
            },
        };
        let rem = p % a;
        if rem > 0 {
            proof {
                assert((align_up(p1, a as nat) - p1) as nat == (a - rem) as nat);
            }
            match discard(r, a - rem) {
                Ok(_) => {},
                Err(e) => {
                    return Err(e);
                },
            }
        }
    }
    let ghost staged = r.pos();
    proof {
        assert(staged == spec_staged(old(r).bytes().len(), old(r).pos(), *f));
    }
    if let Cond::When(false) = f.cond {
        return Ok(default_value(f));
    }
    let staged_pos = match r.tell() {
        Ok(p) => p,
        Err(e) => {
            return Err(e);
        },
    };
    let v = match decode_value(r, f.limit, f.kind) {
        Ok(v) => v,
        Err(e) => {
            return Err(e);
        },
    };
    if let Some(x) = &f.expect {
        if !value_eq(&v, x) {
            return Err(Error::AssertFailed);
        }
    }
    if f.consume {
        proof {
            lemma_decode_value_advances(old(r).bytes(), staged, f.limit, f.kind);
        }
        let p3 = match r.tell() {
            Ok(p) => p,
            Err(e) => {
                return Err(e);
            },
        };
        match f.limit {
            Some(l) => {
                proof {
                    assert(staged_pos as nat == staged);
                    assert(p3 as nat <= staged + l);
                }
                let used = p3 - staged_pos;
                if used < l {
                    match discard(r, l - used) {
                        Ok(_) => {},
                        Err(e) => {
                            return Err(e);
                        },
                    }
                }
                proof {
                    let len = old(r).bytes().len();
                    if used < l {
                        assert(r.pos() == p3 as nat + min_nat(
                            (l - used) as nat,
                            sat_sub_nat(len, p3 as nat),
                        ));
                        if p3 as nat <= len {
                            assert(p3 as nat + (l - used) as nat == staged + l);
                            assert(r.pos() == min_nat((staged + l) as nat, len));
                        } else {
                            assert(sat_sub_nat(len, p3 as nat) == 0);
                        }
                    }
                    assert(r.pos() == spec_consumed(len, staged, p3 as nat, f.limit));
                }
            },
            None => {
                proof {
                    r.lemma_inv();
                }
                match discard(r, u64::MAX) {
                    Ok(_) => {},
                    Err(e) => {
                        return Err(e);
                    },
                }
                proof {
                    let len = old(r).bytes().len();
                    assert(sat_sub_nat(len, p3 as nat) <= u64::MAX as nat);
                    assert(r.pos() == spec_consumed(len, staged, p3 as nat, f.limit));
                }
            },
        }
    }
    Ok(v)
}

/// Prefixes already-decoded values onto the result of decoding the rest.
pub open spec fn spec_prepend(vs: Seq<AbstractValue>, rest: Option<(Seq<AbstractValue>, nat)>)
    -> Option<(Seq<AbstractValue>, nat)> {
    match rest {
        Some((avs, np)) => Some((vs + avs, np)),
        None => None,
    }
}

/// A found terminator lies in the searched range, is a zero byte, and
/// nothing before it in the range is zero.
pub proof fn lemma_find_nul_in_props(b: Seq<u8>, i: nat, end: nat)
    ensures
        find_nul_in(b, i, end) matches Some(j) ==> i <= j < end && j < b.len() && b[j as int]
            == 0u8,
    decreases (if i >= end {
        0int
    } else {
        end - i
    }),
{
    if i < end && i < b.len() && b[i as int] != 0 {
        lemma_find_nul_in_props(b, i + 1, end);
    }
}

/// Decoding a field's own value never moves the cursor backward, and never
/// past its limited region.
pub proof fn lemma_decode_value_advances(
    bytes: Seq<u8>,
    staged: nat,
    limit: Option<u64>,
    kind: FieldKind,
)
    ensures
        spec_decode_value(bytes, staged, limit, kind) matches Some((av, np)) ==> staged <= np && (
        limit matches Some(l) ==> np <= staged + l),
{
    let len = bytes.len();
    let lo = min_nat(staged, len);
    let hi = match limit {
        Some(l) => min_nat(len, (staged + l) as nat),
        None => len,
    };
    if kind is NulText {
        lemma_find_nul_in_props(bytes, lo, max_nat(lo, hi));
    }
}

/// Decodes a whole composite: each field's directive-wrapped coding, in
/// declaration order.
pub fn decode_fields<R: ReadStream + Tell>(r: &mut R, fs: &Vec<FieldDesc>) -> (res: Result<
    Vec<Value>,
    Error,
>)
    requires
        old(r).inv(),
    ensures
        final(r).inv(),
        res matches Ok(vs) ==> {
            &&& final(r).cap() == old(r).cap()
            &&& final(r).bytes() == old(r).bytes()
            &&& spec_decode_fields(old(r).bytes(), old(r).pos(), fs@, 0) matches Some((avs, np))
                && vs@.len() == avs.len() && (forall|i: int|
                0 <= i < vs@.len() ==> vs@[i]@ == avs[i]) && final(r).pos() == np
        },
        spec_decode_fields(old(r).bytes(), old(r).pos(), fs@, 0) is None ==> res is Err,
        old(r).infallible() ==> final(r).infallible(),
        old(r).infallible() && spec_decode_fields(old(r).bytes(), old(r).pos(), fs@, 0) is Some
            ==> res is Ok,
        (forall|j: int| 0 <= j < fs@.len() ==> (#[trigger] fs@[j]).cond is Never) ==> (res is Ok
            && *final(r) == *old(r)),
{
    let n = fs.len();
    let mut out: Vec<Value> = Vec::new();
    let mut i: usize = 0;
    while i < n
        invariant
            old(r).inv(),
            r.inv(),
            i <= n,
            n == fs@.len(),
            out@.len() == i,
            r.bytes() == old(r).bytes(),
            r.cap() == old(r).cap(),
            old(r).infallible() ==> r.infallible(),
            (forall|j: int| 0 <= j < fs@.len() ==> (#[trigger] fs@[j]).cond is Never) ==> *r
                == *old(r),
            spec_decode_fields(old(r).bytes(), old(r).pos(), fs@, 0) == spec_prepend(
                out@.map_values(|v: Value| v@),
                spec_decode_fields(old(r).bytes(), r.pos(), fs@, i as nat),
            ),
        decreases n - i,
    {
        let ghost pre = *r;
        match decode_field(r, &fs[i]) {
            Ok(v) => {
                out.push(v);
                proof {
                    let b = old(r).bytes();
                    let sub = spec_decode_fields(b, r.pos(), fs@, (i + 1) as nat);
                    let fv = spec_decode_field(b, pre.pos(), fs@[i as int]);
                    assert(spec_decode_fields(b, pre.pos(), fs@, i as nat) == spec_prepend(
                        seq![v@],
                        sub,
                    ));
                    match sub {
                        Some((avs, np)) => {
                            assert(out@.map_values(|x: Value| x@) =~= out@.subrange(
                                0,
                                i as int,
                            ).map_values(|x: Value| x@) + seq![v@]);
                            assert(out@.subrange(0, i as int) =~= out@.take(i as int));
                            assert((out@.take(i as int).map_values(|x: Value| x@) + seq![v@])
                                + avs =~= out@.take(i as int).map_values(|x: Value| x@) + (
                            seq![v@] + avs));
                        },
                        None => {},
                    }
                }
            },
            Err(e) => {
                return Err(e);
            },
        }
        i += 1;
    }
    proof {
        assert(out@.map_values(|v: Value| v@) + Seq::<AbstractValue>::empty()
            =~= out@.map_values(|v: Value| v@));
    }
    Ok(out)
}


/// One field's own wire bytes, for a value that fits its shape.
pub open spec fn spec_encode_value(kind: FieldKind, v: AbstractValue) -> Seq<u8> {
    match kind {
        FieldKind::UInt { width, order } => {
            let n = v->UInt_0;
            if order is Little {
                le_bytes(n, width as nat)
            } else {
                be_bytes(n, width as nat)
            }
        },
        FieldKind::Unit => Seq::empty(),
        FieldKind::Bytes { .. } => v->Bytes_0,
        FieldKind::Text => encode_utf8(v->Text_0),
        FieldKind::NulText => v->NulText_0 + seq![0u8],
    }
}

/// Encodes one directive-wrapped field at a position: the new content and
/// cursor, or nothing when encoding must fail. The assertion is checked
/// before anything is written; skip and alignment write zero filler; a
/// value larger than the field's limit is rejected; `consume` pads the
/// unused remainder of the limit with zero bytes.
pub open spec fn spec_encode_field(data: Seq<u8>, pos: nat, f: FieldDesc, v: AbstractValue)
    -> Option<(Seq<u8>, nat)> {
    if f.cond is Never {
        Some((data, pos))
    } else if f.align == Some(0u64) {
        None
    } else if !spec_assert_ok(f, v) {
        None
    } else {
        let p1 = pos + skip_amount(f);
        let d1 = write_bytes(data, pos, zero_bytes(skip_amount(f)));
        let p2 = match f.align {
            Some(a) => align_up(p1, a as nat),
            None => p1,
        };
        let d2 = write_bytes(d1, p1, zero_bytes((p2 - p1) as nat));
        if !cond_active(f.cond) {
            Some((d2, p2))
        } else if !spec_value_fits(f.kind, v) {
            None
        } else {
            let payload = spec_encode_value(f.kind, v);
            if f.limit matches Some(l) && payload.len() > l {
                None
            } else {
                let d3 = write_bytes(d2, p2, payload);
                let p3 = p2 + payload.len();
                if f.consume && f.limit is Some {
                    let l = f.limit->0;
                    Some(
                        (
                            write_bytes(d3, p3, zero_bytes((l - payload.len()) as nat)),
                            (p2 + l) as nat,
                        ),
                    )
                } else {
                    Some((d3, p3))
                }
            }
        }
    }
}

/// Encodes a field list in declaration order, starting at index `i`.
pub open spec fn spec_encode_fields(
    data: Seq<u8>,
    pos: nat,
    fs: Seq<FieldDesc>,
    vs: Seq<AbstractValue>,
    i: nat,
) -> Option<(Seq<u8>, nat)>
    decreases (if i >= fs.len() {
        0int
    } else {
        fs.len() - i
    }),
{
    if i >= fs.len() || i >= vs.len() {
        if fs.len() == vs.len() {
            Some((data, pos))
        } else {
            None
        }
    } else {
        match spec_encode_field(data, pos, fs[i as int], vs[i as int]) {
            Some((d, p)) => spec_encode_fields(d, p, fs, vs, i + 1),
            None => None,
        }
    }
}

/// Encodes one field's own value to a fresh byte vector, or rejects a value
/// that does not fit the field's wire shape.
fn encode_value(kind: FieldKind, v: &Value) -> (res: Result<Vec<u8>, Error>)
    ensures
        res matches Ok(p) ==> spec_value_fits(kind, v@) && p@ == spec_encode_value(kind, v@),
        res is Ok <==> spec_value_fits(kind, v@),
{
    match (kind, v) {
        (FieldKind::UInt { width, order }, Value::UInt(n)) => {
            if width == 0 || width > 8 {
                return Err(Error::InvalidData);
            }
            if width < 8 {
                let bound: u64 = match width {
                    1 => 0x100,
                    2 => 0x1_0000,
                    3 => 0x100_0000,
                    4 => 0x1_0000_0000,
                    5 => 0x100_0000_0000,
                    6 => 0x1_0000_0000_0000,
                    _ => 0x100_0000_0000_0000,
                };
                proof {
                    reveal_with_fuel(pow256, 9);
                }
                if *n >= bound {
                    return Err(Error::InvalidData);
                }
            } else {
                proof {
                    crate::endian::lemma_pow256_u64();
                }
            }
            match order {
                Endianness::Little => Ok(crate::endian::u64_to_le(*n, width)),
                Endianness::Big => Ok(crate::endian::u64_to_be(*n, width)),
            }
        },
        (FieldKind::Unit, Value::Unit) => {
            let out: Vec<u8> = Vec::new();
            proof {
                assert(out@ =~= Seq::<u8>::empty());
            }
            Ok(out)
        },
        (FieldKind::Bytes { len }, Value::Bytes(b)) => {
            if b.len() != len {
                return Err(Error::InvalidData);
            }
            let c = crate::stream::copy_range(b, 0, b.len());
            proof {
                assert(c@ =~= b@);
            }
            Ok(c)
        },
        (FieldKind::Text, Value::Text(t)) => {
            let bytes = t.as_str().as_bytes();
            Ok(crate::stream::prefix_vec(bytes, bytes.len()))
        },
        (FieldKind::NulText, Value::NulText(b)) => {
            let n = b.len();
            let mut out: Vec<u8> = Vec::new();
            let mut i: usize = 0;
            while i < n
                invariant
                    i <= n,
                    n == b@.len(),
                    kind == FieldKind::NulText,
                    v@ == AbstractValue::NulText(b@),
                    out@.len() == i,
                    forall|j: int| 0 <= j < i ==> out@[j] == b@[j] && b@[j] != 0u8,
                decreases n - i,
            {
                let byte = b[i];
                if byte == 0 {
                    proof {
                        assert(v@->NulText_0[i as int] == 0u8);
                        assert(!spec_value_fits(kind, v@));
                    }
                    return Err(Error::InvalidData);
                }
                out.push(byte);
                i += 1;
            }
            out.push(0u8);
            proof {
                assert(out@ =~= b@ + seq![0u8]);
            }
            Ok(out)
        },
        _ => Err(Error::InvalidData),
    }
}

/// Encodes one directive-wrapped field into the stream.
#[verifier::rlimit(80)]
pub fn encode_field<W: WriteStream + Tell>(w: &mut W, f: &FieldDesc, v: &Value) -> (res: Result<
    (),
    Error,
>)
    requires
        old(w).inv(),
    ensures
        final(w).inv(),
        res is Ok ==> {
            &&& final(w).cap() == old(w).cap()
            &&& spec_encode_field(old(w).bytes(), old(w).pos(), *f, v@) matches Some((d, p))
                && final(w).bytes() == d && final(w).pos() == p
        },
        spec_encode_field(old(w).bytes(), old(w).pos(), *f, v@) is None ==> res is Err,
        f.cond is Never ==> (res is Ok && *final(w) == *old(w)),
        old(w).infallible() ==> final(w).infallible(),
        old(w).infallible() && (spec_encode_field(old(w).bytes(), old(w).pos(), *f, v@) matches
            Some((d, p)) && p <= old(w).cap()) ==> res is Ok,
{
    if let Cond::Never = f.cond {
        return Ok(());
    }
    if let Some(a) = f.align {
        if a == 0 {
            return Err(Error::InvalidData);
        }
    }
    // The assertion guards the field before anything is written.
    if let Some(x) = &f.expect {
        if !value_eq(v, x) {
            return Err(Error::AssertFailed);
        }
    }
    // Positioning: skip, then align, both writing zero filler.
    let skip_n: u64 = match f.skip {
        Some(n) => n,
        None => 0,
    };
    let ghost d0 = old(w).bytes();
    let ghost pos0 = old(w).pos();
    proof {
        old(w).lemma_inv();
    }
    match write_zeros(w, skip_n) {
        Ok(_) => {},
        Err(e) => {
            return Err(e);
        },
    }
    let ghost p1 = w.pos();
    let ghost d1 = w.bytes();
    if let Some(a) = f.align {
        let p = match w.tell() {
            Ok(p) => p,
            Err(e) => {
                return Err(e);
            },
        };
        let rem = p % a;
        if rem > 0 {
            proof {
                assert((align_up(p1, a as nat) - p1) as nat == (a - rem) as nat);
            }
            match write_zeros(w, a - rem) {
                Ok(_) => {},
                Err(e) => {
                    return Err(e);
                },
            }
        } else {
            proof {
                assert(write_bytes(d1, p1, zero_bytes(0)) == d1);
            }
        }
    } else {
        proof {
            assert(write_bytes(d1, p1, zero_bytes(0)) == d1);
        }
    }
    let ghost p2 = w.pos();
    let ghost d2 = w.bytes();
    if let Cond::When(false) = f.cond {
        return Ok(());
    }
    let payload = match encode_value(f.kind, v) {
        Ok(p) => p,
        Err(e) => {
            return Err(e);
        },
    };
    if let Some(l) = f.limit {
        if payload.len() as u64 > l {
            return Err(Error::WriteZero);
        }
    }
    match write_all(w, payload.as_slice()) {
        Ok(_) => {},
        Err(e) => {
            return Err(e);
        },
    }
    if f.consume {
        if let Some(l) = f.limit {
            let pad: u64 = l - payload.len() as u64;
            match write_zeros(w, pad) {
                Ok(_) => {},
                Err(e) => {
                    return Err(e);
                },
            }
        }
    }
    Ok(())
}

/// Writes `n` zero filler bytes, or fails at the sink's capacity.
fn write_zeros<W: WriteStream>(w: &mut W, n: u64) -> (res: Result<(), Error>)
    requires
        old(w).inv(),
    ensures
        final(w).inv(),
        res is Ok ==> {
            &&& final(w).cap() == old(w).cap()
            &&& final(w).bytes() == write_bytes(old(w).bytes(), old(w).pos(), zero_bytes(n as nat))
            &&& final(w).pos() == old(w).pos() + n
        },
        old(w).infallible() ==> final(w).infallible(),
        old(w).infallible() && old(w).pos() + n <= old(w).cap() ==> res is Ok,
{
    let mut written: u64 = 0;
    proof {
        assert(write_bytes(old(w).bytes(), old(w).pos(), zero_bytes(0)) == old(w).bytes());
    }
    while written < n
        invariant
            old(w).inv(),
            w.inv(),
            written <= n,
            w.cap() == old(w).cap(),
            w.bytes() == write_bytes(old(w).bytes(), old(w).pos(), zero_bytes(written as nat)),
            w.pos() == old(w).pos() + written,
            old(w).infallible() ==> w.infallible(),
        decreases n - written,
    {
        let rem = n - written;
        let chunk: usize = if rem > 0x1000 {
            0x1000
        } else {
            rem as usize
        };
        let filler = vec![0u8; chunk];
        match write_all(w, filler.as_slice()) {
            Ok(_) => {
                proof {
                    assert(filler@ =~= zero_bytes(chunk as nat));
                    crate::stream::lemma_write_bytes_concat(
                        old(w).bytes(),
                        old(w).pos(),
                        zero_bytes(written as nat),
                        zero_bytes(chunk as nat),
                    );
                    crate::stream::lemma_zero_bytes_concat(written as nat, chunk as nat);
                }
                written = written + chunk as u64;
            },
            Err(e) => {
                return Err(e);
            },
        }
    }
    Ok(())
}

/// Encodes a whole composite: each field's directive-wrapped coding, in
/// declaration order. The field list and the value list must pair up.
pub fn encode_fields<W: WriteStream + Tell>(w: &mut W, fs: &Vec<FieldDesc>, vs: &Vec<Value>)
    -> (res: Result<(), Error>)
    requires
        old(w).inv(),
    ensures
        final(w).inv(),
        res is Ok ==> {
            &&& final(w).cap() == old(w).cap()
            &&& spec_encode_fields(
                old(w).bytes(),
                old(w).pos(),
                fs@,
                vs@.map_values(|v: Value| v@),
                0,
            ) matches Some((d, p)) && final(w).bytes() == d && final(w).pos() == p
        },
        spec_encode_fields(old(w).bytes(), old(w).pos(), fs@, vs@.map_values(|v: Value| v@), 0)
            is None ==> res is Err,
        old(w).infallible() ==> final(w).infallible(),
        old(w).infallible() && (spec_encode_fields(
            old(w).bytes(),
            old(w).pos(),
            fs@,
            vs@.map_values(|v: Value| v@),
            0,
        ) matches Some((d, p)) && p <= old(w).cap()) ==> res is Ok,
        fs@.len() == vs@.len() && (forall|j: int|
            0 <= j < fs@.len() ==> (#[trigger] fs@[j]).cond is Never) ==> (res is Ok && *final(w)
            == *old(w)),
{
    if fs.len() != vs.len() {
        proof {
            lemma_encode_fields_same_len(
                old(w).bytes(),
                old(w).pos(),
                fs@,
                vs@.map_values(|v: Value| v@),
                0,
            );
        }
        return Err(Error::InvalidData);
    }
    let n = fs.len();
    let mut i: usize = 0;
    while i < n
        invariant
            old(w).inv(),
            w.inv(),
            i <= n,
            n == fs@.len(),
            n == vs@.len(),
            w.cap() == old(w).cap(),
            old(w).infallible() ==> w.infallible(),
            (forall|j: int| 0 <= j < fs@.len() ==> (#[trigger] fs@[j]).cond is Never) ==> *w
                == *old(w),
            spec_encode_fields(
                old(w).bytes(),
                old(w).pos(),
                fs@,
                vs@.map_values(|v: Value| v@),
                0,
            ) == spec_encode_fields(
                w.bytes(),
                w.pos(),
                fs@,
                vs@.map_values(|v: Value| v@),
                i as nat,
            ),
        decreases n - i,
    {
        proof {
            let avs = vs@.map_values(|v: Value| v@);
            match spec_encode_field(w.bytes(), w.pos(), fs@[i as int], avs[i as int]) {
                Some((d1, p1)) => {
                    lemma_encode_fields_monotone(d1, p1, fs@, avs, (i + 1) as nat);
                },
                None => {},
            }
        }
        match encode_field(w, &fs[i], &vs[i]) {
            Ok(_) => {},
            Err(e) => {
                return Err(e);
            },
        }
        i += 1;
    }
    Ok(())
}


/// A statically absent field consumes no stream bytes at all and always
/// yields its declared default (or the kind's zero-equivalent).
pub proof fn lemma_cond_never(bytes: Seq<u8>, pos: nat, f: FieldDesc)
    requires
        f.cond == Cond::Never,
    ensures
        spec_decode_field(bytes, pos, f) == Some((spec_default_value(f), pos)),
{
}

/// A run-time-false condition still executes the positioning directives,
/// but reads no value bytes and yields the declared default.
pub proof fn lemma_cond_runtime_false(bytes: Seq<u8>, pos: nat, f: FieldDesc)
    requires
        f.cond == Cond::When(false),
        f.align != Some(0u64),
    ensures
        spec_decode_field(bytes, pos, f) == Some(
            (spec_default_value(f), spec_staged(bytes.len(), pos, f)),
        ),
{
}

/// A field list whose directives lose no information: every field is
/// unconditionally present, nothing is force-consumed, alignment is valid,
/// and every field has a fixed wire size.
pub open spec fn fields_lossless(fs: Seq<FieldDesc>) -> bool {
    forall|i: int|
        0 <= i < fs.len() ==> {
            &&& (#[trigger] fs[i]).cond == Cond::Always
            &&& !fs[i].consume
            &&& fs[i].align != Some(0u64)
            &&& (fs[i].kind matches FieldKind::UInt { .. } || fs[i].kind is Unit || fs[i].kind
                matches FieldKind::Bytes { .. })
        }
}

/// The values pair up with the fields: each fits its field's wire shape,
/// passes its assertion, and fits inside its limit.
pub open spec fn values_ok(fs: Seq<FieldDesc>, vs: Seq<AbstractValue>) -> bool {
    &&& vs.len() == fs.len()
    &&& forall|i: int|
        0 <= i < fs.len() ==> {
            &&& spec_value_fits((#[trigger] fs[i]).kind, vs[i])
            &&& spec_assert_ok(fs[i], vs[i])
            &&& (fs[i].limit matches Some(l) ==> spec_encode_value(fs[i].kind, vs[i]).len()
                <= l)
        }
}

/// What one field's encoding does to the shape of the content: the cursor
/// only moves forward, the content only grows, it reaches the cursor, and
/// nothing below the starting position changes.
proof fn lemma_encode_field_effect(data: Seq<u8>, pos: nat, f: FieldDesc, v: AbstractValue)
    requires
        pos <= data.len(),
    ensures
        spec_encode_field(data, pos, f, v) matches Some((d1, p1)) ==> {
            &&& pos <= p1
            &&& data.len() <= d1.len()
            &&& p1 <= d1.len()
            &&& forall|j: int| 0 <= j < pos ==> d1[j] == data[j]
        },
{
    if f.cond is Never {
    } else if f.align == Some(0u64) || !spec_assert_ok(f, v) {
    } else {
        let sk = skip_amount(f);
        let p1 = pos + sk;
        let d1 = write_bytes(data, pos, zero_bytes(sk));
        assert(d1.len() >= max_nat(data.len(), p1));
        let p2 = match f.align {
            Some(a) => align_up(p1, a as nat),
            None => p1,
        };
        assert(p1 <= p2);
        let d2 = write_bytes(d1, p1, zero_bytes((p2 - p1) as nat));
        assert(d2.len() >= max_nat(d1.len(), p2));
    }
}

/// One fixed-size, unconditional, unconsumed field decodes, from any
/// content that extends what its encoding wrote, back to the very value
/// encoded, leaving the cursor exactly where encoding left it.
proof fn lemma_field_round_trip(
    data: Seq<u8>,
    pos: nat,
    f: FieldDesc,
    v: AbstractValue,
    whole: Seq<u8>,
)
    requires
        pos <= data.len(),
        f.cond == Cond::Always,
        !f.consume,
        f.align != Some(0u64),
        f.kind matches FieldKind::UInt { .. } || f.kind is Unit || f.kind matches
            FieldKind::Bytes { .. },
        spec_value_fits(f.kind, v),
        spec_assert_ok(f, v),
        f.limit matches Some(l) ==> spec_encode_value(f.kind, v).len() <= l,
        spec_encode_field(data, pos, f, v) matches Some((d1, p1)) && whole.len() >= d1.len()
            && (forall|j: int| pos <= j < p1 ==> whole[j] == d1[j]),
    ensures
        spec_encode_field(data, pos, f, v) matches Some((d1, p1)) ==> spec_decode_field(
            whole,
            pos,
            f,
        ) == Some((v, p1)),
{
    lemma_encode_field_effect(data, pos, f, v);
    let sk = skip_amount(f);
    let p1s = pos + sk;
    let d1s = write_bytes(data, pos, zero_bytes(sk));
    let p2 = match f.align {
        Some(a) => align_up(p1s, a as nat),
        None => p1s,
    };
    let d2 = write_bytes(d1s, p1s, zero_bytes((p2 - p1s) as nat));
    let payload = spec_encode_value(f.kind, v);
    match f.kind {
        FieldKind::UInt { width, order } => {
            crate::endian::lemma_le_bytes_len(v->UInt_0, width as nat);
        },
        _ => {},
    }
    let d3 = write_bytes(d2, p2, payload);
    let pend = p2 + payload.len();
    // The staging arithmetic on decode lands exactly where encoding wrote.
    assert(read_skip(whole.len(), pos, sk) == p1s);
    assert(spec_staged(whole.len(), pos, f) == p2) by {
        match f.align {
            Some(a) => {
                if a != 0 {
                    assert(read_skip(whole.len(), p1s, (align_up(p1s, a as nat) - p1s) as nat)
                        == p2);
                }
            },
            None => {},
        }
    }
    // The bytes decoding reads are the payload.
    assert(whole.subrange(p2 as int, pend as int) =~= payload) by {
        assert(forall|j: int|
            0 <= j < payload.len() ==> d3[p2 + j] == payload[j]);
    }
    match f.kind {
        FieldKind::UInt { width, order } => {
            if order is Little {
                crate::endian::lemma_le_roundtrip(v->UInt_0, width as nat);
            } else {
                crate::endian::lemma_be_roundtrip(v->UInt_0, width as nat);
            }
        },
        FieldKind::Bytes { len } => {
            if len == 0 {
                assert(v->Bytes_0 =~= Seq::<u8>::empty());
            }
        },
        _ => {},
    }
}

/// Encoding a field never moves the cursor backward.
proof fn lemma_encode_field_monotone(data: Seq<u8>, pos: nat, f: FieldDesc, v: AbstractValue)
    ensures
        spec_encode_field(data, pos, f, v) matches Some((d1, p1)) ==> pos <= p1,
{
}

/// A field list encodes only when the values pair up with the fields.
proof fn lemma_encode_fields_same_len(
    data: Seq<u8>,
    pos: nat,
    fs: Seq<FieldDesc>,
    vs: Seq<AbstractValue>,
    i: nat,
)
    ensures
        spec_encode_fields(data, pos, fs, vs, i) is Some ==> fs.len() == vs.len(),
    decreases (if i >= fs.len() {
        0int
    } else {
        fs.len() - i
    }),
{
    if i >= fs.len() || i >= vs.len() {
    } else {
        match spec_encode_field(data, pos, fs[i as int], vs[i as int]) {
            Some((d1, p1)) => {
                lemma_encode_fields_same_len(d1, p1, fs, vs, i + 1);
            },
            None => {},
        }
    }
}

/// Encoding a field list never moves the cursor backward.
proof fn lemma_encode_fields_monotone(
    data: Seq<u8>,
    pos: nat,
    fs: Seq<FieldDesc>,
    vs: Seq<AbstractValue>,
    i: nat,
)
    ensures
        spec_encode_fields(data, pos, fs, vs, i) matches Some((d, p)) ==> pos <= p,
    decreases (if i >= fs.len() {
        0int
    } else {
        fs.len() - i
    }),
{
    if i >= fs.len() || i >= vs.len() {
    } else {
        lemma_encode_field_monotone(data, pos, fs[i as int], vs[i as int]);
        match spec_encode_field(data, pos, fs[i as int], vs[i as int]) {
            Some((d1, p1)) => {
                lemma_encode_fields_monotone(d1, p1, fs, vs, i + 1);
            },
            None => {},
        }
    }
}

/// What a whole encoding does to the shape of the content, by induction.
proof fn lemma_encode_fields_effect(
    data: Seq<u8>,
    pos: nat,
    fs: Seq<FieldDesc>,
    vs: Seq<AbstractValue>,
    i: nat,
)
    requires
        pos <= data.len(),
    ensures
        spec_encode_fields(data, pos, fs, vs, i) matches Some((d, p)) ==> {
            &&& pos <= p
            &&& data.len() <= d.len()
            &&& p <= d.len()
            &&& forall|j: int| 0 <= j < pos ==> d[j] == data[j]
        },
    decreases (if i >= fs.len() {
        0int
    } else {
        fs.len() - i
    }),
{
    if i >= fs.len() || i >= vs.len() {
    } else {
        lemma_encode_field_effect(data, pos, fs[i as int], vs[i as int]);
        match spec_encode_field(data, pos, fs[i as int], vs[i as int]) {
            Some((d1, p1)) => {
                lemma_encode_fields_effect(d1, p1, fs, vs, i + 1);
            },
            None => {},
        }
    }
}

/// Round trip from any suffix of the field list.
proof fn lemma_round_trip_from(
    data: Seq<u8>,
    pos: nat,
    fs: Seq<FieldDesc>,
    vs: Seq<AbstractValue>,
    i: nat,
)
    requires
        fields_lossless(fs),
        values_ok(fs, vs),
        pos <= data.len(),
        i <= fs.len(),
    ensures
        spec_encode_fields(data, pos, fs, vs, i) matches Some((d, p)) && spec_decode_fields(
            d,
            pos,
            fs,
            i,
        ) == Some((vs.skip(i as int), p)),
    decreases fs.len() - i,
{
    if i >= fs.len() {
        assert(vs.skip(i as int) =~= Seq::<AbstractValue>::empty());
    } else {
        let f = fs[i as int];
        let v = vs[i as int];
        // This field's encoding cannot fail under the stated conditions.
        let sk = skip_amount(f);
        let p1s = pos + sk;
        let d1s = write_bytes(data, pos, zero_bytes(sk));
        let p2 = match f.align {
            Some(a) => align_up(p1s, a as nat),
            None => p1s,
        };
        assert(spec_encode_field(data, pos, f, v) is Some);
        lemma_encode_field_effect(data, pos, f, v);
        let (d1, p1) = spec_encode_field(data, pos, f, v)->Some_0;
        lemma_round_trip_from(d1, p1, fs, vs, i + 1);
        let (d, p) = spec_encode_fields(d1, p1, fs, vs, i + 1)->Some_0;
        lemma_encode_fields_effect(d1, p1, fs, vs, i + 1);
        lemma_field_round_trip(data, pos, f, v, d);
        assert(spec_decode_field(d, pos, f) == Some((v, p1)));
        assert(vs.skip(i as int) =~= seq![v] + vs.skip(i as int + 1));
    }
}

/// Round trip: a composite of fixed-size fields, with no conditional or
/// force-consume directives, decodes from the very bytes its encoding wrote
/// back to the very values that were encoded, ending at the same position.
pub proof fn lemma_round_trip(
    data: Seq<u8>,
    pos: nat,
    fs: Seq<FieldDesc>,
    vs: Seq<AbstractValue>,
)
    requires
        fields_lossless(fs),
        values_ok(fs, vs),
        pos <= data.len(),
    ensures
        spec_encode_fields(data, pos, fs, vs, 0) matches Some((d, p)) && spec_decode_fields(
            d,
            pos,
            fs,
            0,
        ) == Some((vs, p)),
{
    lemma_round_trip_from(data, pos, fs, vs, 0);
    assert(vs.skip(0) =~= vs);
}

} // verus!
