use vstd::prelude::*;
use crate::error::Error;
use crate::mem::MemStream;
use crate::pod::Pod;
use crate::read_exact::{read_to_end, ReadExactExt};
use crate::stream::{write_all, write_bytes, ReadStream, StreamView, WriteStream};
use vstd::utf8::{decode_utf8, valid_utf8};

verus! {

/// Relies on `String::from_utf8`: it succeeds exactly on valid UTF-8 input
/// and returns the string those bytes encode. The body maps the sole
/// failure to the library's malformed-data error.
#[verifier::external_body]
pub(crate) fn string_from_utf8(v: Vec<u8>) -> (r: Result<String, Error>)
    ensures
        r is Ok <==> valid_utf8(v@),
        r matches Ok(s) ==> s@ == decode_utf8(v@),
        r matches Err(e) ==> e == Error::InvalidData,
{
    match String::from_utf8(v) {
        Ok(s) => Ok(s),
        Err(_) => Err(Error::InvalidData),
    }
}

/// The first zero byte of `b` at or after `i`.
pub open spec fn find_nul(b: Seq<u8>, i: nat) -> Option<nat>
    decreases (if i >= b.len() {
        0int
    } else {
        b.len() - i
    }),
{
    if i >= b.len() {
        None
    } else if b[i as int] == 0 {
        Some(i)
    } else {
        find_nul(b, i + 1)
    }
}

/// Describes how to decode a `Vec`.
#[derive(Debug)]
pub struct VecDecodeOptions<T> {
    /// Reads `Some(len)` items, or until the end of the stream.
    pub len: Option<usize>,
    /// The options used to decode each individual item.
    pub options: T,
}

/// Describes how to decode a `String`.
#[derive(Debug, Clone, Copy)]
pub struct StringDecodeOptions {
    /// Reads `Some(len)` bytes, or until the end of the stream.
    pub len: Option<usize>,
}

/// Describes how to decode a nul-terminated byte string.
#[derive(Debug, Clone, Copy)]
pub struct CStringDecodeOptions {
    /// When true, reaching the end of the stream before a nul byte is an
    /// error; when false, the bytes read so far are the value.
    pub require_nul: bool,
}

/// Encodes a value's binary representation into a writable stream.
///
/// This is not general serialization: some data may be lost, and it is up
/// to the implementation what its wire representation is. Encoding only
/// ever touches the stream at or after the cursor.
pub trait Encode {
    /// Options that affect how the value is encoded.
    type Options;

    /// The options an option-less `encode` call uses.
    fn default_options() -> Self::Options;

    /// Encodes into the stream with the provided options.
    fn encode_options<W: WriteStream>(&self, w: &mut W, options: Self::Options) -> (r: Result<
        (),
        Error,
    >)
        requires
            old(w).inv(),
        ensures
            final(w).inv(),
            r is Ok ==> {
                &&& final(w).cap() == old(w).cap()
                &&& final(w).pos() >= old(w).pos()
                &&& final(w).bytes().len() >= old(w).bytes().len()
                &&& forall|i: int|
                    0 <= i < old(w).pos() && i < old(w).bytes().len() ==> final(w).bytes()[i]
                        == old(w).bytes()[i]
            },
            old(w).infallible() ==> final(w).infallible(),
    ;

    /// Encodes into the stream with default options.
    fn encode<W: WriteStream>(&self, w: &mut W) -> (r: Result<(), Error>)
        requires
            old(w).inv(),
        ensures
            final(w).inv(),
            r is Ok ==> {
                &&& final(w).cap() == old(w).cap()
                &&& final(w).pos() >= old(w).pos()
                &&& final(w).bytes().len() >= old(w).bytes().len()
                &&& forall|i: int|
                    0 <= i < old(w).pos() && i < old(w).bytes().len() ==> final(w).bytes()[i]
                        == old(w).bytes()[i]
            },
            old(w).infallible() ==> final(w).infallible(),
    {
        self.encode_options(w, <Self as Encode>::default_options())
    }

    /// Encodes to a fresh byte vector.
    fn encode_vec(&self) -> (r: Result<Vec<u8>, Error>) {
        let mut cursor = MemStream::new(Vec::new());
        match self.encode(&mut cursor) {
            Ok(_) => Ok(cursor.into_inner()),
            Err(e) => Err(e),
        }
    }

    /// Encodes to a fresh byte vector with the provided options.
    fn encode_vec_options(&self, options: Self::Options) -> (r: Result<Vec<u8>, Error>) {
        let mut cursor = MemStream::new(Vec::new());
        match self.encode_options(&mut cursor, options) {
            Ok(_) => Ok(cursor.into_inner()),
            Err(e) => Err(e),
        }
    }
}

/// Decodes a value from a readable stream.
///
/// Options can inject what encoding loses, such as a length for strings
/// with no embedded length prefix. Decoding only reads: it never changes
/// the stream's content, and only moves the cursor forward.
pub trait Decode: Sized {
    /// Options that affect how the value is decoded.
    type Options;

    /// The options an option-less `decode` call uses.
    fn default_options() -> Self::Options;

    /// Decodes from the stream with the provided options.
    fn decode_options<R: ReadStream>(r: &mut R, options: Self::Options) -> (res: Result<
        Self,
        Error,
    >)
        requires
            old(r).inv(),
        ensures
            final(r).inv(),
            res is Ok ==> {
                &&& final(r).cap() == old(r).cap()
                &&& final(r).bytes() == old(r).bytes()
                &&& final(r).pos() >= old(r).pos()
            },
            old(r).infallible() ==> final(r).infallible(),
    ;

    /// Decodes from the stream with default options.
    fn decode<R: ReadStream>(r: &mut R) -> (res: Result<Self, Error>)
        requires
            old(r).inv(),
        ensures
            final(r).inv(),
            res is Ok ==> {
                &&& final(r).cap() == old(r).cap()
                &&& final(r).bytes() == old(r).bytes()
                &&& final(r).pos() >= old(r).pos()
            },
            old(r).infallible() ==> final(r).infallible(),
    {
        Self::decode_options(r, <Self as Decode>::default_options())
    }

    /// Decodes from a byte slice.
    fn decode_slice(data: &[u8]) -> (res: Result<Self, Error>) {
        let mut cursor = MemStream::new(vstd::slice::slice_to_vec(data));
        Self::decode(&mut cursor)
    }

    /// Decodes from a byte slice with the provided options.
    fn decode_slice_options(data: &[u8], options: Self::Options) -> (res: Result<Self, Error>) {
        let mut cursor = MemStream::new(vstd::slice::slice_to_vec(data));
        Self::decode_options(&mut cursor, options)
    }

    /// A whole-value validation hook, run by composite decoders after every
    /// field is populated and before the value is handed back.
    fn validate(&self) -> (res: Result<(), Error>) {
        Ok(())
    }
}

/// Encodes a plain-old-data value: its raw declared-size representation.
pub fn encode_pod<T: Pod, W: WriteStream>(v: &T, w: &mut W) -> (r: Result<(), Error>)
    requires
        old(w).inv(),
    ensures
        final(w).inv(),
        r is Ok ==> {
            &&& final(w).cap() == old(w).cap()
            &&& final(w).bytes() == write_bytes(old(w).bytes(), old(w).pos(), v.spec_to_bytes())
            &&& final(w).pos() == old(w).pos() + T::spec_size()
        },
        old(w).infallible() ==> final(w).infallible(),
        old(w).infallible() && old(w).pos() + T::spec_size() <= old(w).cap() ==> r is Ok,
{
    let bytes = v.to_bytes();
    proof {
        v.lemma_size();
    }
    write_all(w, bytes.as_slice())
}

/// Decodes a plain-old-data value from exactly its declared size of bytes.
pub fn decode_pod<T: Pod, R: ReadStream>(r: &mut R) -> (res: Result<T, Error>)
    requires
        old(r).inv(),
    ensures
        final(r).inv(),
        res matches Ok(v) ==> {
            &&& final(r).cap() == old(r).cap()
            &&& final(r).bytes() == old(r).bytes()
            &&& old(r).pos() + T::spec_size() <= old(r).bytes().len() || T::spec_size() == 0
            &&& (T::spec_size() > 0 ==> v == T::spec_from_bytes(
                old(r).bytes().subrange(
                    old(r).pos() as int,
                    old(r).pos() + T::spec_size() as int,
                ),
            ))
            &&& (T::spec_size() == 0 ==> v == T::spec_from_bytes(Seq::empty()))
            &&& final(r).pos() == old(r).pos() + T::spec_size()
        },
        T::spec_size() > 0 && old(r).pos() + T::spec_size() > old(r).bytes().len() ==> res is Err,
        old(r).infallible() ==> final(r).infallible(),
        old(r).infallible() && (T::spec_size() == 0 || old(r).pos() + T::spec_size() <= old(
            r,
        ).bytes().len()) ==> res is Ok,
{
    proof {
        T::spec_from_bytes(Seq::empty()).lemma_size();
    }
    let n = T::size();
    match r.read_exact(n) {
        Ok(v) => {
            proof {
                if T::spec_size() == 0 {
                    assert(v@ =~= Seq::<u8>::empty());
                } else {
                    assert(v@ =~= old(r).bytes().subrange(
                        old(r).pos() as int,
                        old(r).pos() + T::spec_size() as int,
                    ));
                }
            }
            Ok(T::from_bytes(v.as_slice()))
        },
        Err(e) => Err(e),
    }
}

impl Decode for String {
    type Options = StringDecodeOptions;

    fn default_options() -> (o: StringDecodeOptions) {
        StringDecodeOptions { len: None }
    }

    /// With a length, decodes exactly that many bytes as UTF-8; without
    /// one, reads to the end of the stream. Malformed UTF-8 is an error.
    fn decode_options<R: ReadStream>(r: &mut R, options: StringDecodeOptions) -> (res: Result<
        String,
        Error,
    >)
        ensures
            res matches Ok(s) ==> {
                ||| (options.len matches Some(l) && {
                    &&& final(r).pos() == old(r).pos() + l
                    &&& (l > 0 ==> {
                        &&& old(r).pos() + l <= old(r).bytes().len()
                        &&& valid_utf8(
                            old(r).bytes().subrange(old(r).pos() as int, old(r).pos() + l as int),
                        )
                        &&& s@ == decode_utf8(
                            old(r).bytes().subrange(old(r).pos() as int, old(r).pos() + l as int),
                        )
                    })
                    &&& (l == 0 ==> s@ == Seq::<char>::empty())
                })
                ||| (options.len is None && {
                    &&& final(r).pos() == crate::stream::max_nat(
                        old(r).pos(),
                        old(r).bytes().len(),
                    )
                    &&& valid_utf8(
                        old(r).bytes().subrange(
                            crate::stream::min_nat(old(r).pos(), old(r).bytes().len()) as int,
                            old(r).bytes().len() as int,
                        ),
                    )
                    &&& s@ == decode_utf8(
                        old(r).bytes().subrange(
                            crate::stream::min_nat(old(r).pos(), old(r).bytes().len()) as int,
                            old(r).bytes().len() as int,
                        ),
                    )
                })
            },
            old(r).infallible() && (options.len matches Some(l) && l > 0 && old(r).pos() + l
                <= old(r).bytes().len() && valid_utf8(
                old(r).bytes().subrange(old(r).pos() as int, old(r).pos() + l as int),
            )) ==> res is Ok,
            options.len == Some(0usize) ==> res is Ok,
            old(r).infallible() && options.len is None && valid_utf8(
                old(r).bytes().subrange(
                    crate::stream::min_nat(old(r).pos(), old(r).bytes().len()) as int,
                    old(r).bytes().len() as int,
                ),
            ) ==> res is Ok,
            old(r).infallible() && (options.len matches Some(l) && l > 0 && old(r).pos() + l
                <= old(r).bytes().len() && !valid_utf8(
                old(r).bytes().subrange(old(r).pos() as int, old(r).pos() + l as int),
            )) ==> res == Err::<String, Error>(Error::InvalidData),
    {
        match options.len {
            Some(l) => {
                match r.read_exact(l) {
                    Ok(v) => {
                        proof {
                            if l > 0 {
                                assert(v@ =~= old(r).bytes().subrange(
                                    old(r).pos() as int,
                                    old(r).pos() + l as int,
                                ));
                            } else {
                                assert(v@ =~= Seq::<u8>::empty());
                                assert(valid_utf8(Seq::<u8>::empty()));
                            }
                        }
                        string_from_utf8(v)
                    },
                    Err(e) => Err(e),
                }
            },
            None => {
                let ghost lo = crate::stream::min_nat(old(r).pos(), old(r).bytes().len());
                match read_to_end(r) {
                    Ok(v) => {
                        proof {
                            assert(v@ =~= old(r).bytes().subrange(
                                lo as int,
                                old(r).bytes().len() as int,
                            ));
                        }
                        string_from_utf8(v)
                    },
                    Err(e) => Err(e),
                }
            },
        }
    }
}

impl Encode for String {
    type Options = ();

    fn default_options() -> (o: ()) {
        ()
    }

    /// A string encodes as its raw UTF-8 bytes, with no length prefix and
    /// no terminator.
    fn encode_options<W: WriteStream>(&self, w: &mut W, options: ()) -> (r: Result<(), Error>)
        ensures
            r is Ok ==> {
                &&& final(w).bytes() == write_bytes(
                    old(w).bytes(),
                    old(w).pos(),
                    vstd::utf8::encode_utf8(self@),
                )
                &&& final(w).pos() == old(w).pos() + vstd::utf8::encode_utf8(self@).len()
            },
            old(w).infallible() && old(w).pos() + vstd::utf8::encode_utf8(self@).len() <= old(
                w,
            ).cap() ==> r is Ok,
            vstd::utf8::encode_utf8(self@).len() == 0 ==> r is Ok,
    {
        write_all(w, self.as_str().as_bytes())
    }
}

/// An owned byte string with nul-terminated wire form: it encodes with a
/// trailing zero byte appended, and decodes up to and excluding the first
/// zero byte, leaving the cursor just past that byte.
#[derive(Debug)]
pub struct CBytes {
    /// The bytes of the value, without the terminator.
    pub bytes: Vec<u8>,
}

impl Decode for CBytes {
    type Options = CStringDecodeOptions;

    fn default_options() -> (o: CStringDecodeOptions) {
        CStringDecodeOptions { require_nul: false }
    }

    /// Reads bytes up to and excluding the first zero byte. Hitting the
    /// end of the stream first yields what was read, or an error when the
    /// options require the terminator.
    fn decode_options<R: ReadStream>(r: &mut R, options: CStringDecodeOptions) -> (res: Result<
        CBytes,
        Error,
    >)
        ensures
            res matches Ok(c) ==> {
                ||| (find_nul(old(r).bytes(), old(r).pos()) matches Some(j) && {
                    &&& c.bytes@ == old(r).bytes().subrange(old(r).pos() as int, j as int)
                    &&& final(r).pos() == j + 1
                })
                ||| (find_nul(old(r).bytes(), old(r).pos()) is None && !options.require_nul && {
                    &&& old(r).pos() <= old(r).bytes().len() ==> c.bytes@ == old(
                        r,
                    ).bytes().subrange(old(r).pos() as int, old(r).bytes().len() as int)
                    &&& final(r).pos() == crate::stream::max_nat(
                        old(r).pos(),
                        old(r).bytes().len(),
                    )
                })
            },
            find_nul(old(r).bytes(), old(r).pos()) is None && options.require_nul && old(r).pos()
                <= old(r).bytes().len() ==> res is Err,
            old(r).infallible() && (find_nul(old(r).bytes(), old(r).pos()) is Some
                || !options.require_nul) ==> res is Ok,
            old(r).infallible() && find_nul(old(r).bytes(), old(r).pos()) is None
                && options.require_nul ==> res == Err::<CBytes, Error>(Error::UnexpectedEof),
    {
        let mut out: Vec<u8> = Vec::new();
        loop
            invariant
                old(r).inv(),
                r.inv(),
                r.bytes() == old(r).bytes(),
                r.cap() == old(r).cap(),
                r.pos() == old(r).pos() + out@.len(),
                out@.len() > 0 ==> old(r).pos() + out@.len() <= old(r).bytes().len(),
                forall|i: int|
                    0 <= i < out@.len() ==> out@[i] == old(r).bytes()[old(r).pos() + i]
                        && out@[i] != 0,
                find_nul(old(r).bytes(), old(r).pos()) == find_nul(old(r).bytes(), r.pos()),
                old(r).infallible() ==> r.infallible(),
            decreases r.bytes().len() + 1 - r.pos(),
        {
            match r.read(1) {
                Ok(v) => {
                    if v.len() == 0 {
                        // End of stream before a terminator.
                        proof {
                            lemma_find_nul_past_end(old(r).bytes(), r.pos());
                        }
                        if options.require_nul {
                            return Err(Error::UnexpectedEof);
                        }
                        proof {
                            if old(r).pos() <= old(r).bytes().len() {
                                assert(out@ =~= old(r).bytes().subrange(
                                    old(r).pos() as int,
                                    old(r).bytes().len() as int,
                                ));
                            }
                        }
                        return Ok(CBytes { bytes: out });
                    }
                    let b = v[0];
                    if b == 0 {
                        proof {
                            assert(out@ =~= old(r).bytes().subrange(
                                old(r).pos() as int,
                                (old(r).pos() + out@.len()) as int,
                            ));
                        }
                        return Ok(CBytes { bytes: out });
                    }
                    out.push(b);
                },
                Err(e) => {
                    return Err(e);
                },
            }
        }
    }
}

/// Past the end of the content there is no terminator to find.
proof fn lemma_find_nul_past_end(b: Seq<u8>, i: nat)
    requires
        i >= b.len(),
    ensures
        find_nul(b, i) is None,
{
}

impl Encode for CBytes {
    type Options = ();

    fn default_options() -> (o: ()) {
        ()
    }

    /// Encodes the bytes followed by a single zero terminator.
    fn encode_options<W: WriteStream>(&self, w: &mut W, options: ()) -> (r: Result<(), Error>)
        ensures
            r is Ok ==> {
                &&& final(w).bytes() == write_bytes(
                    old(w).bytes(),
                    old(w).pos(),
                    self.bytes@ + seq![0u8],
                )
                &&& final(w).pos() == old(w).pos() + self.bytes@.len() + 1
            },
            old(w).infallible() && old(w).pos() + self.bytes@.len() + 1 <= old(w).cap()
                ==> r is Ok,
    {
        let ghost pre = *w;
        match write_all(w, self.bytes.as_slice()) {
            Ok(_) => {
                let nul: Vec<u8> = vec![0u8];
                match write_all(w, nul.as_slice()) {
                    Ok(_) => {
                        proof {
                            crate::stream::lemma_write_bytes_concat(
                                pre.bytes(),
                                pre.pos(),
                                self.bytes@,
                                nul@,
                            );
                            assert(self.bytes@ + nul@ =~= self.bytes@ + seq![0u8]);
                        }
                        Ok(())
                    },
                    Err(e) => Err(e),
                }
            },
            Err(e) => Err(e),
        }
    }
}

impl<T: Decode> Decode for Vec<T> where T::Options: Clone {
    type Options = VecDecodeOptions<T::Options>;

    fn default_options() -> (o: VecDecodeOptions<T::Options>) {
        VecDecodeOptions { len: None, options: T::default_options() }
    }

    /// With a length, decodes exactly that many elements; without one,
    /// decodes elements until the end of the stream, and rejects input
    /// whose trailing bytes hold no whole element. An element that decodes
    /// from no bytes at all cannot be counted this way and is rejected.
    fn decode_options<R: ReadStream>(
        r: &mut R,
        options: VecDecodeOptions<T::Options>,
    ) -> (res: Result<Vec<T>, Error>)
        ensures
            res matches Ok(v) ==> (options.len matches Some(n) ==> v@.len() == n),
            options.len == Some(0usize) ==> res is Ok,
    {
        let mut out: Vec<T> = Vec::new();
        match options.len {
            Some(n) => {
                let mut i: usize = 0;
                while i < n
                    invariant
                        options.len == Some(n),
                        old(r).inv(),
                        r.inv(),
                        i <= n,
                        out@.len() == i,
                        r.bytes() == old(r).bytes(),
                        r.cap() == old(r).cap(),
                        r.pos() >= old(r).pos(),
                        old(r).infallible() ==> r.infallible(),
                    decreases n - i,
                {
                    match T::decode_options(r, options.options.clone()) {
                        Ok(v) => {
                            out.push(v);
                        },
                        Err(e) => {
                            return Err(e);
                        },
                    }
                    i += 1;
                }
                Ok(out)
            },
            None => {
                // Pull the whole rest of the stream into memory, then take
                // elements until it is exhausted.
                let rest = match read_to_end(r) {
                    Ok(v) => v,
                    Err(e) => {
                        return Err(e);
                    },
                };
                let total = rest.len();
                let mut cursor = MemStream::new(rest);
                while cursor.position() < total as u64
                    invariant
                        options.len is None,
                        cursor.inv(),
                        total as nat == cursor.bytes().len(),
                        old(r).inv(),
                        r.inv(),
                        r.bytes() == old(r).bytes(),
                        r.cap() == old(r).cap(),
                        r.pos() >= old(r).pos(),
                        old(r).infallible() ==> r.infallible(),
                    decreases (if cursor.pos() >= total as nat {
                        0int
                    } else {
                        total - cursor.pos()
                    }),
                {
                    let before = cursor.position();
                    match T::decode_options(&mut cursor, options.options.clone()) {
                        Ok(v) => {
                            out.push(v);
                        },
                        Err(e) => {
                            return Err(e);
                        },
                    }
                    if cursor.position() <= before {
                        // No bytes consumed: elements of zero size cannot
                        // be delimited by the end of the stream.
                        return Err(Error::InvalidData);
                    }
                }
                Ok(out)
            },
        }
    }
}

impl<T: Encode> Encode for Vec<T> where T::Options: Clone {
    type Options = T::Options;

    fn default_options() -> (o: T::Options) {
        T::default_options()
    }

    /// Elements encode back to back, with no length prefix.
    fn encode_options<W: WriteStream>(&self, w: &mut W, options: T::Options) -> (r: Result<
        (),
        Error,
    >) {
        let n = self.len();
        let mut i: usize = 0;
        while i < n
            invariant
                old(w).inv(),
                w.inv(),
                i <= n,
                n == self@.len(),
                w.cap() == old(w).cap(),
                w.pos() >= old(w).pos(),
                w.bytes().len() >= old(w).bytes().len(),
                forall|j: int|
                    0 <= j < old(w).pos() && j < old(w).bytes().len() ==> w.bytes()[j] == old(
                        w,
                    ).bytes()[j],
                old(w).infallible() ==> w.infallible(),
            decreases n - i,
        {
            let ghost mid = *w;
            match self[i].encode_options(w, options.clone()) {
                Ok(_) => {},
                Err(e) => {
                    return Err(e);
                },
            }
            i += 1;
        }
        Ok(())
    }
}

impl<T: Encode> Encode for Option<T> {
    type Options = T::Options;

    fn default_options() -> (o: T::Options) {
        T::default_options()
    }

    /// A present value encodes as itself; an absent one writes nothing, so
    /// absence cannot be observed when decoding.
    fn encode_options<W: WriteStream>(&self, w: &mut W, options: T::Options) -> (r: Result<
        (),
        Error,
    >)
        ensures
            r is Ok && self is None ==> final(w).bytes() == old(w).bytes() && final(w).pos()
                == old(w).pos(),
    {
        match self {
            Some(v) => v.encode_options(w, options),
            None => Ok(()),
        }
    }
}

impl<T: Decode> Decode for Option<T> {
    type Options = T::Options;

    fn default_options() -> (o: T::Options) {
        T::default_options()
    }

    /// Decoding always produces a present value: absence does not round
    /// trip without an explicit conditional directive.
    fn decode_options<R: ReadStream>(r: &mut R, options: T::Options) -> (res: Result<
        Option<T>,
        Error,
    >)
        ensures
            res matches Ok(v) ==> v is Some,
    {
        match T::decode_options(r, options) {
            Ok(v) => Ok(Some(v)),
            Err(e) => Err(e),
        }
    }
}

} // verus!
