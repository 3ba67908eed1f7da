use nue::coding::{
    decode_field, decode_fields, encode_fields, value_eq, Cond, Endianness, FieldDesc, FieldKind,
    Value,
};
use nue::stream::seek_composite;
use nue::{
    Aligned, Be, BufSeeker, CBytes, CStringDecodeOptions, Decode, Encode, Error, Le, MemStream,
    Pod, PodExt,
    ReadExactExt, ReadStream, ReadWriteTell, Region, SeekAbsolute, SeekAbsoluteRewind,
    SeekAlignExt, SeekAll, SeekBackward, SeekForward, SeekForwardRead, SeekForwardWrite, SeekFrom,
    StringDecodeOptions, Take, Tell, VecDecodeOptions, WriteStream,
};

fn data(count: usize) -> Vec<u8> {
    let mut v = Vec::new();
    for i in 0..count {
        v.push(i as u8);
    }
    v
}

fn u16_le_field() -> FieldDesc {
    FieldDesc::plain(FieldKind::UInt {
        width: 2,
        order: Endianness::Little,
    })
}

fn u8_field() -> FieldDesc {
    FieldDesc::plain(FieldKind::UInt {
        width: 1,
        order: Endianness::Little,
    })
}

#[test]
fn align() {
    let data = vec![0u8; 0x80];
    let mut cursor = SeekAll::new(MemStream::new(data));

    cursor.seek_absolute(0x25).unwrap();

    cursor.align_to(0x10).unwrap();
    assert_eq!(cursor.tell().unwrap(), 0x30);

    cursor.align_to(0x20).unwrap();
    assert_eq!(cursor.tell().unwrap(), 0x40);

    cursor.align_to(0x20).unwrap();
    assert_eq!(cursor.tell().unwrap(), 0x40);
}

#[test]
fn region() {
    let data = data(0x100);
    let cursor = SeekAll::new(MemStream::new(data.clone()));

    let mut region = Region::new(cursor, 0x40, 0x80);
    let odata = region.read_exact(0x40).unwrap();
    assert_eq!(&odata[..], &data[0x40..0x80]);

    region.seek_absolute(0x20).unwrap();
    let odata = region.read_exact(0x20).unwrap();
    assert_eq!(&odata[..], &data[0x60..0x80]);

    region.seek_absolute(0).unwrap();
    let odata = region.read_exact(0x40).unwrap();
    assert_eq!(&odata[..], &data[0x40..0x80]);
}

#[test]
fn encode_decode() {
    // A packed pair of a byte and a 16-bit integer...
    let pod1_fields = vec![u8_field(), u16_le_field()];
    let pod1_values = vec![Value::UInt(1), Value::UInt(2)];

    // ...and the same wire layout written with directives: the second field
    // aligned to 1, skipped by 0, limited to 2 bytes and force-consumed,
    // under a condition evaluated from the first field's value (1 == 1);
    // a third field statically absent with an explicit default; and a unit.
    let mut second = u16_le_field();
    second.align = Some(1);
    second.skip = Some(0);
    second.limit = Some(2);
    second.consume = true;
    second.cond = Cond::When(true);
    let mut third = FieldDesc::plain(FieldKind::Unit);
    third.cond = Cond::Never;
    third.default = Some(Value::Unit);
    let pod2_fields = vec![u8_field(), second, third, FieldDesc::plain(FieldKind::Unit)];
    let pod2_values = vec![Value::UInt(1), Value::UInt(2), Value::Unit, Value::Unit];

    let mut buffer1 = MemStream::new(Vec::new());
    encode_fields(&mut buffer1, &pod1_fields, &pod1_values).unwrap();
    let buffer1 = buffer1.into_inner();

    let mut buffer2 = MemStream::new(Vec::new());
    encode_fields(&mut buffer2, &pod2_fields, &pod2_values).unwrap();
    let buffer2 = buffer2.into_inner();

    assert_eq!(buffer1.len(), 3);
    assert_eq!(&buffer1, &buffer2);

    let mut cursor = MemStream::new(buffer2);
    let decoded = decode_fields(&mut cursor, &pod2_fields).unwrap();
    assert_eq!(decoded.len(), pod2_values.len());
    for (a, b) in decoded.iter().zip(pod2_values.iter()) {
        assert!(value_eq(a, b));
    }
}

#[test]
fn tag_then_aligned_payload() {
    // A tag byte, then a payload aligned to the tag value plus one: with
    // tag 2 the payload begins at offset 3, behind two zero pad bytes.
    let tag = 2u64;
    let mut payload = u16_le_field();
    payload.align = Some(tag + 1);
    let fields = vec![u8_field(), payload];
    let values = vec![Value::UInt(tag), Value::UInt(0x0201)];

    let mut w = MemStream::new(Vec::new());
    encode_fields(&mut w, &fields, &values).unwrap();
    let out = w.into_inner();
    assert_eq!(&out, &vec![0x02u8, 0x00, 0x00, 0x01, 0x02]);

    // With a hard alignment of four, the payload sits at offset four.
    let mut payload4 = u16_le_field();
    payload4.align = Some(4);
    let fields4 = vec![u8_field(), payload4];
    let mut w = MemStream::new(Vec::new());
    encode_fields(&mut w, &fields4, &values).unwrap();
    let out = w.into_inner();
    assert_eq!(&out, &vec![0x02u8, 0x00, 0x00, 0x00, 0x01, 0x02]);
}

#[test]
fn nul_terminated_stops_after_terminator() {
    // Decoding `hel\0lo` yields "hel" and leaves the cursor just past the
    // nul byte, with `lo` unread.
    let mut r = MemStream::new(b"hel\0lo".to_vec());
    let fields = vec![FieldDesc::plain(FieldKind::NulText)];
    let decoded = decode_fields(&mut r, &fields).unwrap();
    assert!(value_eq(&decoded[0], &Value::NulText(b"hel".to_vec())));
    assert_eq!(r.position(), 4);
    let rest = r.read_exact(2).unwrap();
    assert_eq!(&rest, b"lo");
}

#[test]
fn limited_consumed_text() {
    // A nul-terminated field limited to four bytes with forced consumption:
    // decoding `ab\0\0XYZ` yields "ab" and leaves the cursor at `X`.
    let mut f = FieldDesc::plain(FieldKind::NulText);
    f.limit = Some(4);
    f.consume = true;
    let mut r = MemStream::new(b"ab\0\0XYZ".to_vec());
    let v = decode_field(&mut r, &f).unwrap();
    assert!(value_eq(&v, &Value::NulText(b"ab".to_vec())));
    assert_eq!(r.position(), 4);
    let next = r.read_exact(1).unwrap();
    assert_eq!(next[0], b'X');
}

#[test]
fn conditional_defaulting() {
    // A statically absent field consumes nothing and yields its default.
    let mut f = u16_le_field();
    f.cond = Cond::Never;
    f.default = Some(Value::UInt(5));
    f.skip = Some(1);
    let mut r = MemStream::new(vec![0xAAu8, 0xBB]);
    let v = decode_field(&mut r, &f).unwrap();
    assert!(value_eq(&v, &Value::UInt(5)));
    assert_eq!(r.position(), 0);

    // A run-time-false condition stages the skip but reads no value, and
    // without an explicit default yields the kind's zero-equivalent.
    let mut g = u16_le_field();
    g.cond = Cond::When(false);
    g.skip = Some(1);
    let mut r = MemStream::new(vec![0xAAu8, 0xBB]);
    let v = decode_field(&mut r, &g).unwrap();
    assert!(value_eq(&v, &Value::UInt(0)));
    assert_eq!(r.position(), 1);
}

#[test]
fn field_assertion() {
    let mut f = u8_field();
    f.expect = Some(Value::UInt(0));

    let r = decode_fields(&mut MemStream::new(vec![1u8]), &vec![f]);
    assert!(matches!(r, Err(Error::AssertFailed)));

    let mut f = u8_field();
    f.expect = Some(Value::UInt(0));
    let r = decode_fields(&mut MemStream::new(vec![0u8]), &vec![f]);
    assert!(r.is_ok());
}

#[test]
fn take_exhaustion() {
    let mut t = Take::new(MemStream::new(data(10)), 3);
    let a = t.read(2).unwrap();
    assert_eq!(a.len(), 2);
    let b = t.read(5).unwrap();
    assert_eq!(b.len(), 1);
    assert_eq!(b[0], 2);
    // The budget is exhausted: any further read completes with zero bytes,
    // no matter how much is asked for.
    let c = t.read(100).unwrap();
    assert_eq!(c.len(), 0);

    let mut t = Take::new(MemStream::new(Vec::new()), 2);
    assert_eq!(t.write(&[7, 7, 7, 7]).unwrap(), 2);
    assert_eq!(t.write(&[7]).unwrap(), 0);
}

#[test]
fn region_clamp() {
    // Reads stop at the region's end with a zero-length result, not an
    // error, and writes never touch bytes outside the window.
    let cursor = SeekAll::new(MemStream::new(data(8)));
    let mut region = Region::new(cursor, 2, 5);
    let got = region.read_exact_eof(100).unwrap();
    assert_eq!(&got, &vec![2u8, 3, 4]);
    let empty = region.read(10).unwrap();
    assert_eq!(empty.len(), 0);

    let cursor = SeekAll::new(MemStream::new(data(8)));
    let mut region = Region::new(cursor, 2, 5);
    assert_eq!(region.write(&[9, 9, 9, 9, 9]).unwrap(), 3);
    let inner = region.into_inner().into_inner();
    assert_eq!(&inner.into_inner(), &vec![0u8, 1, 9, 9, 9, 5, 6, 7]);
}

#[test]
fn buf_seeker_transparency() {
    // Interleaving small seeks and reads through the buffer gives results
    // byte-identical to the same sequence against the bare stream.
    let content = data(40);
    let mut buffered = BufSeeker::with_capacity(8, SeekAll::new(MemStream::new(content.clone())));
    let mut plain = SeekAll::new(MemStream::new(content));

    let a1 = buffered.read_exact(3).unwrap();
    let a2 = plain.read_exact(3).unwrap();
    assert_eq!(a1, a2);

    buffered.seek_forward(2).unwrap();
    plain.seek_forward(2).unwrap();
    let b1 = buffered.read_exact(2).unwrap();
    let b2 = plain.read_exact(2).unwrap();
    assert_eq!(b1, b2);

    buffered.seek_backward(4).unwrap();
    plain.seek_backward(4).unwrap();
    let c1 = buffered.read_exact(4).unwrap();
    let c2 = plain.read_exact(4).unwrap();
    assert_eq!(c1, c2);
    assert_eq!(buffered.tell().unwrap(), plain.tell().unwrap());
}

#[test]
fn pod_encoding() {
    // A byte, two raw bytes, a little-endian 16-bit one and a big-endian
    // 32-bit two: nine bytes, bit-exact and platform-independent.
    let pod_bytes: [u8; 9] = [0x00, 0xff, 0xff, 0x01, 0x00, 0x00, 0x00, 0x00, 0x02];

    let mut out: Vec<u8> = Vec::new();
    out.extend_from_slice(&0u8.to_bytes());
    out.extend_from_slice(&[0xffu8, 0xff]);
    out.extend_from_slice(&Le::<u16>::new(1).to_bytes());
    out.extend_from_slice(&Be::<u32>::new(2).to_bytes());
    assert_eq!(&out[..], &pod_bytes[..]);

    let one = Le::<u16>::from_slice(&pod_bytes[3..5]);
    assert_eq!(one.get(), 1);
    let two = Be::<u32>::from_slice(&pod_bytes[5..9]);
    assert_eq!(two.get(), 2);
    assert_eq!(Le::<u16>::size(), 2);
    assert_eq!(Be::<u32>::size(), 4);
}

#[test]
fn string_codec() {
    let mut w = MemStream::new(Vec::new());
    String::from("hello").encode(&mut w).unwrap();
    let bytes = w.into_inner();
    assert_eq!(&bytes, b"hello");

    let mut r = MemStream::new(bytes);
    let s = String::decode_options(&mut r, StringDecodeOptions { len: Some(4) }).unwrap();
    assert_eq!(&s, "hell");

    // Malformed UTF-8 is a decode error, not a panic.
    let mut r = MemStream::new(vec![b'h', 0xff, b'i']);
    let e = String::decode(&mut r);
    assert!(matches!(e, Err(Error::InvalidData)));

    // Reading more than the stream holds is an unexpected end of stream.
    let mut r = MemStream::new(b"hi".to_vec());
    let e = String::decode_options(&mut r, StringDecodeOptions { len: Some(5) });
    assert!(matches!(e, Err(Error::UnexpectedEof)));
}

#[test]
fn cbytes_codec() {
    let mut w = MemStream::new(Vec::new());
    CBytes { bytes: b"hey".to_vec() }.encode(&mut w).unwrap();
    assert_eq!(&w.into_inner(), b"hey\0");

    let mut r = MemStream::new(b"hey\0tail".to_vec());
    let c = CBytes::decode(&mut r).unwrap();
    assert_eq!(&c.bytes, b"hey");
    assert_eq!(r.position(), 4);

    // Without a terminator, the default options take what is there...
    let mut r = MemStream::new(b"hey".to_vec());
    let c = CBytes::decode(&mut r).unwrap();
    assert_eq!(&c.bytes, b"hey");

    // ...but requiring the terminator makes that an error.
    let mut r = MemStream::new(b"hey".to_vec());
    let e = CBytes::decode_options(&mut r, CStringDecodeOptions { require_nul: true });
    assert!(matches!(e, Err(Error::UnexpectedEof)));
}

#[test]
fn vec_codec_until_eof() {
    let mut r = MemStream::new(b"a\0bc\0\0".to_vec());
    let vs: Vec<CBytes> = Decode::decode(&mut r).unwrap();
    assert_eq!(vs.len(), 3);
    assert_eq!(&vs[0].bytes, b"a");
    assert_eq!(&vs[1].bytes, b"bc");
    assert_eq!(&vs[2].bytes, b"");
}

#[test]
fn bounded_sink_rejects_overflow() {
    // Encoding a two-byte field into a one-byte budget fails cleanly.
    let mut w = Take::new(MemStream::new(Vec::new()), 1);
    let fields = vec![u16_le_field()];
    let values = vec![Value::UInt(7)];
    let e = encode_fields(&mut w, &fields, &values);
    assert!(matches!(e, Err(Error::WriteZero)));
}

#[test]
fn gap_filling_write() {
    // Forward seeking a write-only sink pads the gap with zero bytes.
    let mut w = SeekForwardWrite::new(MemStream::new(Vec::new()));
    w.write(&[1]).unwrap();
    w.seek_forward(3).unwrap();
    w.write(&[2]).unwrap();
    assert_eq!(&w.into_inner().into_inner(), &vec![1u8, 0, 0, 0, 2]);
}

#[test]
fn round_trip_concrete() {
    // Encode then decode a mixed composite and get the same values back.
    let fields = vec![
        u8_field(),
        FieldDesc::plain(FieldKind::UInt { width: 4, order: Endianness::Big }),
        FieldDesc::plain(FieldKind::Bytes { len: 3 }),
        FieldDesc::plain(FieldKind::Unit),
    ];
    let values = vec![
        Value::UInt(0xAB),
        Value::UInt(0xDEADBEEF),
        Value::Bytes(vec![1, 2, 3]),
        Value::Unit,
    ];
    let mut w = MemStream::new(Vec::new());
    encode_fields(&mut w, &fields, &values).unwrap();
    let bytes = w.into_inner();
    assert_eq!(&bytes, &vec![0xABu8, 0xDE, 0xAD, 0xBE, 0xEF, 1, 2, 3]);

    let mut r = MemStream::new(bytes);
    let decoded = decode_fields(&mut r, &fields).unwrap();
    for (a, b) in decoded.iter().zip(values.iter()) {
        assert!(value_eq(a, b));
    }
}

#[test]
fn decoding_past_end_is_an_error() {
    let fields = vec![FieldDesc::plain(FieldKind::UInt {
        width: 4,
        order: Endianness::Little,
    })];
    let e = decode_fields(&mut MemStream::new(vec![1u8, 2]), &fields);
    assert!(matches!(e, Err(Error::UnexpectedEof)));
}

#[test]
fn pod_slice() {
    let pod_bytes: [u8; 9] = [0x00, 0xff, 0xff, 0x01, 0x00, 0x00, 0x00, 0x00, 0x02];
    assert_eq!(Le::<u16>::from_slice(&pod_bytes[3..5]).get(), 1);
    assert_eq!(Be::<u32>::from_slice(&pod_bytes[5..9]).get(), 2);
    assert_eq!(u8::from_slice(&pod_bytes[0..1]), 0);
}

#[test]
fn pod_box() {
    let vec: Vec<u8> = vec![0x01, 0x00];
    let boxed = Le::<u16>::from_vec(&vec);
    assert_eq!(boxed.get(), 1);
    assert_eq!(boxed.to_vec(), vec);
    let z = Le::<u16>::zeroed();
    assert_eq!(z.get(), 0);
}

#[test]
fn endian_primitives() {
    let le = Le::<u32>::new(0xdeadbeef);
    assert_eq!(le.to_bytes(), vec![0xef, 0xbe, 0xad, 0xde]);
    let be = Be::<u32>::new(0xdeadbeef);
    assert_eq!(be.to_bytes(), vec![0xde, 0xad, 0xbe, 0xef]);
    let mut v = Le::<u16>::new(0x2055);
    assert_eq!(v.to_bytes(), vec![0x55, 0x20]);
    v.set(1);
    assert_eq!(v.get(), 1);
    assert_eq!(Le::<u64>::from_slice(&Le::<u64>::new(u64::MAX).to_bytes()).get(), u64::MAX);
    assert_eq!(Be::<u64>::from_slice(&Be::<u64>::new(0x0102030405060708).to_bytes()).get(), 0x0102030405060708);
    assert_eq!(Le::<bool>::new(true).to_bytes(), vec![1]);
}

#[test]
fn forward_read_adapter_skips_by_discarding() {
    let mut s = SeekForwardRead::new(MemStream::new(data(10)));
    assert_eq!(s.seek_forward(4).unwrap(), 4);
    let got = s.read_exact(2).unwrap();
    assert_eq!(&got, &vec![4u8, 5]);
    // A skip past the end stops at the end of the stream.
    assert_eq!(s.seek_forward(100).unwrap(), 4);
}

#[test]
fn tracking_and_rewind_adapters() {
    // A position-tracking wrapper over a plain reader, lifted to absolute
    // seeking through rewind plus forward seeking.
    let inner = ReadWriteTell::new(SeekForwardRead::new(MemStream::new(data(16))));
    let mut s = SeekAbsoluteRewind::new(inner);
    assert_eq!(s.seek_absolute(6).unwrap(), 6);
    let got = s.read_exact(2).unwrap();
    assert_eq!(&got, &vec![6u8, 7]);
    assert_eq!(s.tell().unwrap(), 8);
    // Seeking backward decomposes into a rewind and a forward skip.
    assert_eq!(s.seek_absolute(2).unwrap(), 2);
    let got = s.read_exact(1).unwrap();
    assert_eq!(got[0], 2);
}

#[test]
fn composite_seek_dispatch() {
    let mut s = SeekAll::new(MemStream::new(data(32)));
    assert_eq!(seek_composite(&mut s, SeekFrom::Start(10)).unwrap(), 10);
    assert_eq!(seek_composite(&mut s, SeekFrom::Current(5)).unwrap(), 15);
    assert_eq!(seek_composite(&mut s, SeekFrom::Current(-8)).unwrap(), 7);
    assert_eq!(seek_composite(&mut s, SeekFrom::Current(0)).unwrap(), 7);
    assert_eq!(seek_composite(&mut s, SeekFrom::End(-2)).unwrap(), 30);
}

#[test]
fn static_and_runtime_absence_differ_in_bytes() {
    // The statically absent field skips its positioning directives too; a
    // run-time-false condition still writes the staging filler. The two
    // paths produce different byte offsets by design.
    let mut skipped = u16_le_field();
    skipped.skip = Some(2);
    skipped.cond = Cond::Never;
    let fields = vec![u8_field(), skipped, u8_field()];
    let values = vec![Value::UInt(7), Value::UInt(0), Value::UInt(9)];
    let mut w = MemStream::new(Vec::new());
    encode_fields(&mut w, &fields, &values).unwrap();
    assert_eq!(&w.into_inner(), &vec![7u8, 9]);

    let mut staged = u16_le_field();
    staged.skip = Some(2);
    staged.cond = Cond::When(false);
    let fields = vec![u8_field(), staged, u8_field()];
    let values = vec![Value::UInt(7), Value::UInt(0), Value::UInt(9)];
    let mut w = MemStream::new(Vec::new());
    encode_fields(&mut w, &fields, &values).unwrap();
    assert_eq!(&w.into_inner(), &vec![7u8, 0, 0, 9]);
}

#[test]
fn vec_with_length_option() {
    let mut r = MemStream::new(b"a\0b\0rest".to_vec());
    let opts = VecDecodeOptions { len: Some(2), options: CStringDecodeOptions { require_nul: false } };
    let vs: Vec<CBytes> = Decode::decode_options(&mut r, opts).unwrap();
    assert_eq!(vs.len(), 2);
    assert_eq!(&vs[1].bytes, b"b");
    assert_eq!(r.position(), 4);
}

#[test]
fn option_codec() {
    let mut w = MemStream::new(Vec::new());
    Option::<String>::None.encode(&mut w).unwrap();
    Some(String::from("x")).encode(&mut w).unwrap();
    let bytes = w.into_inner();
    assert_eq!(&bytes, b"x");

    let got: Option<String> = Decode::decode(&mut MemStream::new(bytes)).unwrap();
    assert_eq!(got.as_deref(), Some("x"));
}

#[test]
fn buffered_reads_cross_refills() {
    let content = data(40);
    let mut b = BufSeeker::with_capacity(7, SeekAll::new(MemStream::new(content.clone())));
    let first = b.read_exact(20).unwrap();
    assert_eq!(&first[..], &content[..20]);
    b.seek_backward(5).unwrap();
    let again = b.read_exact(5).unwrap();
    assert_eq!(&again[..], &content[15..20]);
    let rest = b.read_exact_eof(100).unwrap();
    assert_eq!(&rest[..], &content[20..]);
}

fn is<T: nue::Packed>() {}

fn is_unaligned<T: nue::Unaligned>() {}

#[test]
fn assert_packed() {
    is::<()>();
    is::<u8>();
    is::<i8>();
    is::<bool>();
    is_unaligned::<(bool, u8)>();
}

#[test]
fn slice_and_vec_conveniences() {
    let c = CBytes::decode_slice(b"hi\0x").unwrap();
    assert_eq!(&c.bytes, b"hi");
    let v = CBytes { bytes: b"hi".to_vec() }.encode_vec().unwrap();
    assert_eq!(&v, b"hi\0");
}

#[test]
fn write_fill_respects_sink_bounds() {
    // Zero-fill skipping over a bounded sink is an error when the filler
    // does not fit, never a silent short skip.
    let mut w = SeekForwardWrite::new(Take::new(MemStream::new(Vec::new()), 2));
    let e = w.seek_forward(5);
    assert!(matches!(e, Err(Error::WriteZero)));

    let mut w = SeekForwardWrite::new(Take::new(MemStream::new(Vec::new()), 8));
    assert_eq!(w.seek_forward(5).unwrap(), 5);
}

#[test]
fn unaligned_round_trip() {
    let u = Aligned::unaligned(0xBEEFu16);
    assert_eq!(u, [0xEF, 0xBE]);
    assert_eq!(u16::from_unaligned(u), 0xBEEF);
    let u = Aligned::unaligned(0xDEADBEEFu32);
    assert_eq!(u, [0xEF, 0xBE, 0xAD, 0xDE]);
    assert_eq!(u32::from_unaligned(u), 0xDEADBEEF);
}

#[test]
fn signed_endian_primitives() {
    assert_eq!(Le::<i16>::new(-2).to_bytes(), vec![0xFE, 0xFF]);
    assert_eq!(Le::<i16>::from_slice(&[0xFE, 0xFF]).get(), -2);
    assert_eq!(Be::<i32>::new(-1).to_bytes(), vec![0xFF, 0xFF, 0xFF, 0xFF]);
    assert_eq!(Be::<i32>::from_slice(&[0xFF, 0xFF, 0xFF, 0xFE]).get(), -2);
    assert_eq!(Le::<i64>::from_slice(&Le::<i64>::new(-5).to_bytes()).get(), -5);
}

#[test]
fn byte_array_pod() {
    let a: [u8; 4] = [9, 8, 7, 6];
    assert_eq!(a.to_bytes(), vec![9, 8, 7, 6]);
    let back = <[u8; 4]>::from_slice(&[9, 8, 7, 6]);
    assert_eq!(back, a);
    assert_eq!(<[u8; 4]>::size(), 4);
}
