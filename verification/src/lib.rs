//! A binary codec runtime.
//!
//! The crate is built in layers:
//!
//! * capability traits that split "seekability" into independent operations
//!   (`Tell`, `SeekForward`, `SeekBackward`, `SeekAbsolute`, `SeekEnd`,
//!   `SeekRewind`), stated over a common mathematical stream model;
//! * adapters that synthesize missing capabilities from weaker ones
//!   (`SeekForwardRead`, `SeekForwardWrite`, `SeekAbsoluteRewind`,
//!   `ReadWriteTell`, `SeekAll`);
//! * bounded and buffered stream wrappers (`Region`, `Take`, `BufSeeker`);
//! * a plain-old-data layout model (`Pod`, `Packed`, `Unaligned`, `Aligned`)
//!   with endian-tagged primitives;
//! * a per-field directive engine (`align`, `skip`, `limit`, `cond`,
//!   `consume`, `assert`) that drives encoding and decoding of composite
//!   values against any capable stream.

pub mod align;
pub mod buf_seeker;
pub mod code;
pub mod coding;
pub mod endian;
pub mod error;
pub mod mem;
pub mod pod;
pub mod read_exact;
pub mod region;
pub mod seek_forward;
pub mod stream;
pub mod take;

pub use align::SeekAlignExt;
pub use buf_seeker::BufSeeker;
pub use code::{
    decode_pod, encode_pod, CBytes, CStringDecodeOptions, Decode, Encode, StringDecodeOptions,
    VecDecodeOptions,
};
pub use error::Error;
pub use read_exact::ReadExactExt;
pub use mem::MemStream;
pub use pod::{
    Aligned, Be, BigEndian, ByteOrder, EndianConvert, EndianPrimitive, Le, LittleEndian, Packed,
    Pod, PodExt, Unaligned,
};
pub use stream::{
    ReadStream, SeekAbsolute, SeekBackward, SeekEnd, SeekForward, SeekFrom, SeekRewind, SeekStream,
    StreamView, Tell, WriteStream,
};
pub use take::Take;
pub use region::Region;
pub use seek_forward::{
    ReadWriteTell, SeekAbsoluteRewind, SeekAll, SeekForwardRead, SeekForwardWrite,
};
