//! Decoding the payload of an entry. The decoders are those of the `lzs` and
//! `lzma-rs` crates; this module picks one, hands it the payload and puts what
//! it wrote behind what the sink already holds.

use lzs::ResultLzsErrorVoidExt;
use vstd::prelude::*;

use crate::error::{Error, ErrorView, IoError, IoErrorView};
use crate::iro_entry::FileFlags;
use crate::wire::{get_i32_le, i32_from_le, put_bytes};

verus! {

/// A failure of an LZMA decoder, with the decoder's own text.
#[derive(Debug, PartialEq, Eq)]
pub enum LzmaFailure {
    /// The decoder could not read on.
    Io(String),
    /// The stream ends inside its header.
    HeaderTooShort(String),
    /// The stream is not valid LZMA.
    Lzma(String),
    /// The stream is not valid XZ.
    Xz(String),
}

/// An [`LzmaFailure`] with its text as a sequence of characters.
pub enum LzmaFailureView {
    Io(Seq<char>),
    HeaderTooShort(Seq<char>),
    Lzma(Seq<char>),
    Xz(Seq<char>),
}

impl View for LzmaFailure {
    type V = LzmaFailureView;

    open spec fn view(&self) -> LzmaFailureView {
        match self {
            LzmaFailure::Io(text) => LzmaFailureView::Io(text@),
            LzmaFailure::HeaderTooShort(text) => LzmaFailureView::HeaderTooShort(text@),
            LzmaFailure::Lzma(text) => LzmaFailureView::Lzma(text@),
            LzmaFailure::Xz(text) => LzmaFailureView::Xz(text@),
        }
    }
}

/// What an LZMA decoder wrote before it stopped, and the failure that stopped
/// it, if one did.
pub struct LzmaOutput {
    pub bytes: Vec<u8>,
    pub failure: Option<LzmaFailure>,
}

/// An [`LzmaOutput`] as sequences.
pub struct LzmaOutputView {
    pub bytes: Seq<u8>,
    pub failure: Option<LzmaFailureView>,
}

impl View for LzmaOutput {
    type V = LzmaOutputView;

    open spec fn view(&self) -> LzmaOutputView {
        LzmaOutputView {
            bytes: self.bytes@,
            failure: match self.failure {
                Some(failure) => Some(failure@),
                None => None,
            },
        }
    }
}

/// The bytes that the LZSS decoder of `lzs` makes of `input` when its
/// dictionary starts out filled with `fill`.
pub uninterp spec fn lzss_decoded(fill: u8, input: Seq<u8>) -> Seq<u8>;

/// What the LZMA2 decoder of `lzma-rs` makes of `input`.
pub uninterp spec fn lzma2_decoded(input: Seq<u8>) -> LzmaOutputView;

/// What the LZMA decoder of `lzma-rs` makes of `input`, a stream whose header
/// holds no length, when it is told to expect `unpacked_size` bytes and to keep
/// its dictionary within `memlimit`.
pub uninterp spec fn lzma_decoded(
    input: Seq<u8>,
    unpacked_size: Option<u64>,
    memlimit: Option<usize>,
    allow_incomplete: bool,
) -> LzmaOutputView;

/// `Lzs::decompress` of `lzs`, reading from a slice and writing to a vector,
/// neither of which can fail. The decoder takes no length and no end marker: it
/// decodes until the input is used up. The result is a function of the fill
/// byte and the input alone.
#[verifier::external_body]
fn lzss_decode(fill: u8, input: &[u8]) -> (output: Vec<u8>)
    ensures
        output@ == lzss_decoded(fill, input@),
{
    lzs::Lzs::new(fill).decompress(
        lzs::SliceReader::new(input),
        lzs::VecWriter::with_capacity(input.len()),
    ).void_unwrap()
}

/// `lzma2_decompress` of `lzma-rs`, reading from a slice and writing to a
/// vector. What it had written when it failed is handed back with the failure.
/// The result is a function of the input alone.
#[verifier::external_body]
fn lzma2_decode(input: &[u8]) -> (output: LzmaOutput)
    ensures
        output@ == lzma2_decoded(input@),
{
    let mut source = input;
    let mut bytes = Vec::new();
    let failure = match lzma_rs::lzma2_decompress(&mut source, &mut bytes) {
        Ok(()) => None,
        Err(lzma_rs::error::Error::IoError(e)) => Some(LzmaFailure::Io(e.to_string())),
        Err(lzma_rs::error::Error::HeaderTooShort(e)) => Some(
            LzmaFailure::HeaderTooShort(e.to_string()),
        ),
        Err(lzma_rs::error::Error::LzmaError(text)) => Some(LzmaFailure::Lzma(text)),
        Err(lzma_rs::error::Error::XzError(text)) => Some(LzmaFailure::Xz(text)),
    };
    LzmaOutput { bytes, failure }
}

/// `lzma_decompress_with_options` of `lzma-rs`, reading from a slice and
/// writing to a vector, with the unpacked size given by the caller and not
/// read from the stream. What it had written when it failed is handed back
/// with the failure. The result is a function of the arguments alone.
#[verifier::external_body]
fn lzma_decode(
    input: &[u8],
    unpacked_size: Option<u64>,
    memlimit: Option<usize>,
    allow_incomplete: bool,
) -> (output: LzmaOutput)
    ensures
        output@ == lzma_decoded(input@, unpacked_size, memlimit, allow_incomplete),
{
    let unpacked_size = lzma_rs::decompress::UnpackedSize::UseProvided(unpacked_size);
    let options = lzma_rs::decompress::Options { unpacked_size, memlimit, allow_incomplete };
    let (mut source, mut bytes) = (input, Vec::new());
    let failure = match lzma_rs::lzma_decompress_with_options(&mut source, &mut bytes, &options) {
        Ok(()) => None,
        Err(lzma_rs::error::Error::IoError(e)) => Some(LzmaFailure::Io(e.to_string())),
        Err(lzma_rs::error::Error::HeaderTooShort(e)) => Some(
            LzmaFailure::HeaderTooShort(e.to_string()),
        ),
        Err(lzma_rs::error::Error::LzmaError(text)) => Some(LzmaFailure::Lzma(text)),
        Err(lzma_rs::error::Error::XzError(text)) => Some(LzmaFailure::Xz(text)),
    };
    LzmaOutput { bytes, failure }
}

/// The dictionary of the LZSS decoder starts out filled with this byte.
pub const LZSS_FILL: u8 = 0x00;

/// The bytes of the sub-header that opens an LZMA payload: the unpacked size
/// and the size of the properties, four bytes each.
pub const LZMA_SUB_HEADER_BYTE_SIZE: usize = 8;

/// A properties size below this marks an LZMA2 stream.
pub const LZMA_PROPERTIES_BYTE_SIZE: i32 = 5;

/// The error that a failure of an LZMA decoder is reported as: one of the I/O
/// domain, with the decoder's text.
pub open spec fn lzma_error(failure: LzmaFailureView) -> ErrorView {
    ErrorView::Io(
        IoErrorView::Other(
            match failure {
                LzmaFailureView::Io(text) => text,
                LzmaFailureView::HeaderTooShort(text) => text,
                LzmaFailureView::Lzma(text) => text,
                LzmaFailureView::Xz(text) => text,
            },
        ),
    )
}

/// The unpacked size of a sub-header as the decoder takes it: the signed number
/// widened with its sign.
pub open spec fn widened(size: i32) -> u64 {
    if size >= 0 {
        size as u64
    } else {
        (size + 0x1_0000_0000_0000_0000) as u64
    }
}

/// What the decoder that the sub-header of `payload` picks makes of the
/// stream behind it.
pub open spec fn lzma_payload_decoded(payload: Seq<u8>) -> LzmaOutputView
    recommends
        payload.len() >= LZMA_SUB_HEADER_BYTE_SIZE,
{
    if i32_from_le(payload.skip(4)) < LZMA_PROPERTIES_BYTE_SIZE {
        lzma2_decoded(payload.skip(8))
    } else {
        lzma_decoded(payload.skip(8), Some(widened(i32_from_le(payload))), None, false)
    }
}

/// Puts what a decoder wrote behind what `writer` holds and reports the
/// decoder's failure, if there was one, as an error of the I/O domain.
pub fn finish_decoding(output: LzmaOutput, writer: &mut Vec<u8>) -> (r: Result<(), Error>)
    ensures
        final(writer)@ == old(writer)@ + output@.bytes,
        output@.failure is None ==> r is Ok,
        output@.failure is Some ==> r is Err && r->Err_0@ == lzma_error(output@.failure->0),
{
    let mut bytes = output.bytes;
    writer.append(&mut bytes);
    match output.failure {
        None => Ok(()),
        Some(LzmaFailure::Io(text)) => Err(Error::Io(IoError::Other(text))),
        Some(LzmaFailure::HeaderTooShort(text)) => Err(Error::Io(IoError::Other(text))),
        Some(LzmaFailure::Lzma(text)) => Err(Error::Io(IoError::Other(text))),
        Some(LzmaFailure::Xz(text)) => Err(Error::Io(IoError::Other(text))),
    }
}

/// Decodes an LZSS payload behind what `writer` holds. The decoder takes the
/// whole of `reader` as the stream and cannot fail.
pub fn lzss_decompress(reader: &[u8], writer: &mut Vec<u8>) -> (r: Result<(), Error>)
    ensures
        r is Ok,
        final(writer)@ == old(writer)@ + lzss_decoded(LZSS_FILL, reader@),
{
    let mut bytes = lzss_decode(LZSS_FILL, reader);
    writer.append(&mut bytes);
    Ok(())
}

/// Decodes an LZMA payload behind what `writer` holds. The payload opens with
/// a sub-header of eight bytes; without it nothing is written and the source
/// counts as ended too early. A properties size below five picks the LZMA2
/// decoder, any other the LZMA decoder with the unpacked size of the
/// sub-header. What a decoder wrote before it failed stays in `writer`.
pub fn lzma_decompress(reader: &[u8], writer: &mut Vec<u8>) -> (r: Result<(), Error>)
    ensures
        reader@.len() < LZMA_SUB_HEADER_BYTE_SIZE ==> final(writer)@ == old(writer)@ && r is Err
            && r->Err_0@ == ErrorView::Io(IoErrorView::UnexpectedEof),
        reader@.len() >= LZMA_SUB_HEADER_BYTE_SIZE ==> {
            let output = lzma_payload_decoded(reader@);
            &&& final(writer)@ == old(writer)@ + output.bytes
            &&& output.failure is None ==> r is Ok
            &&& output.failure is Some ==> r is Err && r->Err_0@ == lzma_error(output.failure->0)
        },
{
    let len = reader.len();
    if len < LZMA_SUB_HEADER_BYTE_SIZE {
        return Err(Error::Io(IoError::UnexpectedEof));
    }
    assert(reader@.skip(0) =~= reader@);
    let dec_size = get_i32_le(reader, 0);
    let prop_size = get_i32_le(reader, 4);
    let stream = vstd::slice::slice_subrange(reader, LZMA_SUB_HEADER_BYTE_SIZE, len);
    assert(stream@ =~= reader@.skip(8));
    let output = if prop_size < LZMA_PROPERTIES_BYTE_SIZE {
        lzma2_decode(stream)
    } else {
        let unpacked_size: u64 = if dec_size >= 0 {
            dec_size as u64
        } else {
            (dec_size as i128 + 0x1_0000_0000_0000_0000) as u64
        };
        lzma_decode(stream, Some(unpacked_size), None, false)
    };
    finish_decoding(output, writer)
}

/// What decoding wrote, and the error it ended with, if it did.
pub struct Decoded {
    pub bytes: Seq<u8>,
    pub error: Option<ErrorView>,
}

/// What decoding `payload` by the method of `flags` writes and how it ends. A
/// stored payload is written as it is; an LZSS payload always decodes; an LZMA
/// payload needs its sub-header and then goes by its decoder.
pub open spec fn decoded(flags: FileFlags, payload: Seq<u8>) -> Decoded {
    match flags {
        FileFlags::Uncompressed => Decoded { bytes: payload, error: None },
        FileFlags::LzssCompressed => Decoded {
            bytes: lzss_decoded(LZSS_FILL, payload),
            error: None,
        },
        FileFlags::LzmaCompressed => if payload.len() < LZMA_SUB_HEADER_BYTE_SIZE {
            Decoded {
                bytes: Seq::empty(),
                error: Some(ErrorView::Io(IoErrorView::UnexpectedEof)),
            }
        } else {
            let output = lzma_payload_decoded(payload);
            Decoded {
                bytes: output.bytes,
                error: match output.failure {
                    Some(failure) => Some(lzma_error(failure)),
                    None => None,
                },
            }
        },
    }
}

/// Whether `r` ends as `decoded` says.
pub open spec fn ends_as(r: Result<(), Error>, decoded: Decoded) -> bool {
    match decoded.error {
        None => r is Ok,
        Some(e) => r is Err && r->Err_0@ == e,
    }
}

/// Decodes `reader`, the whole payload of an entry, by the method of `flags`
/// behind what `writer` holds.
pub fn decompress(flags: FileFlags, reader: &[u8], writer: &mut Vec<u8>) -> (r: Result<(), Error>)
    ensures
        final(writer)@ == old(writer)@ + decoded(flags, reader@).bytes,
        ends_as(r, decoded(flags, reader@)),
{
    match flags {
        FileFlags::LzssCompressed => lzss_decompress(reader, writer),
        FileFlags::LzmaCompressed => lzma_decompress(reader, writer),
        FileFlags::Uncompressed => {
            put_bytes(writer, reader);
            Ok(())
        },
    }
}

} // verus!
