//! Snappy's frame format, as the `snap` crate writes and reads it.

use vstd::prelude::*;

verus! {

/// The snappy frame-format stream that `snap::write::FrameEncoder` writes
/// for `data` written in one piece.
pub uninterp spec fn snappy_framed(data: Seq<u8>) -> Seq<u8>;

/// What `snap::read::FrameDecoder` reads out of the stream `data`, `None`
/// where it reports an error.
pub uninterp spec fn snappy_unframed(data: Seq<u8>) -> Option<Seq<u8>>;

/// The chunk that opens every snappy frame-format stream: chunk type `0xff`,
/// length 6, and the body `sNaPpY`.
pub open spec fn stream_identifier() -> Seq<u8> {
    seq![0xffu8, 0x06u8, 0x00u8, 0x00u8, 0x73u8, 0x4eu8, 0x61u8, 0x50u8, 0x70u8, 0x59u8]
}

/// Whether `data` opens with the stream identifier.
pub open spec fn starts_with_stream_identifier(data: Seq<u8>) -> bool {
    data.len() >= 10 && data.take(10) == stream_identifier()
}

/// Checks whether `data` opens with the stream identifier.
pub fn has_stream_identifier(data: &[u8]) -> (r: bool)
    ensures
        r == starts_with_stream_identifier(data@),
{
    if data.len() < 10 {
        return false;
    }
    let ident: [u8; 10] = [0xff, 0x06, 0x00, 0x00, 0x73, 0x4e, 0x61, 0x50, 0x70, 0x59];
    let mut i: usize = 0;
    while i < 10
        invariant
            data@.len() >= 10,
            ident@ == stream_identifier(),
            i <= 10,
            forall|j: int| 0 <= j < i ==> data@[j] == stream_identifier()[j],
        decreases 10 - i,
    {
        if data[i] != ident[i] {
            assert(data@.take(10)[i as int] != stream_identifier()[i as int]);
            return false;
        }
        i = i + 1;
    }
    assert(data@.take(10) =~= stream_identifier());
    true
}

/// Compresses `data` with `snap::write::FrameEncoder` into a vector
/// (`new`, `write_all`, `into_inner`). It succeeds: the encoder's errors come
/// only from the writer beneath it, and a vector takes every write; its
/// blocks are at most `MAX_BLOCK_SIZE` bytes, for which the compressor's
/// buffer is sized. The result is the frame-format stream for `data`, and
/// reading that stream back with `snap::read::FrameDecoder` gives `data`
/// (the frame format is lossless). Empty input writes nothing; otherwise
/// the encoder's first write puts out the stream identifier, followed by
/// data chunks, each an 8-byte header (type 0x00 compressed or 0x01
/// uncompressed, a 3-byte length, the masked CRC-32C) and its bytes.
#[verifier::external_body]
pub(crate) fn snappy_compress(data: &[u8]) -> (r: Option<Vec<u8>>)
    ensures
        r is Some,
        r matches Some(c) ==> c@ == snappy_framed(data@),
        r matches Some(c) ==> snappy_unframed(c@) == Some(data@),
        r matches Some(c) ==> (data@.len() == 0 ==> c@.len() == 0),
        r matches Some(c) ==> (data@.len() > 0 ==> starts_with_stream_identifier(c@) && c@.len()
            >= 18 && (c@[10] == 0x00 || c@[10] == 0x01)),
{
    let mut encoder = snap::write::FrameEncoder::new(Vec::new());
    match std::io::Write::write_all(&mut encoder, data) {
        Ok(()) => {},
        Err(_) => return None,
    }
    match encoder.into_inner() {
        Ok(c) => Some(c),
        Err(_) => None,
    }
}

/// Reads the frame-format stream `data` to its end with
/// `snap::read::FrameDecoder`: the decompressed bytes, or `None` where the
/// decoder reports an error. An empty stream reads as nothing; a non-empty
/// stream must open with the stream identifier chunk (its type, length and
/// body are each checked), else the decoder reports an error.
#[verifier::external_body]
pub(crate) fn snappy_decompress(data: &[u8]) -> (r: Option<Vec<u8>>)
    ensures
        match r {
            Some(d) => snappy_unframed(data@) == Some(d@),
            None => snappy_unframed(data@) is None,
        },
        r is Some || data@.len() > 0,
        r matches Some(d) ==> (data@.len() == 0 ==> d@.len() == 0),
        r is None || data@.len() == 0 || starts_with_stream_identifier(data@),
{
    let mut out = Vec::new();
    match std::io::Read::read_to_end(&mut snap::read::FrameDecoder::new(data), &mut out) {
        Ok(_) => Some(out),
        Err(_) => None,
    }
}

} // verus!
