//! Compression dispatch for the `MAM` envelope: selects the decoder named
//! by the envelope's algorithm code.

use vstd::prelude::*;

use crate::common::PrefetchError;
use crate::lz77;
use crate::lz77::lz77_decompress;
use crate::xpress_huff;
use crate::xpress_huff::xh_decompress;

verus! {

/// The compression algorithm named by the envelope's algorithm nibble.
#[derive(Debug, Clone, Copy, PartialEq, Eq, Structural)]
pub enum CompressionAlgorithm {
    /// 0: the payload is stored uncompressed.
    CompressionFormatNone,
    /// 1: the default algorithm, not supported in prefetch files.
    CompressionFormatDefault,
    /// 2: LZNT1 / LZ77.
    CompressionFormatLznt1,
    /// 3: plain XPRESS (LZ77 with the shared-nibble length extension).
    CompressionFormatXpress,
    /// 4: XPRESS-Huffman.
    CompressionFormatXpressHuff,
}

/// The algorithm a nibble value selects: unknown values fall back to none.
pub open spec fn spec_algorithm_of(value: u32) -> CompressionAlgorithm {
    if value == 1 {
        CompressionAlgorithm::CompressionFormatDefault
    } else if value == 2 {
        CompressionAlgorithm::CompressionFormatLznt1
    } else if value == 3 {
        CompressionAlgorithm::CompressionFormatXpress
    } else if value == 4 {
        CompressionAlgorithm::CompressionFormatXpressHuff
    } else {
        CompressionAlgorithm::CompressionFormatNone
    }
}

impl From<u32> for CompressionAlgorithm {
    fn from(value: u32) -> (r: Self) {
        match value {
            1 => CompressionAlgorithm::CompressionFormatDefault,
            2 => CompressionAlgorithm::CompressionFormatLznt1,
            3 => CompressionAlgorithm::CompressionFormatXpress,
            4 => CompressionAlgorithm::CompressionFormatXpressHuff,
            _ => CompressionAlgorithm::CompressionFormatNone,
        }
    }
}

impl vstd::std_specs::convert::FromSpecImpl<u32> for CompressionAlgorithm {
    open spec fn obeys_from_spec() -> bool {
        true
    }

    open spec fn from_spec(v: u32) -> Self {
        spec_algorithm_of(v)
    }
}

/// What decompression appends to `start` for a given algorithm and input,
/// or `None` when the stream is invalid or the algorithm unsupported.
pub open spec fn spec_decompress(
    algorithm: CompressionAlgorithm,
    input: Seq<u8>,
    start: Seq<u8>,
) -> Option<Seq<u8>> {
    match algorithm {
        CompressionAlgorithm::CompressionFormatNone => Some(start + input),
        CompressionAlgorithm::CompressionFormatDefault => None,
        CompressionAlgorithm::CompressionFormatLznt1 => lz77_decompress(input, start),
        CompressionAlgorithm::CompressionFormatXpress => lz77_decompress(input, start),
        CompressionAlgorithm::CompressionFormatXpressHuff => xh_decompress(input, start),
    }
}

/// Decompresses `in_buf` with the selected algorithm, appending the
/// plaintext to `out_buf`. Algorithm codes 2 and 3 use the LZ77 decoder,
/// code 4 the XPRESS-Huffman decoder, code 0 passes the payload through
/// and code 1 is rejected.
pub fn decompress(in_buf: &[u8], out_buf: &mut Vec<u8>, algorithm: CompressionAlgorithm) -> (r:
    Result<(), PrefetchError>)
    ensures
        r is Ok <==> spec_decompress(algorithm, in_buf@, old(out_buf)@) is Some,
        r is Ok ==> spec_decompress(algorithm, in_buf@, old(out_buf)@) == Some(final (out_buf)@),
        r is Err ==> r == Err::<(), PrefetchError>(PrefetchError::BadFormat),
{
    match algorithm {
        CompressionAlgorithm::CompressionFormatNone => {
            out_buf.extend_from_slice(in_buf);
            Ok(())
        },
        CompressionAlgorithm::CompressionFormatDefault => Err(PrefetchError::BadFormat),
        CompressionAlgorithm::CompressionFormatLznt1 => lz77::decompress(in_buf, out_buf),
        CompressionAlgorithm::CompressionFormatXpress => lz77::decompress(in_buf, out_buf),
        CompressionAlgorithm::CompressionFormatXpressHuff => xpress_huff::decompress(
            in_buf,
            out_buf,
        ),
    }
}

} // verus!
