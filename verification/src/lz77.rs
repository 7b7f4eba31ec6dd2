//! LZ77 / plain-XPRESS decoder for `MAM` payloads: a bit-flag-directed copy
//! engine with the shared-nibble length-extension protocol.
//!
//! The whole decode is specified by the step interpreter [`lz77_run`]; the
//! executable decoder is proved to return exactly what the interpreter says,
//! and to fail exactly when the interpreter says the stream is invalid.

use vstd::prelude::*;

use crate::common::PrefetchError;
use crate::common::le16;
use crate::common::le32;
use crate::common::u16_at_pos;
use crate::common::u32_at_pos;

verus! {

/// `out` extended by `len` bytes copied forward one at a time from `offset`
/// bytes behind the end. Overlap (`offset < len`) repeats the copied bytes,
/// which is how runs are encoded.
pub open spec fn lz_extend(out: Seq<u8>, offset: int, len: int) -> Seq<u8>
    decreases len,
{
    if len <= 0 {
        out
    } else {
        lz_extend(out.push(out[out.len() - offset]), offset, len - 1)
    }
}

/// Resolves the match-length extension that starts after a `(length, offset)`
/// word whose length nibble is 7. `after_m` is the position just past that
/// word and `nib_pos` the pending shared-nibble position (0 for none).
/// Returns `None` on input underflow or an invalid escape value, otherwise
/// `(next position, next nibble position, full match length)`.
pub open spec fn lz77_ext_length(input: Seq<u8>, after_m: int, nib_pos: int) -> Option<
    (int, int, int),
> {
    let fresh = nib_pos == 0;
    if fresh && after_m >= input.len() {
        None
    } else {
        let l2 = if fresh {
            input[after_m] % 16
        } else {
            input[nib_pos] / 16
        };
        let p = if fresh {
            after_m + 1
        } else {
            after_m
        };
        let nn = if fresh {
            after_m
        } else {
            0
        };
        if l2 != 15 {
            Some((p, nn, l2 + 7 + 3))
        } else if p >= input.len() {
            None
        } else {
            let l3 = input[p] as int;
            if l3 != 255 {
                Some((p + 1, nn, l3 + 15 + 7 + 3))
            } else if p + 3 > input.len() {
                None
            } else {
                let l4 = le16(input, p + 1) as int;
                if l4 != 0 {
                    if l4 < 22 {
                        None
                    } else {
                        Some((p + 3, nn, l4 - 22 + 15 + 7 + 3))
                    }
                } else if p + 7 > input.len() {
                    None
                } else {
                    let l5 = le32(input, p + 3) as int;
                    if l5 < 22 {
                        None
                    } else {
                        Some((p + 7, nn, l5 - 22 + 15 + 7 + 3))
                    }
                }
            }
        }
    }
}

/// One run of the decoder from an arbitrary state: `in_pos` into `input`,
/// the current flag word and its remaining bit count, the pending
/// shared-nibble position (0 for none), and the output produced so far.
/// `None` means the stream is invalid; `Some` is the completed output.
pub open spec fn lz77_run(
    input: Seq<u8>,
    in_pos: int,
    flags: u32,
    flag_count: u32,
    nib_pos: int,
    out: Seq<u8>,
) -> Option<Seq<u8>>
    decreases input.len() - in_pos,
{
    if flag_count == 0 {
        if in_pos + 4 > input.len() || in_pos < 0 {
            None
        } else {
            lz77_run(input, in_pos + 4, le32(input, in_pos), 32, nib_pos, out)
        }
    } else {
        let bc = (flag_count - 1) as u32;
        if flags & (1u32 << bc) == 0 {
            if in_pos >= input.len() || in_pos < 0 {
                None
            } else {
                lz77_run(input, in_pos + 1, flags, bc, nib_pos, out.push(input[in_pos]))
            }
        } else {
            if in_pos == input.len() {
                Some(out)
            } else if in_pos + 2 > input.len() || in_pos < 0 {
                None
            } else {
                let m = le16(input, in_pos) as int;
                let after_m = in_pos + 2;
                let offset = m / 8 + 1;
                if m % 8 != 7 {
                    if offset > out.len() {
                        None
                    } else {
                        lz77_run(
                            input,
                            after_m,
                            flags,
                            bc,
                            nib_pos,
                            lz_extend(out, offset, m % 8 + 3),
                        )
                    }
                } else {
                    match lz77_ext_length(input, after_m, nib_pos) {
                        None => None,
                        Some((p, nn, length)) => if offset > out.len() {
                            None
                        } else {
                            lz77_run(input, p, flags, bc, nn, lz_extend(out, offset, length))
                        },
                    }
                }
            }
        }
    }
}

/// The decode of a whole stream, appended after `start`.
pub open spec fn lz77_decompress(input: Seq<u8>, start: Seq<u8>) -> Option<Seq<u8>> {
    lz77_run(input, 0, 0, 0, 0, start)
}

pub(crate) proof fn lemma_lz_extend_len(out: Seq<u8>, offset: int, len: int)
    requires
        len >= 0,
    ensures
        lz_extend(out, offset, len).len() == out.len() + len,
    decreases len,
{
    if len > 0 {
        lemma_lz_extend_len(out.push(out[out.len() - offset]), offset, len - 1);
    }
}

pub(crate) proof fn lemma_lz_extend_snoc(out: Seq<u8>, offset: int, len: int)
    requires
        len >= 0,
        1 <= offset <= out.len(),
    ensures
        ({
            let prev = lz_extend(out, offset, len);
            lz_extend(out, offset, len + 1) == prev.push(prev[prev.len() - offset])
        }),
    decreases len,
{
    lemma_lz_extend_len(out, offset, len);
    if len == 0 {
        assert(lz_extend(out, offset, 1) == lz_extend(
            out.push(out[out.len() - offset]),
            offset,
            0,
        ));
    } else {
        lemma_lz_extend_snoc(out.push(out[out.len() - offset]), offset, len - 1);
    }
}

/// Decodes the LZ77 / plain-XPRESS stream `in_buf`, appending the plaintext
/// to `out_buf`. Succeeds with exactly the interpreter's output and fails
/// with `BadFormat` exactly on the streams the interpreter rejects.
#[verifier::rlimit(60)]
pub fn decompress(in_buf: &[u8], out_buf: &mut Vec<u8>) -> (r: Result<(), PrefetchError>)
    ensures
        r is Ok ==> lz77_decompress(in_buf@, old(out_buf)@) == Some(final(out_buf)@),
        r is Err ==> lz77_decompress(in_buf@, old(out_buf)@) is None,
        r is Err ==> r == Err::<(), PrefetchError>(PrefetchError::BadFormat),
{
    let mut buffered_flags: u32 = 0;
    let mut buffered_flag_count: u32 = 0;
    let mut input_position: usize = 0;
    let mut last_length_half_byte: usize = 0;
    loop
        invariant
            input_position <= in_buf@.len(),
            buffered_flag_count <= 32,
            last_length_half_byte == 0 || last_length_half_byte < in_buf@.len(),
            lz77_run(
                in_buf@,
                input_position as int,
                buffered_flags,
                buffered_flag_count,
                last_length_half_byte as int,
                out_buf@,
            ) == lz77_decompress(in_buf@, old(out_buf)@),
        decreases in_buf@.len() - input_position,
    {
        if buffered_flag_count == 0 {
            if in_buf.len() - input_position < 4 {
                return Err(PrefetchError::BadFormat);
            }
            let w = u32_at_pos(in_buf, input_position);
            proof {
                assert(lz77_run(
                    in_buf@,
                    input_position as int,
                    buffered_flags,
                    0,
                    last_length_half_byte as int,
                    out_buf@,
                ) == lz77_run(
                    in_buf@,
                    input_position + 4,
                    w,
                    32,
                    last_length_half_byte as int,
                    out_buf@,
                ));
            }
            buffered_flags = w;
            input_position = input_position + 4;
            buffered_flag_count = 32;
        }
        let ghost token_pos = input_position as int;
        let ghost token_out = out_buf@;
        let ghost token_nib = last_length_half_byte as int;
        let ghost token_count = buffered_flag_count;
        buffered_flag_count = buffered_flag_count - 1;
        if (buffered_flags & (1u32 << buffered_flag_count)) == 0 {
            if input_position >= in_buf.len() {
                return Err(PrefetchError::BadFormat);
            }
            let b = in_buf[input_position];
            out_buf.push(b);
            input_position = input_position + 1;
        } else {
            if input_position == in_buf.len() {
                return Ok(());
            }
            if in_buf.len() - input_position < 2 {
                return Err(PrefetchError::BadFormat);
            }
            let match_bytes = u16_at_pos(in_buf, input_position) as u32;
            input_position = input_position + 2;
            let match_offset: u32 = match_bytes / 8 + 1;
            let length: u64;
            if match_bytes % 8 == 7 {
                let l2: u32;
                if last_length_half_byte == 0 {
                    if input_position >= in_buf.len() {
                        return Err(PrefetchError::BadFormat);
                    }
                    l2 = (in_buf[input_position] as u32) % 16;
                    last_length_half_byte = input_position;
                    input_position = input_position + 1;
                } else {
                    l2 = (in_buf[last_length_half_byte] as u32) / 16;
                    last_length_half_byte = 0;
                }
                if l2 == 15 {
                    if input_position >= in_buf.len() {
                        return Err(PrefetchError::BadFormat);
                    }
                    let l3 = in_buf[input_position] as u32;
                    input_position = input_position + 1;
                    if l3 == 255 {
                        if in_buf.len() - input_position < 2 {
                            return Err(PrefetchError::BadFormat);
                        }
                        let l4 = u16_at_pos(in_buf, input_position) as u32;
                        input_position = input_position + 2;
                        let big: u32;
                        if l4 == 0 {
                            if in_buf.len() - input_position < 4 {
                                return Err(PrefetchError::BadFormat);
                            }
                            big = u32_at_pos(in_buf, input_position);
                            input_position = input_position + 4;
                        } else {
                            big = l4;
                        }
                        if big < 22 {
                            return Err(PrefetchError::BadFormat);
                        }
                        length = (big - 22) as u64 + 15 + 7 + 3;
                    } else {
                        length = l3 as u64 + 15 + 7 + 3;
                    }
                } else {
                    length = l2 as u64 + 7 + 3;
                }
            } else {
                length = match_bytes as u64 % 8 + 3;
            }
            if match_offset as usize > out_buf.len() {
                return Err(PrefetchError::BadFormat);
            }
            let ghost out_before = out_buf@;
            let mut k: u64 = 0;
            while k < length
                invariant
                    1 <= match_offset,
                    match_offset as int <= out_before.len(),
                    k <= length,
                    out_buf@ == lz_extend(out_before, match_offset as int, k as int),
                decreases length - k,
            {
                proof {
                    lemma_lz_extend_len(out_before, match_offset as int, k as int);
                    lemma_lz_extend_snoc(out_before, match_offset as int, k as int);
                }
                let src = out_buf.len() - match_offset as usize;
                let b = out_buf[src];
                out_buf.push(b);
                k = k + 1;
            }
            proof {
                lemma_lz_extend_len(out_before, match_offset as int, length as int);
                assert(out_buf@ == lz_extend(out_before, match_offset as int, length as int));
                assert(lz77_run(
                    in_buf@,
                    token_pos,
                    buffered_flags,
                    token_count,
                    token_nib,
                    token_out,
                ) == lz77_run(
                    in_buf@,
                    input_position as int,
                    buffered_flags,
                    buffered_flag_count,
                    last_length_half_byte as int,
                    out_buf@,
                ));
            }
        }
    }
}

} // verus!
