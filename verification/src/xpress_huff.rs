//! XPRESS-Huffman decoder for `MAM` payloads. Each 65,536-byte block starts
//! with a 256-byte code-length table (one nibble per symbol, 512 symbols);
//! symbols 0..255 are literal bytes and symbols 256..511 are match
//! descriptors. Bits are read MSB-first from a 32-bit register fed by
//! 16-bit little-endian words.
//!
//! The whole decode is specified by the step interpreter [`xh_run`]; the
//! executable decoder is proved to return exactly what the interpreter
//! says, and to fail exactly when the interpreter says the stream is
//! invalid.

use vstd::prelude::*;

use crate::common::PrefetchError;
use crate::common::le16;
use crate::common::u16_at_pos;
use crate::lz77::lemma_lz_extend_len;
use crate::lz77::lemma_lz_extend_snoc;
use crate::lz77::lz_extend;

verus! {

/// The code length (0..15) of symbol `s` in the table at `tbl`: the low
/// nibble of byte `s / 2` for even symbols, the high nibble for odd ones.
pub open spec fn sym_len(b: Seq<u8>, tbl: int, s: int) -> int {
    if s % 2 == 0 {
        (b[tbl + s / 2] % 16) as int
    } else {
        (b[tbl + s / 2] / 16) as int
    }
}

/// How many of the first `n` symbols have code length `l`.
pub open spec fn count_len(b: Seq<u8>, tbl: int, l: int, n: int) -> int
    decreases n,
{
    if n <= 0 {
        0
    } else {
        count_len(b, tbl, l, n - 1) + (if sym_len(b, tbl, n - 1) == l {
            1int
        } else {
            0int
        })
    }
}

/// The Kraft sum of the code lengths up to length `l`, in Horner form:
/// a complete canonical code over 15-bit codes has `kraft_sum(.., 15) ==
/// 0x8000`.
pub open spec fn kraft_sum(b: Seq<u8>, tbl: int, l: int) -> int
    decreases l,
{
    if l <= 0 {
        0
    } else {
        2 * kraft_sum(b, tbl, l - 1) + count_len(b, tbl, l, 512)
    }
}

/// The canonical code value assigned to the first symbol of length `l`.
pub open spec fn first_code(b: Seq<u8>, tbl: int, l: int) -> int
    decreases l,
{
    if l <= 1 {
        0
    } else {
        (first_code(b, tbl, l - 1) + count_len(b, tbl, l - 1, 512)) * 2
    }
}

/// How many symbols have a code length shorter than `l` (and at least 1):
/// the rank of the first symbol of length `l` in the sorted symbol list.
pub open spec fn sym_offset(b: Seq<u8>, tbl: int, l: int) -> int
    decreases l,
{
    if l <= 1 {
        0
    } else {
        sym_offset(b, tbl, l - 1) + count_len(b, tbl, l - 1, 512)
    }
}

/// The symbols among the first `n` whose code length is `l`, in symbol
/// order.
pub open spec fn syms_with_len(b: Seq<u8>, tbl: int, l: int, n: int) -> Seq<u16>
    decreases n,
{
    if n <= 0 {
        Seq::empty()
    } else {
        syms_with_len(b, tbl, l, n - 1) + (if sym_len(b, tbl, n - 1) == l {
            seq![(n - 1) as u16]
        } else {
            Seq::empty()
        })
    }
}

/// All symbols with a code length in `1..=lmax`, sorted by (length,
/// symbol): the canonical order that assigns code values.
pub open spec fn sorted_syms(b: Seq<u8>, tbl: int, lmax: int) -> Seq<u16>
    decreases lmax,
{
    if lmax <= 0 {
        Seq::empty()
    } else {
        sorted_syms(b, tbl, lmax - 1) + syms_with_len(b, tbl, lmax, 512)
    }
}

/// Decodes one symbol from the top bits of `mask`, trying code lengths
/// `l..=15` in order. Returns the symbol and its code length.
pub open spec fn decode_sym(b: Seq<u8>, tbl: int, mask: u32, l: int) -> Option<(int, int)>
    decreases 16 - l,
{
    if l < 1 || l > 15 {
        None
    } else {
        let c = (mask >> ((32 - l) as u32)) as int;
        let fc = first_code(b, tbl, l);
        let cnt = count_len(b, tbl, l, 512);
        if fc <= c && c < fc + cnt {
            Some(((sorted_syms(b, tbl, 15)[sym_offset(b, tbl, l) + (c - fc)]) as int, l))
        } else {
            decode_sym(b, tbl, mask, l + 1)
        }
    }
}

/// Consumes `n` bits from the register `(mask, bits)` at input position
/// `pos`, refilling with one 16-bit little-endian word when fewer than 16
/// valid bits remain and input is available. Returns the new
/// `(position, mask, bits)`.
pub open spec fn skip_bits(input: Seq<u8>, pos: int, mask: u32, bits: u32, n: u32) -> (
    int,
    u32,
    u32,
) {
    let mask2 = mask << n;
    let bits2 = (bits - n) as u32;
    if bits2 < 16 && pos + 2 <= input.len() {
        (pos + 2, mask2 | ((le16(input, pos) as u32) << ((16 - bits2) as u32)), (bits2
            + 16) as u32)
    } else {
        (pos, mask2, bits2)
    }
}

/// Resolves the match-length extension of a match whose length nibble is
/// `nib`: extension bytes are read from the plain byte stream at `pos`.
/// Returns `None` on underflow or an invalid escape, otherwise
/// `(next position, full match length)`.
pub open spec fn xh_ext_length(input: Seq<u8>, pos: int, nib: int) -> Option<(int, int)> {
    if nib != 15 {
        Some((pos, nib + 3))
    } else if pos >= input.len() {
        None
    } else {
        let l3 = input[pos] as int;
        if l3 != 255 {
            Some((pos + 1, l3 + 15 + 3))
        } else if pos + 3 > input.len() {
            None
        } else {
            let l4 = le16(input, pos + 1) as int;
            if l4 < 15 {
                None
            } else {
                Some((pos + 3, l4 + 3))
            }
        }
    }
}

/// One run of the decoder from an arbitrary state. When the output has
/// reached `block_end` a new block begins: a fresh code-length table is
/// read at `pos` (rejected unless its Kraft sum is exactly `0x8000`) and
/// the bit register is primed with two words. Decoding ends successfully
/// on the end-of-stream sentinel (symbol 256 with the input exhausted);
/// `None` means the stream is invalid.
pub open spec fn xh_run(
    input: Seq<u8>,
    pos: int,
    tbl: int,
    mask: u32,
    bits: u32,
    out: Seq<u8>,
    block_end: int,
) -> Option<Seq<u8>>
    decreases 16 * (input.len() - pos) + bits,
{
    if pos < 0 || pos > input.len() {
        None
    } else if out.len() >= block_end {
        if pos + 260 > input.len() {
            None
        } else if kraft_sum(input, pos, 15) != 0x8000 {
            None
        } else {
            let m = ((le16(input, pos + 256) as u32) << 16u32) | (le16(input, pos + 258) as u32);
            xh_run(input, pos + 260, pos, m, 32, out, out.len() as int + 65536)
        }
    } else {
        match decode_sym(input, tbl, mask, 1) {
            None => None,
            Some((sym, l)) => {
                if l < 1 || l > 15 || l > bits {
                    None
                } else {
                    let s1 = skip_bits(input, pos, mask, bits, l as u32);
                    if sym < 256 {
                        xh_run(input, s1.0, tbl, s1.1, s1.2, out.push(sym as u8), block_end)
                    } else if sym == 256 && s1.0 >= input.len() {
                        Some(out)
                    } else {
                        let sym2 = sym - 256;
                        let moblen = sym2 / 16;
                        match xh_ext_length(input, s1.0, sym2 % 16) {
                            None => None,
                            Some((pos2, length)) => {
                                if moblen > s1.2 {
                                    None
                                } else {
                                    let c = if moblen == 0 {
                                        0int
                                    } else {
                                        (s1.1 >> ((32 - moblen) as u32)) as int
                                    };
                                    let offset = (1u32 << (moblen as u32)) + c;
                                    let s3 = skip_bits(input, pos2, s1.1, s1.2, moblen as u32);
                                    if offset > out.len() {
                                        None
                                    } else {
                                        xh_run(
                                            input,
                                            s3.0,
                                            tbl,
                                            s3.1,
                                            s3.2,
                                            lz_extend(out, offset, length),
                                            block_end,
                                        )
                                    }
                                }
                            },
                        }
                    }
                }
            },
        }
    }
}

/// The decode of a whole stream, appended after `start`.
pub open spec fn xh_decompress(input: Seq<u8>, start: Seq<u8>) -> Option<Seq<u8>> {
    xh_run(input, 0, 0, 0, 0, start, start.len() as int)
}

proof fn lemma_count_bounds(b: Seq<u8>, tbl: int, l: int, n: int)
    requires
        n >= 0,
    ensures
        0 <= count_len(b, tbl, l, n) <= n,
    decreases n,
{
    if n > 0 {
        lemma_count_bounds(b, tbl, l, n - 1);
    }
}

proof fn lemma_kraft_nonneg(b: Seq<u8>, tbl: int, l: int)
    ensures
        kraft_sum(b, tbl, l) >= 0,
    decreases l,
{
    if l > 0 {
        lemma_kraft_nonneg(b, tbl, l - 1);
        lemma_count_bounds(b, tbl, l, 512);
    }
}

proof fn lemma_kraft_mono(b: Seq<u8>, tbl: int, l: int, m: int)
    requires
        l <= m,
    ensures
        kraft_sum(b, tbl, l) <= kraft_sum(b, tbl, m),
    decreases m - l,
{
    if l < m {
        lemma_kraft_mono(b, tbl, l, m - 1);
        lemma_kraft_nonneg(b, tbl, m - 1);
        lemma_count_bounds(b, tbl, m, 512);
    }
}

/// The canonical first code of length `l` is twice the Kraft sum of the
/// shorter lengths.
proof fn lemma_first_kraft(b: Seq<u8>, tbl: int, l: int)
    requires
        1 <= l,
    ensures
        first_code(b, tbl, l) == 2 * kraft_sum(b, tbl, l - 1),
    decreases l,
{
    if l > 1 {
        lemma_first_kraft(b, tbl, l - 1);
    }
}

proof fn lemma_syms_with_len_len(b: Seq<u8>, tbl: int, l: int, n: int)
    requires
        n >= 0,
    ensures
        syms_with_len(b, tbl, l, n).len() == count_len(b, tbl, l, n),
        forall|i: int|
            0 <= i < syms_with_len(b, tbl, l, n).len() ==> (#[trigger] syms_with_len(
                b,
                tbl,
                l,
                n,
            )[i]) < n,
    decreases n,
{
    if n > 0 {
        lemma_syms_with_len_len(b, tbl, l, n - 1);
    }
}

proof fn lemma_sorted_len(b: Seq<u8>, tbl: int, lmax: int)
    requires
        lmax >= 0,
    ensures
        sorted_syms(b, tbl, lmax).len() == sym_offset(b, tbl, lmax + 1),
        forall|i: int|
            0 <= i < sorted_syms(b, tbl, lmax).len() ==> (#[trigger] sorted_syms(
                b,
                tbl,
                lmax,
            )[i]) < 512,
    decreases lmax,
{
    if lmax == 0 {
        assert(sym_offset(b, tbl, 1) == 0);
    } else {
        lemma_sorted_len(b, tbl, lmax - 1);
        lemma_syms_with_len_len(b, tbl, lmax, 512);
    }
}

proof fn lemma_sym_offset_mono(b: Seq<u8>, tbl: int, l: int, m: int)
    requires
        l <= m,
    ensures
        sym_offset(b, tbl, l) <= sym_offset(b, tbl, m),
    decreases m - l,
{
    if l < m {
        lemma_sym_offset_mono(b, tbl, l, m - 1);
        lemma_count_bounds(b, tbl, m - 1, 512);
    }
}

/// Reads the code length of symbol `s` from the nibble table at `tbl`.
fn sym_len_at(in_buf: &[u8], tbl: usize, s: usize) -> (r: u32)
    requires
        s < 512,
        tbl + 256 <= in_buf@.len(),
    ensures
        r == sym_len(in_buf@, tbl as int, s as int),
        r < 16,
{
    let n = in_buf.len();
    let byte = in_buf[tbl + s / 2];
    if s % 2 == 0 {
        (byte % 16) as u32
    } else {
        (byte / 16) as u32
    }
}

/// Counts, for every code length, the symbols of the table that have it.
fn build_counts(in_buf: &[u8], tbl: usize) -> (counts: Vec<u32>)
    requires
        tbl + 256 <= in_buf@.len(),
    ensures
        counts@.len() == 16,
        forall|l: int|
            0 <= l < 16 ==> counts@[l] == count_len(in_buf@, tbl as int, l, 512) && counts@[l]
                <= 512,
{
    let mut counts: Vec<u32> = Vec::new();
    let mut l: usize = 0;
    while l < 16
        invariant
            l <= 16,
            tbl + 256 <= in_buf@.len(),
            counts@.len() == l,
            forall|j: int|
                0 <= j < l ==> counts@[j] == count_len(in_buf@, tbl as int, j, 512) && counts@[j]
                    <= 512,
        decreases 16 - l,
    {
        let mut c: u32 = 0;
        let mut s: usize = 0;
        while s < 512
            invariant
                s <= 512,
                l < 16,
                tbl + 256 <= in_buf@.len(),
                c == count_len(in_buf@, tbl as int, l as int, s as int),
                c <= s,
            decreases 512 - s,
        {
            if sym_len_at(in_buf, tbl, s) == l as u32 {
                c = c + 1;
            }
            s = s + 1;
        }
        counts.push(c);
        l = l + 1;
    }
    counts
}

/// Lists the symbols of the table sorted by (code length, symbol): the
/// canonical order.
fn build_sorted(in_buf: &[u8], tbl: usize) -> (sorted: Vec<u16>)
    requires
        tbl + 256 <= in_buf@.len(),
    ensures
        sorted@ == sorted_syms(in_buf@, tbl as int, 15),
{
    let mut sorted: Vec<u16> = Vec::new();
    let mut l: usize = 1;
    while l <= 15
        invariant
            1 <= l <= 16,
            tbl + 256 <= in_buf@.len(),
            sorted@ == sorted_syms(in_buf@, tbl as int, l - 1),
        decreases 16 - l,
    {
        let mut s: usize = 0;
        while s < 512
            invariant
                s <= 512,
                1 <= l <= 15,
                tbl + 256 <= in_buf@.len(),
                sorted@ == sorted_syms(in_buf@, tbl as int, l - 1) + syms_with_len(
                    in_buf@,
                    tbl as int,
                    l as int,
                    s as int,
                ),
            decreases 512 - s,
        {
            if sym_len_at(in_buf, tbl, s) == l as u32 {
                sorted.push(s as u16);
            }
            proof {
                assert(sorted@ =~= sorted_syms(in_buf@, tbl as int, l - 1) + syms_with_len(
                    in_buf@,
                    tbl as int,
                    l as int,
                    s + 1,
                ));
            }
            s = s + 1;
        }
        proof {
            assert(sorted@ =~= sorted_syms(in_buf@, tbl as int, l as int));
        }
        l = l + 1;
    }
    sorted
}

/// Checks that the code lengths form a complete canonical code (Kraft sum
/// exactly `0x8000`) and computes the first-code and rank tables.
fn build_codes(in_buf: &[u8], tbl: usize, counts: &Vec<u32>) -> (r: Option<(Vec<u32>, Vec<u32>)>)
    requires
        tbl + 256 <= in_buf@.len(),
        counts@.len() == 16,
        forall|l: int|
            0 <= l < 16 ==> counts@[l] == count_len(in_buf@, tbl as int, l, 512) && counts@[l]
                <= 512,
    ensures
        r is Some <==> kraft_sum(in_buf@, tbl as int, 15) == 0x8000,
        r matches Some((first, offs)) ==> first@.len() == 16 && offs@.len() == 16 && (forall|
            l: int,
        |
            1 <= l < 16 ==> first@[l] == first_code(in_buf@, tbl as int, l) && first@[l]
                <= 0x10000 && offs@[l] == sym_offset(in_buf@, tbl as int, l) && offs@[l] <= 512
                * l),
{
    let mut ks: u32 = 0;
    let mut l: usize = 1;
    while l <= 15
        invariant
            1 <= l <= 16,
            tbl + 256 <= in_buf@.len(),
            counts@.len() == 16,
            forall|j: int|
                0 <= j < 16 ==> counts@[j] == count_len(in_buf@, tbl as int, j, 512) && counts@[j]
                    <= 512,
            ks == kraft_sum(in_buf@, tbl as int, l - 1),
            ks <= 0x8000,
        decreases 16 - l,
    {
        let ks2 = ks * 2 + counts[l];
        if ks2 > 0x8000 {
            proof {
                lemma_kraft_mono(in_buf@, tbl as int, l as int, 15);
            }
            return None;
        }
        ks = ks2;
        l = l + 1;
    }
    if ks != 0x8000 {
        return None;
    }
    let mut first: Vec<u32> = Vec::new();
    let mut offs: Vec<u32> = Vec::new();
    first.push(0);
    first.push(0);
    offs.push(0);
    offs.push(0);
    proof {
        assert(first@[1] == 0 && first_code(in_buf@, tbl as int, 1) == 0);
        assert(offs@[1] == 0 && sym_offset(in_buf@, tbl as int, 1) == 0);
    }
    let mut j: usize = 2;
    while j < 16
        invariant
            2 <= j <= 16,
            tbl + 256 <= in_buf@.len(),
            counts@.len() == 16,
            forall|i: int|
                0 <= i < 16 ==> counts@[i] == count_len(in_buf@, tbl as int, i, 512) && counts@[i]
                    <= 512,
            kraft_sum(in_buf@, tbl as int, 15) == 0x8000,
            first@.len() == j,
            offs@.len() == j,
            forall|i: int|
                1 <= i < j ==> first@[i] == first_code(in_buf@, tbl as int, i) && first@[i]
                    <= 0x10000,
            forall|i: int|
                1 <= i < j ==> offs@[i] == sym_offset(in_buf@, tbl as int, i) && offs@[i] <= 512 * i,
        decreases 16 - j,
    {
        proof {
            lemma_first_kraft(in_buf@, tbl as int, j as int);
            lemma_first_kraft(in_buf@, tbl as int, j - 1);
            lemma_kraft_nonneg(in_buf@, tbl as int, j - 2);
            lemma_kraft_mono(in_buf@, tbl as int, j - 1, 15);
            lemma_sym_offset_mono(in_buf@, tbl as int, j as int, 16);
            lemma_sym_offset_mono(in_buf@, tbl as int, 1, j as int);
            lemma_sorted_len(in_buf@, tbl as int, 15);
            lemma_syms_with_len_len(in_buf@, tbl as int, 15, 512);
            lemma_count_bounds(in_buf@, tbl as int, j - 1, 512);
        }
        let f = (first[j - 1] + counts[j - 1]) * 2;
        let o = offs[j - 1] + counts[j - 1];
        first.push(f);
        offs.push(o);
        j = j + 1;
    }
    Some((first, offs))
}

/// Decodes one symbol from the top bits of `mask`, returning the symbol
/// and its code length.
fn decode_symbol(
    in_buf: &[u8],
    tbl: usize,
    counts: &Vec<u32>,
    first: &Vec<u32>,
    offs: &Vec<u32>,
    sorted: &Vec<u16>,
    mask: u32,
) -> (r: Option<(u16, u32)>)
    requires
        tbl + 256 <= in_buf@.len(),
        counts@.len() == 16,
        first@.len() == 16,
        offs@.len() == 16,
        forall|l: int|
            0 <= l < 16 ==> counts@[l] == count_len(in_buf@, tbl as int, l, 512) && counts@[l]
                <= 512,
        forall|l: int|
            1 <= l < 16 ==> first@[l] == first_code(in_buf@, tbl as int, l) && first@[l] <= 0x10000,
        forall|l: int|
            1 <= l < 16 ==> offs@[l] == sym_offset(in_buf@, tbl as int, l) && offs@[l] <= 512 * l,
        sorted@ == sorted_syms(in_buf@, tbl as int, 15),
    ensures
        r is None ==> decode_sym(in_buf@, tbl as int, mask, 1) is None,
        r matches Some((sym, l)) ==> decode_sym(in_buf@, tbl as int, mask, 1) == Some(
            (sym as int, l as int),
        ) && 1 <= l <= 15 && sym < 512,
{
    proof {
        lemma_sorted_len(in_buf@, tbl as int, 15);
    }
    let mut l: u32 = 1;
    while l <= 15
        invariant
            1 <= l <= 16,
            tbl + 256 <= in_buf@.len(),
            counts@.len() == 16,
            first@.len() == 16,
            offs@.len() == 16,
            forall|i: int|
                0 <= i < 16 ==> counts@[i] == count_len(in_buf@, tbl as int, i, 512) && counts@[i]
                    <= 512,
            forall|i: int|
                1 <= i < 16 ==> first@[i] == first_code(in_buf@, tbl as int, i) && first@[i]
                    <= 0x10000,
            forall|i: int|
                1 <= i < 16 ==> offs@[i] == sym_offset(in_buf@, tbl as int, i) && offs@[i] <= 512 * i,
            sorted@ == sorted_syms(in_buf@, tbl as int, 15),
            sorted@.len() == sym_offset(in_buf@, tbl as int, 16),
            forall|i: int| 0 <= i < sorted@.len() ==> (#[trigger] sorted@[i]) < 512,
            decode_sym(in_buf@, tbl as int, mask, 1) == decode_sym(
                in_buf@,
                tbl as int,
                mask,
                l as int,
            ),
        decreases 16 - l,
    {
        let c = mask >> (32 - l);
        let fc = first[l as usize];
        let cnt = counts[l as usize];
        if c >= fc && c - fc < cnt {
            proof {
                lemma_sym_offset_mono(in_buf@, tbl as int, l + 1, 16);
            }
            let idx = (offs[l as usize] + (c - fc)) as usize;
            let sym = sorted[idx];
            return Some((sym, l));
        }
        l = l + 1;
    }
    None
}

/// Decodes the XPRESS-Huffman stream `in_buf`, appending the plaintext to
/// `out_buf`. Succeeds with exactly the interpreter's output and fails
/// with `BadFormat` exactly on the streams the interpreter rejects.
#[verifier::rlimit(100)]
pub fn decompress(in_buf: &[u8], out_buf: &mut Vec<u8>) -> (r: Result<(), PrefetchError>)
    ensures
        r is Ok ==> xh_decompress(in_buf@, old(out_buf)@) == Some(final (out_buf)@),
        r is Err ==> xh_decompress(in_buf@, old(out_buf)@) is None,
        r is Err ==> r == Err::<(), PrefetchError>(PrefetchError::BadFormat),
{
    let in_len = in_buf.len();
    let mut pos: usize = 0;
    let mut tbl: usize = 0;
    let mut mask: u32 = 0;
    let mut bits: u32 = 0;
    let ghost g_block_end: int = old(out_buf)@.len() as int;
    let mut block_emitted: u64 = 65536;
    loop
        invariant
            in_len == in_buf@.len(),
            pos <= in_len,
            block_emitted >= 65536,
            out_buf@.len() as int - block_emitted + 65536 == g_block_end,
            xh_run(in_buf@, pos as int, tbl as int, mask, bits, out_buf@, g_block_end)
                == xh_decompress(in_buf@, old(out_buf)@),
        decreases in_len - pos,
    {
        // new block: code-length table, Kraft check, bit-register priming
        if in_len - pos < 260 {
            return Err(PrefetchError::BadFormat);
        }
        let new_tbl = pos;
        let counts = build_counts(in_buf, new_tbl);
        let codes = match build_codes(in_buf, new_tbl, &counts) {
            Some(c) => c,
            None => {
                return Err(PrefetchError::BadFormat);
            },
        };
        let (first, offs) = codes;
        let sorted = build_sorted(in_buf, new_tbl);
        let w0 = u16_at_pos(in_buf, pos + 256) as u32;
        let w1 = u16_at_pos(in_buf, pos + 258) as u32;
        proof {
            assert(xh_run(
                in_buf@,
                pos as int,
                tbl as int,
                mask,
                bits,
                out_buf@,
                g_block_end,
            ) == xh_run(
                in_buf@,
                pos + 260,
                pos as int,
                (w0 << 16u32) | w1,
                32,
                out_buf@,
                out_buf@.len() as int + 65536,
            ));
        }
        tbl = new_tbl;
        mask = (w0 << 16) | w1;
        bits = 32;
        pos = pos + 260;
        proof {
            g_block_end = out_buf@.len() as int + 65536;
        }
        block_emitted = 0;
        let ghost outer_pos = pos as int;
        while block_emitted < 65536
            invariant
                in_len == in_buf@.len(),
                pos <= in_len,
                tbl + 260 <= in_len,
                bits <= 32,
                block_emitted <= 65536 + 65538,
                out_buf@.len() as int - block_emitted + 65536 == g_block_end,
                counts@.len() == 16,
                first@.len() == 16,
                offs@.len() == 16,
                forall|i: int|
                    0 <= i < 16 ==> counts@[i] == count_len(in_buf@, tbl as int, i, 512)
                        && counts@[i] <= 512,
                forall|i: int|
                    1 <= i < 16 ==> first@[i] == first_code(in_buf@, tbl as int, i) && first@[i]
                        <= 0x10000,
                forall|i: int|
                    1 <= i < 16 ==> offs@[i] == sym_offset(in_buf@, tbl as int, i) && offs@[i]
                        <= 512 * i,
                sorted@ == sorted_syms(in_buf@, tbl as int, 15),
                xh_run(in_buf@, pos as int, tbl as int, mask, bits, out_buf@, g_block_end)
                    == xh_decompress(in_buf@, old(out_buf)@),
                outer_pos <= pos,
                16 * (in_len - pos) + bits <= 16 * (in_len - outer_pos) + 32,
            decreases 16 * (in_len - pos) + bits,
        {
            let ghost t_pos = pos as int;
            let ghost t_mask = mask;
            let ghost t_bits = bits;
            let ghost t_out = out_buf@;
            let decoded = match decode_symbol(in_buf, tbl, &counts, &first, &offs, &sorted, mask) {
                Some(d) => d,
                None => {
                    return Err(PrefetchError::BadFormat);
                },
            };
            let (sym, l) = decoded;
            if l > bits {
                return Err(PrefetchError::BadFormat);
            }
            // consume the symbol's code bits
            let mask2 = mask << l;
            let bits2 = bits - l;
            if bits2 < 16 && in_len - pos >= 2 {
                let w = u16_at_pos(in_buf, pos) as u32;
                mask = mask2 | (w << (16 - bits2));
                bits = bits2 + 16;
                pos = pos + 2;
            } else {
                mask = mask2;
                bits = bits2;
            }
            proof {
                assert((pos as int, mask, bits) == skip_bits(
                    in_buf@,
                    t_pos,
                    t_mask,
                    t_bits,
                    l,
                ));
            }
            if sym < 256 {
                out_buf.push(sym as u8);
                block_emitted = block_emitted + 1;
            } else if sym == 256 && pos >= in_len {
                return Ok(());
            } else {
                let sym2 = sym - 256;
                let nib = sym2 % 16;
                let moblen = (sym2 / 16) as u32;
                let ghost e_pos = pos as int;
                let length: u32;
                if nib == 15 {
                    if pos >= in_len {
                        return Err(PrefetchError::BadFormat);
                    }
                    let l3 = in_buf[pos];
                    pos = pos + 1;
                    if l3 == 255 {
                        if in_len - pos < 2 {
                            return Err(PrefetchError::BadFormat);
                        }
                        let l4 = u16_at_pos(in_buf, pos);
                        pos = pos + 2;
                        if l4 < 15 {
                            return Err(PrefetchError::BadFormat);
                        }
                        length = l4 as u32 + 3;
                    } else {
                        length = l3 as u32 + 15 + 3;
                    }
                } else {
                    length = nib as u32 + 3;
                }
                proof {
                    assert(xh_ext_length(in_buf@, e_pos, nib as int) == Some(
                        (pos as int, length as int),
                    ));
                }
                if moblen > bits {
                    return Err(PrefetchError::BadFormat);
                }
                proof {
                    assert(1u32 <= (1u32 << moblen) <= 0x8000 && (moblen >= 1 ==> (mask >> (
                    (32u32 - moblen) as u32)) <= 0x7FFF)) by (bit_vector)
                        requires
                            moblen <= 15,
                    ;
                }
                let c: u32 = if moblen == 0 {
                    0
                } else {
                    mask >> (32 - moblen)
                };
                let offset: u32 = (1u32 << moblen) + c;
                let ghost s_pos = pos as int;
                let ghost s_mask = mask;
                let ghost s_bits = bits;
                let mask3 = mask << moblen;
                let bits3 = bits - moblen;
                if bits3 < 16 && in_len - pos >= 2 {
                    let w = u16_at_pos(in_buf, pos) as u32;
                    mask = mask3 | (w << (16 - bits3));
                    bits = bits3 + 16;
                    pos = pos + 2;
                } else {
                    mask = mask3;
                    bits = bits3;
                }
                proof {
                    assert((pos as int, mask, bits) == skip_bits(
                        in_buf@,
                        s_pos,
                        s_mask,
                        s_bits,
                        moblen,
                    ));
                }
                if offset as usize > out_buf.len() {
                    return Err(PrefetchError::BadFormat);
                }
                let ghost out_before = out_buf@;
                let mut k: u32 = 0;
                while k < length
                    invariant
                        1 <= offset,
                        offset as int <= out_before.len(),
                        k <= length,
                        out_buf@ == lz_extend(out_before, offset as int, k as int),
                    decreases length - k,
                {
                    proof {
                        lemma_lz_extend_len(out_before, offset as int, k as int);
                        lemma_lz_extend_snoc(out_before, offset as int, k as int);
                    }
                    let src = out_buf.len() - offset as usize;
                    let b = out_buf[src];
                    out_buf.push(b);
                    k = k + 1;
                }
                proof {
                    lemma_lz_extend_len(out_before, offset as int, length as int);
                }
                block_emitted = block_emitted + length as u64;
            }
            proof {
                assert(xh_run(in_buf@, t_pos, tbl as int, t_mask, t_bits, t_out, g_block_end)
                    == xh_run(
                    in_buf@,
                    pos as int,
                    tbl as int,
                    mask,
                    bits,
                    out_buf@,
                    g_block_end,
                ));
            }
        }
    }
}

} // verus!
