//! Prefetch file parsing: the `MAM` compression envelope with its optional
//! CRC32, the version dispatch, and the per-version file-information
//! walker that feeds the metrics, trace and volume walkers.

use vstd::prelude::*;

use crate::common::Metric;
use crate::common::char_index;
use crate::common::lemma_char_index;
use crate::common::Notification;
use crate::common::PrefetchError;
use crate::common::PrefetchFile;
use crate::common::PrefetchFileInformation;
use crate::common::le32;
use crate::common::le64;
use crate::common::str_ends_with;
use crate::common::str_eq_chars;
use crate::common::str_has_suffix;
use crate::common::u32_at_pos;
use crate::common::u64_at_pos;
use crate::common::utf16_at_offset;
use crate::common::utf16_field;
use crate::decompress::CompressionAlgorithm;
use crate::decompress::decompress;
use crate::decompress::spec_algorithm_of;
use crate::decompress::spec_decompress;
use crate::metrics::anomaly_notes_at;
use crate::metrics::anomaly_notes_upto;
use crate::metrics::check_anomaly_in_metrics;
use crate::metrics::lemma_anomaly_notes_17;
use crate::metrics::lemma_anomaly_notes_23;
use crate::metrics::lemma_anomaly_notes_30;
use crate::metrics::metric_matches_17;
use crate::metrics::metric_matches_23;
use crate::metrics::metric_matches_30;
use crate::metrics::metric_ok_17;
use crate::metrics::metric_ok_32;
use crate::metrics::metrics_array_17;
use crate::metrics::metrics_array_23;
use crate::metrics::metrics_array_26;
use crate::metrics::metrics_array_30;
use crate::volume::volume_info_17;
use crate::volume::volume_info_23;
use crate::volume::volume_info_26;
use crate::volume::volume_info_30;
use crate::volume::volume_matches;
use crate::volume::volume_ok;
use vstd::slice::slice_subrange;
use vstd::string::StrSliceExecFns;

verus! {

/// Hard limit on the on-disk size of a prefetch file.
pub const PREFETCH_SIZE_LIMIT: u64 = 1_000_000;

/// What `crc32fast::hash` returns for the given bytes.
pub uninterp spec fn crc32_of(data: Seq<u8>) -> u32;

/// Relies on `crc32fast::hash`: the CRC-32 (IEEE) checksum of the bytes,
/// a function of the bytes alone.
#[verifier::external_body]
fn crc32(data: &[u8]) -> (r: u32)
    ensures
        r == crc32_of(data@),
{
    crc32fast::hash(data)
}

/// Whether the buffer starts with the `MAM` compression signature.
pub open spec fn is_mam(b: Seq<u8>) -> bool {
    b.len() >= 3 && b[0] == 77 && b[1] == 65 && b[2] == 77
}

/// Whether the file starts with the `MAM` compression signature.
pub fn file_is_compressed(buffer: &[u8]) -> (r: bool)
    ensures
        r == is_mam(buffer@),
{
    buffer.len() >= 3 && buffer[0] == 77 && buffer[1] == 65 && buffer[2] == 77
}

/// The value of a hexadecimal digit, or 16 for any other character.
pub open spec fn hex_digit(c: char) -> int {
    if '0' <= c <= '9' {
        c as int - '0' as int
    } else if 'A' <= c <= 'F' {
        c as int - 'A' as int + 10
    } else if 'a' <= c <= 'f' {
        c as int - 'a' as int + 10
    } else {
        16
    }
}

/// The value of a sequence of hexadecimal digits, most significant first.
pub open spec fn hex_value(s: Seq<char>) -> int
    decreases s.len(),
{
    if s.len() == 0 {
        0
    } else {
        hex_value(s.drop_last()) * 16 + hex_digit(s.last())
    }
}

/// Whether every character is a hexadecimal digit.
pub open spec fn all_hex(s: Seq<char>) -> bool {
    forall|j: int| 0 <= j < s.len() ==> hex_digit(s[j]) < 16
}

/// The 32-bit hash a hexadecimal string denotes, or 0 when the string is
/// empty, too long for 32 bits, or holds a non-hexadecimal character.
pub open spec fn hex_parse_or_zero(s: Seq<char>) -> u32 {
    if 1 <= s.len() <= 8 && all_hex(s) {
        hex_value(s) as u32
    } else {
        0u32
    }
}

proof fn lemma_hex_value_bound(s: Seq<char>)
    requires
        all_hex(s),
    ensures
        0 <= hex_value(s) < pow16(s.len() as int),
    decreases s.len(),
{
    if s.len() > 0 {
        assert(all_hex(s.drop_last())) by {
            assert(forall|j: int|
                0 <= j < s.len() - 1 ==> s.drop_last()[j] == s[j]);
        }
        lemma_hex_value_bound(s.drop_last());
    }
}

/// Sixteen to the power `e`.
pub open spec fn pow16(e: int) -> int
    decreases e,
{
    if e <= 0 {
        1
    } else {
        16 * pow16(e - 1)
    }
}

/// Splits a prefetch artifact name `NAME-XXXXXXXX[.pf]` into the name part
/// and the hash denoted by the hexadecimal part. Fails exactly when the
/// name holds no `-`.
pub fn extract_hash_ands_signature<'a>(name: &'a str) -> (r: Result<(&'a str, u32), PrefetchError>)
    ensures
        ({
            let stem = if str_ends_with(name@, ".pf"@) {
                name@.take(name@.len() - 3)
            } else {
                name@
            };
            &&& r is Ok <==> char_index(stem, '-') < stem.len()
            &&& (r matches Ok((n, h)) ==> n@ == stem.take(char_index(stem, '-')) && h
                == hex_parse_or_zero(stem.skip(char_index(stem, '-') + 1)))
            &&& (r is Err ==> r == Err::<(&'a str, u32), PrefetchError>(PrefetchError::BadFormat))
        }),
{
    proof {
        reveal_strlit(".pf");
    }
    let name_len = name.unicode_len();
    let stem: &str = if str_has_suffix(name, ".pf") {
        name.substring_char(0, name_len - 3)
    } else {
        name
    };
    proof {
        assert(str_ends_with(name@, ".pf"@) ==> stem@ =~= name@.take(name@.len() - 3));
        assert(!str_ends_with(name@, ".pf"@) ==> stem@ =~= name@);
    }
    let stem_len = stem.unicode_len();
    let mut d: usize = 0;
    while d < stem_len && stem.get_char(d) != '-'
        invariant
            stem_len == stem@.len(),
            d <= stem_len,
            forall|j: int| 0 <= j < d ==> stem@[j] != '-',
        decreases stem_len - d,
    {
        d = d + 1;
    }
    proof {
        lemma_char_index(stem@, '-', d as int);
    }
    if d == stem_len {
        return Err(PrefetchError::BadFormat);
    }
    let name_part = stem.substring_char(0, d);
    proof {
        assert(name_part@ =~= stem@.take(d as int));
    }
    let hex_len = stem_len - d - 1;
    let ghost hex_chars = stem@.skip(d + 1);
    if hex_len < 1 || hex_len > 8 {
        proof {
            assert(hex_parse_or_zero(hex_chars) == 0);
        }
        return Ok((name_part, 0));
    }
    let mut value: u32 = 0;
    let mut i: usize = 0;
    while i < hex_len
        invariant
            stem_len == stem@.len(),
            d + 1 + hex_len == stem_len,
            1 <= hex_len <= 8,
            i <= hex_len,
            hex_chars == stem@.skip(d + 1),
            all_hex(hex_chars.take(i as int)),
            value == hex_value(hex_chars.take(i as int)),
            char_index(stem@, '-') == d,
            d < stem_len,
            name_part@ == stem@.take(d as int),
            stem@ == (if str_ends_with(name@, ".pf"@) {
                name@.take(name@.len() - 3)
            } else {
                name@
            }),
        decreases hex_len - i,
    {
        let c = stem.get_char(d + 1 + i);
        let dv: u32 = if '0' <= c && c <= '9' {
            c as u32 - '0' as u32
        } else if 'A' <= c && c <= 'F' {
            c as u32 - 'A' as u32 + 10
        } else if 'a' <= c && c <= 'f' {
            c as u32 - 'a' as u32 + 10
        } else {
            proof {
                assert(hex_chars[i as int] == stem@[d + 1 + i]);
                assert(hex_digit(hex_chars[i as int]) == 16);
                assert(!all_hex(hex_chars));
            }
            return Ok((name_part, 0));
        };
        proof {
            assert(hex_chars[i as int] == stem@[d + 1 + i]);
            assert(dv == hex_digit(hex_chars[i as int]));
            assert(hex_chars.take(i + 1).drop_last() =~= hex_chars.take(i as int));
            assert(hex_chars.take(i + 1).last() == hex_chars[i as int]);
            lemma_hex_value_bound(hex_chars.take(i + 1));
            assert(pow16(8) == 0x1_0000_0000) by {
                reveal_with_fuel(pow16, 9);
            }
            assert(i + 1 <= 8 ==> pow16((i + 1) as int) <= pow16(8)) by {
                lemma_pow16_mono((i + 1) as int, 8);
            }
            lemma_hex_value_bound(hex_chars.take(i as int));
            lemma_pow16_mono(i as int, 7);
            assert(pow16(7) == 0x1000_0000) by {
                reveal_with_fuel(pow16, 8);
            }
        }
        value = value * 16 + dv;
        i = i + 1;
    }
    proof {
        assert(hex_chars.take(hex_len as int) =~= hex_chars);
        assert(hex_parse_or_zero(hex_chars) == value);
    }
    Ok((name_part, value))
}

proof fn lemma_pow16_mono(a: int, b: int)
    requires
        a <= b,
    ensures
        pow16(a) <= pow16(b),
    decreases b - a,
{
    if a < b {
        lemma_pow16_mono(a, b - 1);
        lemma_pow16_pos(b - 1);
    }
}

proof fn lemma_pow16_pos(e: int)
    ensures
        pow16(e) >= 1,
    decreases e,
{
    if e > 0 {
        lemma_pow16_pos(e - 1);
    }
}

/// The advisory notifications that comparing the artifact name against the
/// parsed executable name and stored hash produces: a name mismatch, then
/// a hash mismatch, each only when the artifact name has the
/// `NAME-XXXXXXXX.pf` shape.
pub open spec fn name_hash_notes(artifact: Seq<char>, exec_name: Seq<char>, hash: u32) -> Seq<
    Notification,
> {
    if !str_ends_with(artifact, ".pf"@) {
        Seq::empty()
    } else {
        let stem = artifact.take(artifact.len() - 3);
        if char_index(stem, '-') >= stem.len() {
            Seq::empty()
        } else {
            let expected_name = stem.take(char_index(stem, '-'));
            let expected_hash = hex_parse_or_zero(stem.skip(char_index(stem, '-') + 1));
            (if expected_name != exec_name {
                seq![Notification::NameMismatch]
            } else {
                Seq::<Notification>::empty()
            }) + (if hash != expected_hash {
                seq![Notification::HashMismatch { expected: expected_hash, found: hash }]
            } else {
                Seq::<Notification>::empty()
            })
        }
    }
}

/// Compares the artifact file name against the executable name and hash
/// stored in the body, reporting mismatches. Advisory only.
pub fn check_prefetch_info_correct(
    artifact_name: &str,
    executable_name: &str,
    hash: u32,
    notifications: &mut Vec<Notification>,
)
    ensures
        final (notifications)@ == old(notifications)@ + name_hash_notes(
            artifact_name@,
            executable_name@,
            hash,
        ),
{
    proof {
        reveal_strlit(".pf");
    }
    if !str_has_suffix(artifact_name, ".pf") {
        proof {
            assert(notifications@ =~= old(notifications)@ + name_hash_notes(
                artifact_name@,
                executable_name@,
                hash,
            ));
        }
        return ;
    }
    match extract_hash_ands_signature(artifact_name) {
        Ok((expected_name, expected_hash)) => {
            if !str_eq_chars(expected_name, executable_name) {
                notifications.push(Notification::NameMismatch);
            }
            if hash != expected_hash {
                notifications.push(
                    Notification::HashMismatch { expected: expected_hash, found: hash },
                );
            }
            proof {
                assert(notifications@ =~= old(notifications)@ + name_hash_notes(
                    artifact_name@,
                    executable_name@,
                    hash,
                ));
            }
        },
        Err(_) => {
            proof {
                assert(notifications@ =~= old(notifications)@ + name_hash_notes(
                    artifact_name@,
                    executable_name@,
                    hash,
                ));
            }
        },
    }
}

/// The eight FILETIME slots stored at `pos0`.
pub open spec fn spec_raw_times8(b: Seq<u8>, pos0: int) -> Seq<u64> {
    Seq::new(8, |i: int| le64(b, pos0 + 8 * i))
}

/// The first `k` run-time slots with zero entries dropped, order kept.
pub open spec fn nonzero_upto(raw: Seq<u64>, k: int) -> Seq<u64>
    decreases k,
{
    if k <= 0 {
        Seq::empty()
    } else {
        nonzero_upto(raw, k - 1) + (if raw[k - 1] != 0 {
            seq![raw[k - 1]]
        } else {
            Seq::empty()
        })
    }
}

/// The run-time slots with zero entries dropped, order kept.
pub open spec fn nonzero_times(raw: Seq<u64>) -> Seq<u64> {
    nonzero_upto(raw, raw.len() as int)
}

/// The nine common file-information fields are the offsets and counts
/// stored at bytes 84..120 of the file.
pub open spec fn info_common_matches(b: Seq<u8>, info: PrefetchFileInformation) -> bool {
    &&& info.metrics_offsets == le32(b, 84)
    &&& info.metrics_count == le32(b, 88)
    &&& info.trace_chain_offset == le32(b, 92)
    &&& info.trace_chain_count == le32(b, 96)
    &&& info.filename_string_offset == le32(b, 100)
    &&& info.filename_string_size == le32(b, 104)
    &&& info.volume_information_offset == le32(b, 108)
    &&& info.volume_count == le32(b, 112)
    &&& info.volume_information_size == le32(b, 116)
}

/// Reads the version 17 file-information struct: one run time at offset
/// 36, run count at offset 60 (both relative to byte 84).
pub fn file_information_17(buffer: &[u8]) -> (r: Result<PrefetchFileInformation, PrefetchError>)
    ensures
        r is Ok <==> buffer@.len() >= 148,
        r matches Ok(info) ==> info_common_matches(buffer@, info) && info.last_run_times@
            == nonzero_times(seq![le64(buffer@, 120)]) && info.run_count == le32(buffer@, 144),
        r is Err ==> r == Err::<PrefetchFileInformation, PrefetchError>(PrefetchError::BadFormat),
{
    if buffer.len() < 148 {
        return Err(PrefetchError::BadFormat);
    }
    let last_run_time = u64_at_pos(buffer, 120);
    let mut last_run_times: Vec<u64> = Vec::new();
    if last_run_time != 0 {
        last_run_times.push(last_run_time);
    }
    proof {
        assert(nonzero_upto(seq![le64(buffer@, 120)], 0) == Seq::<u64>::empty());
        assert(last_run_times@ =~= nonzero_times(seq![le64(buffer@, 120)]));
    }
    Ok(
        PrefetchFileInformation {
            metrics_offsets: u32_at_pos(buffer, 84),
            metrics_count: u32_at_pos(buffer, 88),
            trace_chain_offset: u32_at_pos(buffer, 92),
            trace_chain_count: u32_at_pos(buffer, 96),
            filename_string_offset: u32_at_pos(buffer, 100),
            filename_string_size: u32_at_pos(buffer, 104),
            volume_information_offset: u32_at_pos(buffer, 108),
            volume_count: u32_at_pos(buffer, 112),
            volume_information_size: u32_at_pos(buffer, 116),
            last_run_times,
            run_count: u32_at_pos(buffer, 144),
        },
    )
}

/// Reads the version 23 file-information struct: one run time at offset
/// 44, run count at offset 68.
pub fn file_information_23(buffer: &[u8]) -> (r: Result<PrefetchFileInformation, PrefetchError>)
    ensures
        r is Ok <==> buffer@.len() >= 156,
        r matches Ok(info) ==> info_common_matches(buffer@, info) && info.last_run_times@
            == nonzero_times(seq![le64(buffer@, 128)]) && info.run_count == le32(buffer@, 152),
        r is Err ==> r == Err::<PrefetchFileInformation, PrefetchError>(PrefetchError::BadFormat),
{
    if buffer.len() < 156 {
        return Err(PrefetchError::BadFormat);
    }
    let last_run_time = u64_at_pos(buffer, 128);
    let mut last_run_times: Vec<u64> = Vec::new();
    if last_run_time != 0 {
        last_run_times.push(last_run_time);
    }
    proof {
        assert(nonzero_upto(seq![le64(buffer@, 128)], 0) == Seq::<u64>::empty());
        assert(last_run_times@ =~= nonzero_times(seq![le64(buffer@, 128)]));
    }
    Ok(
        PrefetchFileInformation {
            metrics_offsets: u32_at_pos(buffer, 84),
            metrics_count: u32_at_pos(buffer, 88),
            trace_chain_offset: u32_at_pos(buffer, 92),
            trace_chain_count: u32_at_pos(buffer, 96),
            filename_string_offset: u32_at_pos(buffer, 100),
            filename_string_size: u32_at_pos(buffer, 104),
            volume_information_offset: u32_at_pos(buffer, 108),
            volume_count: u32_at_pos(buffer, 112),
            volume_information_size: u32_at_pos(buffer, 116),
            last_run_times,
            run_count: u32_at_pos(buffer, 152),
        },
    )
}

/// Collects the eight run-time slots at byte 128, dropping zero entries.
fn collect_run_times(buffer: &[u8]) -> (times: Vec<u64>)
    requires
        buffer@.len() >= 192,
    ensures
        times@ == nonzero_times(spec_raw_times8(buffer@, 128)),
{
    let mut times: Vec<u64> = Vec::new();
    let mut i: usize = 0;
    while i < 8
        invariant
            i <= 8,
            buffer@.len() >= 192,
            times@ == nonzero_upto(spec_raw_times8(buffer@, 128), i as int),
        decreases 8 - i,
    {
        let t = u64_at_pos(buffer, 128 + 8 * i);
        if t != 0 {
            times.push(t);
        }
        proof {
            assert(times@ =~= nonzero_upto(spec_raw_times8(buffer@, 128), i + 1));
        }
        i = i + 1;
    }
    times
}

/// Reads the version 26 file-information struct: eight run-time slots at
/// offsets 44..108, run count at offset 124.
pub fn file_information_26(buffer: &[u8]) -> (r: Result<PrefetchFileInformation, PrefetchError>)
    ensures
        r is Ok <==> buffer@.len() >= 212,
        r matches Ok(info) ==> info_common_matches(buffer@, info) && info.last_run_times@
            == nonzero_times(spec_raw_times8(buffer@, 128)) && info.run_count == le32(
            buffer@,
            208,
        ),
        r is Err ==> r == Err::<PrefetchFileInformation, PrefetchError>(PrefetchError::BadFormat),
{
    if buffer.len() < 212 {
        return Err(PrefetchError::BadFormat);
    }
    let last_run_times = collect_run_times(buffer);
    Ok(
        PrefetchFileInformation {
            metrics_offsets: u32_at_pos(buffer, 84),
            metrics_count: u32_at_pos(buffer, 88),
            trace_chain_offset: u32_at_pos(buffer, 92),
            trace_chain_count: u32_at_pos(buffer, 96),
            filename_string_offset: u32_at_pos(buffer, 100),
            filename_string_size: u32_at_pos(buffer, 104),
            volume_information_offset: u32_at_pos(buffer, 108),
            volume_count: u32_at_pos(buffer, 112),
            volume_information_size: u32_at_pos(buffer, 116),
            last_run_times,
            run_count: u32_at_pos(buffer, 208),
        },
    )
}

/// Whether a version 30 file uses the first sub-layout: its metrics
/// offset field reads 304.
pub open spec fn v30_is_v1(b: Seq<u8>) -> bool {
    le32(b, 84) == 304
}

/// The least length a version 30 file must have for its file-information
/// struct to be read whole.
pub open spec fn v30_min_len(b: Seq<u8>) -> int {
    if v30_is_v1(b) {
        212
    } else {
        204
    }
}

/// The run count of a version 30 file: at offset 124 in the first
/// sub-layout, at offset 116 in the second.
pub open spec fn v30_run_count(b: Seq<u8>) -> u32 {
    if v30_is_v1(b) {
        le32(b, 208)
    } else {
        le32(b, 200)
    }
}

fn file_information_30v1(buffer: &[u8]) -> (r: Result<PrefetchFileInformation, PrefetchError>)
    ensures
        r is Ok <==> buffer@.len() >= 212,
        r matches Ok(info) ==> info_common_matches(buffer@, info) && info.last_run_times@
            == nonzero_times(spec_raw_times8(buffer@, 128)) && info.run_count == le32(
            buffer@,
            208,
        ),
        r is Err ==> r == Err::<PrefetchFileInformation, PrefetchError>(PrefetchError::BadFormat),
{
    if buffer.len() < 212 {
        return Err(PrefetchError::BadFormat);
    }
    let last_run_times = collect_run_times(buffer);
    Ok(
        PrefetchFileInformation {
            metrics_offsets: u32_at_pos(buffer, 84),
            metrics_count: u32_at_pos(buffer, 88),
            trace_chain_offset: u32_at_pos(buffer, 92),
            trace_chain_count: u32_at_pos(buffer, 96),
            filename_string_offset: u32_at_pos(buffer, 100),
            filename_string_size: u32_at_pos(buffer, 104),
            volume_information_offset: u32_at_pos(buffer, 108),
            volume_count: u32_at_pos(buffer, 112),
            volume_information_size: u32_at_pos(buffer, 116),
            last_run_times,
            run_count: u32_at_pos(buffer, 208),
        },
    )
}

fn file_information_30v2(buffer: &[u8]) -> (r: Result<PrefetchFileInformation, PrefetchError>)
    ensures
        r is Ok <==> buffer@.len() >= 204,
        r matches Ok(info) ==> info_common_matches(buffer@, info) && info.last_run_times@
            == nonzero_times(spec_raw_times8(buffer@, 128)) && info.run_count == le32(
            buffer@,
            200,
        ),
        r is Err ==> r == Err::<PrefetchFileInformation, PrefetchError>(PrefetchError::BadFormat),
{
    if buffer.len() < 204 {
        return Err(PrefetchError::BadFormat);
    }
    let last_run_times = collect_run_times(buffer);
    Ok(
        PrefetchFileInformation {
            metrics_offsets: u32_at_pos(buffer, 84),
            metrics_count: u32_at_pos(buffer, 88),
            trace_chain_offset: u32_at_pos(buffer, 92),
            trace_chain_count: u32_at_pos(buffer, 96),
            filename_string_offset: u32_at_pos(buffer, 100),
            filename_string_size: u32_at_pos(buffer, 104),
            volume_information_offset: u32_at_pos(buffer, 108),
            volume_count: u32_at_pos(buffer, 112),
            volume_information_size: u32_at_pos(buffer, 116),
            last_run_times,
            run_count: u32_at_pos(buffer, 200),
        },
    )
}

/// Reads the version 30 file-information struct, discriminating the two
/// sub-layouts by whether the metrics offset field reads 304.
pub fn file_information_30(buffer: &[u8]) -> (r: Result<PrefetchFileInformation, PrefetchError>)
    ensures
        r is Ok <==> buffer@.len() >= v30_min_len(buffer@),
        r matches Ok(info) ==> info_common_matches(buffer@, info) && info.last_run_times@
            == nonzero_times(spec_raw_times8(buffer@, 128)) && info.run_count == v30_run_count(
            buffer@,
        ),
        r is Err ==> r == Err::<PrefetchFileInformation, PrefetchError>(PrefetchError::BadFormat),
{
    if buffer.len() < 88 {
        return Err(PrefetchError::BadFormat);
    }
    let metrics_offsets = u32_at_pos(buffer, 84);
    if metrics_offsets == 304 {
        file_information_30v1(buffer)
    } else {
        file_information_30v2(buffer)
    }
}

/// Whether the buffer carries the mandatory `SCCA` signature at bytes
/// 4..8.
pub open spec fn sig_ok(b: Seq<u8>) -> bool {
    b.len() >= 8 && b[4] == 83 && b[5] == 67 && b[6] == 67 && b[7] == 65
}

/// Whether the version field names a supported layout.
pub open spec fn known_version(v: u32) -> bool {
    v == 17 || v == 23 || v == 26 || v == 30
}

/// All the bounds a version 17 body must satisfy to parse.
pub open spec fn spec_v17_ok(b: Seq<u8>) -> bool {
    let moff = le32(b, 84) as int;
    let mcount = le32(b, 88) as int;
    let toff = le32(b, 92) as int;
    let tcount = le32(b, 96) as int;
    let fsoff = le32(b, 100) as int;
    let fssize = le32(b, 104) as int;
    let voff = le32(b, 108) as int;
    let vcount = le32(b, 112) as int;
    let vsize = le32(b, 116) as int;
    &&& b.len() >= 148
    &&& fsoff + fssize <= b.len()
    &&& moff + mcount * 20 <= b.len()
    &&& (forall|i: int| 0 <= i < mcount ==> metric_ok_17(b, moff, fssize, toff, tcount, i))
    &&& voff + vsize <= b.len()
    &&& (forall|i: int| 0 <= i < vcount ==> volume_ok(b, voff, vsize, 40, 8, i))
}

/// What a version 17 record holds.
pub open spec fn spec_v17_matches(b: Seq<u8>, p: PrefetchFile) -> bool {
    let moff = le32(b, 84) as int;
    let mcount = le32(b, 88) as int;
    let toff = le32(b, 92) as int;
    let fsoff = le32(b, 100) as int;
    let voff = le32(b, 108) as int;
    let vcount = le32(b, 112) as int;
    let vsize = le32(b, 116) as int;
    &&& p.metrics@.len() == mcount
    &&& (forall|i: int|
        0 <= i < mcount ==> metric_matches_17(b, moff, fsoff, toff, i, #[trigger] p.metrics@[i]))
    &&& p.volume@.len() == vcount
    &&& (forall|i: int|
        0 <= i < vcount ==> volume_matches(b, voff, vsize, 40, 8, i, #[trigger] p.volume@[i]))
    &&& p.last_run_times@ == nonzero_times(seq![le64(b, 120)])
    &&& p.run_count == le32(b, 144)
}

/// All the bounds a version 23 or 26 body must satisfy to parse.
pub open spec fn spec_v23_ok(b: Seq<u8>, min_len: int) -> bool {
    let moff = le32(b, 84) as int;
    let mcount = le32(b, 88) as int;
    let toff = le32(b, 92) as int;
    let tcount = le32(b, 96) as int;
    let fsoff = le32(b, 100) as int;
    let fssize = le32(b, 104) as int;
    let voff = le32(b, 108) as int;
    let vcount = le32(b, 112) as int;
    let vsize = le32(b, 116) as int;
    &&& b.len() >= min_len
    &&& fsoff + fssize <= b.len()
    &&& moff <= b.len()
    &&& (forall|i: int| 0 <= i < mcount ==> metric_ok_32(b, moff, fssize, toff, tcount, 12, i))
    &&& voff + vsize <= b.len()
    &&& (forall|i: int| 0 <= i < vcount ==> volume_ok(b, voff, vsize, 104, 16, i))
}

/// What a version 23 or 26 record holds, apart from its run times and run
/// count.
pub open spec fn spec_v23_tables_match(b: Seq<u8>, p: PrefetchFile) -> bool {
    let moff = le32(b, 84) as int;
    let mcount = le32(b, 88) as int;
    let toff = le32(b, 92) as int;
    let fsoff = le32(b, 100) as int;
    let voff = le32(b, 108) as int;
    let vcount = le32(b, 112) as int;
    let vsize = le32(b, 116) as int;
    &&& p.metrics@.len() == mcount
    &&& (forall|i: int|
        0 <= i < mcount ==> metric_matches_23(b, moff, fsoff, toff, i, #[trigger] p.metrics@[i]))
    &&& p.volume@.len() == vcount
    &&& (forall|i: int|
        0 <= i < vcount ==> volume_matches(b, voff, vsize, 104, 16, i, #[trigger] p.volume@[i]))
}

/// All the bounds a version 30 body must satisfy to parse.
pub open spec fn spec_v30_ok(b: Seq<u8>) -> bool {
    let moff = le32(b, 84) as int;
    let mcount = le32(b, 88) as int;
    let toff = le32(b, 92) as int;
    let tcount = le32(b, 96) as int;
    let fsoff = le32(b, 100) as int;
    let fssize = le32(b, 104) as int;
    let voff = le32(b, 108) as int;
    let vcount = le32(b, 112) as int;
    let vsize = le32(b, 116) as int;
    &&& b.len() >= v30_min_len(b)
    &&& fsoff + fssize <= b.len()
    &&& moff <= b.len()
    &&& (forall|i: int| 0 <= i < mcount ==> metric_ok_32(b, moff, fssize, toff, tcount, 8, i))
    &&& voff + vsize <= b.len()
    &&& (forall|i: int| 0 <= i < vcount ==> volume_ok(b, voff, vsize, 96, 16, i))
}

/// What a version 30 record holds.
pub open spec fn spec_v30_matches(b: Seq<u8>, p: PrefetchFile) -> bool {
    let moff = le32(b, 84) as int;
    let mcount = le32(b, 88) as int;
    let toff = le32(b, 92) as int;
    let fsoff = le32(b, 100) as int;
    let voff = le32(b, 108) as int;
    let vcount = le32(b, 112) as int;
    let vsize = le32(b, 116) as int;
    &&& p.metrics@.len() == mcount
    &&& (forall|i: int|
        0 <= i < mcount ==> metric_matches_30(b, moff, fsoff, toff, i, #[trigger] p.metrics@[i]))
    &&& p.volume@.len() == vcount
    &&& (forall|i: int|
        0 <= i < vcount ==> volume_matches(b, voff, vsize, 96, 16, i, #[trigger] p.volume@[i]))
    &&& p.last_run_times@ == nonzero_times(spec_raw_times8(b, 128))
    &&& p.run_count == v30_run_count(b)
}

/// Whether a plaintext prefetch body parses: the `SCCA` signature, a known
/// version, and every table within bounds.
pub open spec fn spec_process_ok(b: Seq<u8>) -> bool {
    &&& sig_ok(b)
    &&& b.len() >= 84
    &&& known_version(le32(b, 0))
    &&& (le32(b, 0) == 17 ==> spec_v17_ok(b))
    &&& (le32(b, 0) == 23 ==> spec_v23_ok(b, 156))
    &&& (le32(b, 0) == 26 ==> spec_v23_ok(b, 212))
    &&& (le32(b, 0) == 30 ==> spec_v30_ok(b))
}

/// What the record parsed from a plaintext prefetch body holds.
pub open spec fn spec_record_matches(b: Seq<u8>, p: PrefetchFile) -> bool {
    &&& p.version == le32(b, 0)
    &&& p.name@ == utf16_field(b, 16, 60)
    &&& (le32(b, 0) == 17 ==> spec_v17_matches(b, p))
    &&& (le32(b, 0) == 23 ==> spec_v23_tables_match(b, p) && p.last_run_times@ == nonzero_times(
        seq![le64(b, 128)],
    ) && p.run_count == le32(b, 152))
    &&& (le32(b, 0) == 26 ==> spec_v23_tables_match(b, p) && p.last_run_times@ == nonzero_times(
        spec_raw_times8(b, 128),
    ) && p.run_count == le32(b, 208))
    &&& (le32(b, 0) == 30 ==> spec_v30_matches(b, p))
}

/// Which error a failing plaintext parse reports: `UnknownVersion` only
/// when the signature and header are sound but the version is not.
pub open spec fn spec_process_err(b: Seq<u8>) -> PrefetchError {
    if sig_ok(b) && b.len() >= 84 && !known_version(le32(b, 0)) {
        PrefetchError::UnknownVersion
    } else {
        PrefetchError::BadFormat
    }
}

/// The advisory notifications a plaintext parse appends, in order: the
/// name and hash cross-checks, then either the unknown-version report or,
/// on success, the per-metric anomaly reports.
pub open spec fn process_notes(artifact: Seq<char>, b: Seq<u8>) -> Seq<Notification> {
    if !(sig_ok(b) && b.len() >= 84) {
        Seq::empty()
    } else {
        let pre = name_hash_notes(artifact, utf16_field(b, 16, 60), le32(b, 76));
        let v = le32(b, 0);
        let moff = le32(b, 84) as int;
        let mcount = le32(b, 88) as int;
        let toff = le32(b, 92) as int;
        let fsoff = le32(b, 100) as int;
        if !known_version(v) {
            pre + seq![Notification::UnknownVersionSeen { version: v }]
        } else if !spec_process_ok(b) {
            pre
        } else if v == 17 {
            pre + anomaly_notes_at(b, moff, fsoff, toff, 20, 12, mcount)
        } else if v == 30 {
            pre + anomaly_notes_at(b, moff, fsoff, toff, 32, 8, mcount)
        } else {
            pre + anomaly_notes_at(b, moff, fsoff, toff, 32, 12, mcount)
        }
    }
}

/// Reports every resource-classified dependency that carries an
/// executable block, in metric order.
fn report_metric_anomalies(metrics: &Vec<Metric>, notifications: &mut Vec<Notification>)
    ensures
        final (notifications)@ == old(notifications)@ + anomaly_notes_upto(
            metrics@,
            metrics@.len() as int,
        ),
{
    proof {
        assert(notifications@ =~= old(notifications)@ + anomaly_notes_upto(metrics@, 0));
    }
    let mut i: usize = 0;
    while i < metrics.len()
        invariant
            i <= metrics@.len(),
            notifications@ == old(notifications)@ + anomaly_notes_upto(metrics@, i as int),
        decreases metrics@.len() - i,
    {
        check_anomaly_in_metrics(&metrics[i], notifications);
        proof {
            assert(notifications@ =~= old(notifications)@ + anomaly_notes_upto(
                metrics@,
                i + 1,
            ));
        }
        i = i + 1;
    }
}

/// Parses a plaintext (decompressed) prefetch body: checks the `SCCA`
/// signature, reads the executable name and stored hash, cross-checks
/// them against the artifact name, and dispatches on the version field.
pub fn process_prefetch_data(
    artifact_name: &str,
    buffer: &[u8],
    notifications: &mut Vec<Notification>,
) -> (r: Result<PrefetchFile, PrefetchError>)
    ensures
        r is Ok <==> spec_process_ok(buffer@),
        r matches Ok(p) ==> spec_record_matches(buffer@, p),
        r matches Err(e) ==> e == spec_process_err(buffer@),
        final (notifications)@ == old(notifications)@ + process_notes(artifact_name@, buffer@),
{
    if buffer.len() < 8 {
        proof {
            assert(notifications@ =~= old(notifications)@ + process_notes(
                artifact_name@,
                buffer@,
            ));
        }
        return Err(PrefetchError::BadFormat);
    }
    if !(buffer[4] == 83 && buffer[5] == 67 && buffer[6] == 67 && buffer[7] == 65) {
        proof {
            assert(notifications@ =~= old(notifications)@ + process_notes(
                artifact_name@,
                buffer@,
            ));
        }
        return Err(PrefetchError::BadFormat);
    }
    if buffer.len() < 84 {
        proof {
            assert(notifications@ =~= old(notifications)@ + process_notes(
                artifact_name@,
                buffer@,
            ));
        }
        return Err(PrefetchError::BadFormat);
    }
    let version = u32_at_pos(buffer, 0);
    let executable_name = match utf16_at_offset(buffer, 16, 60) {
        Ok(s) => s,
        Err(_) => {
            proof {
                assert(false);
            }
            return Err(PrefetchError::BadFormat);
        },
    };
    let raw_hash = u32_at_pos(buffer, 76);
    check_prefetch_info_correct(
        artifact_name,
        executable_name.as_str(),
        raw_hash,
        notifications,
    );
    if version == 17 {
        let info = match file_information_17(buffer) {
            Ok(i) => i,
            Err(_) => {
                proof {
                    assert(!spec_v17_ok(buffer@));
                }
                return Err(PrefetchError::BadFormat);
            },
        };
        let metrics = match metrics_array_17(buffer, &info) {
            Ok(m) => m,
            Err(_) => {
                proof {
                    assert(!spec_v17_ok(buffer@));
                }
                return Err(PrefetchError::BadFormat);
            },
        };
        let volume = match volume_info_17(buffer, &info) {
            Ok(v) => v,
            Err(_) => {
                proof {
                    assert(!spec_v17_ok(buffer@));
                }
                return Err(PrefetchError::BadFormat);
            },
        };
        report_metric_anomalies(&metrics, notifications);
        proof {
            lemma_anomaly_notes_17(
                buffer@,
                le32(buffer@, 84) as int,
                le32(buffer@, 100) as int,
                le32(buffer@, 92) as int,
                metrics@,
                metrics@.len() as int,
            );
            assert(spec_process_ok(buffer@));
            assert(notifications@ =~= old(notifications)@ + process_notes(
                artifact_name@,
                buffer@,
            ));
        }
        Ok(
            PrefetchFile {
                version,
                name: executable_name,
                metrics,
                last_run_times: info.last_run_times,
                run_count: info.run_count,
                volume,
            },
        )
    } else if version == 23 {
        let info = match file_information_23(buffer) {
            Ok(i) => i,
            Err(_) => {
                proof {
                    assert(!spec_v23_ok(buffer@, 156));
                }
                return Err(PrefetchError::BadFormat);
            },
        };
        let metrics = match metrics_array_23(buffer, &info) {
            Ok(m) => m,
            Err(_) => {
                proof {
                    assert(!spec_v23_ok(buffer@, 156));
                }
                return Err(PrefetchError::BadFormat);
            },
        };
        let volume = match volume_info_23(buffer, &info) {
            Ok(v) => v,
            Err(_) => {
                proof {
                    assert(!spec_v23_ok(buffer@, 156));
                }
                return Err(PrefetchError::BadFormat);
            },
        };
        report_metric_anomalies(&metrics, notifications);
        proof {
            lemma_anomaly_notes_23(
                buffer@,
                le32(buffer@, 84) as int,
                le32(buffer@, 100) as int,
                le32(buffer@, 92) as int,
                metrics@,
                metrics@.len() as int,
            );
            assert(spec_process_ok(buffer@));
            assert(notifications@ =~= old(notifications)@ + process_notes(
                artifact_name@,
                buffer@,
            ));
        }
        Ok(
            PrefetchFile {
                version,
                name: executable_name,
                metrics,
                last_run_times: info.last_run_times,
                run_count: info.run_count,
                volume,
            },
        )
    } else if version == 26 {
        let info = match file_information_26(buffer) {
            Ok(i) => i,
            Err(_) => {
                proof {
                    assert(!spec_v23_ok(buffer@, 212));
                }
                return Err(PrefetchError::BadFormat);
            },
        };
        let metrics = match metrics_array_26(buffer, &info) {
            Ok(m) => m,
            Err(_) => {
                proof {
                    assert(!spec_v23_ok(buffer@, 212));
                }
                return Err(PrefetchError::BadFormat);
            },
        };
        let volume = match volume_info_26(buffer, &info) {
            Ok(v) => v,
            Err(_) => {
                proof {
                    assert(!spec_v23_ok(buffer@, 212));
                }
                return Err(PrefetchError::BadFormat);
            },
        };
        report_metric_anomalies(&metrics, notifications);
        proof {
            lemma_anomaly_notes_23(
                buffer@,
                le32(buffer@, 84) as int,
                le32(buffer@, 100) as int,
                le32(buffer@, 92) as int,
                metrics@,
                metrics@.len() as int,
            );
            assert(spec_process_ok(buffer@));
            assert(notifications@ =~= old(notifications)@ + process_notes(
                artifact_name@,
                buffer@,
            ));
        }
        Ok(
            PrefetchFile {
                version,
                name: executable_name,
                metrics,
                last_run_times: info.last_run_times,
                run_count: info.run_count,
                volume,
            },
        )
    } else if version == 30 {
        let info = match file_information_30(buffer) {
            Ok(i) => i,
            Err(_) => {
                proof {
                    assert(!spec_v30_ok(buffer@));
                }
                return Err(PrefetchError::BadFormat);
            },
        };
        let metrics = match metrics_array_30(buffer, &info) {
            Ok(m) => m,
            Err(_) => {
                proof {
                    assert(!spec_v30_ok(buffer@));
                }
                return Err(PrefetchError::BadFormat);
            },
        };
        let volume = match volume_info_30(buffer, &info) {
            Ok(v) => v,
            Err(_) => {
                proof {
                    assert(!spec_v30_ok(buffer@));
                }
                return Err(PrefetchError::BadFormat);
            },
        };
        report_metric_anomalies(&metrics, notifications);
        proof {
            lemma_anomaly_notes_30(
                buffer@,
                le32(buffer@, 84) as int,
                le32(buffer@, 100) as int,
                le32(buffer@, 92) as int,
                metrics@,
                metrics@.len() as int,
            );
            assert(spec_process_ok(buffer@));
            assert(notifications@ =~= old(notifications)@ + process_notes(
                artifact_name@,
                buffer@,
            ));
        }
        Ok(
            PrefetchFile {
                version,
                name: executable_name,
                metrics,
                last_run_times: info.last_run_times,
                run_count: info.run_count,
                volume,
            },
        )
    } else {
        notifications.push(Notification::UnknownVersionSeen { version });
        proof {
            assert(notifications@ =~= old(notifications)@ + process_notes(
                artifact_name@,
                buffer@,
            ));
        }
        Err(PrefetchError::UnknownVersion)
    }
}

/// The packed first word of a `MAM` envelope: magic, algorithm nibble and
/// CRC-presence nibble.
pub const PREFETCH_COMPRESS_SIGNATURE: u32 = 0x004D_414D;

/// The algorithm nibble of the envelope's first word.
pub open spec fn mam_algo(b: Seq<u8>) -> u32 {
    (le32(b, 0) & 0x0F00_0000) >> 24u32
}

/// The CRC-presence nibble of the envelope's first word.
pub open spec fn mam_crc_flag(b: Seq<u8>) -> u32 {
    (le32(b, 0) & 0xF000_0000) >> 28u32
}

/// Whether the low three bytes of the envelope's first word spell `MAM`.
pub open spec fn mam_magic_ok(b: Seq<u8>) -> bool {
    b.len() >= 8 && le32(b, 0) & 0x00FF_FFFF == 0x004D_414D
}

/// The declared uncompressed size of the envelope.
pub open spec fn mam_size(b: Seq<u8>) -> u32 {
    le32(b, 4)
}

/// The bytes the envelope's CRC32 is computed over: the 8-byte header,
/// the 4 CRC bytes zeroed, and the remainder of the payload.
pub open spec fn crc_input(b: Seq<u8>) -> Seq<u8> {
    b.take(8) + seq![0u8, 0u8, 0u8, 0u8] + b.skip(12)
}

/// Whether the envelope's optional CRC check passes: trivially when no
/// CRC is present.
pub open spec fn mam_crc_ok(b: Seq<u8>) -> bool {
    mam_crc_flag(b) == 0 || (b.len() >= 12 && crc32_of(crc_input(b)) == le32(b, 8))
}

/// The plaintext the envelope's payload decodes to, or `None` when the
/// stream is invalid.
pub open spec fn mam_plaintext(b: Seq<u8>) -> Option<Seq<u8>> {
    spec_decompress(spec_algorithm_of(mam_algo(b)), b.skip(8), Seq::empty())
}

/// Whether a compressed prefetch file parses: within the size limit, a
/// sound envelope and CRC, a payload that decodes to exactly the declared
/// size, and a plaintext body that parses.
pub open spec fn compressed_ok(b: Seq<u8>) -> bool {
    &&& b.len() <= 1_000_000
    &&& mam_magic_ok(b)
    &&& mam_crc_ok(b)
    &&& (mam_plaintext(b) matches Some(d) && d.len() == mam_size(b) && spec_process_ok(d))
}

/// Which error a failing compressed parse reports.
pub open spec fn compressed_err(b: Seq<u8>) -> PrefetchError {
    if b.len() <= 1_000_000 && mam_magic_ok(b) && mam_crc_ok(b) && (mam_plaintext(b) matches Some(
        d,
    ) && d.len() == mam_size(b)) {
        spec_process_err(mam_plaintext(b)->Some_0)
    } else {
        PrefetchError::BadFormat
    }
}

/// The advisory notifications a compressed parse appends, in order.
pub open spec fn compressed_notes(artifact: Seq<char>, b: Seq<u8>) -> Seq<Notification> {
    if b.len() > 1_000_000 {
        seq![Notification::OversizedFile]
    } else if !mam_magic_ok(b) {
        Seq::empty()
    } else if mam_crc_flag(b) > 0 && b.len() < 12 {
        Seq::empty()
    } else if mam_crc_flag(b) > 0 && crc32_of(crc_input(b)) != le32(b, 8) {
        seq![
            Notification::CrcMismatch {
                expected: le32(b, 8),
                obtained: crc32_of(crc_input(b)),
            },
        ]
    } else if !(mam_plaintext(b) matches Some(d) && d.len() == mam_size(b)) {
        Seq::empty()
    } else {
        process_notes(artifact, mam_plaintext(b)->Some_0)
    }
}

/// Parses a compressed (`MAM`-wrapped) prefetch file from its raw bytes:
/// enforces the size limit, verifies the optional CRC32, decompresses the
/// payload to exactly the declared size, and parses the plaintext body.
pub fn read_prefetch_file_compressed(
    artifact_name: &str,
    buffer: &[u8],
    notifications: &mut Vec<Notification>,
) -> (r: Result<PrefetchFile, PrefetchError>)
    ensures
        r is Ok <==> compressed_ok(buffer@),
        r matches Ok(p) ==> spec_record_matches(mam_plaintext(buffer@)->Some_0, p),
        r matches Err(e) ==> e == compressed_err(buffer@),
        final (notifications)@ == old(notifications)@ + compressed_notes(
            artifact_name@,
            buffer@,
        ),
{
    if buffer.len() as u64 > PREFETCH_SIZE_LIMIT {
        notifications.push(Notification::OversizedFile);
        proof {
            assert(notifications@ =~= old(notifications)@ + compressed_notes(
                artifact_name@,
                buffer@,
            ));
        }
        return Err(PrefetchError::BadFormat);
    }
    if buffer.len() < 8 {
        proof {
            assert(notifications@ =~= old(notifications)@ + compressed_notes(
                artifact_name@,
                buffer@,
            ));
        }
        return Err(PrefetchError::BadFormat);
    }
    let signature = u32_at_pos(buffer, 0);
    let decompressed_size = u32_at_pos(buffer, 4);
    let compress_algorithm = CompressionAlgorithm::from((signature & 0x0F00_0000) >> 24u32);
    let crc_ck = (signature & 0xF000_0000) >> 28u32;
    let magic = signature & 0x00FF_FFFF;
    if magic != PREFETCH_COMPRESS_SIGNATURE {
        proof {
            assert(notifications@ =~= old(notifications)@ + compressed_notes(
                artifact_name@,
                buffer@,
            ));
        }
        return Err(PrefetchError::BadFormat);
    }
    if crc_ck > 0 {
        if buffer.len() < 12 {
            proof {
                assert(notifications@ =~= old(notifications)@ + compressed_notes(
                    artifact_name@,
                    buffer@,
                ));
            }
            return Err(PrefetchError::BadFormat);
        }
        let file_crc = u32_at_pos(buffer, 8);
        let mut crc_buf: Vec<u8> = Vec::new();
        crc_buf.extend_from_slice(slice_subrange(buffer, 0, 8));
        crc_buf.push(0);
        crc_buf.push(0);
        crc_buf.push(0);
        crc_buf.push(0);
        crc_buf.extend_from_slice(slice_subrange(buffer, 12, buffer.len()));
        proof {
            assert(crc_buf@ =~= crc_input(buffer@));
        }
        let crc_val = crc32(crc_buf.as_slice());
        if crc_val != file_crc {
            notifications.push(
                Notification::CrcMismatch { expected: file_crc, obtained: crc_val },
            );
            proof {
                assert(notifications@ =~= old(notifications)@ + compressed_notes(
                    artifact_name@,
                    buffer@,
                ));
            }
            return Err(PrefetchError::BadFormat);
        }
    }
    let compressed = slice_subrange(buffer, 8, buffer.len());
    let mut decompressed: Vec<u8> = Vec::new();
    match decompress(compressed, &mut decompressed, compress_algorithm) {
        Ok(()) => {},
        Err(_) => {
            proof {
                assert(notifications@ =~= old(notifications)@ + compressed_notes(
                    artifact_name@,
                    buffer@,
                ));
            }
            return Err(PrefetchError::BadFormat);
        },
    }
    if decompressed.len() as u64 != decompressed_size as u64 {
        proof {
            assert(notifications@ =~= old(notifications)@ + compressed_notes(
                artifact_name@,
                buffer@,
            ));
        }
        return Err(PrefetchError::BadFormat);
    }
    process_prefetch_data(artifact_name, decompressed.as_slice(), notifications)
}

/// Parses an uncompressed prefetch file from its raw bytes, enforcing the
/// size limit.
pub fn read_prefetch_file_no_compressed(
    artifact_name: &str,
    buffer: &[u8],
    notifications: &mut Vec<Notification>,
) -> (r: Result<PrefetchFile, PrefetchError>)
    ensures
        r is Ok <==> buffer@.len() <= 1_000_000 && spec_process_ok(buffer@),
        r matches Ok(p) ==> spec_record_matches(buffer@, p),
        r matches Err(e) ==> e == (if buffer@.len() > 1_000_000 {
            PrefetchError::BadFormat
        } else {
            spec_process_err(buffer@)
        }),
        final (notifications)@ == old(notifications)@ + (if buffer@.len() > 1_000_000 {
            seq![Notification::OversizedFile]
        } else {
            process_notes(artifact_name@, buffer@)
        }),
{
    if buffer.len() as u64 > PREFETCH_SIZE_LIMIT {
        notifications.push(Notification::OversizedFile);
        proof {
            assert(notifications@ =~= old(notifications)@ + seq![Notification::OversizedFile]);
        }
        return Err(PrefetchError::BadFormat);
    }
    process_prefetch_data(artifact_name, buffer, notifications)
}

/// Whether a prefetch file parses, whatever its on-disk form.
pub open spec fn spec_parse_ok(b: Seq<u8>) -> bool {
    if is_mam(b) {
        compressed_ok(b)
    } else {
        b.len() <= 1_000_000 && spec_process_ok(b)
    }
}

/// The plaintext body a prefetch file's bytes carry: the file itself when
/// uncompressed, the decoded payload when `MAM`-wrapped.
pub open spec fn spec_parse_plaintext(b: Seq<u8>) -> Seq<u8> {
    if is_mam(b) {
        mam_plaintext(b)->Some_0
    } else {
        b
    }
}

/// Which error a failing parse reports.
pub open spec fn spec_parse_err(b: Seq<u8>) -> PrefetchError {
    if is_mam(b) {
        compressed_err(b)
    } else if b.len() > 1_000_000 {
        PrefetchError::BadFormat
    } else {
        spec_process_err(b)
    }
}

/// The advisory notifications a parse appends, in order.
pub open spec fn spec_parse_notes(artifact: Seq<char>, b: Seq<u8>) -> Seq<Notification> {
    if is_mam(b) {
        compressed_notes(artifact, b)
    } else if b.len() > 1_000_000 {
        seq![Notification::OversizedFile]
    } else {
        process_notes(artifact, b)
    }
}

/// Parses a single prefetch file from its raw bytes, autodetecting
/// compression by sniffing the `MAM` signature. The artifact file name is
/// supplied so that the stored executable name and hash can be
/// cross-checked against it.
pub fn read_prefetch_file(
    artifact_name: &str,
    buffer: &[u8],
    notifications: &mut Vec<Notification>,
) -> (r: Result<PrefetchFile, PrefetchError>)
    ensures
        r is Ok <==> spec_parse_ok(buffer@),
        r matches Ok(p) ==> spec_record_matches(spec_parse_plaintext(buffer@), p),
        r matches Err(e) ==> e == spec_parse_err(buffer@),
        final (notifications)@ == old(notifications)@ + spec_parse_notes(
            artifact_name@,
            buffer@,
        ),
{
    if file_is_compressed(buffer) {
        read_prefetch_file_compressed(artifact_name, buffer, notifications)
    } else {
        read_prefetch_file_no_compressed(artifact_name, buffer, notifications)
    }
}

/// The metric record width a body's version selects.
pub open spec fn spec_metric_width(b: Seq<u8>) -> int {
    if le32(b, 0) == 17 {
        20
    } else {
        32
    }
}

/// The trace record width a body's version selects.
pub open spec fn spec_trace_width(b: Seq<u8>) -> int {
    if le32(b, 0) == 30 {
        8
    } else {
        12
    }
}

/// Whether the `i`-th metric record's trace sub-range lies within the
/// trace table: its index plus its size does not exceed the table's
/// record count.
pub open spec fn trace_subrange_within(b: Seq<u8>, mw: int, i: int) -> bool {
    le32(b, le32(b, 84) + mw * i) + le32(b, le32(b, 84) + mw * i + 4) <= le32(b, 96)
}

/// Law: in a body that parses, every metric's trace sub-range
/// `[index, index + size)` fits within the file-level trace table.
pub proof fn lemma_trace_ranges_within_table(b: Seq<u8>)
    requires
        spec_process_ok(b),
    ensures
        forall|i: int|
            0 <= i < le32(b, 88) ==> #[trigger] trace_subrange_within(b, spec_metric_width(b), i),
{
    let v = le32(b, 0);
    assert forall|i: int| 0 <= i < le32(b, 88) implies #[trigger] trace_subrange_within(
        b,
        spec_metric_width(b),
        i,
    ) by {
        if v == 17 {
            assert(metric_ok_17(
                b,
                le32(b, 84) as int,
                le32(b, 104) as int,
                le32(b, 92) as int,
                le32(b, 96) as int,
                i,
            ));
        } else if v == 30 {
            assert(metric_ok_32(
                b,
                le32(b, 84) as int,
                le32(b, 104) as int,
                le32(b, 92) as int,
                le32(b, 96) as int,
                8,
                i,
            ));
        } else {
            assert(metric_ok_32(
                b,
                le32(b, 84) as int,
                le32(b, 104) as int,
                le32(b, 92) as int,
                le32(b, 96) as int,
                12,
                i,
            ));
        }
    }
}

/// Whether the `i`-th 32-byte metric record lies within the buffer.
pub open spec fn metric_record_within(b: Seq<u8>, i: int) -> bool {
    le32(b, 84) + 32 * (i + 1) <= b.len()
}

/// Law: in a body that parses, every offset-and-size pair that the walkers
/// dereference lies within its enclosing buffer: the string table and the
/// volume table within the file, every metric record within the file, and
/// the trace table within the file as soon as one metric references it.
pub proof fn lemma_tables_within_buffer(b: Seq<u8>)
    requires
        spec_process_ok(b),
    ensures
        le32(b, 100) + le32(b, 104) <= b.len(),
        le32(b, 108) + le32(b, 116) <= b.len(),
        le32(b, 0) == 17 ==> le32(b, 84) + le32(b, 88) * 20 <= b.len(),
        le32(b, 0) != 17 ==> (forall|i: int|
            0 <= i < le32(b, 88) ==> #[trigger] metric_record_within(b, i)),
        le32(b, 88) > 0 ==> le32(b, 92) + le32(b, 96) * spec_trace_width(b) <= b.len(),
{
    let v = le32(b, 0);
    if v != 17 {
        assert forall|i: int| 0 <= i < le32(b, 88) implies #[trigger] metric_record_within(
            b,
            i,
        ) by {
            let tw: int = if v == 30 {
                8
            } else {
                12
            };
            assert(metric_ok_32(
                b,
                le32(b, 84) as int,
                le32(b, 104) as int,
                le32(b, 92) as int,
                le32(b, 96) as int,
                tw,
                i,
            ));
        }
    }
    if le32(b, 88) > 0 {
        if v == 17 {
            assert(metric_ok_17(
                b,
                le32(b, 84) as int,
                le32(b, 104) as int,
                le32(b, 92) as int,
                le32(b, 96) as int,
                0,
            ));
        } else if v == 30 {
            assert(metric_ok_32(
                b,
                le32(b, 84) as int,
                le32(b, 104) as int,
                le32(b, 92) as int,
                le32(b, 96) as int,
                8,
                0,
            ));
        } else {
            assert(metric_ok_32(
                b,
                le32(b, 84) as int,
                le32(b, 104) as int,
                le32(b, 92) as int,
                le32(b, 96) as int,
                12,
                0,
            ));
        }
    }
}

/// Law: when a compressed file parses, its payload decodes to exactly the
/// uncompressed size the envelope declares.
pub proof fn lemma_decompressed_size_exact(b: Seq<u8>)
    requires
        compressed_ok(b),
    ensures
        mam_plaintext(b) matches Some(d) && d.len() == mam_size(b),
{
}

/// Whether a sequence of run times is ordered most-recent first.
pub open spec fn seq_nonincreasing(s: Seq<u64>) -> bool {
    forall|i: int, j: int| 0 <= i <= j < s.len() ==> s[i] >= s[j]
}

proof fn lemma_nonzero_upto_sorted(raw: Seq<u64>, k: int)
    requires
        seq_nonincreasing(raw),
        0 <= k <= raw.len(),
    ensures
        seq_nonincreasing(nonzero_upto(raw, k)),
        forall|i: int, j: int|
            0 <= i < nonzero_upto(raw, k).len() && k <= j < raw.len() ==> #[trigger] nonzero_upto(
                raw,
                k,
            )[i] >= #[trigger] raw[j],
    decreases k,
{
    if k > 0 {
        lemma_nonzero_upto_sorted(raw, k - 1);
        let prev = nonzero_upto(raw, k - 1);
        let cur = nonzero_upto(raw, k);
        assert forall|i: int, j: int| 0 <= i <= j < cur.len() implies cur[i] >= cur[j] by {
            if j < prev.len() {
                assert(prev[i] >= prev[j]);
            } else {
                assert(cur[j] == raw[k - 1]);
                if i < prev.len() {
                    assert(prev[i] >= raw[k - 1]);
                }
            }
        }
        assert forall|i: int, j: int|
            0 <= i < cur.len() && k <= j < raw.len() implies #[trigger] cur[i]
            >= #[trigger] raw[j] by {
            if i < prev.len() {
                assert(prev[i] >= raw[j]);
            } else {
                assert(cur[i] == raw[k - 1]);
                assert(raw[k - 1] >= raw[j]);
            }
        }
    }
}

/// Law: dropping the zero entries of a most-recent-first run-time window
/// keeps the remaining times most-recent first.
pub proof fn lemma_run_times_monotone(raw: Seq<u64>)
    requires
        seq_nonincreasing(raw),
    ensures
        seq_nonincreasing(nonzero_times(raw)),
{
    lemma_nonzero_upto_sorted(raw, raw.len() as int);
}

/// Law: when the raw run-time slots of a body are most-recent first, the
/// parsed record's `last_run_times` is most-recent first too.
pub proof fn lemma_last_run_times_monotone(b: Seq<u8>, p: PrefetchFile)
    requires
        spec_process_ok(b),
        spec_record_matches(b, p),
        le32(b, 0) == 26 || le32(b, 0) == 30 ==> seq_nonincreasing(spec_raw_times8(b, 128)),
    ensures
        seq_nonincreasing(p.last_run_times@),
{
    let v = le32(b, 0);
    if v == 17 {
        lemma_run_times_monotone(seq![le64(b, 120)]);
    } else if v == 23 {
        lemma_run_times_monotone(seq![le64(b, 128)]);
    } else {
        lemma_run_times_monotone(spec_raw_times8(b, 128));
    }
}

/// Whether two metrics hold the same data, compared by value.
pub open spec fn metric_equivalent(m1: Metric, m2: Metric) -> bool {
    &&& m1.file@ == m2.file@
    &&& m1.flags == m2.flags
    &&& m1.blocks_to_prefetch == m2.blocks_to_prefetch
    &&& m1.traces@ == m2.traces@
}

/// Whether two volumes hold the same data, compared by value.
pub open spec fn volume_equivalent(
    v1: crate::common::VolumeInformation,
    v2: crate::common::VolumeInformation,
) -> bool {
    &&& v1.device_path@ == v2.device_path@
    &&& v1.creation_time == v2.creation_time
    &&& v1.serial_number == v2.serial_number
    &&& v1.file_references@ == v2.file_references@
    &&& v1.directory_strings@.map_values(|s: String| s@) == v2.directory_strings@.map_values(
        |s: String| s@,
    )
}

/// Whether two parsed records hold the same data, compared by value.
pub open spec fn record_equivalent(p1: PrefetchFile, p2: PrefetchFile) -> bool {
    &&& p1.version == p2.version
    &&& p1.name@ == p2.name@
    &&& p1.run_count == p2.run_count
    &&& p1.last_run_times@ == p2.last_run_times@
    &&& p1.metrics@.len() == p2.metrics@.len()
    &&& (forall|i: int|
        0 <= i < p1.metrics@.len() ==> metric_equivalent(
            #[trigger] p1.metrics@[i],
            p2.metrics@[i],
        ))
    &&& p1.volume@.len() == p2.volume@.len()
    &&& (forall|i: int|
        0 <= i < p1.volume@.len() ==> volume_equivalent(#[trigger] p1.volume@[i], p2.volume@[i]))
}

/// Law: parsing is a pure function of the input. Any two records that a
/// successful parse of the same plaintext body may return hold the same
/// data.
pub proof fn lemma_process_deterministic(b: Seq<u8>, p1: PrefetchFile, p2: PrefetchFile)
    requires
        spec_process_ok(b),
        spec_record_matches(b, p1),
        spec_record_matches(b, p2),
    ensures
        record_equivalent(p1, p2),
{
    let v = le32(b, 0);
    let moff = le32(b, 84) as int;
    let toff = le32(b, 92) as int;
    let fsoff = le32(b, 100) as int;
    let voff = le32(b, 108) as int;
    let vsize = le32(b, 116) as int;
    assert forall|i: int| 0 <= i < p1.metrics@.len() implies metric_equivalent(
        #[trigger] p1.metrics@[i],
        p2.metrics@[i],
    ) by {
        if v == 17 {
            assert(metric_matches_17(b, moff, fsoff, toff, i, p1.metrics@[i]));
            assert(metric_matches_17(b, moff, fsoff, toff, i, p2.metrics@[i]));
        } else if v == 30 {
            assert(metric_matches_30(b, moff, fsoff, toff, i, p1.metrics@[i]));
            assert(metric_matches_30(b, moff, fsoff, toff, i, p2.metrics@[i]));
        } else {
            assert(metric_matches_23(b, moff, fsoff, toff, i, p1.metrics@[i]));
            assert(metric_matches_23(b, moff, fsoff, toff, i, p2.metrics@[i]));
        }
    }
    assert forall|i: int| 0 <= i < p1.volume@.len() implies volume_equivalent(
        #[trigger] p1.volume@[i],
        p2.volume@[i],
    ) by {
        if v == 17 {
            assert(volume_matches(b, voff, vsize, 40, 8, i, p1.volume@[i]));
            assert(volume_matches(b, voff, vsize, 40, 8, i, p2.volume@[i]));
        } else if v == 30 {
            assert(volume_matches(b, voff, vsize, 96, 16, i, p1.volume@[i]));
            assert(volume_matches(b, voff, vsize, 96, 16, i, p2.volume@[i]));
        } else {
            assert(volume_matches(b, voff, vsize, 104, 16, i, p1.volume@[i]));
            assert(volume_matches(b, voff, vsize, 104, 16, i, p2.volume@[i]));
        }
    }
}

/// Law: parsing a prefetch file is a pure function of its raw bytes. Any
/// two records that a successful parse of the same bytes may return hold
/// the same data, whatever the on-disk form.
pub proof fn lemma_parse_deterministic(b: Seq<u8>, p1: PrefetchFile, p2: PrefetchFile)
    requires
        spec_parse_ok(b),
        spec_record_matches(spec_parse_plaintext(b), p1),
        spec_record_matches(spec_parse_plaintext(b), p2),
    ensures
        record_equivalent(p1, p2),
{
    lemma_process_deterministic(spec_parse_plaintext(b), p1, p2);
}

} // verus!
