//! Volume walker: parses the volume-information table. Records are 40
//! bytes wide for version 17, 104 for versions 23/26 and 96 for version 30;
//! each carries a nested NTFS file-reference block and a length-prefixed
//! directory-string block.

use vstd::prelude::*;

use crate::common::NtfsFile;
use crate::common::PrefetchError;
use crate::common::PrefetchFileInformation;
use crate::common::VolumeInformation;
use crate::common::le16;
use crate::common::le32;
use crate::common::le64;
use crate::common::u16_at_pos;
use crate::common::u32_at_pos;
use crate::common::u64_at_pos;
use crate::common::utf16_at_offset;
use crate::common::utf16_field;

verus! {

/// The 8-byte NTFS reference stored at `pos`: the high 48 bits are the MFT
/// entry, the low 16 bits the sequence number.
pub open spec fn spec_ntfs_ref(b: Seq<u8>, pos: int) -> NtfsFile {
    NtfsFile { mft_entry: le64(b, pos) >> 16, seq_number: le16(b, pos) }
}

/// The first `k` reference entries starting at `entries`, those with MFT
/// entry 0 dropped, in on-disk order.
pub open spec fn spec_file_refs_upto(b: Seq<u8>, entries: int, k: int) -> Seq<NtfsFile>
    decreases k,
{
    if k <= 0 {
        Seq::empty()
    } else {
        spec_file_refs_upto(b, entries, k - 1) + (if spec_ntfs_ref(
            b,
            entries + 8 * (k - 1),
        ).mft_entry != 0 {
            seq![spec_ntfs_ref(b, entries + 8 * (k - 1))]
        } else {
            Seq::empty()
        })
    }
}

/// The directory strings read from the window starting at `dd` of length
/// `dd_len`, beginning at relative position `pos`, `count` records in all.
/// Each record is a 16-bit character count followed by that many UTF-16LE
/// code units and a NUL. `None` means a record does not fit.
pub open spec fn spec_dir_strings(b: Seq<u8>, dd: int, dd_len: int, pos: int, count: int) -> Option<
    Seq<Seq<char>>,
>
    decreases count,
{
    if count <= 0 {
        Some(Seq::empty())
    } else if pos + 2 > dd_len {
        None
    } else {
        let chars = le16(b, dd + pos) as int;
        if pos + 4 + chars * 2 >= dd_len {
            None
        } else {
            match spec_dir_strings(b, dd, dd_len, pos + 4 + chars * 2, count - 1) {
                None => None,
                Some(rest) => Some(
                    seq![utf16_field(b, dd + pos + 2, chars * 2 + 2)] + rest,
                ),
            }
        }
    }
}

/// Extracts the NTFS file references of a version 17 volume record: an
/// 8-byte header whose second word is the entry count, then the entries.
pub fn extract_file_references_17(file_buffer: &[u8], fro: usize, fr_size: usize) -> (r: Result<
    Vec<NtfsFile>,
    PrefetchError,
>)
    requires
        fro + fr_size <= file_buffer@.len(),
    ensures
        r is Ok <==> fr_size >= 8 && 8 + le32(file_buffer@, fro + 4) * 8 <= fr_size,
        r matches Ok(v) ==> v@ == spec_file_refs_upto(
            file_buffer@,
            fro + 8,
            le32(file_buffer@, fro + 4) as int,
        ),
        r is Err ==> r == Err::<Vec<NtfsFile>, PrefetchError>(PrefetchError::BadFormat),
{
    let buf_len = file_buffer.len();
    if fr_size < 8 {
        return Err(PrefetchError::BadFormat);
    }
    let count = u32_at_pos(file_buffer, fro + 4);
    if 8 + count as u64 * 8 > fr_size as u64 {
        return Err(PrefetchError::BadFormat);
    }
    let mut files: Vec<NtfsFile> = Vec::new();
    let mut k: usize = 0;
    while k < count as usize
        invariant
            k <= count,
            fro + fr_size <= file_buffer@.len(),
            buf_len == file_buffer@.len(),
            8 + count * 8 <= fr_size,
            count == le32(file_buffer@, fro + 4),
            files@ == spec_file_refs_upto(file_buffer@, fro + 8 as int, k as int),
        decreases count - k,
    {
        let pos = fro + 8 + 8 * k;
        let mft_entry = u64_at_pos(file_buffer, pos) >> 16u64;
        if mft_entry != 0 {
            let seq_number = u16_at_pos(file_buffer, pos);
            files.push(NtfsFile { mft_entry, seq_number });
        }
        proof {
            assert(files@ =~= spec_file_refs_upto(file_buffer@, fro + 8 as int, k + 1));
        }
        k = k + 1;
    }
    Ok(files)
}

/// Extracts the NTFS file references of a version 23/26/30 volume record:
/// a 16-byte header whose second word is the entry count, then the entries.
pub fn extract_file_references_23(file_buffer: &[u8], fro: usize, fr_size: usize) -> (r: Result<
    Vec<NtfsFile>,
    PrefetchError,
>)
    requires
        fro + fr_size <= file_buffer@.len(),
    ensures
        r is Ok <==> fr_size >= 16 && 16 + le32(file_buffer@, fro + 4) * 8 <= fr_size,
        r matches Ok(v) ==> v@ == spec_file_refs_upto(
            file_buffer@,
            fro + 16,
            le32(file_buffer@, fro + 4) as int,
        ),
        r is Err ==> r == Err::<Vec<NtfsFile>, PrefetchError>(PrefetchError::BadFormat),
{
    let buf_len = file_buffer.len();
    if fr_size < 16 {
        return Err(PrefetchError::BadFormat);
    }
    let count = u32_at_pos(file_buffer, fro + 4);
    if 16 + count as u64 * 8 > fr_size as u64 {
        return Err(PrefetchError::BadFormat);
    }
    let mut files: Vec<NtfsFile> = Vec::new();
    let mut k: usize = 0;
    while k < count as usize
        invariant
            k <= count,
            fro + fr_size <= file_buffer@.len(),
            buf_len == file_buffer@.len(),
            16 + count * 8 <= fr_size,
            count == le32(file_buffer@, fro + 4),
            files@ == spec_file_refs_upto(file_buffer@, fro + 16 as int, k as int),
        decreases count - k,
    {
        let pos = fro + 16 + 8 * k;
        let mft_entry = u64_at_pos(file_buffer, pos) >> 16u64;
        if mft_entry != 0 {
            let seq_number = u16_at_pos(file_buffer, pos);
            files.push(NtfsFile { mft_entry, seq_number });
        }
        proof {
            assert(files@ =~= spec_file_refs_upto(file_buffer@, fro + 16 as int, k + 1));
        }
        k = k + 1;
    }
    Ok(files)
}

/// Extracts `count` length-prefixed directory strings from the window
/// starting at `dd` of length `dd_len`.
pub fn extract_directory_strings_23(
    file_buffer: &[u8],
    dd: usize,
    dd_len: usize,
    count: usize,
) -> (r: Result<Vec<String>, PrefetchError>)
    requires
        dd + dd_len <= file_buffer@.len(),
    ensures
        r is Ok <==> dd_len >= 2 && spec_dir_strings(
            file_buffer@,
            dd as int,
            dd_len as int,
            0,
            count as int,
        ) is Some,
        r matches Ok(v) ==> Some(v@.map_values(|s: String| s@)) == spec_dir_strings(
            file_buffer@,
            dd as int,
            dd_len as int,
            0,
            count as int,
        ),
        r is Err ==> r == Err::<Vec<String>, PrefetchError>(PrefetchError::BadFormat),
{
    let buf_len = file_buffer.len();
    if dd_len < 2 {
        return Err(PrefetchError::BadFormat);
    }
    let mut list: Vec<String> = Vec::new();
    let mut pos: usize = 0;
    let mut done: usize = 0;
    while done < count
        invariant
            done <= count,
            dd + dd_len <= file_buffer@.len(),
            buf_len == file_buffer@.len(),
            pos <= dd_len,
            list@.len() == done,
            match spec_dir_strings(
                file_buffer@,
                dd as int,
                dd_len as int,
                pos as int,
                count - done,
            ) {
                None => spec_dir_strings(
                    file_buffer@,
                    dd as int,
                    dd_len as int,
                    0,
                    count as int,
                ) is None,
                Some(rest) => spec_dir_strings(
                    file_buffer@,
                    dd as int,
                    dd_len as int,
                    0,
                    count as int,
                ) == Some(list@.map_values(|s: String| s@) + rest),
            },
        decreases count - done,
    {
        if dd_len - pos < 2 {
            return Err(PrefetchError::BadFormat);
        }
        let characters = u16_at_pos(file_buffer, dd + pos) as usize;
        let rem = dd_len - pos;
        if 4 + characters as u64 * 2 >= rem as u64 {
            return Err(PrefetchError::BadFormat);
        }
        let text = match utf16_at_offset(file_buffer, dd + pos + 2, characters * 2 + 2) {
            Ok(s) => s,
            Err(_) => {
                proof {
                    assert(false);
                }
                return Err(PrefetchError::BadFormat);
            },
        };
        let ghost old_list = list@;
        let ghost old_pos = pos as int;
        pos = pos + 4 + characters * 2;
        list.push(text);
        done = done + 1;
        proof {
            let f = |s: String| s@;
            assert(list@.map_values(f) =~= old_list.map_values(f) + seq![text@]);
            if let Some(rest) = spec_dir_strings(
                file_buffer@,
                dd as int,
                dd_len as int,
                pos as int,
                count - done,
            ) {
                assert(old_list.map_values(f) + (seq![text@] + rest) =~= list@.map_values(f)
                    + rest);
            }
        }
    }
    proof {
        let f = |s: String| s@;
        assert(list@.map_values(f) + Seq::<Seq<char>>::empty() =~= list@.map_values(f));
    }
    Ok(list)
}

/// The bounds that the `i`-th volume record (width `width`, file-reference
/// header length `hdr`) must satisfy for the parse to go through.
pub open spec fn volume_ok(b: Seq<u8>, base: int, vsize: int, width: int, hdr: int, i: int) -> bool {
    let p = base + width * i;
    let vdp_off = le32(b, p) as int;
    let vdp_chars = le32(b, p + 4) as int;
    let fr_off = le32(b, p + 20) as int;
    let fr_size = le32(b, p + 24) as int;
    let ds_off = le32(b, p + 28) as int;
    let ds_count = le32(b, p + 32) as int;
    &&& width * i + 36 <= vsize
    &&& vdp_off + 2 * vdp_chars <= vsize
    &&& fr_off + fr_size <= vsize
    &&& fr_size >= hdr
    &&& hdr + le32(b, base + fr_off + 4) * 8 <= fr_size
    &&& ds_off <= vsize
    &&& vsize - ds_off >= 2
    &&& spec_dir_strings(b, base + ds_off, vsize - ds_off, 0, ds_count) is Some
}

/// What the `i`-th parsed volume holds.
pub open spec fn volume_matches(
    b: Seq<u8>,
    base: int,
    vsize: int,
    width: int,
    hdr: int,
    i: int,
    v: VolumeInformation,
) -> bool {
    let p = base + width * i;
    let vdp_off = le32(b, p) as int;
    let vdp_chars = le32(b, p + 4) as int;
    let fr_off = le32(b, p + 20) as int;
    let ds_off = le32(b, p + 28) as int;
    let ds_count = le32(b, p + 32) as int;
    &&& v.device_path@ == utf16_field(b, base + vdp_off, 2 * vdp_chars)
    &&& v.creation_time == le64(b, p + 8)
    &&& v.serial_number == le32(b, p + 16)
    &&& v.file_references@ == spec_file_refs_upto(
        b,
        base + fr_off + hdr,
        le32(b, base + fr_off + 4) as int,
    )
    &&& Some(v.directory_strings@.map_values(|s: String| s@)) == spec_dir_strings(
        b,
        base + ds_off,
        vsize - ds_off,
        0,
        ds_count,
    )
}

/// Parses the volume-information table with the given record width and
/// file-reference header length. Succeeds exactly when the table and every
/// nested block lie within their enclosing windows.
fn volume_info_with(
    file_buffer: &[u8],
    info: &PrefetchFileInformation,
    width: u64,
    hdr: u64,
) -> (r: Result<Vec<VolumeInformation>, PrefetchError>)
    requires
        36 <= width <= 104,
        hdr == 8 || hdr == 16,
    ensures
        r is Ok <==> info.volume_information_offset + info.volume_information_size
            <= file_buffer@.len() && (forall|i: int|
            0 <= i < info.volume_count ==> volume_ok(
                file_buffer@,
                info.volume_information_offset as int,
                info.volume_information_size as int,
                width as int,
                hdr as int,
                i,
            )),
        r matches Ok(v) ==> v@.len() == info.volume_count && (forall|i: int|
            0 <= i < info.volume_count ==> volume_matches(
                file_buffer@,
                info.volume_information_offset as int,
                info.volume_information_size as int,
                width as int,
                hdr as int,
                i,
                #[trigger] v@[i],
            )),
        r is Err ==> r == Err::<Vec<VolumeInformation>, PrefetchError>(PrefetchError::BadFormat),
{
    let base = info.volume_information_offset as u64;
    let vsize = info.volume_information_size as u64;
    let count = info.volume_count as usize;
    let buf_len = file_buffer.len();
    if base + vsize > buf_len as u64 {
        return Err(PrefetchError::BadFormat);
    }
    let mut volumes: Vec<VolumeInformation> = Vec::new();
    let mut i: usize = 0;
    while i < count
        invariant
            i <= count,
            count == info.volume_count,
            base == info.volume_information_offset,
            vsize == info.volume_information_size,
            36 <= width <= 104,
            hdr == 8 || hdr == 16,
            buf_len == file_buffer@.len(),
            base + vsize <= buf_len,
            volumes@.len() == i,
            forall|j: int|
                0 <= j < i ==> volume_ok(
                    file_buffer@,
                    base as int,
                    vsize as int,
                    width as int,
                    hdr as int,
                    j,
                ),
            forall|j: int|
                0 <= j < i ==> volume_matches(
                    file_buffer@,
                    base as int,
                    vsize as int,
                    width as int,
                    hdr as int,
                    j,
                    #[trigger] volumes@[j],
                ),
        decreases count - i,
    {
        let ghost gi = i as int;
        proof {
            assert(width * (i as u64) <= 104 * 0xFFFF_FFFFu64) by (nonlinear_arith)
                requires
                    i as u64 <= 0xFFFF_FFFFu64,
                    width <= 104,
            ;
        }
        let p_rel = width * i as u64;
        if p_rel > vsize || vsize - p_rel < 36 {
            proof {
                assert(!volume_ok(
                    file_buffer@,
                    base as int,
                    vsize as int,
                    width as int,
                    hdr as int,
                    gi,
                ));
            }
            return Err(PrefetchError::BadFormat);
        }
        let p = (base + p_rel) as usize;
        let vdp_off = u32_at_pos(file_buffer, p);
        let vdp_chars = u32_at_pos(file_buffer, p + 4);
        if vdp_off as u64 + 2 * vdp_chars as u64 > vsize {
            proof {
                assert(!volume_ok(
                    file_buffer@,
                    base as int,
                    vsize as int,
                    width as int,
                    hdr as int,
                    gi,
                ));
            }
            return Err(PrefetchError::BadFormat);
        }
        let device_path = match utf16_at_offset(
            file_buffer,
            (base + vdp_off as u64) as usize,
            2 * vdp_chars as usize,
        ) {
            Ok(s) => s,
            Err(_) => {
                proof {
                    assert(false);
                }
                return Err(PrefetchError::BadFormat);
            },
        };
        let creation_time = u64_at_pos(file_buffer, p + 8);
        let serial_number = u32_at_pos(file_buffer, p + 16);
        let fr_off = u32_at_pos(file_buffer, p + 20);
        let fr_size = u32_at_pos(file_buffer, p + 24);
        if fr_off as u64 + fr_size as u64 > vsize {
            proof {
                assert(!volume_ok(
                    file_buffer@,
                    base as int,
                    vsize as int,
                    width as int,
                    hdr as int,
                    gi,
                ));
            }
            return Err(PrefetchError::BadFormat);
        }
        let refs = if hdr == 8 {
            extract_file_references_17(
                file_buffer,
                (base + fr_off as u64) as usize,
                fr_size as usize,
            )
        } else {
            extract_file_references_23(
                file_buffer,
                (base + fr_off as u64) as usize,
                fr_size as usize,
            )
        };
        let file_references = match refs {
            Ok(v) => v,
            Err(_) => {
                proof {
                    assert(!volume_ok(
                        file_buffer@,
                        base as int,
                        vsize as int,
                        width as int,
                        hdr as int,
                        gi,
                    ));
                }
                return Err(PrefetchError::BadFormat);
            },
        };
        let ds_off = u32_at_pos(file_buffer, p + 28);
        let ds_count = u32_at_pos(file_buffer, p + 32);
        if ds_off as u64 > vsize {
            proof {
                assert(!volume_ok(
                    file_buffer@,
                    base as int,
                    vsize as int,
                    width as int,
                    hdr as int,
                    gi,
                ));
            }
            return Err(PrefetchError::BadFormat);
        }
        let directory_strings = match extract_directory_strings_23(
            file_buffer,
            (base + ds_off as u64) as usize,
            (vsize - ds_off as u64) as usize,
            ds_count as usize,
        ) {
            Ok(v) => v,
            Err(_) => {
                proof {
                    assert(!volume_ok(
                        file_buffer@,
                        base as int,
                        vsize as int,
                        width as int,
                        hdr as int,
                        gi,
                    ));
                }
                return Err(PrefetchError::BadFormat);
            },
        };
        volumes.push(
            VolumeInformation {
                device_path,
                file_references,
                directory_strings,
                creation_time,
                serial_number,
            },
        );
        i = i + 1;
    }
    Ok(volumes)
}

/// Parses the 40-byte volume records of a version 17 file.
pub fn volume_info_17(file_buffer: &[u8], info: &PrefetchFileInformation) -> (r: Result<
    Vec<VolumeInformation>,
    PrefetchError,
>)
    ensures
        r is Ok <==> info.volume_information_offset + info.volume_information_size
            <= file_buffer@.len() && (forall|i: int|
            0 <= i < info.volume_count ==> volume_ok(
                file_buffer@,
                info.volume_information_offset as int,
                info.volume_information_size as int,
                40,
                8,
                i,
            )),
        r matches Ok(v) ==> v@.len() == info.volume_count && (forall|i: int|
            0 <= i < info.volume_count ==> volume_matches(
                file_buffer@,
                info.volume_information_offset as int,
                info.volume_information_size as int,
                40,
                8,
                i,
                #[trigger] v@[i],
            )),
        r is Err ==> r == Err::<Vec<VolumeInformation>, PrefetchError>(PrefetchError::BadFormat),
{
    volume_info_with(file_buffer, info, 40, 8)
}

/// Parses the 104-byte volume records of a version 23 file.
pub fn volume_info_23(file_buffer: &[u8], info: &PrefetchFileInformation) -> (r: Result<
    Vec<VolumeInformation>,
    PrefetchError,
>)
    ensures
        r is Ok <==> info.volume_information_offset + info.volume_information_size
            <= file_buffer@.len() && (forall|i: int|
            0 <= i < info.volume_count ==> volume_ok(
                file_buffer@,
                info.volume_information_offset as int,
                info.volume_information_size as int,
                104,
                16,
                i,
            )),
        r matches Ok(v) ==> v@.len() == info.volume_count && (forall|i: int|
            0 <= i < info.volume_count ==> volume_matches(
                file_buffer@,
                info.volume_information_offset as int,
                info.volume_information_size as int,
                104,
                16,
                i,
                #[trigger] v@[i],
            )),
        r is Err ==> r == Err::<Vec<VolumeInformation>, PrefetchError>(PrefetchError::BadFormat),
{
    volume_info_with(file_buffer, info, 104, 16)
}

/// Parses the volume records of a version 26 file, which uses the version
/// 23 layout.
pub fn volume_info_26(file_buffer: &[u8], info: &PrefetchFileInformation) -> (r: Result<
    Vec<VolumeInformation>,
    PrefetchError,
>)
    ensures
        r is Ok <==> info.volume_information_offset + info.volume_information_size
            <= file_buffer@.len() && (forall|i: int|
            0 <= i < info.volume_count ==> volume_ok(
                file_buffer@,
                info.volume_information_offset as int,
                info.volume_information_size as int,
                104,
                16,
                i,
            )),
        r matches Ok(v) ==> v@.len() == info.volume_count && (forall|i: int|
            0 <= i < info.volume_count ==> volume_matches(
                file_buffer@,
                info.volume_information_offset as int,
                info.volume_information_size as int,
                104,
                16,
                i,
                #[trigger] v@[i],
            )),
        r is Err ==> r == Err::<Vec<VolumeInformation>, PrefetchError>(PrefetchError::BadFormat),
{
    volume_info_23(file_buffer, info)
}

/// Parses the 96-byte volume records of a version 30 file.
pub fn volume_info_30(file_buffer: &[u8], info: &PrefetchFileInformation) -> (r: Result<
    Vec<VolumeInformation>,
    PrefetchError,
>)
    ensures
        r is Ok <==> info.volume_information_offset + info.volume_information_size
            <= file_buffer@.len() && (forall|i: int|
            0 <= i < info.volume_count ==> volume_ok(
                file_buffer@,
                info.volume_information_offset as int,
                info.volume_information_size as int,
                96,
                16,
                i,
            )),
        r matches Ok(v) ==> v@.len() == info.volume_count && (forall|i: int|
            0 <= i < info.volume_count ==> volume_matches(
                file_buffer@,
                info.volume_information_offset as int,
                info.volume_information_size as int,
                96,
                16,
                i,
                #[trigger] v@[i],
            )),
        r is Err ==> r == Err::<Vec<VolumeInformation>, PrefetchError>(PrefetchError::BadFormat),
{
    volume_info_with(file_buffer, info, 96, 16)
}

} // verus!
