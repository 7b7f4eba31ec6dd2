use frnsc_prefetch::common::BlockFlags;
use frnsc_prefetch::common::NotificationKind;
use frnsc_prefetch::common::PrefetchFlag;
use frnsc_prefetch::common::Notification;
use frnsc_prefetch::common::PrefetchError;
use frnsc_prefetch::common::PrefetchFile;
use frnsc_prefetch::common::u16_at_pos;
use frnsc_prefetch::common::u32_at_pos;
use frnsc_prefetch::common::u64_at_pos;
use frnsc_prefetch::common::utf16_at_offset;
use frnsc_prefetch::decompress::CompressionAlgorithm;
use frnsc_prefetch::lz77;
use frnsc_prefetch::metrics::is_resource;
use frnsc_prefetch::prefetch::extract_hash_ands_signature;
use frnsc_prefetch::prefetch::file_is_compressed;
use frnsc_prefetch::prefetch::read_prefetch_file;
use frnsc_prefetch::prefetch::read_prefetch_file_compressed;
use frnsc_prefetch::prefetch::read_prefetch_file_no_compressed;
use frnsc_prefetch::xpress_huff;

// ---- helpers -----------------------------------------------------------

fn put32(b: &mut Vec<u8>, pos: usize, x: u32) {
    b[pos..pos + 4].copy_from_slice(&x.to_le_bytes());
}

fn put64(b: &mut Vec<u8>, pos: usize, x: u64) {
    b[pos..pos + 8].copy_from_slice(&x.to_le_bytes());
}

fn utf16_bytes(s: &str) -> Vec<u8> {
    let mut v = Vec::new();
    for u in s.encode_utf16() {
        v.extend_from_slice(&u.to_le_bytes());
    }
    v
}

fn utf16_bytes_nul(s: &str) -> Vec<u8> {
    let mut v = utf16_bytes(s);
    v.extend_from_slice(&[0, 0]);
    v
}

struct Layout {
    version: u32,
    metric_width: usize,
    trace_width: usize,
    volume_width: usize,
    fr_header: usize,
    metrics_off: usize,
    times_off: usize,
    n_time_slots: usize,
    rc_off: usize,
}

const V17: Layout = Layout {
    version: 17,
    metric_width: 20,
    trace_width: 12,
    volume_width: 40,
    fr_header: 8,
    metrics_off: 160,
    times_off: 120,
    n_time_slots: 1,
    rc_off: 144,
};

const V23: Layout = Layout {
    version: 23,
    metric_width: 32,
    trace_width: 12,
    volume_width: 104,
    fr_header: 16,
    metrics_off: 160,
    times_off: 128,
    n_time_slots: 1,
    rc_off: 152,
};

const V26: Layout = Layout {
    version: 26,
    metric_width: 32,
    trace_width: 12,
    volume_width: 104,
    fr_header: 16,
    metrics_off: 216,
    times_off: 128,
    n_time_slots: 8,
    rc_off: 208,
};

const V30V2: Layout = Layout {
    version: 30,
    metric_width: 32,
    trace_width: 8,
    volume_width: 96,
    fr_header: 16,
    metrics_off: 224,
    times_off: 128,
    n_time_slots: 8,
    rc_off: 200,
};

const V30V1: Layout = Layout {
    version: 30,
    metric_width: 32,
    trace_width: 8,
    volume_width: 96,
    fr_header: 16,
    metrics_off: 304,
    times_off: 128,
    n_time_slots: 8,
    rc_off: 208,
};

const DEP_PATH: &str = "\\VOLUME{0}\\WINDOWS\\SYSTEM32\\CMD.EXE";
const DEV_PATH: &str = "\\DEVICE\\HARDDISKVOLUME2";
const DIR_PATH: &str = "\\C\\USERS\\BOB\\APPDATA\\LOCAL";

/// Builds a plaintext prefetch body with one metric (two traces) and one
/// volume (two file references, one directory string).
fn build_body(
    l: &Layout,
    name: &str,
    hash: u32,
    run_count: u32,
    times: &[u64],
    dep_path: &str,
    metric_flags: u32,
    trace_flags: [u8; 2],
) -> Vec<u8> {
    let mut b = vec![0u8; l.metrics_off];
    put32(&mut b, 0, l.version);
    b[4..8].copy_from_slice(b"SCCA");
    let name_units = utf16_bytes_nul(name);
    b[16..16 + name_units.len()].copy_from_slice(&name_units);
    put32(&mut b, 76, hash);
    for (k, &t) in times.iter().enumerate() {
        assert!(k < l.n_time_slots);
        put64(&mut b, l.times_off + 8 * k, t);
    }
    put32(&mut b, l.rc_off, run_count);
    // one metric record: trace range [0, 2)
    let fs_string = utf16_bytes_nul(dep_path);
    let filename_length = fs_string.len() as u32;
    if l.metric_width == 20 {
        b.extend_from_slice(&0u32.to_le_bytes()); // trace_index
        b.extend_from_slice(&2u32.to_le_bytes()); // trace_size
        b.extend_from_slice(&0u32.to_le_bytes()); // filename_offset
        b.extend_from_slice(&filename_length.to_le_bytes());
        b.extend_from_slice(&metric_flags.to_le_bytes());
    } else {
        b.extend_from_slice(&0u32.to_le_bytes()); // trace_index
        b.extend_from_slice(&2u32.to_le_bytes()); // trace_size
        b.extend_from_slice(&7u32.to_le_bytes()); // blocks_to_prefetch
        b.extend_from_slice(&0u32.to_le_bytes()); // filename_offset
        b.extend_from_slice(&filename_length.to_le_bytes());
        b.extend_from_slice(&metric_flags.to_le_bytes());
        b.extend_from_slice(&[0u8; 8]);
    }
    // two trace records
    let trace_off = b.len();
    for k in 0..2usize {
        if l.trace_width == 12 {
            let mut rec = [0u8; 12];
            rec[4..8].copy_from_slice(&(0x1000u32 + k as u32).to_le_bytes());
            rec[8] = trace_flags[k];
            rec[10] = 0xAA;
            rec[11] = 0x0F;
            b.extend_from_slice(&rec);
        } else {
            let mut rec = [0u8; 8];
            rec[0..4].copy_from_slice(&(0x1000u32 + k as u32).to_le_bytes());
            rec[4] = trace_flags[k];
            rec[6] = 0xAA;
            rec[7] = 0x0F;
            b.extend_from_slice(&rec);
        }
    }
    // filename string table
    let fs_off = b.len();
    b.extend_from_slice(&fs_string);
    // volume window
    let vol_off = b.len();
    let dev = utf16_bytes(DEV_PATH);
    let dev_chars = DEV_PATH.encode_utf16().count() as u32;
    let dev_off_rel = l.volume_width;
    let fr_off_rel = dev_off_rel + dev.len();
    let fr_size = l.fr_header + 2 * 8;
    let ds_off_rel = fr_off_rel + fr_size;
    let dir = utf16_bytes_nul(DIR_PATH);
    let dir_chars = DIR_PATH.encode_utf16().count() as u16;
    let vol_size = ds_off_rel + 2 + dir.len() + 4;
    b.resize(vol_off + l.volume_width, 0);
    put32(&mut b, vol_off, dev_off_rel as u32);
    put32(&mut b, vol_off + 4, dev_chars);
    put64(&mut b, vol_off + 8, 0x01D0_0000_0000_0000);
    put32(&mut b, vol_off + 16, 0xAABB_CCDD);
    put32(&mut b, vol_off + 20, fr_off_rel as u32);
    put32(&mut b, vol_off + 24, fr_size as u32);
    put32(&mut b, vol_off + 28, ds_off_rel as u32);
    put32(&mut b, vol_off + 32, 1);
    b.extend_from_slice(&dev);
    // file references: header with count 2, one real entry, one with MFT 0
    b.extend_from_slice(&[0u8; 4]);
    b.extend_from_slice(&2u32.to_le_bytes());
    b.resize(vol_off + fr_off_rel + l.fr_header, 0);
    b.extend_from_slice(&(((0x2345u64) << 16) | 7u64).to_le_bytes());
    b.extend_from_slice(&0x0000_0000_0000_ABCDu64.to_le_bytes());
    // directory strings
    b.extend_from_slice(&dir_chars.to_le_bytes());
    b.extend_from_slice(&dir);
    b.extend_from_slice(&[0u8; 4]);
    assert_eq!(b.len(), vol_off + vol_size);
    // common file-information fields
    put32(&mut b, 84, l.metrics_off as u32);
    put32(&mut b, 88, 1);
    put32(&mut b, 92, trace_off as u32);
    put32(&mut b, 96, 2);
    put32(&mut b, 100, fs_off as u32);
    put32(&mut b, 104, filename_length);
    put32(&mut b, 108, vol_off as u32);
    put32(&mut b, 112, 1);
    put32(&mut b, 116, vol_size as u32);
    b
}

/// Stores `data` as an LZ77 stream of literals with a clean end-of-stream.
fn lz77_store(data: &[u8]) -> Vec<u8> {
    let mut out = Vec::new();
    let mut i = 0;
    loop {
        let rem = data.len() - i;
        if rem >= 32 {
            out.extend_from_slice(&0u32.to_le_bytes());
            out.extend_from_slice(&data[i..i + 32]);
            i += 32;
        } else {
            // rem literal bits, then one match bit with the input exhausted
            let flags: u32 = 1 << (31 - rem);
            out.extend_from_slice(&flags.to_le_bytes());
            out.extend_from_slice(&data[i..]);
            return out;
        }
    }
}

/// Compresses `data` as one XPRESS-Huffman block whose 512 symbols all
/// have code length 9 (so the code of a symbol is its own index), ending
/// with the end-of-stream sentinel.
fn xh_compress(data: &[u8]) -> Vec<u8> {
    let mut out = vec![0x99u8; 256];
    let mut bits: Vec<bool> = Vec::new();
    for &byte in data {
        for k in (0..9u32).rev() {
            bits.push((byte as u32 >> k) & 1 == 1);
        }
    }
    for k in (0..9u32).rev() {
        bits.push((256u32 >> k) & 1 == 1);
    }
    while bits.len() % 16 != 0 {
        bits.push(false);
    }
    for chunk in bits.chunks(16) {
        let mut w: u16 = 0;
        for (i, &bit) in chunk.iter().enumerate() {
            if bit {
                w |= 1 << (15 - i);
            }
        }
        out.extend_from_slice(&w.to_le_bytes());
    }
    out
}

/// Wraps a compressed payload in a MAM envelope without CRC.
fn mam_wrap(algo: u32, uncompressed_size: u32, payload: &[u8]) -> Vec<u8> {
    let s: u32 = 0x004D_414D | (algo << 24);
    let mut out = Vec::new();
    out.extend_from_slice(&s.to_le_bytes());
    out.extend_from_slice(&uncompressed_size.to_le_bytes());
    out.extend_from_slice(payload);
    out
}

/// Wraps a compressed payload in a MAM envelope with a CRC32.
fn mam_wrap_crc(algo: u32, uncompressed_size: u32, payload: &[u8]) -> Vec<u8> {
    let s: u32 = 0x004D_414D | (algo << 24) | 0x1000_0000;
    let mut header = Vec::new();
    header.extend_from_slice(&s.to_le_bytes());
    header.extend_from_slice(&uncompressed_size.to_le_bytes());
    let mut hashed = header.clone();
    hashed.extend_from_slice(&[0, 0, 0, 0]);
    hashed.extend_from_slice(payload);
    let crc = crc32fast::hash(&hashed);
    let mut out = header;
    out.extend_from_slice(&crc.to_le_bytes());
    out.extend_from_slice(payload);
    out
}

// ---- decompressor tests -------------------------------------------------

#[test]
fn basic_lz77_decompression() {
    let uncompressed = b"abcdefghijklmnopqrstuvwxyz";
    let encoded: [u8; 30] = [
        0x3f, 0x00, 0x00, 0x00, 0x61, 0x62, 0x63, 0x64, 0x65, 0x66, 0x67, 0x68, 0x69, 0x6a, 0x6b,
        0x6c, 0x6d, 0x6e, 0x6f, 0x70, 0x71, 0x72, 0x73, 0x74, 0x75, 0x76, 0x77, 0x78, 0x79, 0x7a,
    ];

    let mut decoded_value = Vec::with_capacity(1024);
    lz77::decompress(&encoded, &mut decoded_value).unwrap();
    assert_eq!(uncompressed, &decoded_value[..]);
}

#[test]
fn basic_lz77_decompression_2() {
    let uncompressed = b"abcabcabcabcabcabcabcabcabcabcabcabcabcabcabcabcabcabcabcabcabcabcabcabcabcabcabcabcabcabcabcabcabcabcabcabcabcabcabcabcabcabcabcabcabcabcabcabcabcabcabcabcabcabcabcabcabcabcabcabcabcabcabcabcabcabcabcabcabcabcabcabcabcabcabcabcabcabcabcabcabcabcabcabcabcabcabcabcabcabcabcabcabcabcabcabcabcabcabcabc";
    let encoded: [u8; 13] = [
        0xff, 0xff, 0xff, 0x1f, 0x61, 0x62, 0x63, 0x17, 0x00, 0x0f, 0xff, 0x26, 0x01,
    ];

    let mut decoded_value = Vec::with_capacity(1024);
    lz77::decompress(&encoded, &mut decoded_value).unwrap();
    assert_eq!(uncompressed, &decoded_value[..]);
}

#[test]
fn lz77_rejects_truncated_input() {
    // an empty stream cannot even load its first flag word
    let mut out = Vec::new();
    assert_eq!(lz77::decompress(&[0x3f, 0x00], &mut out), Err(PrefetchError::BadFormat));
    let mut out2 = Vec::new();
    assert_eq!(lz77::decompress(&[], &mut out2), Err(PrefetchError::BadFormat));
}

#[test]
fn lz77_rejects_invalid_length_escape() {
    // match with the full extension chain 7 -> 15 -> 255 -> 16-bit value 21,
    // which is below the minimal escape value 22
    let encoded: [u8; 13] = [
        0xff, 0xff, 0xff, 0x1f, 0x61, 0x62, 0x63, 0x17, 0x00, 0x0f, 0xff, 0x15, 0x00,
    ];
    let mut out = Vec::new();
    assert_eq!(lz77::decompress(&encoded, &mut out), Err(PrefetchError::BadFormat));
}

#[test]
fn lz77_round_trip_store_mode() {
    let data: Vec<u8> = (0..200u32).map(|x| (x * 7 % 251) as u8).collect();
    let encoded = lz77_store(&data);
    let mut out = Vec::new();
    lz77::decompress(&encoded, &mut out).unwrap();
    assert_eq!(out, data);
}

#[test]
fn xpress_huffman_decodes_flat_table_block() {
    let encoded = xh_compress(b"abc");
    let mut out = Vec::new();
    xpress_huff::decompress(&encoded, &mut out).unwrap();
    assert_eq!(out, b"abc");
}

#[test]
fn xpress_huffman_round_trip_longer_payload() {
    let data: Vec<u8> = (0..1000u32).map(|x| (x % 251) as u8).collect();
    let encoded = xh_compress(&data);
    let mut out = Vec::new();
    xpress_huff::decompress(&encoded, &mut out).unwrap();
    assert_eq!(out, data);
}

#[test]
fn xpress_huffman_rejects_invalid_table() {
    // all code lengths 1: the Kraft sum overflows the code space
    let mut encoded = vec![0x11u8; 256];
    encoded.extend_from_slice(&[0u8; 8]);
    let mut out = Vec::new();
    assert_eq!(
        xpress_huff::decompress(&encoded, &mut out),
        Err(PrefetchError::BadFormat)
    );
}

#[test]
fn xpress_huffman_rejects_short_input() {
    let mut out = Vec::new();
    assert_eq!(
        xpress_huff::decompress(&[0x99u8; 100], &mut out),
        Err(PrefetchError::BadFormat)
    );
}

// ---- byte reader tests ---------------------------------------------------

#[test]
fn little_endian_readers() {
    let b = [0x01u8, 0x02, 0x03, 0x04, 0x05, 0x06, 0x07, 0x08, 0x09];
    assert_eq!(u16_at_pos(&b, 0), 0x0201);
    assert_eq!(u32_at_pos(&b, 1), 0x05040302);
    assert_eq!(u64_at_pos(&b, 1), 0x0908070605040302);
}

#[test]
fn utf16_extraction_cuts_at_nul() {
    let mut b = utf16_bytes("HELLO");
    b.extend_from_slice(&[0, 0]);
    b.extend_from_slice(&utf16_bytes("JUNK"));
    let s = utf16_at_offset(&b, 0, b.len()).unwrap();
    assert_eq!(s, "HELLO");
    assert_eq!(
        utf16_at_offset(&b, 4, b.len()),
        Err(PrefetchError::BadFormat)
    );
}

#[test]
fn artifact_name_hash_is_parsed_as_hex() {
    let (name, hash) = extract_hash_ands_signature("CMD.EXE-087B4001.pf").unwrap();
    assert_eq!(name, "CMD.EXE");
    assert_eq!(hash, 0x087B4001);
    assert_eq!(
        extract_hash_ands_signature("NOHASH.pf"),
        Err(PrefetchError::BadFormat)
    );
    let (_, bad) = extract_hash_ands_signature("A-XYZ.pf").unwrap();
    assert_eq!(bad, 0);
}

#[test]
fn resource_and_compression_sniffers() {
    assert!(is_resource("C:\\W\\ICONS.NLS"));
    assert!(is_resource("X.RES"));
    assert!(!is_resource("X.DLL"));
    assert!(file_is_compressed(b"MAM\x04rest"));
    assert!(!file_is_compressed(b"SCCA"));
    assert!(!file_is_compressed(b"MA"));
}

// ---- version parse tests --------------------------------------------------

#[test]
fn should_parse_prefetch_v17() {
    let body = build_body(
        &V17,
        "CMD.EXE",
        0x087B4001,
        5,
        &[133515874611440142],
        DEP_PATH,
        0x200,
        [0x02, 0x04],
    );
    let mut notes = Vec::new();
    let pf = read_prefetch_file_no_compressed("CMD.EXE-087B4001.pf", &body, &mut notes).unwrap();
    assert_eq!(pf.version, 17);
    assert_eq!(pf.name, "CMD.EXE");
    assert_eq!(pf.run_count, 5);
    assert_eq!(pf.last_run_times, vec![133515874611440142]);
    assert!(pf.last_run_times.len() <= 1);
    assert_eq!(pf.metrics.len(), 1);
    assert_eq!(pf.metrics[0].file, DEP_PATH);
    assert!(pf.metrics[0].flags.is_executable());
    assert!(!pf.metrics[0].flags.is_resource());
    // the 20-byte layout reuses the trace-range size as blocks_to_prefetch
    assert_eq!(pf.metrics[0].blocks_to_prefetch, 2);
    assert_eq!(pf.metrics[0].traces.len(), 2);
    assert_eq!(pf.metrics[0].traces[0].block_offset, 0x1000);
    assert!(pf.metrics[0].traces[0].flags.is_executable());
    assert!(pf.metrics[0].traces[1].flags.is_resource());
    assert_eq!(pf.metrics[0].traces[0].used_bitfield, 0xAA);
    assert_eq!(pf.metrics[0].traces[0].prefetched_bitfield, 0x0F);
    assert_eq!(pf.volume.len(), 1);
    assert_eq!(pf.volume[0].device_path, DEV_PATH);
    assert_eq!(pf.volume[0].serial_number, 0xAABBCCDD);
    assert_eq!(pf.volume[0].creation_time, 0x01D0_0000_0000_0000);
    assert_eq!(pf.volume[0].file_references.len(), 1);
    assert_eq!(pf.volume[0].file_references[0].mft_entry, 0x2345);
    assert_eq!(pf.volume[0].file_references[0].seq_number, 7);
    assert_eq!(pf.volume[0].directory_strings, vec![DIR_PATH.to_string()]);
    assert_eq!(pf.executable_path(), DEP_PATH);
    assert_eq!(pf.user(), Some("BOB"));
    assert!(notes.is_empty());
}

#[test]
fn v17_zero_run_time_is_elided() {
    let body = build_body(&V17, "CMD.EXE", 0x087B4001, 0, &[0], DEP_PATH, 0x200, [0, 0]);
    let mut notes = Vec::new();
    let pf = read_prefetch_file("CMD.EXE-087B4001.pf", &body, &mut notes).unwrap();
    assert_eq!(pf.last_run_times.len(), 0);
}

#[test]
fn should_parse_prefetch_v23() {
    let body = build_body(
        &V23,
        "NOTEPAD.EXE",
        0xD8414F97,
        3,
        &[133515874611440142],
        "\\VOLUME{0}\\WINDOWS\\NOTEPAD.EXE",
        0x002,
        [0x02, 0x01],
    );
    let mut notes = Vec::new();
    let pf =
        read_prefetch_file_no_compressed("NOTEPAD.EXE-D8414F97.pf", &body, &mut notes).unwrap();
    assert_eq!(pf.version, 23);
    assert_eq!(pf.name, "NOTEPAD.EXE");
    assert!(pf.last_run_times.len() <= 1);
    assert_eq!(pf.last_run_times, vec![133515874611440142]);
    assert_eq!(pf.metrics[0].blocks_to_prefetch, 7);
    assert!(pf.metrics[0].flags.is_resource());
    assert!(pf.metrics[0].traces[1].flags.is_not_prefetched());
    // the stored hash matches the artifact name, so no notification
    assert!(notes.is_empty());
}

#[test]
fn should_parse_prefetch_v26() {
    let times = [900u64, 800, 700, 600];
    let body = build_body(&V26, "CMD.EXE", 0x4A81B364, 9, &times, DEP_PATH, 0x200, [2, 2]);
    let mut notes = Vec::new();
    let pf = read_prefetch_file_no_compressed("CMD.EXE-4A81B364.pf", &body, &mut notes).unwrap();
    assert_eq!(pf.version, 26);
    assert_eq!(pf.run_count, 9);
    assert_eq!(pf.last_run_times, vec![900, 800, 700, 600]);
    assert!(notes.is_empty());
}

#[test]
fn should_parse_prefetch_v30_cmd() {
    // v30 second sub-layout, XPRESS-Huffman compressed
    let times = [
        133515874611440142u64,
        133515874591645855,
        133515561632524658,
        133514937170602624,
    ];
    let body = build_body(&V30V2, "CMD.EXE", 0x6D6290C5, 4, &times, DEP_PATH, 0x200, [2, 2]);
    let compressed = mam_wrap(4, body.len() as u32, &xh_compress(&body));
    assert!(file_is_compressed(&compressed));
    let mut notes = Vec::new();
    let pf = read_prefetch_file_compressed("CMD.EXE-6D6290C5.pf", &compressed, &mut notes)
        .unwrap();
    assert_eq!(pf.version, 30);
    assert_eq!(4, pf.run_count);
    assert_eq!(4, pf.last_run_times.len());
    assert_eq!(133515874611440142, pf.last_run_times[0]);
    assert_eq!(133515874591645855, pf.last_run_times[1]);
    assert_eq!(133515561632524658, pf.last_run_times[2]);
    assert_eq!(133514937170602624, pf.last_run_times[3]);
    assert!(notes.is_empty());
}

#[test]
fn should_parse_prefetch_v30_2() {
    // v30 first sub-layout: the metrics offset field reads 304
    let times = [500u64, 400, 0, 0];
    let body = build_body(&V30V1, "RUST_OUT.EXE", 0x5D2C8541, 2, &times,
        "\\VOLUME{0}\\TMP\\RUST_OUT.EXE", 0x200, [2, 2]);
    assert_eq!(u32_at_pos(&body, 84), 304);
    let compressed = mam_wrap(2, body.len() as u32, &lz77_store(&body));
    let mut notes = Vec::new();
    let pf = read_prefetch_file("RUST_OUT.EXE-5D2C8541.pf", &compressed, &mut notes).unwrap();
    assert_eq!(pf.version, 30);
    assert_eq!(pf.run_count, 2);
    assert_eq!(pf.last_run_times, vec![500, 400]);
    assert_eq!(pf.name, "RUST_OUT.EXE");
    assert!(notes.is_empty());
}

#[test]
fn parse_is_idempotent() {
    let body = build_body(
        &V30V2,
        "CMD.EXE",
        0x6D6290C5,
        4,
        &[99, 88, 0, 77],
        DEP_PATH,
        0x200,
        [2, 4],
    );
    let compressed = mam_wrap(4, body.len() as u32, &xh_compress(&body));
    let mut n1 = Vec::new();
    let mut n2 = Vec::new();
    let p1 = read_prefetch_file("CMD.EXE-6D6290C5.pf", &compressed, &mut n1).unwrap();
    let p2 = read_prefetch_file("CMD.EXE-6D6290C5.pf", &compressed, &mut n2).unwrap();
    assert_eq!(p1.version, p2.version);
    assert_eq!(p1.name, p2.name);
    assert_eq!(p1.run_count, p2.run_count);
    assert_eq!(p1.last_run_times, p2.last_run_times);
    assert_eq!(p1.metrics.len(), p2.metrics.len());
    for (m1, m2) in p1.metrics.iter().zip(p2.metrics.iter()) {
        assert_eq!(m1.file, m2.file);
        assert_eq!(m1.flags, m2.flags);
        assert_eq!(m1.blocks_to_prefetch, m2.blocks_to_prefetch);
        assert_eq!(m1.traces.len(), m2.traces.len());
    }
    assert_eq!(p1.volume.len(), p2.volume.len());
    assert_eq!(n1, n2);
}

#[test]
fn run_times_stay_most_recent_first() {
    // non-increasing raw slots with zeros interleaved at the tail
    let times = [1000u64, 1000, 600, 0, 0, 0, 0, 0];
    let body = build_body(&V26, "CMD.EXE", 0x4A81B364, 3, &times, DEP_PATH, 0x200, [2, 2]);
    let mut notes = Vec::new();
    let pf = read_prefetch_file("CMD.EXE-4A81B364.pf", &body, &mut notes).unwrap();
    assert_eq!(pf.last_run_times, vec![1000, 1000, 600]);
    for w in pf.last_run_times.windows(2) {
        assert!(w[0] >= w[1]);
    }
}

// ---- notification tests ----------------------------------------------------

#[test]
fn name_and_hash_mismatch_are_reported() {
    let body = build_body(&V17, "CMD.EXE", 0x087B4001, 1, &[1], DEP_PATH, 0, [0, 0]);
    let mut notes = Vec::new();
    let pf = read_prefetch_file("EVIL.EXE-00000001.pf", &body, &mut notes).unwrap();
    assert_eq!(pf.name, "CMD.EXE");
    assert_eq!(
        notes,
        vec![
            Notification::NameMismatch,
            Notification::HashMismatch { expected: 0x00000001, found: 0x087B4001 },
        ]
    );
    assert_eq!(notes[0].kind(), NotificationKind::AntiForensicsDetected);
}

#[test]
fn resource_with_executable_block_is_reported() {
    let body = build_body(
        &V23,
        "SETUP.EXE",
        0x11111111,
        1,
        &[1],
        "\\VOLUME{0}\\WINDOWS\\FONTS\\ICONS.NLS",
        0x002,
        [0x02, 0x00],  // an executable block on a resource file
    );
    let mut notes = Vec::new();
    read_prefetch_file("SETUP.EXE-11111111.pf", &body, &mut notes).unwrap();
    assert_eq!(notes, vec![Notification::ResourceWithExecutableBlocks]);
    assert_eq!(notes[0].kind(), NotificationKind::SuspiciousArtifact);
}

#[test]
fn unknown_version_is_reported() {
    let mut body = build_body(&V17, "CMD.EXE", 0x087B4001, 1, &[1], DEP_PATH, 0, [0, 0]);
    put32(&mut body, 0, 99);
    let mut notes = Vec::new();
    let r = read_prefetch_file("CMD.EXE-087B4001.pf", &body, &mut notes);
    assert_eq!(r.err(), Some(PrefetchError::UnknownVersion));
    assert_eq!(notes, vec![Notification::UnknownVersionSeen { version: 99 }]);
    assert_eq!(notes[0].kind(), NotificationKind::Informational);
}

#[test]
fn bad_signature_is_rejected() {
    let mut body = build_body(&V17, "CMD.EXE", 0x087B4001, 1, &[1], DEP_PATH, 0, [0, 0]);
    body[4] = b'X';
    let mut notes = Vec::new();
    let r = read_prefetch_file("CMD.EXE-087B4001.pf", &body, &mut notes);
    assert_eq!(r.err(), Some(PrefetchError::BadFormat));
    assert!(notes.is_empty());
}

#[test]
fn truncated_table_is_rejected() {
    let body = build_body(&V17, "CMD.EXE", 0x087B4001, 1, &[1], DEP_PATH, 0, [0, 0]);
    let mut notes = Vec::new();
    let r = read_prefetch_file("CMD.EXE-087B4001.pf", &body[..body.len() - 10], &mut notes);
    assert_eq!(r.err(), Some(PrefetchError::BadFormat));
}

// ---- envelope tests ----------------------------------------------------------

#[test]
fn matching_crc_passes_the_check() {
    let body = build_body(&V17, "CMD.EXE", 0x087B4001, 1, &[1], DEP_PATH, 0, [0, 0]);
    let wrapped = mam_wrap_crc(0, (body.len() + 4) as u32, &body);
    let mut notes = Vec::new();
    let pf = read_prefetch_file("CMD.EXE-087B4001.pf", &wrapped, &mut notes);
    // the CRC check passes, so no notification; the pass-through plaintext
    // starts with the 4 CRC bytes themselves, so the inner parse still fails
    assert!(pf.is_err());
    assert!(notes.is_empty());
}

#[test]
fn tampered_crc_is_detected() {
    let body = build_body(&V17, "CMD.EXE", 0x087B4001, 1, &[1], DEP_PATH, 0, [0, 0]);
    let mut wrapped = mam_wrap_crc(2, body.len() as u32, &lz77_store(&body));
    wrapped[8] ^= 0x01;  // flip one bit of the stored CRC
    let mut notes = Vec::new();
    let r = read_prefetch_file("CMD.EXE-087B4001.pf", &wrapped, &mut notes);
    assert_eq!(r.err(), Some(PrefetchError::BadFormat));
    assert_eq!(notes.len(), 1);
    assert!(matches!(notes[0], Notification::CrcMismatch { .. }));
    assert_eq!(notes[0].kind(), NotificationKind::AntiForensicsDetected);
}

#[test]
fn oversized_file_fails_before_decompression() {
    let mut huge = vec![0u8; 1_000_001];
    huge[0] = b'M';
    huge[1] = b'A';
    huge[2] = b'M';
    let mut notes = Vec::new();
    let r = read_prefetch_file("CMD.EXE-087B4001.pf", &huge, &mut notes);
    assert_eq!(r.err(), Some(PrefetchError::BadFormat));
    assert_eq!(notes, vec![Notification::OversizedFile]);
    assert_eq!(notes[0].kind(), NotificationKind::AntiForensicsDetected);
}

#[test]
fn declared_size_must_match_decompressed_size() {
    let body = build_body(&V17, "CMD.EXE", 0x087B4001, 1, &[1], DEP_PATH, 0, [0, 0]);
    let wrapped = mam_wrap(2, body.len() as u32 + 1, &lz77_store(&body));
    let mut notes = Vec::new();
    let r = read_prefetch_file("CMD.EXE-087B4001.pf", &wrapped, &mut notes);
    assert_eq!(r.err(), Some(PrefetchError::BadFormat));
}

#[test]
fn default_algorithm_is_rejected() {
    let body = build_body(&V17, "CMD.EXE", 0x087B4001, 1, &[1], DEP_PATH, 0, [0, 0]);
    let wrapped = mam_wrap(1, body.len() as u32, &body);
    let mut notes = Vec::new();
    let r = read_prefetch_file("CMD.EXE-087B4001.pf", &wrapped, &mut notes);
    assert_eq!(r.err(), Some(PrefetchError::BadFormat));
}

#[test]
fn compression_algorithm_codes() {
    assert_eq!(CompressionAlgorithm::from(0), CompressionAlgorithm::CompressionFormatNone);
    assert_eq!(CompressionAlgorithm::from(1), CompressionAlgorithm::CompressionFormatDefault);
    assert_eq!(CompressionAlgorithm::from(2), CompressionAlgorithm::CompressionFormatLznt1);
    assert_eq!(CompressionAlgorithm::from(3), CompressionAlgorithm::CompressionFormatXpress);
    assert_eq!(CompressionAlgorithm::from(4), CompressionAlgorithm::CompressionFormatXpressHuff);
    assert_eq!(CompressionAlgorithm::from(9), CompressionAlgorithm::CompressionFormatNone);
}

// ---- record helper tests ------------------------------------------------------

#[test]
fn executable_path_falls_back_to_name() {
    let mut pf = PrefetchFile::new();
    pf.name = "CMD.EXE".to_string();
    assert_eq!(pf.executable_path(), "CMD.EXE");
    assert_eq!(pf.user(), None);
}

#[test]
fn user_requires_the_appdata_shape() {
    let body = build_body(&V17, "CMD.EXE", 0x087B4001, 1, &[1], DEP_PATH, 0, [0, 0]);
    let mut notes = Vec::new();
    let mut pf = read_prefetch_file("CMD.EXE-087B4001.pf", &body, &mut notes).unwrap();
    assert_eq!(pf.user(), Some("BOB"));
    pf.volume[0].directory_strings = vec![
        "NOLEADINGSLASH".to_string(),
        "\\C\\WINDOWS\\SYSTEM32".to_string(),
        "\\C\\USERS\\ALICE".to_string(),
        "\\C\\USERS\\ALICE\\APPDATA".to_string(),
        "\\C\\USERS\\EVE\\APPDATA\\ROAMING".to_string(),
    ];
    assert_eq!(pf.user(), Some("ALICE"));
}

#[test]
fn flag_letters() {
    assert_eq!(PrefetchFlag(0).as_text(), "-");
    assert_eq!(PrefetchFlag(0x200).as_text(), "X");
    assert_eq!(PrefetchFlag(0x202).as_text(), "XR");
    assert_eq!(PrefetchFlag(0x203).as_text(), "XRD");
    assert_eq!(PrefetchFlag::from(0x001).as_text(), "D");
    assert_eq!(BlockFlags(0).as_text(), "-");
    assert_eq!(BlockFlags(0x02).as_text(), "X");
    assert_eq!(BlockFlags(0x0E).as_text(), "XRF");
    assert_eq!(BlockFlags::from(0x0F).as_text(), "XRFD");
    assert!(BlockFlags(0x08).is_force_prefetch());
    assert!(!BlockFlags(0x08).is_not_prefetched());
}

#[test]
fn trace_subrange_outside_table_is_rejected() {
    let mut body = build_body(&V17, "CMD.EXE", 0x087B4001, 1, &[1], DEP_PATH, 0, [0, 0]);
    // the metric claims three trace records while the table holds two
    put32(&mut body, 160 + 4, 3);
    let mut notes = Vec::new();
    let r = read_prefetch_file("CMD.EXE-087B4001.pf", &body, &mut notes);
    assert_eq!(r.err(), Some(PrefetchError::BadFormat));
}

#[test]
fn filename_window_outside_string_table_is_rejected() {
    let mut body = build_body(&V17, "CMD.EXE", 0x087B4001, 1, &[1], DEP_PATH, 0, [0, 0]);
    // the metric's filename window runs past the string table
    put32(&mut body, 160 + 8, 8);
    let mut notes = Vec::new();
    let r = read_prefetch_file("CMD.EXE-087B4001.pf", &body, &mut notes);
    assert_eq!(r.err(), Some(PrefetchError::BadFormat));
}

#[test]
fn lz77_plain_match_copies_back_reference() {
    // four literals, then a match of length 4 at distance 4, then end
    let encoded: [u8; 10] = [0x00, 0x00, 0x00, 0x0C, 0x61, 0x62, 0x63, 0x64, 0x19, 0x00];
    let mut out = Vec::new();
    lz77::decompress(&encoded, &mut out).unwrap();
    assert_eq!(out, b"abcdabcd");
}

#[test]
fn lz77_shared_nibble_survives_between_matches() {
    // two extended matches share one length nibble byte: the first match
    // takes the low nibble (2), the second the high nibble (5)
    let encoded: [u8; 12] = [
        0x00, 0x00, 0x00, 0x1C, 0x61, 0x62, 0x63, 0x17, 0x00, 0x52, 0x17, 0x00,
    ];
    let mut out = Vec::new();
    lz77::decompress(&encoded, &mut out).unwrap();
    // 3 literals + 12 copied + 15 copied, all "abc" repeated
    assert_eq!(out, b"abc".repeat(10));
}

#[test]
fn xpress_huffman_handles_mixed_code_lengths() {
    // 'a' has code length 1 (code 0); 'b' and the end-of-stream sentinel
    // have length 2 (codes 10 and 11): a complete canonical code
    let mut encoded = vec![0u8; 256];
    encoded[48] = 0x10; // symbol 97 'a': high nibble of byte 48
    encoded[49] = 0x02; // symbol 98 'b': low nibble of byte 49
    encoded[128] = 0x02; // symbol 256: low nibble of byte 128
    // bitstream "a a b <end>": 0 0 10 11, zero-padded into two priming words
    let bits: u32 = 0b0010_1100_0000_0000;
    encoded.extend_from_slice(&(bits as u16).to_le_bytes());
    encoded.extend_from_slice(&0u16.to_le_bytes());
    let mut out = Vec::new();
    xpress_huff::decompress(&encoded, &mut out).unwrap();
    assert_eq!(out, b"aab");
}

#[test]
fn executable_path_matches_by_basename() {
    let mut pf = PrefetchFile::new();
    pf.name = "CMD.EXE".to_string();
    let mut m1 = frnsc_prefetch::common::Metric {
        file: "\\X\\YCMD.EXE".to_string(),
        flags: PrefetchFlag(0),
        blocks_to_prefetch: 0,
        traces: Vec::new(),
    };
    // a path that merely ends with the name is not the executable
    pf.metrics.push(m1.clone());
    assert_eq!(pf.executable_path(), "CMD.EXE");
    m1.file = "\\X\\CMD.EXE".to_string();
    pf.metrics.push(m1);
    assert_eq!(pf.executable_path(), "\\X\\CMD.EXE");
}

#[test]
fn empty_tables_parse_to_empty_record() {
    // a minimal v17 body: zero metrics, traces and volumes
    let mut b = vec![0u8; 148];
    put32(&mut b, 0, 17);
    b[4..8].copy_from_slice(b"SCCA");
    let name = utf16_bytes_nul("CMD.EXE");
    b[16..16 + name.len()].copy_from_slice(&name);
    put32(&mut b, 76, 0x087B4001);
    put32(&mut b, 144, 1);
    let mut notes = Vec::new();
    let pf = read_prefetch_file("CMD.EXE-087B4001.pf", &b, &mut notes).unwrap();
    assert_eq!(pf.version, 17);
    assert_eq!(pf.name, "CMD.EXE");
    assert!(pf.metrics.is_empty());
    assert!(pf.volume.is_empty());
    assert!(pf.last_run_times.is_empty());
    assert!(notes.is_empty());
}
