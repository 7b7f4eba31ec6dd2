//! Shared data model: the parsed prefetch record and its parts, the error
//! and notification types, and bounds-checked little-endian byte readers.

use vstd::prelude::*;
use vstd::string::StrSliceExecFns;

verus! {

/// By default blocks will be loaded into executable memory sections
pub const FLAG_PROGRAM_BLOCK_EXECUTABLE: u32 = 0x0200;

/// By default blocks will be loaded as resources, not executable
pub const FLAG_PROGRAM_BLOCK_RESOURCE: u32 = 0x0002;

/// By default blocks should not be prefetched, should be pulled from disk.
pub const FLAG_PROGRAM_BLOCK_DONT_PREFETCH: u32 = 0x0001;

/// The block is loaded into a executable memory section
pub const FLAG_BLOCK_EXECUTABLE: u8 = 0x02;

/// The block is loaded as resource
pub const FLAG_BLOCK_RESOURCE: u8 = 0x04;

/// The block is forced to be prefetched
pub const FLAG_BLOCK_FORCE_PREFETCH: u8 = 0x08;

/// The block will not be prefetched, should be pulled from disk.
pub const FLAG_BLOCK_DONT_PREFETCH: u8 = 0x01;

/// Why a parse was aborted. An oversized file (above the 1 MB hard limit)
/// is reported as `BadFormat` together with an
/// [`Notification::OversizedFile`] notification; read failures belong to
/// the I/O layer around the library.
#[derive(Debug, Clone, Copy, PartialEq, Eq, Structural)]
pub enum PrefetchError {
    /// Signature mismatch, offset out of bounds, broken length extension,
    /// decompression invariant broken, CRC mismatch, or a file above the
    /// size limit.
    BadFormat,
    /// The version field is not 17, 23, 26 or 30.
    UnknownVersion,
}

/// Broad category of an advisory notification.
#[derive(Debug, Clone, Copy, PartialEq, Eq, Structural)]
pub enum NotificationKind {
    AntiForensicsDetected,
    SuspiciousArtifact,
    Informational,
}

/// An advisory message produced while parsing. Notifications never alter
/// the parse outcome; they surface on-disk state that is inconsistent with
/// normal operating-system behaviour.
#[derive(Debug, Clone, Copy, PartialEq, Eq, Structural)]
pub enum Notification {
    /// The file is larger than the 1 MB hard limit.
    OversizedFile,
    /// The stored CRC32 of a compressed file does not match the computed one.
    CrcMismatch { expected: u32, obtained: u32 },
    /// The executable name in the body differs from the artifact file name.
    NameMismatch,
    /// The hash in the artifact file name differs from the stored hash field.
    HashMismatch { expected: u32, found: u32 },
    /// A resource-classified dependency carries an executable block.
    ResourceWithExecutableBlocks,
    /// The version field holds an unknown value.
    UnknownVersionSeen { version: u32 },
}

impl Notification {
    /// The category this notification belongs to.
    pub fn kind(&self) -> (k: NotificationKind)
        ensures
            k == self.spec_kind(),
    {
        match self {
            Notification::OversizedFile => NotificationKind::AntiForensicsDetected,
            Notification::CrcMismatch { .. } => NotificationKind::AntiForensicsDetected,
            Notification::NameMismatch => NotificationKind::AntiForensicsDetected,
            Notification::HashMismatch { .. } => NotificationKind::AntiForensicsDetected,
            Notification::ResourceWithExecutableBlocks => NotificationKind::SuspiciousArtifact,
            Notification::UnknownVersionSeen { .. } => NotificationKind::Informational,
        }
    }

    /// Specification-level category of a notification.
    pub open spec fn spec_kind(self) -> NotificationKind {
        match self {
            Notification::OversizedFile => NotificationKind::AntiForensicsDetected,
            Notification::CrcMismatch { .. } => NotificationKind::AntiForensicsDetected,
            Notification::NameMismatch => NotificationKind::AntiForensicsDetected,
            Notification::HashMismatch { .. } => NotificationKind::AntiForensicsDetected,
            Notification::ResourceWithExecutableBlocks => NotificationKind::SuspiciousArtifact,
            Notification::UnknownVersionSeen { .. } => NotificationKind::Informational,
        }
    }
}

/// The 16-bit little-endian value stored at `pos` in `b`.
pub open spec fn le16(b: Seq<u8>, pos: int) -> u16 {
    (b[pos] + b[pos + 1] * 0x100) as u16
}

/// The 32-bit little-endian value stored at `pos` in `b`.
pub open spec fn le32(b: Seq<u8>, pos: int) -> u32 {
    (b[pos] + b[pos + 1] * 0x100 + b[pos + 2] * 0x1_0000 + b[pos + 3] * 0x100_0000) as u32
}

/// The 64-bit little-endian value stored at `pos` in `b`.
pub open spec fn le64(b: Seq<u8>, pos: int) -> u64 {
    (b[pos] + b[pos + 1] * 0x100 + b[pos + 2] * 0x1_0000 + b[pos + 3] * 0x100_0000
        + b[pos + 4] * 0x1_0000_0000 + b[pos + 5] * 0x100_0000_0000
        + b[pos + 6] * 0x1_0000_0000_0000 + b[pos + 7] * 0x100_0000_0000_0000) as u64
}

/// The `count` 16-bit little-endian code units stored at `off` in `b`.
pub open spec fn utf16_units(b: Seq<u8>, off: int, count: int) -> Seq<u16> {
    Seq::new(count as nat, |i: int| le16(b, off + 2 * i))
}

/// The index of the first NUL code unit, or the length if there is none.
pub open spec fn nul_index(units: Seq<u16>) -> int
    decreases units.len(),
{
    if units.len() == 0 {
        0
    } else if units[0] == 0 {
        0
    } else {
        1 + nul_index(units.drop_first())
    }
}

/// The code units up to (excluding) the first NUL.
pub open spec fn take_to_nul(units: Seq<u16>) -> Seq<u16> {
    units.take(nul_index(units))
}

proof fn lemma_nul_index(units: Seq<u16>, k: int)
    requires
        0 <= k <= units.len(),
        forall|j: int| 0 <= j < k ==> units[j] != 0,
        k < units.len() ==> units[k] == 0,
    ensures
        nul_index(units) == k,
    decreases units.len(),
{
    if units.len() == 0 {
    } else if units[0] == 0 {
        assert(k == 0);
    } else {
        assert(k >= 1);
        lemma_nul_index(units.drop_first(), k - 1);
    }
}

/// What `String::from_utf16_lossy` returns for the given code units.
pub uninterp spec fn utf16_lossy(units: Seq<u16>) -> Seq<char>;

/// Relies on `String::from_utf16_lossy`: decodes UTF-16 code units into a
/// string, replacing invalid data with the replacement character; the result
/// is a function of the code units alone.
#[verifier::external_body]
pub(crate) fn from_utf16_lossy(units: &[u16]) -> (r: String)
    ensures
        r@ == utf16_lossy(units@),
{
    String::from_utf16_lossy(units)
}

/// The string stored as UTF-16LE bytes at `[off, off + size)` in `b`:
/// the code units up to the first NUL, lossily decoded.
pub open spec fn utf16_field(b: Seq<u8>, off: int, size: int) -> Seq<char> {
    utf16_lossy(take_to_nul(utf16_units(b, off, size / 2)))
}

/// Extracts the NUL-terminated UTF-16LE string in the window
/// `[offset, offset + size)` of `file_buffer`. Fails exactly when the
/// window does not fit in the buffer.
pub fn utf16_at_offset(file_buffer: &[u8], offset: usize, size: usize) -> (r: Result<
    String,
    PrefetchError,
>)
    ensures
        r is Ok <==> offset + size <= file_buffer@.len(),
        r matches Ok(s) ==> s@ == utf16_field(file_buffer@, offset as int, size as int),
        r is Err ==> r == Err::<String, PrefetchError>(PrefetchError::BadFormat),
{
    if size > file_buffer.len() || offset > file_buffer.len() - size {
        return Err(PrefetchError::BadFormat);
    }
    let count = size / 2;
    let mut units: Vec<u16> = Vec::new();
    let mut i: usize = 0;
    while i < count
        invariant
            i <= count,
            count == size / 2,
            offset + size <= file_buffer@.len(),
            file_buffer@.len() <= usize::MAX,
            units@ == utf16_units(file_buffer@, offset as int, count as int).take(i as int),
        decreases count - i,
    {
        proof {
            assert(2 * (size / 2) <= size);
            assert(offset + 2 * i + 2 <= file_buffer@.len());
        }
        let u = u16_at_pos(file_buffer, offset + 2 * i);
        units.push(u);
        proof {
            assert(units@ =~= utf16_units(file_buffer@, offset as int, count as int).take(
                i + 1,
            ));
        }
        i = i + 1;
    }
    proof {
        assert(units@ =~= utf16_units(file_buffer@, offset as int, count as int));
    }
    let mut end: usize = 0;
    while end < units.len() && units[end] != 0
        invariant
            end <= units@.len(),
            forall|j: int| 0 <= j < end ==> units@[j] != 0,
        decreases units@.len() - end,
    {
        end = end + 1;
    }
    proof {
        lemma_nul_index(units@, end as int);
    }
    units.truncate(end);
    let s = from_utf16_lossy(units.as_slice());
    Ok(s)
}

/// Reads the 16-bit little-endian value at `pos`.
pub fn u16_at_pos(buffer: &[u8], pos: usize) -> (r: u16)
    requires
        pos + 2 <= buffer@.len(),
    ensures
        r == le16(buffer@, pos as int),
{
    (buffer[pos] as u16) + (buffer[pos + 1] as u16) * 0x100
}

/// Reads the 32-bit little-endian value at `pos`.
pub fn u32_at_pos(buffer: &[u8], pos: usize) -> (r: u32)
    requires
        pos + 4 <= buffer@.len(),
    ensures
        r == le32(buffer@, pos as int),
{
    (buffer[pos] as u32) + (buffer[pos + 1] as u32) * 0x100 + (buffer[pos + 2] as u32) * 0x1_0000
        + (buffer[pos + 3] as u32) * 0x100_0000
}

/// Reads the 64-bit little-endian value at `pos`.
pub fn u64_at_pos(buffer: &[u8], pos: usize) -> (r: u64)
    requires
        pos + 8 <= buffer@.len(),
    ensures
        r == le64(buffer@, pos as int),
{
    (buffer[pos] as u64) + (buffer[pos + 1] as u64) * 0x100 + (buffer[pos + 2] as u64) * 0x1_0000
        + (buffer[pos + 3] as u64) * 0x100_0000 + (buffer[pos + 4] as u64) * 0x1_0000_0000
        + (buffer[pos + 5] as u64) * 0x100_0000_0000 + (buffer[pos + 6] as u64)
        * 0x1_0000_0000_0000 + (buffer[pos + 7] as u64) * 0x100_0000_0000_0000
}

/// The index of the first occurrence of `ch`, or the length if absent.
pub open spec fn char_index(s: Seq<char>, ch: char) -> int
    decreases s.len(),
{
    if s.len() == 0 {
        0
    } else if s[0] == ch {
        0
    } else {
        1 + char_index(s.drop_first(), ch)
    }
}

/// `char_index` returns exactly the position of the first occurrence.
pub proof fn lemma_char_index(s: Seq<char>, ch: char, k: int)
    requires
        0 <= k <= s.len(),
        forall|j: int| 0 <= j < k ==> s[j] != ch,
        k < s.len() ==> s[k] == ch,
    ensures
        char_index(s, ch) == k,
    decreases s.len(),
{
    if s.len() == 0 {
    } else if s[0] == ch {
        assert(k == 0);
    } else {
        assert(k >= 1);
        lemma_char_index(s.drop_first(), ch, k - 1);
    }
}

/// Whether `suffix` is a suffix of `s`.
pub open spec fn str_ends_with(s: Seq<char>, suffix: Seq<char>) -> bool {
    suffix.len() <= s.len() && s.subrange(s.len() - suffix.len(), s.len() as int) == suffix
}

/// Whether the string `s` ends with `suffix`, compared character by
/// character.
pub fn str_has_suffix(s: &str, suffix: &str) -> (r: bool)
    ensures
        r == str_ends_with(s@, suffix@),
{
    let n = s.unicode_len();
    let m = suffix.unicode_len();
    if m > n {
        return false;
    }
    let mut i: usize = 0;
    while i < m
        invariant
            m <= n,
            n == s@.len(),
            m == suffix@.len(),
            i <= m,
            forall|j: int| 0 <= j < i ==> s@[n - m + j] == suffix@[j],
        decreases m - i,
    {
        let a = s.get_char(n - m + i);
        let b = suffix.get_char(i);
        if a != b {
            proof {
                assert(s@.subrange(n - m, n as int)[i as int] == s@[n - m + i]);
            }
            return false;
        }
        i = i + 1;
    }
    proof {
        assert(s@.subrange(n - m, n as int) =~= suffix@);
    }
    true
}

/// Whether two strings hold the same characters, compared one by one.
pub fn str_eq_chars(a: &str, b: &str) -> (r: bool)
    ensures
        r == (a@ == b@),
{
    let n = a.unicode_len();
    let m = b.unicode_len();
    if n != m {
        proof {
            assert(a@ != b@);
        }
        return false;
    }
    let mut i: usize = 0;
    while i < n
        invariant
            n == a@.len(),
            n == b@.len(),
            i <= n,
            forall|j: int| 0 <= j < i ==> a@[j] == b@[j],
        decreases n - i,
    {
        let x = a.get_char(i);
        let y = b.get_char(i);
        if x != y {
            return false;
        }
        i = i + 1;
    }
    proof {
        assert(a@ =~= b@);
    }
    true
}

/// Default flags of a dependency's blocks, at program-block scope.
#[derive(Debug, Clone, Copy, PartialEq, Eq, Structural)]
pub struct PrefetchFlag(pub u32);

impl PrefetchFlag {
    /// The blocks are loaded into executable memory sections.
    pub fn is_executable(&self) -> (r: bool)
        ensures
            r == (self.0 & FLAG_PROGRAM_BLOCK_EXECUTABLE > 0),
    {
        self.0 & FLAG_PROGRAM_BLOCK_EXECUTABLE > 0
    }

    /// The blocks are loaded as resources, not executable.
    pub fn is_resource(&self) -> (r: bool)
        ensures
            r == (self.0 & FLAG_PROGRAM_BLOCK_RESOURCE > 0),
    {
        self.0 & FLAG_PROGRAM_BLOCK_RESOURCE > 0
    }

    /// The blocks should not be prefetched.
    pub fn is_not_prefetched(&self) -> (r: bool)
        ensures
            r == (self.0 & FLAG_PROGRAM_BLOCK_DONT_PREFETCH > 0),
    {
        self.0 & FLAG_PROGRAM_BLOCK_DONT_PREFETCH > 0
    }
}

/// The compact letters that describe a dependency's default block flags:
/// `X` executable, `R` resource, `D` not prefetched, `-` none.
pub open spec fn spec_prefetch_flag_text(f: PrefetchFlag) -> Seq<char> {
    let x = f.0 & FLAG_PROGRAM_BLOCK_EXECUTABLE > 0;
    let r = f.0 & FLAG_PROGRAM_BLOCK_RESOURCE > 0;
    let d = f.0 & FLAG_PROGRAM_BLOCK_DONT_PREFETCH > 0;
    if !x && !r && !d {
        "-"@
    } else {
        (if x {
            "X"@
        } else {
            Seq::empty()
        }) + (if r {
            "R"@
        } else {
            Seq::empty()
        }) + (if d {
            "D"@
        } else {
            Seq::empty()
        })
    }
}

impl PrefetchFlag {
    /// The compact letters that describe the flags, as the forensic
    /// reports print them.
    pub fn as_text(&self) -> (t: &'static str)
        ensures
            t@ == spec_prefetch_flag_text(*self),
    {
        let x = self.is_executable();
        let r = self.is_resource();
        let d = self.is_not_prefetched();
        let t: &'static str = match (x, r, d) {
            (false, false, false) => "-",
            (true, false, false) => "X",
            (false, true, false) => "R",
            (false, false, true) => "D",
            (true, true, false) => "XR",
            (true, false, true) => "XD",
            (false, true, true) => "RD",
            (true, true, true) => "XRD",
        };
        proof {
            reveal_strlit("-");
            reveal_strlit("X");
            reveal_strlit("R");
            reveal_strlit("D");
            reveal_strlit("XR");
            reveal_strlit("XD");
            reveal_strlit("RD");
            reveal_strlit("XRD");
            assert(t@ =~= spec_prefetch_flag_text(*self));
        }
        t
    }
}

impl From<u32> for PrefetchFlag {
    fn from(value: u32) -> (r: Self) {
        PrefetchFlag(value)
    }
}

impl vstd::std_specs::convert::FromSpecImpl<u32> for PrefetchFlag {
    open spec fn obeys_from_spec() -> bool {
        true
    }

    open spec fn from_spec(v: u32) -> Self {
        PrefetchFlag(v)
    }
}

/// Flags of one memory block, at block scope.
#[derive(Debug, Clone, Copy, PartialEq, Eq, Structural)]
pub struct BlockFlags(pub u8);

impl BlockFlags {
    /// The block is loaded into an executable memory section.
    pub fn is_executable(&self) -> (r: bool)
        ensures
            r == (self.0 & FLAG_BLOCK_EXECUTABLE > 0),
    {
        self.0 & FLAG_BLOCK_EXECUTABLE > 0
    }

    /// The block is loaded as a resource.
    pub fn is_resource(&self) -> (r: bool)
        ensures
            r == (self.0 & FLAG_BLOCK_RESOURCE > 0),
    {
        self.0 & FLAG_BLOCK_RESOURCE > 0
    }

    /// The block will not be prefetched.
    pub fn is_not_prefetched(&self) -> (r: bool)
        ensures
            r == (self.0 & FLAG_BLOCK_DONT_PREFETCH > 0),
    {
        self.0 & FLAG_BLOCK_DONT_PREFETCH > 0
    }

    /// The block is forced to be prefetched.
    pub fn is_force_prefetch(&self) -> (r: bool)
        ensures
            r == (self.0 & FLAG_BLOCK_FORCE_PREFETCH > 0),
    {
        self.0 & FLAG_BLOCK_FORCE_PREFETCH > 0
    }
}

/// The compact letters that describe one block's flags: `X` executable,
/// `R` resource, `F` force prefetch, `D` not prefetched, `-` none.
pub open spec fn spec_block_flags_text(f: BlockFlags) -> Seq<char> {
    let x = f.0 & FLAG_BLOCK_EXECUTABLE > 0;
    let r = f.0 & FLAG_BLOCK_RESOURCE > 0;
    let fp = f.0 & FLAG_BLOCK_FORCE_PREFETCH > 0;
    let d = f.0 & FLAG_BLOCK_DONT_PREFETCH > 0;
    if !x && !r && !fp && !d {
        "-"@
    } else {
        (if x {
            "X"@
        } else {
            Seq::empty()
        }) + (if r {
            "R"@
        } else {
            Seq::empty()
        }) + (if fp {
            "F"@
        } else {
            Seq::empty()
        }) + (if d {
            "D"@
        } else {
            Seq::empty()
        })
    }
}

impl BlockFlags {
    /// The compact letters that describe the flags, as the forensic
    /// reports print them.
    pub fn as_text(&self) -> (t: &'static str)
        ensures
            t@ == spec_block_flags_text(*self),
    {
        let x = self.is_executable();
        let r = self.is_resource();
        let fp = self.is_force_prefetch();
        let d = self.is_not_prefetched();
        let t: &'static str = match (x, r, fp, d) {
            (false, false, false, false) => "-",
            (true, false, false, false) => "X",
            (false, true, false, false) => "R",
            (false, false, true, false) => "F",
            (false, false, false, true) => "D",
            (true, true, false, false) => "XR",
            (true, false, true, false) => "XF",
            (true, false, false, true) => "XD",
            (false, true, true, false) => "RF",
            (false, true, false, true) => "RD",
            (false, false, true, true) => "FD",
            (true, true, true, false) => "XRF",
            (true, true, false, true) => "XRD",
            (true, false, true, true) => "XFD",
            (false, true, true, true) => "RFD",
            (true, true, true, true) => "XRFD",
        };
        proof {
            reveal_strlit("-");
            reveal_strlit("X");
            reveal_strlit("R");
            reveal_strlit("F");
            reveal_strlit("D");
            reveal_strlit("XR");
            reveal_strlit("XF");
            reveal_strlit("XD");
            reveal_strlit("RF");
            reveal_strlit("RD");
            reveal_strlit("FD");
            reveal_strlit("XRF");
            reveal_strlit("XRD");
            reveal_strlit("XFD");
            reveal_strlit("RFD");
            reveal_strlit("XRFD");
            assert(t@ =~= spec_block_flags_text(*self));
        }
        t
    }
}

impl From<u8> for BlockFlags {
    fn from(value: u8) -> (r: Self) {
        BlockFlags(value)
    }
}

impl vstd::std_specs::convert::FromSpecImpl<u8> for BlockFlags {
    open spec fn obeys_from_spec() -> bool {
        true
    }

    open spec fn from_spec(v: u8) -> Self {
        BlockFlags(v)
    }
}

/// One memory-block descriptor of a trace chain.
#[derive(Debug, Clone)]
pub struct Trace {
    /// Flags for loading the block: executable, resource, non-prefetchable or
    /// force prefetch.
    pub flags: BlockFlags,
    /// Memory block offset
    pub block_offset: u32,
    /// Whether the block was used in each of the last eight runs (1 bit each)
    pub used_bitfield: u8,
    /// Whether the block was prefetched in each of the last eight runs
    pub prefetched_bitfield: u8,
}

/// One dependency (DLL/EXE) loaded by the executable.
#[derive(Debug, Clone)]
pub struct Metric {
    /// Full path to the dependency, NT style.
    pub file: String,
    /// Default flags for loading blocks.
    pub flags: PrefetchFlag,
    /// Number of blocks to be prefetched
    pub blocks_to_prefetch: u32,
    /// Traces for this dependency
    pub traces: Vec<Trace>,
}

/// Whether any trace of the sequence carries the executable block flag.
pub open spec fn spec_has_executable_block(traces: Seq<Trace>) -> bool {
    exists|i: int|
        0 <= i < traces.len() && (#[trigger] traces[i].flags.0) & FLAG_BLOCK_EXECUTABLE > 0
}

impl Metric {
    /// Whether any of the dependency's traces carries the executable block
    /// flag.
    pub fn has_executable_block(&self) -> (r: bool)
        ensures
            r == spec_has_executable_block(self.traces@),
    {
        let mut idx: usize = 0;
        while idx < self.traces.len()
            invariant
                idx <= self.traces@.len(),
                forall|i: int|
                    0 <= i < idx ==> !((#[trigger] self.traces@[i].flags.0) & FLAG_BLOCK_EXECUTABLE
                        > 0),
            decreases self.traces@.len() - idx,
        {
            if self.traces[idx].flags.is_executable() {
                return true;
            }
            idx = idx + 1;
        }
        false
    }
}

/// One NTFS file reference of a volume.
#[derive(Debug, Clone)]
pub struct NtfsFile {
    /// The MFT entry (the high 48 bits of the on-disk reference).
    pub mft_entry: u64,
    /// The sequence number (the low 16 bits).
    pub seq_number: u16,
}

/// Information about one volume referenced by the prefetch.
#[derive(Debug, Clone)]
pub struct VolumeInformation {
    /// NT device path of the volume.
    pub device_path: String,
    /// NTFS file references, entries with MFT entry 0 dropped.
    pub file_references: Vec<NtfsFile>,
    /// NT-style directory paths touched on the volume.
    pub directory_strings: Vec<String>,
    /// Volume creation time as a FILETIME value.
    pub creation_time: u64,
    /// Volume serial number.
    pub serial_number: u32,
}

/// The nine common offsets and counts of the file-information struct, with
/// the version-specific run times and run count.
#[derive(Debug, Clone)]
pub struct PrefetchFileInformation {
    pub metrics_offsets: u32,
    pub metrics_count: u32,
    pub trace_chain_offset: u32,
    pub trace_chain_count: u32,
    pub filename_string_offset: u32,
    pub filename_string_size: u32,
    pub volume_information_offset: u32,
    pub volume_count: u32,
    pub volume_information_size: u32,
    pub last_run_times: Vec<u64>,
    pub run_count: u32,
}

/// One parsed prefetch file.
#[derive(Debug, Clone)]
pub struct PrefetchFile {
    /// Prefetch file version
    pub version: u32,
    /// Executable name
    pub name: String,
    /// List of DLLs/EXEs loaded by the executable
    pub metrics: Vec<Metric>,
    /// Last execution times as FILETIME values (max 8), zero entries dropped
    pub last_run_times: Vec<u64>,
    /// Number of times executed
    pub run_count: u32,
    /// Information about the disks and other volumes
    pub volume: Vec<VolumeInformation>,
}

/// The index of the last backslash of `s`, or -1 if there is none.
pub open spec fn last_sep(s: Seq<char>) -> int
    decreases s.len(),
{
    if s.len() == 0 {
        -1
    } else if s.last() == '\\' {
        s.len() - 1
    } else {
        last_sep(s.drop_last())
    }
}

/// The basename of an NT-style path: everything after the last backslash.
pub open spec fn basename_of(s: Seq<char>) -> Seq<char> {
    s.skip(last_sep(s) + 1)
}

/// Finds where the basename of `s` starts: just after the last backslash,
/// or 0 if there is none.
fn basename_start(s: &str) -> (k: usize)
    ensures
        k == last_sep(s@) + 1,
        k <= s@.len(),
{
    proof {
        reveal_strlit("\\");
    }
    let n = s.unicode_len();
    let mut i: usize = 0;
    let mut k: usize = 0;
    while i < n
        invariant
            i <= n,
            n == s@.len(),
            k == last_sep(s@.take(i as int)) + 1,
            k <= i,
        decreases n - i,
    {
        let c = s.get_char(i);
        proof {
            assert(s@.take(i + 1).drop_last() =~= s@.take(i as int));
            assert(s@.take(i + 1).last() == s@[i as int]);
        }
        if c == '\\' {
            k = i + 1;
        }
        i = i + 1;
    }
    proof {
        assert(s@.take(n as int) =~= s@);
    }
    k
}

/// The canonical path of the executable: the file of the first metric
/// whose basename equals `name`, or `name` itself when none matches,
/// scanning from index `i`.
pub open spec fn spec_executable_path(metrics: Seq<Metric>, name: Seq<char>, i: int) -> Seq<char>
    decreases metrics.len() - i,
{
    if i < 0 || i >= metrics.len() {
        name
    } else if basename_of(metrics[i].file@) == name {
        metrics[i].file@
    } else {
        spec_executable_path(metrics, name, i + 1)
    }
}

/// The user a path of the form `\<drive>\USERS\<user>\APPDATA\…` names,
/// matched case-sensitively.
pub open spec fn spec_user_of_path(path: Seq<char>) -> Option<Seq<char>> {
    if path.len() == 0 || path[0] != '\\' {
        None
    } else {
        let rest = path.skip(1);
        let e0 = char_index(rest, '\\');
        if e0 >= rest.len() {
            None
        } else {
            let r1 = rest.skip(e0 + 1);
            let e1 = char_index(r1, '\\');
            if r1.take(e1) != "USERS"@ {
                None
            } else if e1 >= r1.len() {
                None
            } else {
                let r2 = r1.skip(e1 + 1);
                let e2 = char_index(r2, '\\');
                if e2 >= r2.len() {
                    None
                } else {
                    let r3 = r2.skip(e2 + 1);
                    let e3 = char_index(r3, '\\');
                    if r3.take(e3) == "APPDATA"@ {
                        Some(r2.take(e2))
                    } else {
                        None
                    }
                }
            }
        }
    }
}

/// The first user any directory string of `dirs` names, scanning from
/// index `i`.
pub open spec fn spec_user_in_dirs(dirs: Seq<String>, i: int) -> Option<Seq<char>>
    decreases dirs.len() - i,
{
    if i < 0 || i >= dirs.len() {
        None
    } else {
        match spec_user_of_path(dirs[i]@) {
            Some(u) => Some(u),
            None => spec_user_in_dirs(dirs, i + 1),
        }
    }
}

/// The first user any volume's directory strings name, scanning from
/// index `i`.
pub open spec fn spec_user_in_volumes(vols: Seq<VolumeInformation>, i: int) -> Option<Seq<char>>
    decreases vols.len() - i,
{
    if i < 0 || i >= vols.len() {
        None
    } else {
        match spec_user_in_dirs(vols[i].directory_strings@, 0) {
            Some(u) => Some(u),
            None => spec_user_in_volumes(vols, i + 1),
        }
    }
}

/// Finds the end of the path segment that starts at `from`: the index of
/// the next backslash, or the length if there is none.
fn find_backslash_from(s: &str, from: usize) -> (e: usize)
    requires
        from <= s@.len(),
    ensures
        from <= e <= s@.len(),
        e - from == char_index(s@.skip(from as int), '\\'),
{
    let n = s.unicode_len();
    let mut e: usize = from;
    while e < n && s.get_char(e) != '\\'
        invariant
            from <= e <= n,
            n == s@.len(),
            forall|j: int| from <= j < e ==> s@[j] != '\\',
        decreases n - e,
    {
        e = e + 1;
    }
    proof {
        let rest = s@.skip(from as int);
        assert(forall|j: int| 0 <= j < e - from ==> rest[j] == s@[from + j]);
        assert(e - from < rest.len() ==> rest[e - from] == s@[e as int]);
        lemma_char_index(rest, '\\', e - from);
    }
    e
}

/// The user segment of a path of the form `\<drive>\USERS\<user>\APPDATA\…`,
/// or `None` when the path has another shape.
fn user_of_path<'a>(path: &'a str) -> (r: Option<&'a str>)
    ensures
        r matches Some(u) ==> spec_user_of_path(path@) == Some(u@),
        r is None ==> spec_user_of_path(path@) is None,
{
    proof {
        reveal_strlit("\\");
        reveal_strlit("USERS");
        reveal_strlit("APPDATA");
    }
    let n = path.unicode_len();
    if n == 0 || path.get_char(0) != '\\' {
        return None;
    }
    let ghost rest = path@.skip(1);
    let e0 = find_backslash_from(path, 1);
    proof {
        assert(rest =~= path@.skip(1));
    }
    if e0 == n {
        proof {
            assert(e0 - 1 >= rest.len());
        }
        return None;
    }
    let ghost r1 = rest.skip(e0 - 1 + 1);
    let e1 = find_backslash_from(path, e0 + 1);
    proof {
        assert(r1 =~= path@.skip(e0 + 1));
        assert(path@.skip(e0 + 1) =~= path@.skip(1).skip(e0 - 1 + 1));
    }
    let seg1 = path.substring_char(e0 + 1, e1);
    proof {
        assert(seg1@ =~= r1.take(e1 - (e0 + 1)));
    }
    if !str_eq_chars(seg1, "USERS") {
        return None;
    }
    if e1 == n {
        return None;
    }
    let ghost r2 = r1.skip(e1 - (e0 + 1) + 1);
    let e2 = find_backslash_from(path, e1 + 1);
    proof {
        assert(r2 =~= path@.skip(e1 + 1));
    }
    let user = path.substring_char(e1 + 1, e2);
    proof {
        assert(user@ =~= r2.take(e2 - (e1 + 1)));
    }
    if e2 == n {
        return None;
    }
    let ghost r3 = r2.skip(e2 - (e1 + 1) + 1);
    let e3 = find_backslash_from(path, e2 + 1);
    proof {
        assert(r3 =~= path@.skip(e2 + 1));
    }
    let seg3 = path.substring_char(e2 + 1, e3);
    proof {
        assert(seg3@ =~= r3.take(e3 - (e2 + 1)));
    }
    if str_eq_chars(seg3, "APPDATA") {
        Some(user)
    } else {
        None
    }
}

impl PrefetchFile {
    /// An empty record.
    pub fn new() -> (r: Self)
        ensures
            r.version == 0,
            r.name@ == Seq::<char>::empty(),
            r.metrics@ == Seq::<Metric>::empty(),
            r.last_run_times@ == Seq::<u64>::empty(),
            r.run_count == 0,
            r.volume@ == Seq::<VolumeInformation>::empty(),
    {
        PrefetchFile {
            version: 0,
            name: String::new(),
            metrics: Vec::new(),
            last_run_times: Vec::new(),
            run_count: 0,
            volume: Vec::new(),
        }
    }

    /// The canonical path of the executable: the first dependency whose
    /// path ends with the executable name, or the bare name when none
    /// matches.
    pub fn executable_path(&self) -> (r: &str)
        ensures
            r@ == spec_executable_path(self.metrics@, self.name@, 0),
    {
        let mut i: usize = 0;
        while i < self.metrics.len()
            invariant
                i <= self.metrics@.len(),
                spec_executable_path(self.metrics@, self.name@, 0) == spec_executable_path(
                    self.metrics@,
                    self.name@,
                    i as int,
                ),
            decreases self.metrics@.len() - i,
        {
            let file = self.metrics[i].file.as_str();
            let k = basename_start(file);
            let base = file.substring_char(k, file.unicode_len());
            proof {
                assert(base@ =~= basename_of(self.metrics@[i as int].file@));
            }
            if str_eq_chars(base, self.name.as_str()) {
                return self.metrics[i].file.as_str();
            }
            i = i + 1;
        }
        self.name.as_str()
    }

    /// Gets for which user the program was executed, inferred from the
    /// volume directory strings. It is not precise.
    pub fn user(&self) -> (r: Option<&str>)
        ensures
            r matches Some(u) ==> spec_user_in_volumes(self.volume@, 0) == Some(u@),
            r is None ==> spec_user_in_volumes(self.volume@, 0) is None,
    {
        let mut i: usize = 0;
        while i < self.volume.len()
            invariant
                i <= self.volume@.len(),
                spec_user_in_volumes(self.volume@, 0) == spec_user_in_volumes(
                    self.volume@,
                    i as int,
                ),
            decreases self.volume@.len() - i,
        {
            let dirs = &self.volume[i].directory_strings;
            let mut j: usize = 0;
            while j < dirs.len()
                invariant
                    i < self.volume@.len(),
                    j <= dirs@.len(),
                    dirs@ == self.volume@[i as int].directory_strings@,
                    spec_user_in_volumes(self.volume@, 0) == (match spec_user_in_dirs(
                        dirs@,
                        j as int,
                    ) {
                        Some(u) => Some(u),
                        None => spec_user_in_volumes(self.volume@, i + 1),
                    }),
                decreases dirs@.len() - j,
            {
                match user_of_path(dirs[j].as_str()) {
                    Some(u) => {
                        return Some(u);
                    },
                    None => {},
                }
                j = j + 1;
            }
            i = i + 1;
        }
        None
    }
}

} // verus!
