//! Metrics walker: parses the array of dependency load records, resolves
//! each referenced filename from the string table, and links the trace
//! sub-range that the record owns. Records are 20 bytes wide for version 17
//! and 32 bytes for versions 23/26/30.

use vstd::prelude::*;

use crate::common::Metric;
use crate::common::Notification;
use crate::common::PrefetchError;
use crate::common::PrefetchFileInformation;
use crate::common::PrefetchFlag;
use crate::common::le32;
use crate::common::spec_has_executable_block;
use crate::common::str_ends_with;
use crate::common::str_has_suffix;
use crate::common::u32_at_pos;
use crate::common::utf16_at_offset;
use crate::common::utf16_field;
use crate::trace::spec_traces_12;
use crate::trace::spec_traces_8;
use crate::trace::traces_for_dependency_v17;
use crate::trace::traces_for_dependency_v30;

verus! {

/// Whether a dependency path names a resource file (`.NLS` or `.RES`).
pub open spec fn is_resource_name(s: Seq<char>) -> bool {
    str_ends_with(s, ".NLS"@) || str_ends_with(s, ".RES"@)
}

/// Whether the dependency path `file` names a resource file.
pub fn is_resource(file: &str) -> (r: bool)
    ensures
        r == is_resource_name(file@),
{
    if str_has_suffix(file, ".NLS") || str_has_suffix(file, ".RES") {
        return true;
    }
    false
}

/// A resource-classified dependency that nevertheless carries an executable
/// block: the anomaly the walker reports.
pub open spec fn metric_anomalous(m: Metric) -> bool {
    is_resource_name(m.file@) && spec_has_executable_block(m.traces@)
}

/// The advisory notifications produced by the first `k` metrics, in order.
pub open spec fn anomaly_notes_upto(ms: Seq<Metric>, k: int) -> Seq<Notification>
    decreases k,
{
    if k <= 0 {
        Seq::empty()
    } else {
        anomaly_notes_upto(ms, k - 1) + (if metric_anomalous(ms[k - 1]) {
            seq![Notification::ResourceWithExecutableBlocks]
        } else {
            Seq::empty()
        })
    }
}

/// Reports a resource-classified dependency with an executable block.
/// Advisory only: never alters the parse outcome.
pub fn check_anomaly_in_metrics(metric: &Metric, notifications: &mut Vec<Notification>)
    ensures
        final (notifications)@ == old(notifications)@ + (if metric_anomalous(*metric) {
            seq![Notification::ResourceWithExecutableBlocks]
        } else {
            Seq::<Notification>::empty()
        }),
{
    if is_resource(metric.file.as_str()) {
        if metric.has_executable_block() {
            notifications.push(Notification::ResourceWithExecutableBlocks);
            proof {
                assert(notifications@ =~= old(notifications)@ + seq![
                    Notification::ResourceWithExecutableBlocks,
                ]);
            }
            return ;
        }
    }
    proof {
        assert(notifications@ =~= old(notifications)@ + Seq::<Notification>::empty());
    }
}

/// Whether the `i`-th metric record of the raw buffer describes a
/// resource file with an executable block, read directly from the bytes:
/// `mw` is the metric record width (20 or 32) and `tw` the trace record
/// width (12 or 8).
pub open spec fn metric_anomalous_at(
    b: Seq<u8>,
    moff: int,
    fsoff: int,
    toff: int,
    mw: int,
    tw: int,
    i: int,
) -> bool {
    let e = moff + mw * i;
    let fo = if mw == 20 {
        le32(b, e + 8) as int
    } else {
        le32(b, e + 12) as int
    };
    let fl = if mw == 20 {
        le32(b, e + 12) as int
    } else {
        le32(b, e + 16) as int
    };
    let traces = if tw == 12 {
        spec_traces_12(b, toff, le32(b, e) as int, le32(b, e + 4) as int)
    } else {
        spec_traces_8(b, toff, le32(b, e) as int, le32(b, e + 4) as int)
    };
    is_resource_name(utf16_field(b, fsoff + fo, fl)) && spec_has_executable_block(traces)
}

/// The advisory notifications the first `k` metric records of the raw
/// buffer produce, in order.
pub open spec fn anomaly_notes_at(
    b: Seq<u8>,
    moff: int,
    fsoff: int,
    toff: int,
    mw: int,
    tw: int,
    k: int,
) -> Seq<Notification>
    decreases k,
{
    if k <= 0 {
        Seq::empty()
    } else {
        anomaly_notes_at(b, moff, fsoff, toff, mw, tw, k - 1) + (if metric_anomalous_at(
            b,
            moff,
            fsoff,
            toff,
            mw,
            tw,
            k - 1,
        ) {
            seq![Notification::ResourceWithExecutableBlocks]
        } else {
            Seq::empty()
        })
    }
}

/// Parsed metrics report the same anomalies as the raw records they were
/// read from (20-byte layout).
pub proof fn lemma_anomaly_notes_17(
    b: Seq<u8>,
    moff: int,
    fsoff: int,
    toff: int,
    ms: Seq<Metric>,
    k: int,
)
    requires
        0 <= k <= ms.len(),
        forall|i: int| 0 <= i < k ==> metric_matches_17(b, moff, fsoff, toff, i, #[trigger] ms[i]),
    ensures
        anomaly_notes_upto(ms, k) == anomaly_notes_at(b, moff, fsoff, toff, 20, 12, k),
    decreases k,
{
    if k > 0 {
        lemma_anomaly_notes_17(b, moff, fsoff, toff, ms, k - 1);
        assert(metric_matches_17(b, moff, fsoff, toff, k - 1, ms[k - 1]));
    }
}

/// Parsed metrics report the same anomalies as the raw records they were
/// read from (32-byte layout, 12-byte traces).
pub proof fn lemma_anomaly_notes_23(
    b: Seq<u8>,
    moff: int,
    fsoff: int,
    toff: int,
    ms: Seq<Metric>,
    k: int,
)
    requires
        0 <= k <= ms.len(),
        forall|i: int| 0 <= i < k ==> metric_matches_23(b, moff, fsoff, toff, i, #[trigger] ms[i]),
    ensures
        anomaly_notes_upto(ms, k) == anomaly_notes_at(b, moff, fsoff, toff, 32, 12, k),
    decreases k,
{
    if k > 0 {
        lemma_anomaly_notes_23(b, moff, fsoff, toff, ms, k - 1);
        assert(metric_matches_23(b, moff, fsoff, toff, k - 1, ms[k - 1]));
    }
}

/// Parsed metrics report the same anomalies as the raw records they were
/// read from (32-byte layout, 8-byte traces).
pub proof fn lemma_anomaly_notes_30(
    b: Seq<u8>,
    moff: int,
    fsoff: int,
    toff: int,
    ms: Seq<Metric>,
    k: int,
)
    requires
        0 <= k <= ms.len(),
        forall|i: int| 0 <= i < k ==> metric_matches_30(b, moff, fsoff, toff, i, #[trigger] ms[i]),
    ensures
        anomaly_notes_upto(ms, k) == anomaly_notes_at(b, moff, fsoff, toff, 32, 8, k),
    decreases k,
{
    if k > 0 {
        lemma_anomaly_notes_30(b, moff, fsoff, toff, ms, k - 1);
        assert(metric_matches_30(b, moff, fsoff, toff, k - 1, ms[k - 1]));
    }
}

/// The bounds that the `i`-th 32-byte metric record must satisfy for the
/// parse to go through: the record itself, the filename window it points
/// into, and the trace sub-range it owns.
pub open spec fn metric_ok_32(
    b: Seq<u8>,
    moff: int,
    fs_size: int,
    t_off: int,
    t_count: int,
    t_width: int,
    i: int,
) -> bool {
    let e = moff + 32 * i;
    &&& e + 32 <= b.len()
    &&& le32(b, e + 12) + le32(b, e + 16) <= fs_size
    &&& t_off + t_count * t_width <= b.len()
    &&& le32(b, e) + le32(b, e + 4) <= t_count
}

/// What the `i`-th parsed metric holds for the 32-byte layout with 12-byte
/// trace records (versions 23 and 26).
pub open spec fn metric_matches_23(
    b: Seq<u8>,
    moff: int,
    fs_off: int,
    t_off: int,
    i: int,
    m: Metric,
) -> bool {
    let e = moff + 32 * i;
    &&& m.file@ == utf16_field(b, fs_off + le32(b, e + 12), le32(b, e + 16) as int)
    &&& m.flags == PrefetchFlag(le32(b, e + 20))
    &&& m.blocks_to_prefetch == le32(b, e + 8)
    &&& m.traces@ == spec_traces_12(b, t_off, le32(b, e) as int, le32(b, e + 4) as int)
}

/// What the `i`-th parsed metric holds for the 32-byte layout with 8-byte
/// trace records (version 30).
pub open spec fn metric_matches_30(
    b: Seq<u8>,
    moff: int,
    fs_off: int,
    t_off: int,
    i: int,
    m: Metric,
) -> bool {
    let e = moff + 32 * i;
    &&& m.file@ == utf16_field(b, fs_off + le32(b, e + 12), le32(b, e + 16) as int)
    &&& m.flags == PrefetchFlag(le32(b, e + 20))
    &&& m.blocks_to_prefetch == le32(b, e + 8)
    &&& m.traces@ == spec_traces_8(b, t_off, le32(b, e) as int, le32(b, e + 4) as int)
}

/// The bounds that the `i`-th 20-byte metric record must satisfy (version
/// 17). The record array itself is bounds-checked whole, so only the
/// filename window and the trace sub-range are per-record.
pub open spec fn metric_ok_17(b: Seq<u8>, moff: int, fs_size: int, t_off: int, t_count: int, i: int) -> bool {
    let e = moff + 20 * i;
    &&& le32(b, e + 8) + le32(b, e + 12) <= fs_size
    &&& t_off + t_count * 12 <= b.len()
    &&& le32(b, e) + le32(b, e + 4) <= t_count
}

/// What the `i`-th parsed metric holds for the 20-byte layout (version 17):
/// `blocks_to_prefetch` reuses the trace-range size.
pub open spec fn metric_matches_17(
    b: Seq<u8>,
    moff: int,
    fs_off: int,
    t_off: int,
    i: int,
    m: Metric,
) -> bool {
    let e = moff + 20 * i;
    &&& m.file@ == utf16_field(b, fs_off + le32(b, e + 8), le32(b, e + 12) as int)
    &&& m.flags == PrefetchFlag(le32(b, e + 16))
    &&& m.blocks_to_prefetch == le32(b, e + 4)
    &&& m.traces@ == spec_traces_12(b, t_off, le32(b, e) as int, le32(b, e + 4) as int)
}

/// Parses the 32-byte metric records of a version 23/26 file. Succeeds
/// exactly when the string table and every record, filename window and
/// trace sub-range lie within the buffer.
pub fn metrics_array_23(file_buffer: &[u8], info: &PrefetchFileInformation) -> (r: Result<
    Vec<Metric>,
    PrefetchError,
>)
    ensures
        r is Ok <==> info.filename_string_offset + info.filename_string_size
            <= file_buffer@.len() && info.metrics_offsets <= file_buffer@.len() && (forall|i: int|
            0 <= i < info.metrics_count ==> metric_ok_32(
                file_buffer@,
                info.metrics_offsets as int,
                info.filename_string_size as int,
                info.trace_chain_offset as int,
                info.trace_chain_count as int,
                12,
                i,
            )),
        r matches Ok(v) ==> v@.len() == info.metrics_count && (forall|i: int|
            0 <= i < info.metrics_count ==> metric_matches_23(
                file_buffer@,
                info.metrics_offsets as int,
                info.filename_string_offset as int,
                info.trace_chain_offset as int,
                i,
                #[trigger] v@[i],
            )),
        r is Err ==> r == Err::<Vec<Metric>, PrefetchError>(PrefetchError::BadFormat),
{
    let moff = info.metrics_offsets as u64;
    let fs_off = info.filename_string_offset as u64;
    let fs_size = info.filename_string_size as u64;
    let count = info.metrics_count as usize;
    let buf_len = file_buffer.len() as u64;
    if fs_off + fs_size > buf_len || moff > buf_len {
        return Err(PrefetchError::BadFormat);
    }
    let mut metrics: Vec<Metric> = Vec::new();
    let mut i: usize = 0;
    while i < count
        invariant
            i <= count,
            count == info.metrics_count,
            moff == info.metrics_offsets,
            fs_off == info.filename_string_offset,
            fs_size == info.filename_string_size,
            buf_len == file_buffer@.len(),
            file_buffer@.len() <= usize::MAX,
            fs_off + fs_size <= buf_len,
            metrics@.len() == i,
            forall|j: int|
                0 <= j < i ==> metric_ok_32(
                    file_buffer@,
                    moff as int,
                    fs_size as int,
                    info.trace_chain_offset as int,
                    info.trace_chain_count as int,
                    12,
                    j,
                ),
            forall|j: int|
                0 <= j < i ==> metric_matches_23(
                    file_buffer@,
                    moff as int,
                    fs_off as int,
                    info.trace_chain_offset as int,
                    j,
                    #[trigger] metrics@[j],
                ),
        decreases count - i,
    {
        if moff + (i as u64 + 1) * 32 > buf_len {
            proof {
                assert(!metric_ok_32(
                    file_buffer@,
                    moff as int,
                    fs_size as int,
                    info.trace_chain_offset as int,
                    info.trace_chain_count as int,
                    12,
                    i as int,
                ));
            }
            return Err(PrefetchError::BadFormat);
        }
        let e = (moff + i as u64 * 32) as usize;
        let trace_index = u32_at_pos(file_buffer, e);
        let trace_size = u32_at_pos(file_buffer, e + 4);
        let blocks_to_prefetch = u32_at_pos(file_buffer, e + 8);
        let filename_offset = u32_at_pos(file_buffer, e + 12);
        let filename_length = u32_at_pos(file_buffer, e + 16);
        let flags = u32_at_pos(file_buffer, e + 20);
        if filename_offset as u64 + filename_length as u64 > fs_size {
            proof {
                assert(!metric_ok_32(
                    file_buffer@,
                    moff as int,
                    fs_size as int,
                    info.trace_chain_offset as int,
                    info.trace_chain_count as int,
                    12,
                    i as int,
                ));
            }
            return Err(PrefetchError::BadFormat);
        }
        let file = match utf16_at_offset(
            file_buffer,
            (fs_off + filename_offset as u64) as usize,
            filename_length as usize,
        ) {
            Ok(s) => s,
            Err(_) => {
                proof {
                    assert(false);
                }
                return Err(PrefetchError::BadFormat);
            },
        };
        let traces = match traces_for_dependency_v17(
            file_buffer,
            info,
            trace_index as usize,
            trace_size as usize,
        ) {
            Ok(t) => t,
            Err(_) => {
                proof {
                    assert(!metric_ok_32(
                        file_buffer@,
                        moff as int,
                        fs_size as int,
                        info.trace_chain_offset as int,
                        info.trace_chain_count as int,
                        12,
                        i as int,
                    ));
                }
                return Err(PrefetchError::BadFormat);
            },
        };
        let metric = Metric { file, flags: PrefetchFlag(flags), blocks_to_prefetch, traces };
        metrics.push(metric);
        i = i + 1;
    }
    Ok(metrics)
}

/// Parses the 20-byte metric records of a version 17 file. Succeeds exactly
/// when the string table, the whole record array, and every filename window
/// and trace sub-range lie within the buffer.
pub fn metrics_array_17(file_buffer: &[u8], info: &PrefetchFileInformation) -> (r: Result<
    Vec<Metric>,
    PrefetchError,
>)
    ensures
        r is Ok <==> info.filename_string_offset + info.filename_string_size
            <= file_buffer@.len() && info.metrics_offsets + info.metrics_count * 20
            <= file_buffer@.len() && (forall|i: int|
            0 <= i < info.metrics_count ==> metric_ok_17(
                file_buffer@,
                info.metrics_offsets as int,
                info.filename_string_size as int,
                info.trace_chain_offset as int,
                info.trace_chain_count as int,
                i,
            )),
        r matches Ok(v) ==> v@.len() == info.metrics_count && (forall|i: int|
            0 <= i < info.metrics_count ==> metric_matches_17(
                file_buffer@,
                info.metrics_offsets as int,
                info.filename_string_offset as int,
                info.trace_chain_offset as int,
                i,
                #[trigger] v@[i],
            )),
        r is Err ==> r == Err::<Vec<Metric>, PrefetchError>(PrefetchError::BadFormat),
{
    let moff = info.metrics_offsets as u64;
    let fs_off = info.filename_string_offset as u64;
    let fs_size = info.filename_string_size as u64;
    let count = info.metrics_count as usize;
    let buf_len = file_buffer.len() as u64;
    if fs_off + fs_size > buf_len || moff + count as u64 * 20 > buf_len {
        return Err(PrefetchError::BadFormat);
    }
    let mut metrics: Vec<Metric> = Vec::new();
    let mut i: usize = 0;
    while i < count
        invariant
            i <= count,
            count == info.metrics_count,
            moff == info.metrics_offsets,
            fs_off == info.filename_string_offset,
            fs_size == info.filename_string_size,
            buf_len == file_buffer@.len(),
            file_buffer@.len() <= usize::MAX,
            fs_off + fs_size <= buf_len,
            moff + count * 20 <= buf_len,
            metrics@.len() == i,
            forall|j: int|
                0 <= j < i ==> metric_ok_17(
                    file_buffer@,
                    moff as int,
                    fs_size as int,
                    info.trace_chain_offset as int,
                    info.trace_chain_count as int,
                    j,
                ),
            forall|j: int|
                0 <= j < i ==> metric_matches_17(
                    file_buffer@,
                    moff as int,
                    fs_off as int,
                    info.trace_chain_offset as int,
                    j,
                    #[trigger] metrics@[j],
                ),
        decreases count - i,
    {
        let e = (moff + i as u64 * 20) as usize;
        let trace_index = u32_at_pos(file_buffer, e);
        let trace_size = u32_at_pos(file_buffer, e + 4);
        let filename_offset = u32_at_pos(file_buffer, e + 8);
        let filename_length = u32_at_pos(file_buffer, e + 12);
        let flags = u32_at_pos(file_buffer, e + 16);
        if filename_offset as u64 + filename_length as u64 > fs_size {
            proof {
                assert(!metric_ok_17(
                    file_buffer@,
                    moff as int,
                    fs_size as int,
                    info.trace_chain_offset as int,
                    info.trace_chain_count as int,
                    i as int,
                ));
            }
            return Err(PrefetchError::BadFormat);
        }
        let file = match utf16_at_offset(
            file_buffer,
            (fs_off + filename_offset as u64) as usize,
            filename_length as usize,
        ) {
            Ok(s) => s,
            Err(_) => {
                proof {
                    assert(false);
                }
                return Err(PrefetchError::BadFormat);
            },
        };
        let traces = match traces_for_dependency_v17(
            file_buffer,
            info,
            trace_index as usize,
            trace_size as usize,
        ) {
            Ok(t) => t,
            Err(_) => {
                proof {
                    assert(!metric_ok_17(
                        file_buffer@,
                        moff as int,
                        fs_size as int,
                        info.trace_chain_offset as int,
                        info.trace_chain_count as int,
                        i as int,
                    ));
                }
                return Err(PrefetchError::BadFormat);
            },
        };
        let metric = Metric {
            file,
            flags: PrefetchFlag(flags),
            blocks_to_prefetch: trace_size,
            traces,
        };
        metrics.push(metric);
        i = i + 1;
    }
    Ok(metrics)
}

/// Parses the metric records of a version 26 file, which uses the version
/// 23 layout.
pub fn metrics_array_26(buffer: &[u8], info: &PrefetchFileInformation) -> (r: Result<
    Vec<Metric>,
    PrefetchError,
>)
    ensures
        r is Ok <==> info.filename_string_offset + info.filename_string_size <= buffer@.len()
            && info.metrics_offsets <= buffer@.len() && (forall|i: int|
            0 <= i < info.metrics_count ==> metric_ok_32(
                buffer@,
                info.metrics_offsets as int,
                info.filename_string_size as int,
                info.trace_chain_offset as int,
                info.trace_chain_count as int,
                12,
                i,
            )),
        r matches Ok(v) ==> v@.len() == info.metrics_count && (forall|i: int|
            0 <= i < info.metrics_count ==> metric_matches_23(
                buffer@,
                info.metrics_offsets as int,
                info.filename_string_offset as int,
                info.trace_chain_offset as int,
                i,
                #[trigger] v@[i],
            )),
        r is Err ==> r == Err::<Vec<Metric>, PrefetchError>(PrefetchError::BadFormat),
{
    metrics_array_23(buffer, info)
}

/// Parses the 32-byte metric records of a version 30 file, whose trace
/// records are 8 bytes wide.
pub fn metrics_array_30(file_buffer: &[u8], info: &PrefetchFileInformation) -> (r: Result<
    Vec<Metric>,
    PrefetchError,
>)
    ensures
        r is Ok <==> info.filename_string_offset + info.filename_string_size
            <= file_buffer@.len() && info.metrics_offsets <= file_buffer@.len() && (forall|i: int|
            0 <= i < info.metrics_count ==> metric_ok_32(
                file_buffer@,
                info.metrics_offsets as int,
                info.filename_string_size as int,
                info.trace_chain_offset as int,
                info.trace_chain_count as int,
                8,
                i,
            )),
        r matches Ok(v) ==> v@.len() == info.metrics_count && (forall|i: int|
            0 <= i < info.metrics_count ==> metric_matches_30(
                file_buffer@,
                info.metrics_offsets as int,
                info.filename_string_offset as int,
                info.trace_chain_offset as int,
                i,
                #[trigger] v@[i],
            )),
        r is Err ==> r == Err::<Vec<Metric>, PrefetchError>(PrefetchError::BadFormat),
{
    let moff = info.metrics_offsets as u64;
    let fs_off = info.filename_string_offset as u64;
    let fs_size = info.filename_string_size as u64;
    let count = info.metrics_count as usize;
    let buf_len = file_buffer.len() as u64;
    if fs_off + fs_size > buf_len || moff > buf_len {
        return Err(PrefetchError::BadFormat);
    }
    let mut metrics: Vec<Metric> = Vec::new();
    let mut i: usize = 0;
    while i < count
        invariant
            i <= count,
            count == info.metrics_count,
            moff == info.metrics_offsets,
            fs_off == info.filename_string_offset,
            fs_size == info.filename_string_size,
            buf_len == file_buffer@.len(),
            file_buffer@.len() <= usize::MAX,
            fs_off + fs_size <= buf_len,
            metrics@.len() == i,
            forall|j: int|
                0 <= j < i ==> metric_ok_32(
                    file_buffer@,
                    moff as int,
                    fs_size as int,
                    info.trace_chain_offset as int,
                    info.trace_chain_count as int,
                    8,
                    j,
                ),
            forall|j: int|
                0 <= j < i ==> metric_matches_30(
                    file_buffer@,
                    moff as int,
                    fs_off as int,
                    info.trace_chain_offset as int,
                    j,
                    #[trigger] metrics@[j],
                ),
        decreases count - i,
    {
        if moff + (i as u64 + 1) * 32 > buf_len {
            proof {
                assert(!metric_ok_32(
                    file_buffer@,
                    moff as int,
                    fs_size as int,
                    info.trace_chain_offset as int,
                    info.trace_chain_count as int,
                    8,
                    i as int,
                ));
            }
            return Err(PrefetchError::BadFormat);
        }
        let e = (moff + i as u64 * 32) as usize;
        let trace_index = u32_at_pos(file_buffer, e);
        let trace_size = u32_at_pos(file_buffer, e + 4);
        let blocks_to_prefetch = u32_at_pos(file_buffer, e + 8);
        let filename_offset = u32_at_pos(file_buffer, e + 12);
        let filename_length = u32_at_pos(file_buffer, e + 16);
        let flags = u32_at_pos(file_buffer, e + 20);
        if filename_offset as u64 + filename_length as u64 > fs_size {
            proof {
                assert(!metric_ok_32(
                    file_buffer@,
                    moff as int,
                    fs_size as int,
                    info.trace_chain_offset as int,
                    info.trace_chain_count as int,
                    8,
                    i as int,
                ));
            }
            return Err(PrefetchError::BadFormat);
        }
        let file = match utf16_at_offset(
            file_buffer,
            (fs_off + filename_offset as u64) as usize,
            filename_length as usize,
        ) {
            Ok(s) => s,
            Err(_) => {
                proof {
                    assert(false);
                }
                return Err(PrefetchError::BadFormat);
            },
        };
        let traces = match traces_for_dependency_v30(
            file_buffer,
            info,
            trace_index as usize,
            trace_size as usize,
        ) {
            Ok(t) => t,
            Err(_) => {
                proof {
                    assert(!metric_ok_32(
                        file_buffer@,
                        moff as int,
                        fs_size as int,
                        info.trace_chain_offset as int,
                        info.trace_chain_count as int,
                        8,
                        i as int,
                    ));
                }
                return Err(PrefetchError::BadFormat);
            },
        };
        let metric = Metric { file, flags: PrefetchFlag(flags), blocks_to_prefetch, traces };
        metrics.push(metric);
        i = i + 1;
    }
    Ok(metrics)
}

} // verus!
