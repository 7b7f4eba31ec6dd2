//! Trace-chain walker: parses the table of memory-block descriptors, either
//! whole or as the sub-range `[index, index + size)` that one metric owns.
//! Records are 12 bytes wide for versions 17/23/26 and 8 bytes for
//! version 30.

use vstd::prelude::*;

use crate::common::BlockFlags;
use crate::common::PrefetchError;
use crate::common::PrefetchFileInformation;
use crate::common::Trace;
use crate::common::le32;
use crate::common::u32_at_pos;

verus! {

/// The 12-byte trace record stored at `pos` in `b`.
pub open spec fn spec_trace_12(b: Seq<u8>, pos: int) -> Trace {
    Trace {
        flags: BlockFlags(b[pos + 8]),
        block_offset: le32(b, pos + 4),
        used_bitfield: b[pos + 10],
        prefetched_bitfield: b[pos + 11],
    }
}

/// The 8-byte trace record stored at `pos` in `b`.
pub open spec fn spec_trace_8(b: Seq<u8>, pos: int) -> Trace {
    Trace {
        flags: BlockFlags(b[pos + 4]),
        block_offset: le32(b, pos),
        used_bitfield: b[pos + 6],
        prefetched_bitfield: b[pos + 7],
    }
}

/// The `size` 12-byte trace records starting `index` records into the table
/// at `table_off`.
pub open spec fn spec_traces_12(b: Seq<u8>, table_off: int, index: int, size: int) -> Seq<
    Trace,
> {
    Seq::new(size as nat, |k: int| spec_trace_12(b, table_off + (index + k) * 12))
}

/// The `size` 8-byte trace records starting `index` records into the table
/// at `table_off`.
pub open spec fn spec_traces_8(b: Seq<u8>, table_off: int, index: int, size: int) -> Seq<Trace> {
    Seq::new(size as nat, |k: int| spec_trace_8(b, table_off + (index + k) * 8))
}

/// Parses the 12-byte-record trace sub-range `[index, index + size)` of one
/// metric (versions 17/23/26). Succeeds exactly when the whole table fits in
/// the buffer and the sub-range fits in the table.
pub fn traces_for_dependency_v17(
    file_buffer: &[u8],
    info: &PrefetchFileInformation,
    index: usize,
    size: usize,
) -> (r: Result<Vec<Trace>, PrefetchError>)
    ensures
        r is Ok <==> info.trace_chain_offset + info.trace_chain_count * 12 <= file_buffer@.len()
            && index + size <= info.trace_chain_count,
        r matches Ok(v) ==> v@ == spec_traces_12(
            file_buffer@,
            info.trace_chain_offset as int,
            index as int,
            size as int,
        ),
        r is Err ==> r == Err::<Vec<Trace>, PrefetchError>(PrefetchError::BadFormat),
{
    let off = info.trace_chain_offset as u64;
    let count = info.trace_chain_count as u64;
    if off + count * 12 > file_buffer.len() as u64 {
        return Err(PrefetchError::BadFormat);
    }
    if index as u64 > count || size as u64 > count - index as u64 {
        return Err(PrefetchError::BadFormat);
    }
    let mut traces: Vec<Trace> = Vec::new();
    let mut i: usize = 0;
    while i < size
        invariant
            i <= size,
            off == info.trace_chain_offset,
            count == info.trace_chain_count,
            off + count * 12 <= file_buffer@.len(),
            file_buffer@.len() <= usize::MAX,
            index + size <= count,
            traces@ == spec_traces_12(file_buffer@, off as int, index as int, i as int),
        decreases size - i,
    {
        let pos = (off + (index as u64 + i as u64) * 12) as usize;
        let block_offset = u32_at_pos(file_buffer, pos + 4);
        traces.push(
            Trace {
                flags: BlockFlags(file_buffer[pos + 8]),
                block_offset,
                used_bitfield: file_buffer[pos + 10],
                prefetched_bitfield: file_buffer[pos + 11],
            },
        );
        proof {
            assert(traces@ =~= spec_traces_12(
                file_buffer@,
                off as int,
                index as int,
                i + 1,
            ));
        }
        i = i + 1;
    }
    Ok(traces)
}

/// Parses the whole 12-byte-record trace table (versions 17/23/26).
pub fn process_trace_chain_v17(file_buffer: &[u8], info: &PrefetchFileInformation) -> (r: Result<
    Vec<Trace>,
    PrefetchError,
>)
    ensures
        r is Ok <==> info.trace_chain_offset + info.trace_chain_count * 12 <= file_buffer@.len(),
        r matches Ok(v) ==> v@ == spec_traces_12(
            file_buffer@,
            info.trace_chain_offset as int,
            0,
            info.trace_chain_count as int,
        ),
        r is Err ==> r == Err::<Vec<Trace>, PrefetchError>(PrefetchError::BadFormat),
{
    traces_for_dependency_v17(file_buffer, info, 0, info.trace_chain_count as usize)
}

/// Parses the 8-byte-record trace sub-range `[index, index + size)` of one
/// metric (version 30). Succeeds exactly when the whole table fits in the
/// buffer and the sub-range fits in the table.
pub fn traces_for_dependency_v30(
    file_buffer: &[u8],
    info: &PrefetchFileInformation,
    index: usize,
    size: usize,
) -> (r: Result<Vec<Trace>, PrefetchError>)
    ensures
        r is Ok <==> info.trace_chain_offset + info.trace_chain_count * 8 <= file_buffer@.len()
            && index + size <= info.trace_chain_count,
        r matches Ok(v) ==> v@ == spec_traces_8(
            file_buffer@,
            info.trace_chain_offset as int,
            index as int,
            size as int,
        ),
        r is Err ==> r == Err::<Vec<Trace>, PrefetchError>(PrefetchError::BadFormat),
{
    let off = info.trace_chain_offset as u64;
    let count = info.trace_chain_count as u64;
    if off + count * 8 > file_buffer.len() as u64 {
        return Err(PrefetchError::BadFormat);
    }
    if index as u64 > count || size as u64 > count - index as u64 {
        return Err(PrefetchError::BadFormat);
    }
    let mut traces: Vec<Trace> = Vec::new();
    let mut i: usize = 0;
    while i < size
        invariant
            i <= size,
            off == info.trace_chain_offset,
            count == info.trace_chain_count,
            off + count * 8 <= file_buffer@.len(),
            file_buffer@.len() <= usize::MAX,
            index + size <= count,
            traces@ == spec_traces_8(file_buffer@, off as int, index as int, i as int),
        decreases size - i,
    {
        let pos = (off + (index as u64 + i as u64) * 8) as usize;
        let block_offset = u32_at_pos(file_buffer, pos);
        traces.push(
            Trace {
                flags: BlockFlags(file_buffer[pos + 4]),
                block_offset,
                used_bitfield: file_buffer[pos + 6],
                prefetched_bitfield: file_buffer[pos + 7],
            },
        );
        proof {
            assert(traces@ =~= spec_traces_8(file_buffer@, off as int, index as int, i + 1));
        }
        i = i + 1;
    }
    Ok(traces)
}

/// Parses the whole 8-byte-record trace table (version 30).
pub fn process_trace_chain_v30(file_buffer: &[u8], info: &PrefetchFileInformation) -> (r: Result<
    Vec<Trace>,
    PrefetchError,
>)
    ensures
        r is Ok <==> info.trace_chain_offset + info.trace_chain_count * 8 <= file_buffer@.len(),
        r matches Ok(v) ==> v@ == spec_traces_8(
            file_buffer@,
            info.trace_chain_offset as int,
            0,
            info.trace_chain_count as int,
        ),
        r is Err ==> r == Err::<Vec<Trace>, PrefetchError>(PrefetchError::BadFormat),
{
    traces_for_dependency_v30(file_buffer, info, 0, info.trace_chain_count as usize)
}

} // verus!
