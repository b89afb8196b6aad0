//! Splitting an export archive into numbered volumes of bounded size, the
//! strict joining of volumes back into the archive, and the parts a report
//! is built from.
use crate::crc::{crc32, crc32_ieee_of};
use crate::le::{le_i32, le_u32, push_u32, push_zeros, zeros};
use vstd::prelude::*;

verus! {

/// Whether an export must fit one volume or may span several.
#[derive(Clone, Copy, Debug, PartialEq, Eq, Structural)]
pub enum ExportMode {
    OneVolume,
    MultiVolume,
}

/// Why an export could not be split or joined.
#[derive(Clone, Copy, Debug, PartialEq, Eq, Structural)]
pub enum ExportError {
    Length,
    Oversized,
    Order,
    Identity,
    Checksum,
    Manifest,
}

/// The header of one volume: the identities of the archive and of the
/// selection it exports, the volume's place among the volumes, and where
/// its payload lies in the joined archive.
#[derive(Clone, Copy, Debug, PartialEq, Eq, Structural)]
pub struct VolumeHeader {
    pub archive_crc32: u32,
    pub selection_crc32: u32,
    pub volume_index: u16,
    pub volume_count: u16,
    pub logical_offset: u32,
    pub payload_length: u32,
    pub logical_length: u32,
    pub payload_crc32: u32,
}

/// A volume: its header and its slice of the archive.
#[derive(Clone, Debug)]
pub struct Volume {
    pub header: VolumeHeader,
    pub payload: Vec<u8>,
}

pub open spec fn volume_count_for(len: int, limit: int) -> int {
    let n = if len < 1 {
        1
    } else {
        len
    };
    (n + limit - 1) / limit
}

/// The header of volume `index` when `len` bytes are split in pieces of
/// `limit` bytes.
pub open spec fn volume_header(
    archive_crc32: u32,
    selection_crc32: u32,
    index: int,
    count: int,
    len: int,
    limit: int,
) -> VolumeHeader {
    let offset = index * limit;
    let end = if offset + limit < len {
        offset + limit
    } else {
        len
    };
    VolumeHeader {
        archive_crc32,
        selection_crc32,
        volume_index: index as u16,
        volume_count: count as u16,
        logical_offset: offset as u32,
        payload_length: (end - offset) as u32,
        logical_length: len as u32,
        payload_crc32: 0,
    }
}

/// What splitting gives: an error, or for each volume its header and its
/// slice of the archive.
pub open spec fn split_result(
    logical: Seq<u8>,
    archive_crc32: u32,
    selection_crc32: u32,
    mode: ExportMode,
    limit: u32,
) -> Result<Seq<(VolumeHeader, Seq<u8>)>, ExportError> {
    let len = logical.len() as int;
    if limit == 0 || len > u32::MAX {
        Err(ExportError::Length)
    } else if mode == ExportMode::OneVolume && len > limit {
        Err(ExportError::Oversized)
    } else if volume_count_for(len, limit as int) > u16::MAX {
        Err(ExportError::Oversized)
    } else {
        let count = volume_count_for(len, limit as int);
        Ok(
            Seq::new(
                count as nat,
                |i: int|
                    {
                        let h = volume_header(
                            archive_crc32,
                            selection_crc32,
                            i,
                            count,
                            len,
                            limit as int,
                        );
                        (
                            h,
                            logical.subrange(
                                h.logical_offset as int,
                                h.logical_offset + h.payload_length,
                            ),
                        )
                    },
            ),
        )
    }
}

pub open spec fn volume_view(v: Volume) -> (VolumeHeader, Seq<u8>) {
    (v.header, v.payload@)
}

/// Splits an archive into volumes of at most `payload_limit` bytes each
/// (one empty volume for an empty archive); a one-volume export must fit.
pub fn split_volumes(
    logical: &[u8],
    archive_crc32: u32,
    selection_crc32: u32,
    mode: ExportMode,
    payload_limit: u32,
) -> (r: Result<Vec<Volume>, ExportError>)
    ensures
        match split_result(logical@, archive_crc32, selection_crc32, mode, payload_limit) {
            Err(e) => r == Err::<Vec<Volume>, ExportError>(e),
            Ok(vs) => r matches Ok(out) && out@.map_values(|v: Volume| volume_view(v)) == vs,
        },
{
    let len = logical.len();
    if payload_limit == 0 || len > 0xffff_ffff {
        return Err(ExportError::Length);
    }
    if mode == ExportMode::OneVolume && len > payload_limit as usize {
        return Err(ExportError::Oversized);
    }
    let limit = payload_limit as usize;
    let n = if len < 1 {
        1
    } else {
        len
    };
    let count = (n - 1) / limit + 1;
    assert(count == volume_count_for(len as int, limit as int)) by (nonlinear_arith)
        requires
            count == (n as int - 1) / (limit as int) + 1,
            n >= 1,
            limit >= 1,
            n == (if len < 1 {
                1
            } else {
                len as int
            }),
    ;
    if count > 0xffff {
        return Err(ExportError::Oversized);
    }
    let ghost vs = split_result(logical@, archive_crc32, selection_crc32, mode, payload_limit)->Ok_0;
    let mut volumes: Vec<Volume> = Vec::new();
    let mut index: usize = 0;
    while index < count
        invariant
            index <= count <= 0xffff,
            count == volume_count_for(len as int, limit as int),
            len == logical@.len() <= 0xffff_ffff,
            limit == payload_limit >= 1,
            mode != ExportMode::OneVolume || len <= limit,
            vs == split_result(logical@, archive_crc32, selection_crc32, mode, payload_limit)->Ok_0,
            split_result(logical@, archive_crc32, selection_crc32, mode, payload_limit) is Ok,
            vs.len() == count,
            volumes@.map_values(|v: Volume| volume_view(v)) == vs.take(index as int),
            volumes@.len() == index,
        decreases count - index,
    {
        assert((index as int) * (limit as int) <= len) by (nonlinear_arith)
            requires
                index < count,
                count == volume_count_for(len as int, limit as int),
                limit >= 1,
        ;
        let offset = index * limit;
        let end = if limit < len - offset {
            offset + limit
        } else {
            len
        };
        let mut payload: Vec<u8> = Vec::new();
        let mut k: usize = offset;
        while k < end
            invariant
                offset <= k <= end <= len == logical@.len(),
                payload@ == logical@.subrange(offset as int, k as int),
            decreases end - k,
        {
            payload.push(logical[k]);
            k += 1;
            assert(payload@ =~= logical@.subrange(offset as int, k as int));
        }
        let header = VolumeHeader {
            archive_crc32,
            selection_crc32,
            volume_index: index as u16,
            volume_count: count as u16,
            logical_offset: offset as u32,
            payload_length: (end - offset) as u32,
            logical_length: len as u32,
            payload_crc32: 0,
        };
        let ghost before = volumes@;
        assert(vs[index as int] == (header, payload@));
        volumes.push(Volume { header, payload });
        assert(volumes@ == before.push(volumes@[index as int]));
        assert(volume_view(volumes@[index as int]) == vs[index as int]);
        assert(vs.take(index + 1) =~= vs.take(index as int).push(vs[index as int]));
        assert(volumes@.map_values(|v: Volume| volume_view(v)) =~= before.map_values(
            |v: Volume| volume_view(v),
        ).push(vs[index as int]));
        index += 1;
    }
    assert(vs.take(count as int) =~= vs);
    Ok(volumes)
}

/// `p` written over `buf` at `at`.
pub open spec fn copy_into(buf: Seq<u8>, at: int, p: Seq<u8>) -> Seq<u8> {
    buf.take(at) + p + buf.skip(at + p.len())
}

/// Joining from volume `i` on, `expected` bytes having been placed in
/// `buf`: each volume must belong to the same archive and selection as the
/// first, come in order and continue where the previous one ended; at the
/// end the whole archive must be there and match its checksum. `None` where
/// a volume's payload would run past the archive's end.
pub open spec fn join_from(
    vs: Seq<(VolumeHeader, Seq<u8>)>,
    i: int,
    expected: int,
    buf: Seq<u8>,
) -> Option<Result<Seq<u8>, ExportError>>
    decreases vs.len() - i,
{
    if i < 0 || i >= vs.len() {
        let first = vs[0].0;
        if expected != first.logical_length || crc32_ieee_of(buf) != first.archive_crc32 {
            Some(Err(ExportError::Checksum))
        } else {
            Some(Ok(buf))
        }
    } else {
        let first = vs[0].0;
        let h = vs[i].0;
        let p = vs[i].1;
        if h.archive_crc32 != first.archive_crc32 || h.selection_crc32 != first.selection_crc32
            || h.volume_count != first.volume_count {
            Some(Err(ExportError::Identity))
        } else if h.volume_index != i || h.logical_offset != expected || h.logical_length
            != first.logical_length {
            Some(Err(ExportError::Order))
        } else if expected + p.len() > buf.len() {
            None
        } else {
            join_from(vs, i + 1, expected + h.payload_length, copy_into(buf, expected, p))
        }
    }
}

/// What joining gives, or `None` where a payload would run past the end.
pub open spec fn join_result(vs: Seq<(VolumeHeader, Seq<u8>)>) -> Option<
    Result<Seq<u8>, ExportError>,
> {
    if vs.len() == 0 || vs.len() != vs[0].0.volume_count {
        Some(Err(ExportError::Order))
    } else {
        join_from(vs, 0, 0, zeros(vs[0].0.logical_length as nat))
    }
}

/// Each payload is as long as its header says, as reading a volume ensures.
pub open spec fn payloads_match_headers(vs: Seq<(VolumeHeader, Seq<u8>)>) -> bool {
    forall|i: int| 0 <= i < vs.len() ==> (#[trigger] vs[i]).1.len() == vs[i].0.payload_length
}

/// Joins volumes back into the archive they were split from, checking that
/// they belong together, come in order, leave no gap, and reproduce the
/// archive's checksum. The volumes must be ones whose payloads fit the
/// archive they name: on others the join has nowhere to put the bytes
/// (`try_join_volumes` tells these apart).
pub fn join_volumes(volumes: &[Volume]) -> (r: Result<Vec<u8>, ExportError>)
    requires
        payloads_match_headers(volumes@.map_values(|v: Volume| volume_view(v))),
        join_result(volumes@.map_values(|v: Volume| volume_view(v))) is Some,
    ensures
        match join_result(volumes@.map_values(|v: Volume| volume_view(v)))->Some_0 {
            Ok(bytes) => r matches Ok(out) && out@ == bytes,
            Err(e) => r == Err::<Vec<u8>, ExportError>(e),
        },
{
    match try_join_volumes(volumes) {
        Some(r) => r,
        None => Err(ExportError::Order),
    }
}

/// Joins volumes as `join_volumes` does, and gives `None` where a payload
/// is not as long as its header says or would run past the end of the
/// archive the volumes name.
pub fn try_join_volumes(volumes: &[Volume]) -> (r: Option<Result<Vec<u8>, ExportError>>)
    ensures
        !payloads_match_headers(volumes@.map_values(|v: Volume| volume_view(v))) ==> r is None,
        payloads_match_headers(volumes@.map_values(|v: Volume| volume_view(v))) ==> match join_result(
            volumes@.map_values(|v: Volume| volume_view(v)),
        ) {
            None => r is None,
            Some(Ok(bytes)) => r matches Some(Ok(out)) && out@ == bytes,
            Some(Err(e)) => r == Some(Err::<Vec<u8>, ExportError>(e)),
        },
{
    let ghost vs = volumes@.map_values(|v: Volume| volume_view(v));
    let mut k: usize = 0;
    while k < volumes.len()
        invariant
            k <= volumes@.len(),
            vs == volumes@.map_values(|v: Volume| volume_view(v)),
            forall|i: int| 0 <= i < k ==> (#[trigger] vs[i]).1.len() == vs[i].0.payload_length,
        decreases volumes@.len() - k,
    {
        assert(vs[k as int] == volume_view(volumes@[k as int]));
        if volumes[k].payload.len() != volumes[k].header.payload_length as usize {
            assert(!payloads_match_headers(vs)) by {
                assert(vs[k as int].1.len() != vs[k as int].0.payload_length);
            }
            return None;
        }
        k += 1;
    }
    assert(payloads_match_headers(vs));
    if volumes.len() == 0 {
        return Some(Err(ExportError::Order));
    }
    let first = volumes[0].header;
    assert(vs[0].0 == first);
    if volumes.len() != first.volume_count as usize {
        return Some(Err(ExportError::Order));
    }
    let total = first.logical_length as usize;
    let mut logical: Vec<u8> = Vec::new();
    let mut z: usize = 0;
    while z < total
        invariant
            z <= total,
            logical@ == zeros(z as nat),
        decreases total - z,
    {
        logical.push(0);
        z += 1;
        assert(logical@ =~= zeros(z as nat));
    }
    let mut expected: u32 = 0;
    let mut index: usize = 0;
    while index < volumes.len()
        invariant
            index <= volumes@.len(),
            vs == volumes@.map_values(|v: Volume| volume_view(v)),
            vs.len() == volumes@.len(),
            vs[0].0 == first,
            logical@.len() == total == first.logical_length,
            expected <= total,
            payloads_match_headers(vs),
            join_from(vs, index as int, expected as int, logical@) == join_result(vs),
        decreases volumes@.len() - index,
    {
        let h = volumes[index].header;
        assert(vs[index as int] == volume_view(volumes@[index as int]));
        if h.archive_crc32 != first.archive_crc32 || h.selection_crc32 != first.selection_crc32
            || h.volume_count != first.volume_count {
            return Some(Err(ExportError::Identity));
        }
        if h.volume_index as usize != index || h.logical_offset != expected || h.logical_length
            != first.logical_length {
            return Some(Err(ExportError::Order));
        }
        let p = &volumes[index].payload;
        let start = expected as usize;
        if p.len() > total - start {
            return None;
        }
        let ghost buf = logical@;
        assert(p@.len() == h.payload_length);
        let mut j: usize = 0;
        while j < p.len()
            invariant
                j <= p@.len(),
                start + p@.len() <= buf.len(),
                logical@.len() == buf.len(),
                buf.len() == total,
                logical@ == buf.take(start as int) + p@.take(j as int) + buf.skip(start + j),
            decreases p@.len() - j,
        {
            logical.set(start + j, p[j]);
            j += 1;
            assert(logical@ =~= buf.take(start as int) + p@.take(j as int) + buf.skip(start + j));
        }
        assert(logical@ =~= copy_into(buf, start as int, p@));
        expected = expected + h.payload_length;
        index += 1;
    }
    let crc = crc32(logical.as_slice());
    if expected != first.logical_length || crc != first.archive_crc32 {
        return Some(Err(ExportError::Checksum));
    }
    Some(Ok(logical))
}

/// Joining the volumes of a split gives back the archive, whenever the
/// archive checksum the split was given is the archive's CRC-32.
pub proof fn law_join_undoes_split(
    logical: Seq<u8>,
    selection_crc32: u32,
    mode: ExportMode,
    limit: u32,
)
    requires
        split_result(logical, crc32_ieee_of(logical), selection_crc32, mode, limit) is Ok,
    ensures
        ({
            let vs = split_result(logical, crc32_ieee_of(logical), selection_crc32, mode, limit)->Ok_0;
            &&& payloads_match_headers(vs)
            &&& join_result(vs) == Some(Ok::<Seq<u8>, ExportError>(logical))
        }),
{
    let a = crc32_ieee_of(logical);
    let vs = split_result(logical, a, selection_crc32, mode, limit)->Ok_0;
    let len = logical.len() as int;
    let l = limit as int;
    let count = volume_count_for(len, l);
    assert(count >= 1) by (nonlinear_arith)
        requires
            count == volume_count_for(len, l),
            l >= 1,
    ;
    assert forall|i: int| 0 <= i < vs.len() implies (#[trigger] vs[i]).1.len()
        == vs[i].0.payload_length by {
        lemma_volume_bounds(len, l, count, i);
    }
    assert(vs[0].0.volume_count == count);
    assert(vs[0].0.logical_length == len);
    lemma_join_from_split(logical, a, selection_crc32, mode, limit, 0);
    assert(logical.take(0) + zeros(len as nat) =~= zeros(len as nat));
}

proof fn lemma_volume_bounds(len: int, l: int, count: int, i: int)
    requires
        0 <= len,
        l >= 1,
        count == volume_count_for(len, l),
        0 <= i <= count,
    ensures
        i < count ==> i * l <= len,
        i == count ==> i * l >= len,
        i < count ==> 0 <= i * l,
{
    assert(0 <= i * l) by (nonlinear_arith)
        requires
            0 <= i,
            l >= 1,
    ;
    if i < count {
        assert(i * l <= len) by (nonlinear_arith)
            requires
                count == volume_count_for(len, l),
                i < count,
                l >= 1,
                len >= 0,
        ;
    } else {
        assert(i * l >= len) by (nonlinear_arith)
            requires
                count == volume_count_for(len, l),
                i == count,
                l >= 1,
                len >= 0,
        ;
    }
}

pub open spec fn placed(len: int, l: int, i: int) -> int {
    if i * l < len {
        i * l
    } else {
        len
    }
}

proof fn lemma_join_from_split(
    logical: Seq<u8>,
    a: u32,
    selection_crc32: u32,
    mode: ExportMode,
    limit: u32,
    i: int,
)
    requires
        a == crc32_ieee_of(logical),
        split_result(logical, a, selection_crc32, mode, limit) is Ok,
        0 <= i <= volume_count_for(logical.len() as int, limit as int),
    ensures
        ({
            let vs = split_result(logical, a, selection_crc32, mode, limit)->Ok_0;
            let len = logical.len() as int;
            let e = placed(len, limit as int, i);
            join_from(vs, i, e, logical.take(e) + zeros((len - e) as nat)) == Some(
                Ok::<Seq<u8>, ExportError>(logical),
            )
        }),
    decreases volume_count_for(logical.len() as int, limit as int) - i,
{
    let vs = split_result(logical, a, selection_crc32, mode, limit)->Ok_0;
    let len = logical.len() as int;
    let l = limit as int;
    let count = volume_count_for(len, l);
    let e = placed(len, l, i);
    let buf = logical.take(e) + zeros((len - e) as nat);
    lemma_volume_bounds(len, l, count, i);
    assert(count >= 1) by (nonlinear_arith)
        requires
            count == volume_count_for(len, l),
            l >= 1,
    ;
    assert(vs.len() == count);
    assert(vs[0].0.volume_count == count && vs[0].0.logical_length == len);
    assert(vs[0].0.archive_crc32 == a && vs[0].0.selection_crc32 == selection_crc32);
    if i == count {
        assert(e == len);
        assert(buf =~= logical);
    } else {
        let h = vs[i].0;
        let p = vs[i].1;
        assert(e == i * l);
        assert(h == volume_header(a, selection_crc32, i, count, len, l));
        let end = if i * l + l < len {
            i * l + l
        } else {
            len
        };
        assert(h.logical_offset == e);
        assert(h.payload_length == end - e);
        assert(p == logical.subrange(e, end));
        assert((i + 1) * l == i * l + l) by (nonlinear_arith);
        assert(placed(len, l, i + 1) == end);
        let next = copy_into(buf, e, p);
        assert(next =~= logical.take(end) + zeros((len - end) as nat));
        lemma_join_from_split(logical, a, selection_crc32, mode, limit, i + 1);
    }
}

/// A retained run history: the run's index and its encoded bytes.
#[derive(Clone, Copy)]
pub struct HistoryRecord<'a> {
    pub run_index: u32,
    pub bytes: &'a [u8],
}

/// What a selected report is built from: the campaign's identity and run
/// count, its summary, aggregate and run records, and the retained compact
/// and full run histories.
pub struct ReportSources<'a> {
    pub campaign_crc32: u32,
    pub run_count: u32,
    pub ksc4: &'a [u8],
    pub aggregate: &'a [u8],
    pub ksr4: &'a [u8],
    pub compact: &'a [HistoryRecord<'a>],
    pub full: &'a [HistoryRecord<'a>],
}

/// The retained history of run `run_index`: the first one recorded for that
/// run.
pub open spec fn history_for<'a>(histories: Seq<HistoryRecord<'a>>, run_index: u32) -> Option<
    HistoryRecord<'a>,
>
    decreases histories.len(),
{
    if histories.len() == 0 {
        None
    } else if histories[0].run_index == run_index {
        Some(histories[0])
    } else {
        history_for(histories.drop_first(), run_index)
    }
}

/// Finds the retained history of a run the manifest selects; a run without
/// one is a manifest fault.
pub fn find_history<'a>(histories: &'a [HistoryRecord<'a>], run_index: u32) -> (r: Result<
    HistoryRecord<'a>,
    ExportError,
>)
    ensures
        r == match history_for(histories@, run_index) {
            Some(h) => Ok::<HistoryRecord<'a>, ExportError>(h),
            None => Err(ExportError::Manifest),
        },
{
    let mut i: usize = 0;
    assert(histories@.skip(0) =~= histories@);
    while i < histories.len()
        invariant
            i <= histories@.len(),
            history_for(histories@, run_index) == history_for(histories@.skip(i as int), run_index),
        decreases histories@.len() - i,
    {
        assert(histories@.skip(i as int)[0] == histories@[i as int]);
        assert(histories@.skip(i as int).drop_first() =~= histories@.skip(i + 1));
        if histories[i].run_index == run_index {
            return Ok(histories[i]);
        }
        i += 1;
    }
    Err(ExportError::Manifest)
}

/// The capacity of the stock report pack.
pub const STOCK_REPORT_CAPACITY: usize = 3_712;

/// The stock campaign's aggregate record before its CRC: the `KAG4` magic,
/// version 4, 1 024 runs, the outcome counts, the campaign identity, the
/// apogee, range and flight-time extremes, then zero padding.
pub open spec fn stock_aggregate_body() -> Seq<u8> {
    seq![0x4bu8, 0x41u8, 0x47u8, 0x34u8] + le_u32(4) + le_u32(1_024) + le_u32(857) + le_u32(166)
        + le_u32(1) + le_u32(0) + le_u32(0) + le_u32(0) + le_u32(0x813c_e420) + le_i32(180)
        + le_i32(194) + le_i32(39) + le_i32(43) + le_i32(0) + le_i32(62) + zeros(60)
}

/// The stock campaign's 128-byte aggregate record: its body, then the
/// CRC-32 of the body.
pub open spec fn stock_aggregate_bytes() -> Seq<u8> {
    stock_aggregate_body() + le_u32(crc32_ieee_of(stock_aggregate_body()))
}

/// Builds the aggregate record of the stock campaign's report.
pub fn stock_aggregate_payload() -> (r: Vec<u8>)
    ensures
        r@ == stock_aggregate_bytes(),
        r@.len() == 128,
{
    let mut payload: Vec<u8> = Vec::new();
    payload.push(0x4b);
    payload.push(0x41);
    payload.push(0x47);
    payload.push(0x34);
    push_u32(&mut payload, 4);
    push_u32(&mut payload, 1_024);
    push_u32(&mut payload, 857);
    push_u32(&mut payload, 166);
    push_u32(&mut payload, 1);
    push_u32(&mut payload, 0);
    push_u32(&mut payload, 0);
    push_u32(&mut payload, 0);
    push_u32(&mut payload, 0x813c_e420);
    push_u32(&mut payload, 180i32 as u32);
    push_u32(&mut payload, 194i32 as u32);
    push_u32(&mut payload, 39i32 as u32);
    push_u32(&mut payload, 43i32 as u32);
    push_u32(&mut payload, 0i32 as u32);
    push_u32(&mut payload, 62i32 as u32);
    push_zeros(&mut payload, 60);
    assert(payload@ =~= stock_aggregate_body());
    let crc = crc32(payload.as_slice());
    push_u32(&mut payload, crc);
    payload
}

} // verus!
