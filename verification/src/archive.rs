//! Segmented KAE9 evidence archives and bounded KFE9 finalist packages.
//!
//! Both formats start with a 128-byte header that carries the payload's
//! CRC-32, a header identity and a CRC-32 of the header itself. A KAE9
//! payload is a run of checksummed segments; a KFE9 payload is a run of
//! fixed-size finalist records.
use crate::crc::{crc32, crc32_ieee_of};
use crate::le::{
    get_u16, get_u32, le_u16, le_u32, lemma_u16_roundtrip, lemma_u32_roundtrip, push_u16,
    push_u32, push_zeros, read_u16, read_u32, zeros,
};
use crate::session::{concat_all, lemma_concat_all_append, lemma_concat_push, put_bytes};
use vstd::prelude::*;

verus! {

pub const KAE9_HEADER_LENGTH: usize = 128;

pub const KAE9_SEGMENT_HEADER_LENGTH: usize = 32;

pub const KFE9_HEADER_LENGTH: usize = 128;

pub const KFE9_MAX_FINALISTS: usize = 32;

/// Why an archive or a finalist package was refused.
#[derive(Clone, Copy, Debug, PartialEq, Eq, Structural)]
pub enum AdvancedArchiveError {
    Length,
    Magic,
    Version,
    Reserved,
    Checksum,
    Identity,
    Record,
    Count,
}

/// Which of the two container formats a header belongs to.
#[derive(Clone, Copy, Debug, PartialEq, Eq, Structural)]
pub enum ArchiveKind {
    Kae9,
    Kfe9,
}

/// The byte lengths of the fixed-size records the containers carry: an
/// encoded design vector, an encoded candidate aggregate, and an encoded
/// effector summary.
#[derive(Clone, Copy, Debug, PartialEq, Eq, Structural)]
pub struct RecordLengths {
    pub design: usize,
    pub aggregate: usize,
    pub summary: usize,
}

impl RecordLengths {
    /// Each record has a positive length and a finalist record stays small.
    pub open spec fn wf(self) -> bool {
        &&& 0 < self.design
        &&& 0 < self.aggregate
        &&& 0 < self.summary
        &&& self.design + self.aggregate + self.summary <= 0x1_0000
    }

    /// A KAE9 candidate record: design vector then aggregate.
    pub open spec fn candidate_len(self) -> int {
        self.design + self.aggregate
    }

    /// A KAE9 evidence record: eight bytes of key then an effector summary.
    pub open spec fn evidence_len(self) -> int {
        8 + self.summary
    }

    /// A KFE9 finalist record: design vector, aggregate, effector summary.
    pub open spec fn finalist_len(self) -> int {
        self.design + self.aggregate + self.summary
    }

    pub fn candidate_length(&self) -> (r: usize)
        requires
            self.wf(),
        ensures
            r == self.candidate_len(),
    {
        self.design + self.aggregate
    }

    pub fn evidence_length(&self) -> (r: usize)
        requires
            self.wf(),
        ensures
            r == self.evidence_len(),
    {
        8 + self.summary
    }

    pub fn finalist_length(&self) -> (r: usize)
        requires
            self.wf(),
        ensures
            r == self.finalist_len(),
    {
        self.design + self.aggregate + self.summary
    }
}

pub open spec fn archive_magic(kind: ArchiveKind) -> Seq<u8> {
    match kind {
        ArchiveKind::Kae9 => seq![0x4bu8, 0x41u8, 0x45u8, 0x39u8],
        ArchiveKind::Kfe9 => seq![0x4bu8, 0x46u8, 0x45u8, 0x39u8],
    }
}

/// Header bytes 0..32: magic, version 1, header length 128, manifest and
/// study identities, record count, payload length, payload CRC-32 and
/// record length.
pub open spec fn header_prefix(
    kind: ArchiveKind,
    manifest: u32,
    study: u32,
    count: u32,
    payload: Seq<u8>,
    record_len: u32,
) -> Seq<u8> {
    archive_magic(kind) + le_u16(1) + le_u16(128) + le_u32(manifest) + le_u32(study) + le_u32(
        count,
    ) + le_u32(payload.len() as u32) + le_u32(crc32_ieee_of(payload)) + le_u32(record_len)
}

/// The header identity: the CRC-32 of header bytes 4..32, never zero.
pub open spec fn nonzero_identity(prefix: Seq<u8>) -> u32 {
    let id = crc32_ieee_of(prefix.subrange(4, 32));
    if id == 0 {
        1
    } else {
        id
    }
}

/// Header bytes 0..124: the prefix, the identity and 88 reserved zero bytes.
pub open spec fn header_body(
    kind: ArchiveKind,
    manifest: u32,
    study: u32,
    count: u32,
    payload: Seq<u8>,
    record_len: u32,
) -> Seq<u8> {
    let prefix = header_prefix(kind, manifest, study, count, payload, record_len);
    prefix + le_u32(nonzero_identity(prefix)) + zeros(88)
}

/// The complete 128-byte header: the body followed by its CRC-32.
pub open spec fn archive_header(
    kind: ArchiveKind,
    manifest: u32,
    study: u32,
    count: u32,
    payload: Seq<u8>,
    record_len: u32,
) -> Seq<u8> {
    let body = header_body(kind, manifest, study, count, payload, record_len);
    body + le_u32(crc32_ieee_of(body))
}

/// What reading a header yields, in the order the checks are made:
/// `(manifest, study, count, record length)` or the first failing check.
pub open spec fn header_check(input: Seq<u8>, kind: ArchiveKind) -> Result<
    (u32, u32, u32, u32),
    AdvancedArchiveError,
> {
    if input.len() < 128 {
        Err(AdvancedArchiveError::Length)
    } else if input.subrange(0, 4) != archive_magic(kind) {
        Err(AdvancedArchiveError::Magic)
    } else if get_u16(input, 4) != 1 || get_u16(input, 6) != 128 {
        Err(AdvancedArchiveError::Version)
    } else if exists|i: int| 36 <= i < 124 && input[i] != 0 {
        Err(AdvancedArchiveError::Reserved)
    } else if get_u32(input, 124) != crc32_ieee_of(input.subrange(0, 124)) || get_u32(input, 24)
        != crc32_ieee_of(input.subrange(128, input.len() as int)) {
        Err(AdvancedArchiveError::Checksum)
    } else if get_u32(input, 20) != input.len() - 128 {
        Err(AdvancedArchiveError::Length)
    } else {
        Ok((get_u32(input, 8), get_u32(input, 12), get_u32(input, 16), get_u32(input, 28)))
    }
}

fn push_magic(h: &mut Vec<u8>, kind: ArchiveKind)
    ensures
        final(h)@ == old(h)@ + archive_magic(kind),
{
    h.push(0x4b);
    match kind {
        ArchiveKind::Kae9 => h.push(0x41),
        ArchiveKind::Kfe9 => h.push(0x46),
    }
    h.push(0x45);
    h.push(0x39);
    assert(final(h)@ =~= old(h)@ + archive_magic(kind));
}

/// Builds the 128-byte header of a container whose payload is `payload`.
fn header(
    kind: ArchiveKind,
    manifest: u32,
    study: u32,
    count: u32,
    payload: &[u8],
    record_len: u32,
) -> (h: Vec<u8>)
    requires
        payload@.len() <= u32::MAX,
    ensures
        h@ == archive_header(kind, manifest, study, count, payload@, record_len),
{
    let mut h: Vec<u8> = Vec::with_capacity(KAE9_HEADER_LENGTH);
    push_magic(&mut h, kind);
    push_u16(&mut h, 1);
    push_u16(&mut h, 128);
    push_u32(&mut h, manifest);
    push_u32(&mut h, study);
    push_u32(&mut h, count);
    push_u32(&mut h, payload.len() as u32);
    let payload_crc = crc32(payload);
    push_u32(&mut h, payload_crc);
    push_u32(&mut h, record_len);
    let ghost prefix = header_prefix(kind, manifest, study, count, payload@, record_len);
    assert(h@ =~= prefix);
    let id = crc32(&h.as_slice()[4..32]);
    assert(h@.subrange(4, 32) =~= prefix.subrange(4, 32));
    let identity = if id == 0 {
        1
    } else {
        id
    };
    push_u32(&mut h, identity);
    push_zeros(&mut h, 88);
    assert(h@ =~= header_body(kind, manifest, study, count, payload@, record_len));
    let crc = crc32(h.as_slice());
    push_u32(&mut h, crc);
    h
}

/// Checks the 128-byte header of a container and the CRC-32 and length of
/// the payload after it.
fn validate_header(input: &[u8], kind: ArchiveKind) -> (r: Result<
    (u32, u32, u32, u32),
    AdvancedArchiveError,
>)
    ensures
        r == header_check(input@, kind),
{
    if input.len() < 128 {
        return Err(AdvancedArchiveError::Length);
    }
    let second: u8 = match kind {
        ArchiveKind::Kae9 => 0x41,
        ArchiveKind::Kfe9 => 0x46,
    };
    if input[0] != 0x4b || input[1] != second || input[2] != 0x45 || input[3] != 0x39 {
        proof {
            if input@.subrange(0, 4) == archive_magic(kind) {
                assert(input@.subrange(0, 4)[0] == input@[0]);
                assert(input@.subrange(0, 4)[1] == input@[1]);
                assert(input@.subrange(0, 4)[2] == input@[2]);
                assert(input@.subrange(0, 4)[3] == input@[3]);
            }
        }
        return Err(AdvancedArchiveError::Magic);
    }
    assert(input@.subrange(0, 4) =~= archive_magic(kind));
    if read_u16(input, 4) != 1 || read_u16(input, 6) != 128 {
        return Err(AdvancedArchiveError::Version);
    }
    let mut i: usize = 36;
    while i < 124
        invariant
            36 <= i <= 124,
            input@.len() >= 128,
            input@.subrange(0, 4) == archive_magic(kind),
            get_u16(input@, 4) == 1,
            get_u16(input@, 6) == 128,
            forall|j: int| 36 <= j < i ==> input@[j] == 0,
        decreases 124 - i,
    {
        if input[i] != 0 {
            assert(36 <= i as int && (i as int) < 124 && input@[i as int] != 0);
            return Err(AdvancedArchiveError::Reserved);
        }
        i += 1;
    }
    let header_crc = crc32(&input[0..124]);
    let payload_crc = crc32(&input[128..input.len()]);
    if read_u32(input, 124) != header_crc || read_u32(input, 24) != payload_crc {
        return Err(AdvancedArchiveError::Checksum);
    }
    if read_u32(input, 20) as usize != input.len() - 128 {
        return Err(AdvancedArchiveError::Length);
    }
    Ok((read_u32(input, 8), read_u32(input, 12), read_u32(input, 16), read_u32(input, 28)))
}

/// A header written for a payload, followed by that payload, reads back as
/// the identities, count and record length it was written with.
pub proof fn law_written_header_reads_back(
    kind: ArchiveKind,
    manifest: u32,
    study: u32,
    count: u32,
    payload: Seq<u8>,
    record_len: u32,
)
    requires
        payload.len() <= u32::MAX,
    ensures
        header_check(
            archive_header(kind, manifest, study, count, payload, record_len) + payload,
            kind,
        ) == Ok::<(u32, u32, u32, u32), AdvancedArchiveError>(
            (manifest, study, count, record_len),
        ),
{
    let prefix = header_prefix(kind, manifest, study, count, payload, record_len);
    let body = header_body(kind, manifest, study, count, payload, record_len);
    let h = archive_header(kind, manifest, study, count, payload, record_len);
    let input = h + payload;
    lemma_u16_roundtrip(1);
    lemma_u16_roundtrip(128);
    lemma_u32_roundtrip(manifest);
    lemma_u32_roundtrip(study);
    lemma_u32_roundtrip(count);
    lemma_u32_roundtrip(payload.len() as u32);
    lemma_u32_roundtrip(crc32_ieee_of(payload));
    lemma_u32_roundtrip(record_len);
    lemma_u32_roundtrip(crc32_ieee_of(body));
    assert(h.len() == 128);
    assert(input.subrange(0, 4) =~= archive_magic(kind));
    assert(input.subrange(4, 6) =~= le_u16(1));
    assert(get_u16(input, 4) == get_u16(le_u16(1), 0));
    assert(input.subrange(6, 8) =~= le_u16(128));
    assert(get_u16(input, 6) == get_u16(le_u16(128), 0));
    assert(input.subrange(8, 12) =~= le_u32(manifest));
    assert(get_u32(input, 8) == get_u32(le_u32(manifest), 0));
    assert(input.subrange(12, 16) =~= le_u32(study));
    assert(get_u32(input, 12) == get_u32(le_u32(study), 0));
    assert(input.subrange(16, 20) =~= le_u32(count));
    assert(get_u32(input, 16) == get_u32(le_u32(count), 0));
    assert(input.subrange(20, 24) =~= le_u32(payload.len() as u32));
    assert(get_u32(input, 20) == get_u32(le_u32(payload.len() as u32), 0));
    assert(input.subrange(24, 28) =~= le_u32(crc32_ieee_of(payload)));
    assert(get_u32(input, 24) == get_u32(le_u32(crc32_ieee_of(payload)), 0));
    assert(input.subrange(28, 32) =~= le_u32(record_len));
    assert(get_u32(input, 28) == get_u32(le_u32(record_len), 0));
    assert(input.subrange(124, 128) =~= le_u32(crc32_ieee_of(body)));
    assert(get_u32(input, 124) == get_u32(le_u32(crc32_ieee_of(body)), 0));
    assert(input.subrange(0, 124) =~= body);
    assert(input.subrange(128, input.len() as int) =~= payload);
    assert forall|i: int| 36 <= i < 124 implies input[i] == 0 by {
        assert(input[i] == body[i]);
    }
}

// ---------------------------------------------------------------------------
// KAE9 segments

pub open spec fn segment_magic() -> Seq<u8> {
    seq![0x53u8, 0x45u8, 0x39u8, 0x35u8]
}

/// Segment bytes 0..24: magic, version 1, kind, index, two zero bytes,
/// record count, payload length and payload CRC-32.
pub open spec fn segment_prefix(kind: u16, index: u16, count: u32, payload: Seq<u8>) -> Seq<u8> {
    segment_magic() + le_u16(1) + le_u16(kind) + le_u16(index) + zeros(2) + le_u32(count)
        + le_u32(payload.len() as u32) + le_u32(crc32_ieee_of(payload))
}

/// Segment bytes 0..28: the prefix and the segment identity, the CRC-32 of
/// bytes 4..24.
pub open spec fn segment_head(kind: u16, index: u16, count: u32, payload: Seq<u8>) -> Seq<u8> {
    let prefix = segment_prefix(kind, index, count, payload);
    prefix + le_u32(crc32_ieee_of(prefix.subrange(4, 24)))
}

/// A whole segment: its 32-byte header (the head and its CRC-32), then the
/// payload.
pub open spec fn segment_bytes(kind: u16, index: u16, count: u32, payload: Seq<u8>) -> Seq<u8> {
    let head = segment_head(kind, index, count, payload);
    head + le_u32(crc32_ieee_of(head)) + payload
}

/// Builds one segment.
fn segment(kind: u16, index: u16, count: u32, payload: &[u8]) -> (r: Vec<u8>)
    requires
        payload@.len() <= u32::MAX,
    ensures
        r@ == segment_bytes(kind, index, count, payload@),
{
    let mut out: Vec<u8> = Vec::new();
    out.push(0x53);
    out.push(0x45);
    out.push(0x39);
    out.push(0x35);
    push_u16(&mut out, 1);
    push_u16(&mut out, kind);
    push_u16(&mut out, index);
    push_zeros(&mut out, 2);
    push_u32(&mut out, count);
    push_u32(&mut out, payload.len() as u32);
    let payload_crc = crc32(payload);
    push_u32(&mut out, payload_crc);
    let ghost prefix = segment_prefix(kind, index, count, payload@);
    assert(out@ =~= prefix);
    let identity = crc32(&out.as_slice()[4..24]);
    assert(out@.subrange(4, 24) =~= prefix.subrange(4, 24));
    push_u32(&mut out, identity);
    assert(out@ =~= segment_head(kind, index, count, payload@));
    let head_crc = crc32(out.as_slice());
    push_u32(&mut out, head_crc);
    let mut i: usize = 0;
    let ghost start = out@;
    while i < payload.len()
        invariant
            i <= payload@.len(),
            out@ == start + payload@.subrange(0, i as int),
        decreases payload@.len() - i,
    {
        out.push(payload[i]);
        i += 1;
        assert(out@ =~= start + payload@.subrange(0, i as int));
    }
    assert(payload@.subrange(0, payload@.len() as int) =~= payload@);
    out
}

/// Bytes 4..8 of every evidence record: a nonzero tier, then the case index,
/// then two zero bytes at 6 and 7.
pub open spec fn evidence_record_ok(p: Seq<u8>, at: int) -> bool {
    p[at + 4] != 0 && p[at + 6] == 0 && p[at + 7] == 0
}

pub open spec fn evidence_records_ok(p: Seq<u8>, n: int, len: int) -> bool {
    forall|i: int| 0 <= i < n ==> #[trigger] evidence_record_ok(p, i * len)
}

/// Where the segment that starts at `at` ends.
pub open spec fn segment_end(input: Seq<u8>, at: int) -> int {
    at + 32 + get_u32(input, at + 16)
}

/// The checks on the segment that starts at `at`, in the order they are made.
pub open spec fn segment_check(
    input: Seq<u8>,
    at: int,
    lengths: RecordLengths,
    manifest: u32,
    facts: Seq<CandidateRecordFacts>,
    used: int,
) -> Result<(), AdvancedArchiveError> {
    if at + 32 > input.len() {
        Err(AdvancedArchiveError::Length)
    } else if input.subrange(at, at + 4) != segment_magic() || get_u16(input, at + 4) != 1 {
        Err(AdvancedArchiveError::Magic)
    } else if input[at + 10] != 0 || input[at + 11] != 0 || get_u32(input, at + 28)
        != crc32_ieee_of(input.subrange(at, at + 28)) || get_u32(input, at + 24) == 0 {
        Err(AdvancedArchiveError::Checksum)
    } else if segment_end(input, at) > input.len() {
        Err(AdvancedArchiveError::Length)
    } else {
        let kind = get_u16(input, at + 6);
        let n = get_u32(input, at + 12) as int;
        let len = get_u32(input, at + 16) as int;
        let p = input.subrange(at + 32, at + 32 + len);
        if crc32_ieee_of(p) != get_u32(input, at + 20) {
            Err(AdvancedArchiveError::Checksum)
        } else if kind == 1 {
            if len != n * lengths.candidate_len() {
                Err(AdvancedArchiveError::Length)
            } else {
                match first_record_error(manifest, facts, used, used + n, false) {
                    Some(e) => Err(e),
                    None => Ok(()),
                }
            }
        } else if kind == 2 {
            if len != n * lengths.evidence_len() {
                Err(AdvancedArchiveError::Length)
            } else if !evidence_records_ok(p, n, lengths.evidence_len()) || !summaries_parsed(
                facts,
                used,
                used + n,
            ) {
                Err(AdvancedArchiveError::Record)
            } else {
                Ok(())
            }
        } else {
            Err(AdvancedArchiveError::Version)
        }
    }
}

/// The number of segments from `at` to the end of the input, or the first
/// refusal met on the way.
/// How many records the segment at `at` holds.
pub open spec fn segment_records(input: Seq<u8>, at: int) -> int {
    if get_u16(input, at + 6) == 1 || get_u16(input, at + 6) == 2 {
        get_u32(input, at + 12) as int
    } else {
        0
    }
}

/// The segments from `at` on, checked in turn; `used` records come before
/// them.
pub open spec fn segments_from(
    input: Seq<u8>,
    at: int,
    lengths: RecordLengths,
    manifest: u32,
    facts: Seq<CandidateRecordFacts>,
    used: int,
) -> Result<nat, AdvancedArchiveError>
    decreases input.len() - at,
{
    if at < 0 || at >= input.len() {
        Ok(0)
    } else {
        match segment_check(input, at, lengths, manifest, facts, used) {
            Err(e) => Err(e),
            Ok(_) => match segments_from(
                input,
                segment_end(input, at),
                lengths,
                manifest,
                facts,
                used + segment_records(input, at),
            ) {
                Ok(k) => Ok(k + 1),
                Err(e) => Err(e),
            },
        }
    }
}

/// What validating a KAE9 archive gives: the header, then every segment,
/// then the segment count against the header's. The records of the
/// segments, in archive order, read as `facts`.
pub open spec fn kae9_check(
    input: Seq<u8>,
    lengths: RecordLengths,
    facts: Seq<CandidateRecordFacts>,
) -> Result<(), AdvancedArchiveError> {
    match header_check(input, ArchiveKind::Kae9) {
        Err(e) => Err(e),
        Ok(fields) => match segments_from(input, 128, lengths, fields.0, facts, 0) {
            Err(e) => Err(e),
            Ok(k) => if k != fields.2 {
                Err(AdvancedArchiveError::Count)
            } else {
                Ok(())
            },
        },
    }
}

pub open spec fn add_count(r: Result<nat, AdvancedArchiveError>, k: nat) -> Result<
    nat,
    AdvancedArchiveError,
> {
    match r {
        Ok(n) => Ok(n + k),
        Err(e) => Err(e),
    }
}

fn check_evidence_records(p: &[u8], n: usize, len: usize) -> (r: bool)
    requires
        8 <= len,
        n * len == p@.len(),
    ensures
        r == evidence_records_ok(p@, n as int, len as int),
{
    let mut i: usize = 0;
    let mut o: usize = 0;
    let plen = p.len();
    while i < n
        invariant
            i <= n,
            plen == p@.len(),
            8 <= len,
            n * len == p@.len(),
            o == i * len,
            forall|k: int| 0 <= k < i ==> #[trigger] evidence_record_ok(p@, k * len),
        decreases n - i,
    {
        assert((i + 1) * len <= n * len) by (nonlinear_arith)
            requires
                i < n,
                8 <= len,
        ;
        assert((i + 1) * len == i * len + len) by (nonlinear_arith);
        assert(o + len <= plen);
        if p[o + 4] == 0 || p[o + 6] != 0 || p[o + 7] != 0 {
            assert(!evidence_record_ok(p@, i * len));
            return false;
        }
        i += 1;
        o += len;
    }
    true
}

/// Checks the segment that starts at `at` and gives where it ends.
fn check_segment(
    input: &[u8],
    at: usize,
    lengths: &RecordLengths,
    manifest: u32,
    facts: &[CandidateRecordFacts],
    used: usize,
) -> (r: Result<usize, AdvancedArchiveError>)
    requires
        lengths.wf(),
        at < input@.len(),
        used <= at,
    ensures
        match r {
            Ok(next) => segment_check(input@, at as int, *lengths, manifest, facts@, used as int)
                is Ok && next == segment_end(input@, at as int) && used + segment_records(
                input@,
                at as int,
            ) <= next,
            Err(e) => segment_check(input@, at as int, *lengths, manifest, facts@, used as int)
                == Err::<(), AdvancedArchiveError>(e),
        },
{
    if input.len() - at < 32 {
        return Err(AdvancedArchiveError::Length);
    }
    if input[at] != 0x53 || input[at + 1] != 0x45 || input[at + 2] != 0x39 || input[at + 3] != 0x35 {
        proof {
            let m = input@.subrange(at as int, at + 4);
            if m == segment_magic() {
                assert(m[0] == input@[at as int]);
                assert(m[1] == input@[at + 1]);
                assert(m[2] == input@[at + 2]);
                assert(m[3] == input@[at + 3]);
            }
        }
        return Err(AdvancedArchiveError::Magic);
    }
    assert(input@.subrange(at as int, at + 4) =~= segment_magic());
    if read_u16(input, at + 4) != 1 {
        return Err(AdvancedArchiveError::Magic);
    }
    if input[at + 10] != 0 || input[at + 11] != 0 {
        return Err(AdvancedArchiveError::Checksum);
    }
    let head_crc = crc32(&input[at..at + 28]);
    if read_u32(input, at + 28) != head_crc || read_u32(input, at + 24) == 0 {
        return Err(AdvancedArchiveError::Checksum);
    }
    let kind = read_u16(input, at + 6);
    let n = read_u32(input, at + 12);
    let len = read_u32(input, at + 16);
    if len as usize > input.len() - at - 32 {
        return Err(AdvancedArchiveError::Length);
    }
    let end = at + 32 + len as usize;
    let p = &input[at + 32..end];
    let payload_crc = crc32(p);
    if payload_crc != read_u32(input, at + 20) {
        return Err(AdvancedArchiveError::Checksum);
    }
    if kind == 1 {
        let record = lengths.candidate_length();
        assert((n as u64) * (record as u64) <= 0xffff_ffffu64 * 0x1_0000u64) by (nonlinear_arith)
            requires
                record <= 0x1_0000,
        ;
        if (len as u64) != (n as u64) * (record as u64) {
            return Err(AdvancedArchiveError::Length);
        }
        assert(n <= len) by (nonlinear_arith)
            requires
                len == n * record,
                1 <= record,
        ;
        match check_records(manifest, facts, used, used + n as usize, false) {
            Some(e) => Err(e),
            None => Ok(end),
        }
    } else if kind == 2 {
        let record = lengths.evidence_length();
        assert((n as u64) * (record as u64) <= 0xffff_ffffu64 * 0x1_0008u64) by (nonlinear_arith)
            requires
                record <= 0x1_0008,
        ;
        if (len as u64) != (n as u64) * (record as u64) {
            return Err(AdvancedArchiveError::Length);
        }
        if !check_evidence_records(p, n as usize, record) {
            return Err(AdvancedArchiveError::Record);
        }
        assert(n <= len) by (nonlinear_arith)
            requires
                len == n * record,
                1 <= record,
        ;
        if !check_summaries(facts, used, used + n as usize) {
            return Err(AdvancedArchiveError::Record);
        }
        Ok(end)
    } else {
        Err(AdvancedArchiveError::Version)
    }
}

/// Every record of `from..to` is there and its effector summary parsed.
pub open spec fn summaries_parsed(facts: Seq<CandidateRecordFacts>, lo: int, hi: int) -> bool {
    forall|i: int| lo <= i < hi ==> #[trigger] summary_ok(facts, i)
}

/// Record `i` is there and its effector summary parsed.
pub open spec fn summary_ok(facts: Seq<CandidateRecordFacts>, i: int) -> bool {
    0 <= i < facts.len() && facts[i].summary_parsed
}

proof fn lemma_summaries_within(facts: Seq<CandidateRecordFacts>, a: int, b: int, c: int, d: int)
    requires
        summaries_parsed(facts, a, b),
        a <= c,
        d <= b,
    ensures
        summaries_parsed(facts, c, d),
{
    assert forall|i: int| c <= i < d implies #[trigger] summary_ok(facts, i) by {
        assert(a <= i < b);
    }
}

fn check_summaries(facts: &[CandidateRecordFacts], from: usize, to: usize) -> (r: bool)
    requires
        from <= to,
    ensures
        r == summaries_parsed(facts@, from as int, to as int),
{
    let mut i = from;
    while i < to
        invariant
            from <= i <= to,
            summaries_parsed(facts@, from as int, i as int),
        decreases to - i,
    {
        if i >= facts.len() {
            assert(!summaries_parsed(facts@, from as int, to as int)) by {
                assert(!summary_ok(facts@, i as int));
            }
            return false;
        }
        if !facts[i].summary_parsed {
            assert(!summaries_parsed(facts@, from as int, to as int)) by {
                assert(!summary_ok(facts@, i as int));
            }
            return false;
        }
        assert(summaries_parsed(facts@, from as int, i + 1)) by {
            assert forall|k: int| from <= k < i + 1 implies #[trigger] summary_ok(facts@, k) by {
                if k < i {
                    assert(summary_ok(facts@, k));
                }
            }
        }
        i += 1;
    }
    true
}

fn records_in(input: &[u8], at: usize) -> (r: usize)
    requires
        at + 32 <= input.len(),
    ensures
        r == segment_records(input@, at as int),
{
    let kind = read_u16(input, at + 6);
    if kind == 1 || kind == 2 {
        read_u32(input, at + 12) as usize
    } else {
        0
    }
}

/// Validates a KAE9 archive: its header, then each segment in turn (framing,
/// checksums, record sizes, the fixed bytes of evidence records, and each
/// record as the record parsers read it: `facts`, one per record in archive
/// order, candidates checked against the archive's manifest and evidence
/// summaries required to parse), then the number of segments against the
/// header's count.
pub fn validate_kae9(input: &[u8], lengths: &RecordLengths, facts: &[CandidateRecordFacts]) -> (r:
    Result<(), AdvancedArchiveError>)
    requires
        lengths.wf(),
    ensures
        r == kae9_check(input@, *lengths, facts@),
{
    let fields = match validate_header(input, ArchiveKind::Kae9) {
        Ok(f) => f,
        Err(e) => return Err(e),
    };
    let count = fields.2;
    let manifest = fields.0;
    let mut at: usize = KAE9_HEADER_LENGTH;
    let mut segments: usize = 0;
    let mut used: usize = 0;
    while at < input.len()
        invariant
            128 <= at <= input@.len(),
            segments <= at,
            used <= at,
            lengths.wf(),
            manifest == fields.0,
            header_check(input@, ArchiveKind::Kae9) == Ok::<
                (u32, u32, u32, u32),
                AdvancedArchiveError,
            >(fields),
            segments_from(input@, 128, *lengths, manifest, facts@, 0) == add_count(
                segments_from(input@, at as int, *lengths, manifest, facts@, used as int),
                segments as nat,
            ),
        decreases input@.len() - at,
    {
        match check_segment(input, at, lengths, manifest, facts, used) {
            Err(e) => {
                return Err(e);
            },
            Ok(next) => {
                used = used + records_in(input, at);
                at = next;
                segments += 1;
            },
        }
    }
    if segments != count as usize {
        return Err(AdvancedArchiveError::Count);
    }
    Ok(())
}

// ---------------------------------------------------------------------------
// Writing a KAE9 archive

/// One search generation: its index and, in order, each candidate's encoded
/// design vector followed by its encoded aggregate.
#[derive(Clone, Debug)]
pub struct Kae9Generation {
    pub index: u16,
    pub candidates: Vec<Vec<u8>>,
}

/// The evidence kept for one candidate at one fidelity tier: the encoded
/// effector summary of each evaluated case, in case order.
#[derive(Clone, Debug)]
pub struct Kae9Evidence {
    pub candidate: u32,
    pub tier: u8,
    pub cases: Vec<Vec<u8>>,
}

pub open spec fn byte_views(v: Seq<Vec<u8>>) -> Seq<Seq<u8>> {
    v.map_values(|x: Vec<u8>| x@)
}

pub open spec fn generation_payload(g: Kae9Generation) -> Seq<u8> {
    concat_all(byte_views(g.candidates@))
}

/// One evidence record: candidate identity, tier, case index (its low
/// byte), two zero bytes, then the case's encoded summary.
pub open spec fn evidence_record(candidate: u32, tier: u8, index: int, case: Seq<u8>) -> Seq<u8> {
    le_u32(candidate) + seq![tier, index as u8, 0u8, 0u8] + case
}

pub open spec fn evidence_records(e: Kae9Evidence) -> Seq<Seq<u8>> {
    Seq::new(e.cases@.len(), |k: int| evidence_record(e.candidate, e.tier, k, e.cases@[k]@))
}

pub open spec fn evidence_payload(e: Kae9Evidence) -> Seq<u8> {
    concat_all(evidence_records(e))
}

pub open spec fn generation_segment(g: Kae9Generation) -> Seq<u8> {
    segment_bytes(1, g.index, g.candidates@.len() as u32, generation_payload(g))
}

pub open spec fn evidence_segment(e: Kae9Evidence) -> Seq<u8> {
    segment_bytes(2, e.tier as u16, e.cases@.len() as u32, evidence_payload(e))
}

/// The segments of an archive: one per generation, then one per evidence
/// entry.
pub open spec fn kae9_segments(gens: Seq<Kae9Generation>, evs: Seq<Kae9Evidence>) -> Seq<
    Seq<u8>,
> {
    gens.map_values(|g: Kae9Generation| generation_segment(g)) + evs.map_values(
        |e: Kae9Evidence| evidence_segment(e),
    )
}

pub open spec fn kae9_payload(gens: Seq<Kae9Generation>, evs: Seq<Kae9Evidence>) -> Seq<u8> {
    concat_all(kae9_segments(gens, evs))
}

/// A whole KAE9 archive: header (record length 0) then the segments.
pub open spec fn kae9_bytes(
    manifest: u32,
    study: u32,
    gens: Seq<Kae9Generation>,
    evs: Seq<Kae9Evidence>,
) -> Seq<u8> {
    let p = kae9_payload(gens, evs);
    archive_header(ArchiveKind::Kae9, manifest, study, (gens.len() + evs.len()) as u32, p, 0) + p
}

/// Evidence entries come in strictly ascending `(candidate, tier)` order,
/// so no key occurs twice.
pub open spec fn evidence_keys_ascending(evs: Seq<Kae9Evidence>) -> bool {
    forall|i: int, j: int|
        0 <= i < j < evs.len() ==> (#[trigger] evs[i]).candidate < (#[trigger] evs[j]).candidate
            || (evs[i].candidate == evs[j].candidate && evs[i].tier < evs[j].tier)
}

/// What an archive can hold: counts and lengths that its 32-bit fields
/// can state.
pub open spec fn kae9_writable(gens: Seq<Kae9Generation>, evs: Seq<Kae9Evidence>) -> bool {
    &&& gens.len() + evs.len() <= u32::MAX
    &&& kae9_payload(gens, evs).len() <= u32::MAX
    &&& forall|i: int| 0 <= i < gens.len() ==> (#[trigger] gens[i]).candidates@.len() <= u32::MAX
    &&& forall|i: int| 0 <= i < evs.len() ==> (#[trigger] evs[i]).cases@.len() <= u32::MAX
}

/// A piece of a concatenation is no longer than the whole.
pub proof fn lemma_concat_all_piece(s: Seq<Seq<u8>>, j: int)
    requires
        0 <= j < s.len(),
    ensures
        s[j].len() <= concat_all(s).len(),
    decreases s.len(),
{
    if j < s.len() - 1 {
        lemma_concat_all_piece(s.drop_last(), j);
    }
}

fn generation_bytes(g: &Kae9Generation) -> (r: Vec<u8>)
    ensures
        r@ == generation_payload(*g),
{
    let mut out: Vec<u8> = Vec::new();
    let mut i: usize = 0;
    while i < g.candidates.len()
        invariant
            i <= g.candidates@.len(),
            out@ == concat_all(byte_views(g.candidates@).take(i as int)),
        decreases g.candidates@.len() - i,
    {
        proof {
            assert(byte_views(g.candidates@).take(i + 1) =~= byte_views(g.candidates@).take(
                i as int,
            ).push(g.candidates@[i as int]@));
            lemma_concat_push(byte_views(g.candidates@).take(i as int), g.candidates@[i as int]@);
        }
        put_bytes(&mut out, g.candidates[i].as_slice());
        i += 1;
    }
    assert(byte_views(g.candidates@).take(g.candidates@.len() as int) =~= byte_views(
        g.candidates@,
    ));
    out
}

fn evidence_bytes(e: &Kae9Evidence) -> (r: Vec<u8>)
    ensures
        r@ == evidence_payload(*e),
{
    let mut out: Vec<u8> = Vec::new();
    let mut i: usize = 0;
    while i < e.cases.len()
        invariant
            i <= e.cases@.len(),
            out@ == concat_all(evidence_records(*e).take(i as int)),
        decreases e.cases@.len() - i,
    {
        let ghost rec = evidence_record(e.candidate, e.tier, i as int, e.cases@[i as int]@);
        proof {
            assert(evidence_records(*e).take(i + 1) =~= evidence_records(*e).take(i as int).push(
                rec,
            ));
            lemma_concat_push(evidence_records(*e).take(i as int), rec);
        }
        let ghost before = out@;
        push_u32(&mut out, e.candidate);
        out.push(e.tier);
        out.push(i as u8);
        out.push(0);
        out.push(0);
        put_bytes(&mut out, e.cases[i].as_slice());
        assert(out@ =~= before + rec);
        i += 1;
    }
    assert(evidence_records(*e).take(e.cases@.len() as int) =~= evidence_records(*e));
    out
}

/// Writes a KAE9 archive: one segment per generation (kind 1, the
/// generation's index, its candidate records), then one per evidence entry
/// (kind 2, the tier as index, one record per case), after a header that
/// counts the segments.
#[verifier::spinoff_prover]
#[verifier::rlimit(40)]
pub fn encode_kae9(
    manifest_identity: u32,
    study: u32,
    generations: &Vec<Kae9Generation>,
    evidence: &Vec<Kae9Evidence>,
) -> (r: Result<Vec<u8>, AdvancedArchiveError>)
    requires
        kae9_writable(generations@, evidence@),
        evidence_keys_ascending(evidence@),
    ensures
        r matches Ok(bytes) && bytes@ == kae9_bytes(manifest_identity, study, generations@, evidence@),
{
    let ghost segs = kae9_segments(generations@, evidence@);
    let ghost ng = generations@.len();
    let mut payload: Vec<u8> = Vec::new();
    let mut i: usize = 0;
    while i < generations.len()
        invariant
            i <= generations@.len(),
            ng == generations@.len(),
            segs == kae9_segments(generations@, evidence@),
            kae9_writable(generations@, evidence@),
            payload@ == concat_all(segs.take(i as int)),
        decreases generations@.len() - i,
    {
        let g = &generations[i];
        let gp = generation_bytes(g);
        proof {
            assert(segs[i as int] == generation_segment(*g));
            lemma_concat_all_piece(segs, i as int);
            assert(segs.take(i + 1) =~= segs.take(i as int).push(segs[i as int]));
            lemma_concat_push(segs.take(i as int), segs[i as int]);
        }
        let seg = segment(1, g.index, g.candidates.len() as u32, gp.as_slice());
        put_bytes(&mut payload, seg.as_slice());
        i += 1;
    }
    let mut j: usize = 0;
    while j < evidence.len()
        invariant
            j <= evidence@.len(),
            ng == generations@.len(),
            segs == kae9_segments(generations@, evidence@),
            kae9_writable(generations@, evidence@),
            payload@ == concat_all(segs.take(ng + j)),
        decreases evidence@.len() - j,
    {
        let e = &evidence[j];
        let ep = evidence_bytes(e);
        proof {
            assert(segs[ng + j] == evidence_segment(*e));
            lemma_concat_all_piece(segs, ng + j);
            assert(segs.take(ng + j + 1) =~= segs.take(ng + j).push(segs[ng + j]));
            lemma_concat_push(segs.take(ng + j), segs[ng + j]);
        }
        let seg = segment(2, e.tier as u16, e.cases.len() as u32, ep.as_slice());
        put_bytes(&mut payload, seg.as_slice());
        j += 1;
    }
    assert(segs.take((ng + evidence@.len()) as int) =~= segs);
    let count = (generations.len() + evidence.len()) as u32;
    let mut out = header(ArchiveKind::Kae9, manifest_identity, study, count, payload.as_slice(), 0);
    put_bytes(&mut out, payload.as_slice());
    Ok(out)
}

// ---------------------------------------------------------------------------
// What the record parsers read of a candidate record

/// What the record parsers read of one candidate record: whether its design
/// vector and its aggregate parsed, their manifest identities, the design's
/// identity and the aggregate's candidate identity and feasibility, and
/// (for a finalist) whether its effector summary parsed.
#[derive(Clone, Copy, Debug, PartialEq, Eq, Structural)]
pub struct CandidateRecordFacts {
    pub design_parsed: bool,
    pub design_manifest: u32,
    pub design_identity: u32,
    pub aggregate_parsed: bool,
    pub aggregate_manifest: u32,
    pub candidate_identity: u32,
    pub feasible: bool,
    pub summary_parsed: bool,
}

/// The error that record `i` gives, if any: `Record` where it is missing or
/// does not parse, `Identity` where a manifest identity is not the
/// archive's, the design is not the aggregate's candidate, or a finalist is
/// infeasible. Only a finalist carries a summary.
pub open spec fn record_error(
    manifest: u32,
    facts: Seq<CandidateRecordFacts>,
    i: int,
    finalist: bool,
) -> Option<AdvancedArchiveError> {
    if i < 0 || i >= facts.len() || !facts[i].design_parsed || !facts[i].aggregate_parsed {
        Some(AdvancedArchiveError::Record)
    } else if facts[i].design_manifest != manifest || facts[i].aggregate_manifest != manifest
        || facts[i].design_identity != facts[i].candidate_identity || (finalist
        && !facts[i].feasible) {
        Some(AdvancedArchiveError::Identity)
    } else if finalist && !facts[i].summary_parsed {
        Some(AdvancedArchiveError::Record)
    } else {
        None
    }
}

/// The first error among records `from..to`, checked in order.
pub open spec fn first_record_error(
    manifest: u32,
    facts: Seq<CandidateRecordFacts>,
    from: int,
    to: int,
    finalist: bool,
) -> Option<AdvancedArchiveError>
    decreases to - from,
{
    if from >= to {
        None
    } else {
        match record_error(manifest, facts, from, finalist) {
            Some(e) => Some(e),
            None => first_record_error(manifest, facts, from + 1, to, finalist),
        }
    }
}

/// No record of `from..to` gives an error exactly when none is found.
pub proof fn lemma_first_record_error(
    manifest: u32,
    facts: Seq<CandidateRecordFacts>,
    from: int,
    to: int,
    finalist: bool,
)
    ensures
        first_record_error(manifest, facts, from, to, finalist) is None <==> forall|i: int|
            from <= i < to ==> #[trigger] record_error(manifest, facts, i, finalist) is None,
    decreases to - from,
{
    if from < to {
        lemma_first_record_error(manifest, facts, from + 1, to, finalist);
        if first_record_error(manifest, facts, from, to, finalist) is None {
            assert forall|i: int| from <= i < to implies #[trigger] record_error(
                manifest,
                facts,
                i,
                finalist,
            ) is None by {
                if i > from {
                    assert(from + 1 <= i < to);
                }
            }
        }
        if forall|i: int| from <= i < to ==> #[trigger] record_error(manifest, facts, i, finalist) is None {
            assert(record_error(manifest, facts, from, finalist) is None);
            assert forall|i: int| from + 1 <= i < to implies #[trigger] record_error(
                manifest,
                facts,
                i,
                finalist,
            ) is None by {
                assert(from <= i < to);
            }
        }
    }
}

fn check_record(manifest: u32, facts: &[CandidateRecordFacts], i: usize, finalist: bool) -> (r:
    Option<AdvancedArchiveError>)
    ensures
        r == record_error(manifest, facts@, i as int, finalist),
{
    if i >= facts.len() {
        return Some(AdvancedArchiveError::Record);
    }
    let f = facts[i];
    if !f.design_parsed || !f.aggregate_parsed {
        Some(AdvancedArchiveError::Record)
    } else if f.design_manifest != manifest || f.aggregate_manifest != manifest
        || f.design_identity != f.candidate_identity || (finalist && !f.feasible) {
        Some(AdvancedArchiveError::Identity)
    } else if finalist && !f.summary_parsed {
        Some(AdvancedArchiveError::Record)
    } else {
        None
    }
}

/// Checks records `from..to` in order and gives the first error.
fn check_records(
    manifest: u32,
    facts: &[CandidateRecordFacts],
    from: usize,
    to: usize,
    finalist: bool,
) -> (r: Option<AdvancedArchiveError>)
    requires
        from <= to,
    ensures
        r == first_record_error(manifest, facts@, from as int, to as int, finalist),
{
    let mut i = from;
    while i < to
        invariant
            from <= i <= to,
            first_record_error(manifest, facts@, from as int, to as int, finalist)
                == first_record_error(manifest, facts@, i as int, to as int, finalist),
        decreases to - i,
    {
        match check_record(manifest, facts, i, finalist) {
            Some(e) => {
                return Some(e);
            },
            None => {},
        }
        i += 1;
    }
    None
}

// ---------------------------------------------------------------------------
// KFE9 finalist packages

/// The framing checks of a KFE9 package: the header, then the record
/// length, the finalist limit and the total length against the header's
/// count.
pub open spec fn kfe9_check(input: Seq<u8>, lengths: RecordLengths) -> Result<
    (u32, u32, u32, u32),
    AdvancedArchiveError,
> {
    match header_check(input, ArchiveKind::Kfe9) {
        Err(e) => Err(e),
        Ok(fields) => if fields.3 != lengths.finalist_len() || fields.2 > KFE9_MAX_FINALISTS
            || input.len() != 128 + fields.2 * lengths.finalist_len() {
            Err(AdvancedArchiveError::Length)
        } else {
            Ok(fields)
        },
    }
}

/// What validating a KFE9 package gives once its records are read: the
/// framing checks, then each finalist record in turn, whose facts are
/// `facts[i]` (a missing entry is a record that does not parse).
pub open spec fn kfe9_validation(
    input: Seq<u8>,
    lengths: RecordLengths,
    facts: Seq<CandidateRecordFacts>,
) -> Result<(u32, u32, u32, u32), AdvancedArchiveError> {
    match kfe9_check(input, lengths) {
        Err(e) => Err(e),
        Ok(fields) => match first_record_error(fields.0, facts, 0, fields.2 as int, true) {
            Some(e) => Err(e),
            None => Ok(fields),
        },
    }
}

/// Validates a KFE9 package and gives its header fields: the framing, then
/// each finalist record as the record parsers read it (`facts`, in record
/// order): it must parse, carry the package's manifest identity, pair a
/// design with its own aggregate, and be feasible.
pub fn validate_kfe9(input: &[u8], lengths: &RecordLengths, facts: &[CandidateRecordFacts]) -> (r: Result<
    (u32, u32, u32, u32),
    AdvancedArchiveError,
>)
    requires
        lengths.wf(),
    ensures
        r == kfe9_validation(input@, *lengths, facts@),
{
    let fields = match validate_header(input, ArchiveKind::Kfe9) {
        Ok(f) => f,
        Err(e) => return Err(e),
    };
    let record = lengths.finalist_length();
    if fields.3 as usize != record || fields.2 as usize > KFE9_MAX_FINALISTS {
        return Err(AdvancedArchiveError::Length);
    }
    assert(fields.2 * record <= 32 * 0x1_0000) by (nonlinear_arith)
        requires
            fields.2 <= 32,
            record <= 0x1_0000,
    ;
    if input.len() - 128 != fields.2 as usize * record {
        return Err(AdvancedArchiveError::Length);
    }
    match check_records(fields.0, facts, 0, fields.2 as usize, true) {
        Some(e) => Err(e),
        None => Ok(fields),
    }
}

/// What the package writer reads of a finalist: its candidate identity and
/// whether its aggregate is feasible.
#[derive(Clone, Copy, Debug, PartialEq, Eq, Structural)]
pub struct FinalistMark {
    pub candidate_identity: u32,
    pub feasible: bool,
}

pub open spec fn is_feasible_id(finalists: Seq<FinalistMark>, id: u32) -> bool {
    exists|i: int| 0 <= i < finalists.len() && finalists[i].feasible && finalists[i].candidate_identity == id
}

/// The identities a finalist package keeps: those of the feasible
/// finalists, each once, in ascending order, the smallest
/// `KFE9_MAX_FINALISTS` of them.
pub open spec fn kept_finalist_ids(finalists: Seq<FinalistMark>, ids: Seq<u32>) -> bool {
    &&& ids.len() <= KFE9_MAX_FINALISTS
    &&& forall|a: int, b: int| 0 <= a < b < ids.len() ==> ids[a] < ids[b]
    &&& forall|k: int| 0 <= k < ids.len() ==> is_feasible_id(finalists, #[trigger] ids[k])
    &&& forall|i: int|
        0 <= i < finalists.len() && (#[trigger] finalists[i]).feasible ==> ids.contains(
            finalists[i].candidate_identity,
        ) || (ids.len() == KFE9_MAX_FINALISTS && finalists[i].candidate_identity > ids.last())
}

/// The smallest feasible identity above `floor` (any, without a floor).
fn next_feasible(finalists: &[FinalistMark], floor: Option<u32>) -> (r: Option<u32>)
    ensures
        match r {
            Some(id) => is_feasible_id(finalists@, id) && (floor matches Some(f) ==> id > f)
                && forall|i: int|
                0 <= i < finalists@.len() && finalists@[i].feasible && (floor matches Some(f)
                    ==> finalists@[i].candidate_identity > f) ==> id
                    <= #[trigger] finalists@[i].candidate_identity,
            None => forall|i: int|
                0 <= i < finalists@.len() && (#[trigger] finalists@[i]).feasible ==> (floor matches Some(
                    f,
                ) && finalists@[i].candidate_identity <= f),
        },
{
    let mut best: Option<u32> = None;
    let mut i: usize = 0;
    while i < finalists.len()
        invariant
            i <= finalists@.len(),
            match best {
                Some(id) => is_feasible_id(finalists@, id) && (floor matches Some(f) ==> id > f)
                    && forall|j: int|
                    0 <= j < i && finalists@[j].feasible && (floor matches Some(f)
                        ==> finalists@[j].candidate_identity > f) ==> id
                        <= #[trigger] finalists@[j].candidate_identity,
                None => forall|j: int|
                    0 <= j < i && (#[trigger] finalists@[j]).feasible ==> (floor matches Some(f)
                        && finalists@[j].candidate_identity <= f),
            },
        decreases finalists@.len() - i,
    {
        let f = finalists[i];
        let above = match floor {
            Some(x) => f.candidate_identity > x,
            None => true,
        };
        if f.feasible && above {
            let better = match best {
                Some(b) => f.candidate_identity < b,
                None => true,
            };
            if better {
                best = Some(f.candidate_identity);
            }
        }
        i += 1;
    }
    best
}

/// Chooses the finalists a package keeps: the feasible ones, each identity
/// once, in ascending order, at most `KFE9_MAX_FINALISTS`.
#[verifier::spinoff_prover]
#[verifier::rlimit(40)]
pub fn kfe9_finalist_ids(finalists: &[FinalistMark]) -> (r: Vec<u32>)
    ensures
        kept_finalist_ids(finalists@, r@),
{
    let mut ids: Vec<u32> = Vec::new();
    let mut last: Option<u32> = None;
    while ids.len() < KFE9_MAX_FINALISTS
        invariant
            ids@.len() <= KFE9_MAX_FINALISTS,
            forall|a: int, b: int| 0 <= a < b < ids@.len() ==> ids@[a] < ids@[b],
            forall|k: int| 0 <= k < ids@.len() ==> is_feasible_id(finalists@, #[trigger] ids@[k]),
            last == (if ids@.len() == 0 {
                None::<u32>
            } else {
                Some(ids@.last())
            }),
            forall|i: int|
                0 <= i < finalists@.len() && (#[trigger] finalists@[i]).feasible && (last matches Some(
                    l,
                ) && finalists@[i].candidate_identity <= l) ==> ids@.contains(
                    finalists@[i].candidate_identity,
                ),
        decreases KFE9_MAX_FINALISTS - ids@.len(),
    {
        match next_feasible(finalists, last) {
            None => {
                assert forall|i: int|
                    0 <= i < finalists@.len() && (#[trigger] finalists@[i]).feasible implies ids@.contains(
                    finalists@[i].candidate_identity,
                ) by {}
                return ids;
            },
            Some(id) => {
                let ghost before = ids@;
                ids.push(id);
                assert forall|i: int|
                    0 <= i < finalists@.len() && (#[trigger] finalists@[i]).feasible
                        && finalists@[i].candidate_identity <= id implies ids@.contains(
                    finalists@[i].candidate_identity,
                ) by {
                    let x = finalists@[i].candidate_identity;
                    if x == id {
                        assert(ids@[before.len() as int] == id);
                    } else {
                        if let Some(l) = last {
                            if x <= l {
                                let k = choose|k: int| 0 <= k < before.len() && before[k] == x;
                                assert(ids@[k] == x);
                            }
                        }
                    }
                }
                last = Some(id);
            },
        }
    }
    ids
}

/// A finalist package: the header over the records, then the records.
pub open spec fn kfe9_bytes(
    manifest: u32,
    study: u32,
    records: Seq<Seq<u8>>,
    lengths: RecordLengths,
) -> Seq<u8> {
    archive_header(
        ArchiveKind::Kfe9,
        manifest,
        study,
        records.len() as u32,
        concat_all(records),
        lengths.finalist_len() as u32,
    ) + concat_all(records)
}

/// Writes a finalist package of the chosen finalists' records (each the
/// design, aggregate and summary of one finalist); a package cannot keep
/// more finalists than the last generation had candidates.
pub fn encode_kfe9(
    manifest_identity: u32,
    study_identity: u32,
    records: &[Vec<u8>],
    lengths: &RecordLengths,
    last_generation_size: usize,
) -> (r: Result<Vec<u8>, AdvancedArchiveError>)
    requires
        lengths.wf(),
        records@.len() <= KFE9_MAX_FINALISTS,
        forall|i: int|
            0 <= i < records@.len() ==> (#[trigger] records@[i])@.len() == lengths.finalist_len(),
    ensures
        records@.len() > last_generation_size ==> r == Err::<Vec<u8>, AdvancedArchiveError>(
            AdvancedArchiveError::Count,
        ),
        records@.len() <= last_generation_size ==> (r matches Ok(bytes) && bytes@ == kfe9_bytes(
            manifest_identity,
            study_identity,
            byte_views(records@),
            *lengths,
        )),
{
    if records.len() > last_generation_size {
        return Err(AdvancedArchiveError::Count);
    }
    let ghost recs = byte_views(records@);
    let record = lengths.finalist_length();
    let mut payload: Vec<u8> = Vec::new();
    let mut i: usize = 0;
    while i < records.len()
        invariant
            recs == byte_views(records@),
            records@.len() <= KFE9_MAX_FINALISTS,
            i <= records@.len(),
            record == lengths.finalist_len() <= 0x1_0000,
            forall|k: int|
                0 <= k < records@.len() ==> (#[trigger] records@[k])@.len() == lengths.finalist_len(),
            payload@ == concat_all(recs.take(i as int)),
            payload@.len() == i * record,
        decreases records@.len() - i,
    {
        put_bytes(&mut payload, records[i].as_slice());
        proof {
            assert(recs.take(i + 1) =~= recs.take(i as int).push(recs[i as int]));
            lemma_concat_push(recs.take(i as int), recs[i as int]);
            assert((i + 1) * record == i * record + record) by (nonlinear_arith);
        }
        i += 1;
    }
    assert(recs.take(records@.len() as int) =~= recs);
    assert(payload@.len() <= 32 * 0x1_0000) by (nonlinear_arith)
        requires
            payload@.len() == records@.len() * record,
            records@.len() <= 32,
            record <= 0x1_0000,
    ;
    let h = header(
        ArchiveKind::Kfe9,
        manifest_identity,
        study_identity,
        records.len() as u32,
        payload.as_slice(),
        record as u32,
    );
    let mut out = h;
    put_bytes(&mut out, payload.as_slice());
    Ok(out)
}

/// Every package `encode_kfe9` writes passes `validate_kfe9`, reporting the
/// identities and finalist count it was written with, when each record it
/// was given reads as a feasible finalist of that manifest.
pub proof fn law_written_finalists_validate(
    manifest: u32,
    study: u32,
    records: Seq<Seq<u8>>,
    lengths: RecordLengths,
    facts: Seq<CandidateRecordFacts>,
)
    requires
        lengths.wf(),
        records.len() <= KFE9_MAX_FINALISTS,
        forall|i: int| 0 <= i < records.len() ==> (#[trigger] records[i]).len() == lengths.finalist_len(),
        forall|i: int| 0 <= i < records.len() ==> #[trigger] record_error(manifest, facts, i, true) is None,
    ensures
        kfe9_check(kfe9_bytes(manifest, study, records, lengths), lengths) == Ok::<
            (u32, u32, u32, u32),
            AdvancedArchiveError,
        >((manifest, study, records.len() as u32, lengths.finalist_len() as u32)),
        kfe9_validation(kfe9_bytes(manifest, study, records, lengths), lengths, facts) == Ok::<
            (u32, u32, u32, u32),
            AdvancedArchiveError,
        >((manifest, study, records.len() as u32, lengths.finalist_len() as u32)),
{
    lemma_first_record_error(manifest, facts, 0, records.len() as int, true);
    let payload = concat_all(records);
    lemma_concat_uniform(records, lengths.finalist_len());
    assert(payload.len() <= 32 * 0x1_0000) by (nonlinear_arith)
        requires
            payload.len() == records.len() * lengths.finalist_len(),
            records.len() <= 32,
            lengths.finalist_len() <= 0x1_0000,
    ;
    law_written_header_reads_back(
        ArchiveKind::Kfe9,
        manifest,
        study,
        records.len() as u32,
        payload,
        lengths.finalist_len() as u32,
    );
    assert(archive_header(
        ArchiveKind::Kfe9,
        manifest,
        study,
        records.len() as u32,
        payload,
        lengths.finalist_len() as u32,
    ).len() == 128) by {
        lemma_u16_roundtrip(1);
        lemma_u32_roundtrip(0);
    }
}

/// A validated KFE9 package, read in place.
pub struct AdvancedFinalistPackage<'a> {
    input: &'a [u8],
    record_length: usize,
    pub manifest_identity: u32,
    pub study_identity: u32,
    pub count: u8,
}

impl<'a> AdvancedFinalistPackage<'a> {
    /// The bytes of the package.
    pub closed spec fn bytes(&self) -> Seq<u8> {
        self.input@
    }

    /// Manifest identity, study identity and record count, as read.
    pub closed spec fn fields(&self) -> (u32, u32, int) {
        (self.manifest_identity, self.study_identity, self.count as int)
    }

    /// The length of each finalist record.
    pub closed spec fn record_len(&self) -> int {
        self.record_length as int
    }

    /// Every package that `parse` gives: its bytes pass the checks, with the
    /// fields it reports.
    pub closed spec fn wf(&self) -> bool {
        &&& self.count <= KFE9_MAX_FINALISTS
        &&& 0 < self.record_len() <= 0x1_0000
        &&& self.bytes().len() == 128 + self.count * self.record_len()
    }

    /// The package's manifest identity.
    pub fn manifest_identity(&self) -> (r: u32)
        ensures
            r == self.fields().0,
    {
        self.manifest_identity
    }

    /// The package's study identity.
    pub fn study_identity(&self) -> (r: u32)
        ensures
            r == self.fields().1,
    {
        self.study_identity
    }

    /// How many finalists the package holds.
    pub fn count(&self) -> (r: u8)
        ensures
            r == self.fields().2,
    {
        self.count
    }

    /// Validates a KFE9 package and reads its header fields.
    pub fn parse(input: &'a [u8], lengths: &RecordLengths, facts: &[CandidateRecordFacts]) -> (r:
        Result<Self, AdvancedArchiveError>)
        requires
            lengths.wf(),
        ensures
            match kfe9_validation(input@, *lengths, facts@) {
                Err(e) => r == Err::<Self, AdvancedArchiveError>(e),
                Ok(fields) => r matches Ok(p) && p.wf() && p.bytes() == input@ && p.record_len()
                    == lengths.finalist_len() && p.fields() == (fields.0, fields.1, fields.2 as int),
            },
    {
        let fields = match validate_kfe9(input, lengths, facts) {
            Ok(f) => f,
            Err(e) => return Err(e),
        };
        Ok(AdvancedFinalistPackage {
            input,
            record_length: lengths.finalist_length(),
            manifest_identity: fields.0,
            study_identity: fields.1,
            count: fields.2 as u8,
        })
    }

    /// The bytes of finalist record `index`.
    pub fn record_bytes(&self, index: usize) -> (r: Result<Vec<u8>, AdvancedArchiveError>)
        requires
            self.wf(),
        ensures
            index >= self.fields().2 ==> r == Err::<Vec<u8>, AdvancedArchiveError>(
                AdvancedArchiveError::Count,
            ),
            index < self.fields().2 ==> (r matches Ok(b) && b@ == self.bytes().subrange(
                128 + index * self.record_len(),
                128 + (index + 1) * self.record_len(),
            )),
    {
        if index >= self.count as usize {
            return Err(AdvancedArchiveError::Count);
        }
        let len = self.record_length;
        assert((index + 1) * len <= self.count * len) by (nonlinear_arith)
            requires
                index < self.count,
        ;
        assert((index + 1) * len == index * len + len) by (nonlinear_arith);
        assert(index * len <= 32 * 0x1_0000) by (nonlinear_arith)
            requires
                index < 32,
                len <= 0x1_0000,
        ;
        let at = KFE9_HEADER_LENGTH + index * len;
        let mut out: Vec<u8> = Vec::new();
        put_bytes(&mut out, &self.input[at..at + len]);
        Ok(out)
    }
}

/// The bytes of record `index` of a package whose records are `len` long.
pub open spec fn finalist_record(input: Seq<u8>, len: int, index: int) -> Seq<u8> {
    input.subrange(128 + index * len, 128 + (index + 1) * len)
}

/// Every index names a record and none occurs twice.
pub open spec fn selection_ok(indices: Seq<usize>, count: int) -> bool {
    &&& forall|k: int| 0 <= k < indices.len() ==> #[trigger] indices[k] < count
    &&& forall|k: int, m: int|
        0 <= m < k < indices.len() ==> #[trigger] indices[m] != #[trigger] indices[k]
}

pub open spec fn selected_records(input: Seq<u8>, len: int, indices: Seq<usize>) -> Seq<Seq<u8>> {
    Seq::new(indices.len(), |k: int| finalist_record(input, len, indices[k] as int))
}

/// The facts of the selected records, in the order asked for.
pub open spec fn selected_facts(facts: Seq<CandidateRecordFacts>, indices: Seq<usize>) -> Seq<
    CandidateRecordFacts,
> {
    Seq::new(indices.len(), |k: int| facts[indices[k] as int])
}

/// What `subset_kfe9` gives: the selected records, in the order asked for,
/// under a fresh header with the package's identities.
pub open spec fn subset_result(
    input: Seq<u8>,
    indices: Seq<usize>,
    lengths: RecordLengths,
    facts: Seq<CandidateRecordFacts>,
) -> Result<Seq<u8>, AdvancedArchiveError> {
    match kfe9_validation(input, lengths, facts) {
        Err(e) => Err(e),
        Ok(fields) => if indices.len() > KFE9_MAX_FINALISTS || !selection_ok(
            indices,
            fields.2 as int,
        ) {
            Err(AdvancedArchiveError::Count)
        } else {
            let payload = concat_all(selected_records(input, lengths.finalist_len(), indices));
            Ok(
                archive_header(
                    ArchiveKind::Kfe9,
                    fields.0,
                    fields.1,
                    indices.len() as u32,
                    payload,
                    lengths.finalist_len() as u32,
                ) + payload,
            )
        },
    }
}

/// Writes a package holding only the finalists at `indices`, in that order.
#[verifier::loop_isolation(false)]
pub fn subset_kfe9(
    input: &[u8],
    indices: &[usize],
    lengths: &RecordLengths,
    facts: &[CandidateRecordFacts],
) -> (r: Result<Vec<u8>, AdvancedArchiveError>)
    requires
        lengths.wf(),
    ensures
        match subset_result(input@, indices@, *lengths, facts@) {
            Ok(bytes) => r matches Ok(out) && out@ == bytes,
            Err(e) => r == Err::<Vec<u8>, AdvancedArchiveError>(e),
        },
{
    let package = match AdvancedFinalistPackage::parse(input, lengths, facts) {
        Ok(p) => p,
        Err(e) => return Err(e),
    };
    if indices.len() > KFE9_MAX_FINALISTS {
        return Err(AdvancedArchiveError::Count);
    }
    let len = lengths.finalist_length();
    let ghost recs = selected_records(input@, len as int, indices@);
    let mut payload: Vec<u8> = Vec::new();
    let mut k: usize = 0;
    while k < indices.len()
        invariant
            k <= indices@.len() <= KFE9_MAX_FINALISTS,
            package.wf(),
            package.bytes() == input@,
            package.record_len() == len,
            kfe9_validation(input@, *lengths, facts@) matches Ok(f) && package.fields() == (
                f.0,
                f.1,
                f.2 as int,
            ),
            package.fields().2 == package.count,
            lengths.wf(),
            len == lengths.finalist_len(),
            recs == selected_records(input@, len as int, indices@),
            forall|a: int| 0 <= a < k ==> #[trigger] indices@[a] < package.count,
            forall|a: int, b: int|
                0 <= b < a < k ==> #[trigger] indices@[b] != #[trigger] indices@[a],
            payload@ == concat_all(recs.take(k as int)),
            payload@.len() == k * len,
        decreases indices@.len() - k,
    {
        let index = indices[k];
        if index >= package.count as usize {
            proof {
                assert(!selection_ok(indices@, package.count as int)) by {
                    assert(indices@[k as int] >= package.count);
                }
            }
            return Err(AdvancedArchiveError::Count);
        }
        let mut m: usize = 0;
        while m < k
            invariant
                m <= k < indices@.len(),
                index == indices@[k as int],
                forall|b: int| 0 <= b < m ==> indices@[b] != index,
            decreases k - m,
        {
            if indices[m] == index {
                proof {
                    assert(!selection_ok(indices@, package.count as int)) by {
                        assert(indices@[m as int] == indices@[k as int]);
                    }
                }
                return Err(AdvancedArchiveError::Count);
            }
            m += 1;
        }
        let rec = match package.record_bytes(index) {
            Ok(b) => b,
            Err(e) => return Err(e),
        };
        proof {
            assert((index + 1) * len == index * len + len) by (nonlinear_arith);
            assert((index + 1) * len <= package.count * len) by (nonlinear_arith)
                requires
                    index < package.count,
            ;
            assert(rec@.len() == len);
            assert(recs[k as int] == rec@);
            assert(recs.take(k + 1) =~= recs.take(k as int).push(recs[k as int]));
            lemma_concat_push(recs.take(k as int), recs[k as int]);
            assert((k + 1) * len == k * len + len) by (nonlinear_arith);
        }
        assert(k * len <= 32 * 0x1_0000) by (nonlinear_arith)
            requires
                k <= 32,
                len <= 0x1_0000,
        ;
        put_bytes(&mut payload, rec.as_slice());
        k += 1;
    }
    assert(recs.take(indices@.len() as int) =~= recs);
    assert(selection_ok(indices@, package.count as int));
    assert(payload@.len() <= 32 * 0x1_0000) by (nonlinear_arith)
        requires
            payload@.len() == indices@.len() * len,
            indices@.len() <= 32,
            len <= 0x1_0000,
    ;
    let mut out = header(
        ArchiveKind::Kfe9,
        package.manifest_identity,
        package.study_identity,
        indices.len() as u32,
        payload.as_slice(),
        len as u32,
    );
    put_bytes(&mut out, payload.as_slice());
    Ok(out)
}

/// Joining pieces of one length `len` gives `n * len` bytes, with piece `k`
/// at `k * len`.
pub proof fn lemma_concat_uniform(s: Seq<Seq<u8>>, len: int)
    requires
        0 <= len,
        forall|i: int| 0 <= i < s.len() ==> (#[trigger] s[i]).len() == len,
    ensures
        concat_all(s).len() == s.len() * len,
        forall|k: int|
            0 <= k < s.len() ==> concat_all(s).subrange(k * len, (k + 1) * len) == #[trigger] s[k],
    decreases s.len(),
{
    if s.len() > 0 {
        let n = s.len() as int;
        let front = s.drop_last();
        lemma_concat_uniform(front, len);
        let whole = concat_all(s);
        assert(whole == concat_all(front) + s.last());
        assert(front.len() == n - 1);
        assert(concat_all(front).len() == (n - 1) * len);
        assert((n - 1) * len + len == n * len) by (nonlinear_arith);
        assert forall|k: int| 0 <= k < s.len() implies whole.subrange(k * len, (k + 1) * len)
            == #[trigger] s[k] by {
            if k < n - 1 {
                assert((k + 1) * len <= (n - 1) * len) by (nonlinear_arith)
                    requires
                        k < n - 1,
                        0 <= len,
                ;
                assert(0 <= k * len) by (nonlinear_arith)
                    requires
                        0 <= k,
                        0 <= len,
                ;
                assert((k + 1) * len == k * len + len) by (nonlinear_arith);
                assert(front[k] == s[k]);
                assert(concat_all(front).subrange(k * len, (k + 1) * len) == front[k]);
                assert(whole.subrange(k * len, (k + 1) * len) =~= concat_all(front).subrange(
                    k * len,
                    (k + 1) * len,
                ));
            } else {
                assert(whole.subrange(k * len, (k + 1) * len) =~= s.last());
            }
        }
    }
}

#[verifier::spinoff_prover]
#[verifier::rlimit(40)]
/// A subset package is itself a valid package: it carries the identities of
/// the package it was taken from, as many records as indices were given, and
/// its record `k` is record `indices[k]` of the original.
pub proof fn law_subset_reads_back(
    input: Seq<u8>,
    indices: Seq<usize>,
    lengths: RecordLengths,
    facts: Seq<CandidateRecordFacts>,
)
    requires
        lengths.wf(),
        subset_result(input, indices, lengths, facts) is Ok,
    ensures
        ({
            let out = subset_result(input, indices, lengths, facts)->Ok_0;
            let fields = kfe9_check(input, lengths)->Ok_0;
            &&& kfe9_validation(out, lengths, selected_facts(facts, indices)) == Ok::<
                (u32, u32, u32, u32),
                AdvancedArchiveError,
            >((fields.0, fields.1, indices.len() as u32, lengths.finalist_len() as u32))
            &&& forall|k: int|
                0 <= k < indices.len() ==> finalist_record(out, lengths.finalist_len(), k)
                    == finalist_record(input, lengths.finalist_len(), #[trigger] indices[k] as int)
        }),
{
    let fields = kfe9_check(input, lengths)->Ok_0;
    let sel = selected_facts(facts, indices);
    lemma_first_record_error(fields.0, facts, 0, fields.2 as int, true);
    assert forall|k: int| 0 <= k < indices.len() implies #[trigger] record_error(
        fields.0,
        sel,
        k,
        true,
    ) is None by {
        assert(0 <= indices[k] < fields.2);
        assert(record_error(fields.0, facts, indices[k] as int, true) is None);
    }
    lemma_first_record_error(fields.0, sel, 0, indices.len() as int, true);
    let len = lengths.finalist_len();
    let recs = selected_records(input, len, indices);
    let payload = concat_all(recs);
    let n = fields.2 as int;
    assert forall|i: int| 0 <= i < recs.len() implies (#[trigger] recs[i]).len() == len by {
        let x = indices[i] as int;
        assert(x < n);
        assert((x + 1) * len <= n * len) by (nonlinear_arith)
            requires
                x < n,
                0 <= len,
        ;
        assert((x + 1) * len == x * len + len) by (nonlinear_arith);
        assert(0 <= x * len) by (nonlinear_arith)
            requires
                0 <= x,
                0 <= len,
        ;
    }
    lemma_concat_uniform(recs, len);
    assert(payload.len() <= 32 * 0x1_0000) by (nonlinear_arith)
        requires
            payload.len() == indices.len() * len,
            indices.len() <= 32,
            len <= 0x1_0000,
    ;
    law_written_header_reads_back(
        ArchiveKind::Kfe9,
        fields.0,
        fields.1,
        indices.len() as u32,
        payload,
        len as u32,
    );
    let h = archive_header(
        ArchiveKind::Kfe9,
        fields.0,
        fields.1,
        indices.len() as u32,
        payload,
        len as u32,
    );
    let out = h + payload;
    assert(h.len() == 128);
    assert forall|k: int| 0 <= k < indices.len() implies finalist_record(out, len, k)
        == finalist_record(input, len, #[trigger] indices[k] as int) by {
        assert((k + 1) * len <= indices.len() * len) by (nonlinear_arith)
            requires
                k < indices.len(),
                0 <= len,
        ;
        assert(0 <= k * len) by (nonlinear_arith)
            requires
                0 <= k,
                0 <= len,
        ;
        assert((k + 1) * len == k * len + len) by (nonlinear_arith);
        assert(out.subrange(128 + k * len, 128 + (k + 1) * len) =~= payload.subrange(
            k * len,
            (k + 1) * len,
        ));
        assert(recs[k] == finalist_record(input, len, indices[k] as int));
    }
}

// ---------------------------------------------------------------------------
// Retention on an expansion memory unit

/// How much finalist evidence a memory expansion of a given size keeps.
#[derive(Clone, Copy, Debug, PartialEq, Eq, Structural)]
pub struct AdvancedRetentionPlan {
    pub capacity_bytes: usize,
    pub retained_summaries: usize,
    pub full_histories: usize,
    pub compact_histories: usize,
    pub unused_bytes: usize,
}

pub open spec fn min_of(a: int, b: int) -> int {
    if a <= b {
        a
    } else {
        b
    }
}

/// `a * b`, or `usize::MAX` where that does not fit.
pub open spec fn mul_saturating(a: int, b: int) -> int {
    if a * b > usize::MAX {
        usize::MAX as int
    } else {
        a * b
    }
}

/// `a - b`, or zero where that would be negative.
pub open spec fn sub_saturating(a: int, b: int) -> int {
    if a >= b {
        a - b
    } else {
        0
    }
}

/// The plan for `reu_kib` KiB: with no expansion, up to five summaries and
/// one compact history stay in main memory; otherwise a quarter of the
/// capacity goes to finalist summaries, and what is left goes first to full
/// histories, then to compact histories of the finalists without a full one.
pub open spec fn retention_plan(
    reu_kib: int,
    finalists: int,
    full_bytes: int,
    compact_bytes: int,
    record: int,
) -> AdvancedRetentionPlan {
    if reu_kib == 0 {
        AdvancedRetentionPlan {
            capacity_bytes: 0,
            retained_summaries: min_of(finalists, 5) as usize,
            full_histories: 0,
            compact_histories: if finalists != 0 {
                1
            } else {
                0
            },
            unused_bytes: 0,
        }
    } else {
        let capacity = mul_saturating(reu_kib, 1024);
        let summaries = min_of(finalists, (capacity / 4) / record);
        let after_summaries = sub_saturating(capacity, mul_saturating(summaries, record));
        let full = if full_bytes == 0 {
            0
        } else {
            min_of(finalists, after_summaries / full_bytes)
        };
        let after_full = sub_saturating(after_summaries, mul_saturating(full, full_bytes));
        let compact = if compact_bytes == 0 {
            0
        } else {
            min_of(sub_saturating(finalists, full), after_full / compact_bytes)
        };
        let unused = sub_saturating(after_full, mul_saturating(compact, compact_bytes));
        AdvancedRetentionPlan {
            capacity_bytes: capacity as usize,
            retained_summaries: summaries as usize,
            full_histories: full as usize,
            compact_histories: compact as usize,
            unused_bytes: unused as usize,
        }
    }
}

fn mul_sat(a: usize, b: usize) -> (r: usize)
    ensures
        r == mul_saturating(a as int, b as int),
{
    match a.checked_mul(b) {
        Some(v) => v,
        None => usize::MAX,
    }
}

fn sub_sat(a: usize, b: usize) -> (r: usize)
    ensures
        r == sub_saturating(a as int, b as int),
{
    if a >= b {
        a - b
    } else {
        0
    }
}

/// Plans what finalist evidence a memory expansion of `reu_kib` KiB keeps.
pub fn plan_advanced_retention(
    reu_kib: usize,
    finalist_count: usize,
    full_history_bytes: usize,
    compact_history_bytes: usize,
    lengths: &RecordLengths,
) -> (r: AdvancedRetentionPlan)
    requires
        lengths.wf(),
    ensures
        r == retention_plan(
            reu_kib as int,
            finalist_count as int,
            full_history_bytes as int,
            compact_history_bytes as int,
            lengths.finalist_len(),
        ),
{
    if reu_kib == 0 {
        return AdvancedRetentionPlan {
            capacity_bytes: 0,
            retained_summaries: if finalist_count < 5 {
                finalist_count
            } else {
                5
            },
            full_histories: 0,
            compact_histories: if finalist_count != 0 {
                1
            } else {
                0
            },
            unused_bytes: 0,
        };
    }
    let record = lengths.finalist_length();
    let capacity = mul_sat(reu_kib, 1024);
    let summary_budget = capacity / 4;
    let fit = summary_budget / record;
    let summaries = if finalist_count < fit {
        finalist_count
    } else {
        fit
    };
    let summary_bytes = mul_sat(summaries, record);
    let mut remaining = sub_sat(capacity, summary_bytes);
    let full = if full_history_bytes == 0 {
        0
    } else {
        let fit_full = remaining / full_history_bytes;
        if finalist_count < fit_full {
            finalist_count
        } else {
            fit_full
        }
    };
    remaining = sub_sat(remaining, mul_sat(full, full_history_bytes));
    let compact_candidates = sub_sat(finalist_count, full);
    let compact = if compact_history_bytes == 0 {
        0
    } else {
        let fit_compact = remaining / compact_history_bytes;
        if compact_candidates < fit_compact {
            compact_candidates
        } else {
            fit_compact
        }
    };
    remaining = sub_sat(remaining, mul_sat(compact, compact_history_bytes));
    AdvancedRetentionPlan {
        capacity_bytes: capacity,
        retained_summaries: summaries,
        full_histories: full,
        compact_histories: compact,
        unused_bytes: remaining,
    }
}

proof fn lemma_quotient_fits(m: int, x: int, d: int)
    requires
        0 <= m <= x / d,
        d > 0,
        x >= 0,
    ensures
        0 <= m * d <= x,
{
    assert(m * d <= (x / d) * d) by (nonlinear_arith)
        requires
            0 <= m <= x / d,
            d > 0,
    ;
    assert((x / d) * d <= x) by (nonlinear_arith)
        requires
            d > 0,
            x >= 0,
    ;
    assert(0 <= m * d) by (nonlinear_arith)
        requires
            0 <= m,
            d > 0,
    ;
}

proof fn lemma_quotient_full(m: int, x: int, d: int)
    requires
        m == x / d,
        d > 0,
        x >= 0,
    ensures
        x - m * d < d,
{
    assert(x - (x / d) * d < d) by (nonlinear_arith)
        requires
            d > 0,
            x >= 0,
    ;
}

/// A plan accounts for every byte of an expansion whose size fits the
/// machine word: the summaries, the full and compact histories and the
/// unused bytes add up to exactly the capacity, the summaries take at most
/// a quarter of it, and whatever was left out did not fit: had there been
/// room for one more summary, full history or compact history of a finalist
/// that lacks one, the plan would have kept it.
pub proof fn law_retention_accounts_for_every_byte(
    reu_kib: usize,
    finalist_count: usize,
    full_history_bytes: usize,
    compact_history_bytes: usize,
    lengths: RecordLengths,
)
    requires
        lengths.wf(),
        reu_kib > 0,
        reu_kib * 1024 <= usize::MAX,
    ensures
        ({
            let plan = retention_plan(
                reu_kib as int,
                finalist_count as int,
                full_history_bytes as int,
                compact_history_bytes as int,
                lengths.finalist_len(),
            );
            let record = lengths.finalist_len();
            &&& plan.capacity_bytes == reu_kib * 1024
            &&& plan.retained_summaries * record + plan.full_histories * full_history_bytes
                + plan.compact_histories * compact_history_bytes + plan.unused_bytes
                == plan.capacity_bytes
            &&& plan.retained_summaries * record <= plan.capacity_bytes / 4
            &&& plan.retained_summaries < finalist_count ==> (plan.retained_summaries + 1) * record
                > plan.capacity_bytes / 4
            &&& full_history_bytes > 0 && plan.full_histories < finalist_count
                ==> plan.compact_histories * compact_history_bytes + plan.unused_bytes
                < full_history_bytes
            &&& compact_history_bytes > 0 && plan.full_histories + plan.compact_histories
                < finalist_count ==> plan.unused_bytes < compact_history_bytes
        }),
{
    let record = lengths.finalist_len();
    let fb = full_history_bytes as int;
    let cb = compact_history_bytes as int;
    let n = finalist_count as int;
    let capacity = mul_saturating(reu_kib as int, 1024);
    assert(capacity == reu_kib * 1024);
    let q = (capacity / 4) / record;
    assert(q >= 0) by (nonlinear_arith)
        requires
            q == (capacity / 4) / record,
            capacity >= 0,
            record > 0,
    ;
    let summaries = min_of(n, q);
    lemma_quotient_fits(summaries, capacity / 4, record);
    if summaries < n {
        lemma_quotient_full(summaries, capacity / 4, record);
        assert((summaries + 1) * record == summaries * record + record) by (nonlinear_arith);
    }
    assert(mul_saturating(summaries, record) == summaries * record);
    let after_summaries = capacity - summaries * record;
    assert(sub_saturating(capacity, mul_saturating(summaries, record)) == after_summaries);
    let full = if fb == 0 {
        0
    } else {
        min_of(n, after_summaries / fb)
    };
    if fb != 0 {
        assert(after_summaries / fb >= 0) by (nonlinear_arith)
            requires
                after_summaries >= 0,
                fb > 0,
        ;
        lemma_quotient_fits(full, after_summaries, fb);
        if full < n {
            lemma_quotient_full(full, after_summaries, fb);
        }
    }
    assert(mul_saturating(full, fb) == full * fb);
    let after_full = after_summaries - full * fb;
    assert(sub_saturating(after_summaries, mul_saturating(full, fb)) == after_full);
    let compact = if cb == 0 {
        0
    } else {
        min_of(sub_saturating(n, full), after_full / cb)
    };
    if cb != 0 {
        assert(after_full / cb >= 0) by (nonlinear_arith)
            requires
                after_full >= 0,
                cb > 0,
        ;
        lemma_quotient_fits(compact, after_full, cb);
        if compact < n - full {
            lemma_quotient_full(compact, after_full, cb);
        }
    }
    assert(mul_saturating(compact, cb) == compact * cb);
}

/// Without a memory expansion nothing is kept beyond main memory: no
/// capacity, up to five finalist summaries, no full history, and one
/// compact history when there is any finalist.
pub proof fn law_retention_without_expansion(
    finalist_count: usize,
    full_history_bytes: usize,
    compact_history_bytes: usize,
    lengths: RecordLengths,
)
    requires
        lengths.wf(),
    ensures
        ({
            let plan = retention_plan(
                0,
                finalist_count as int,
                full_history_bytes as int,
                compact_history_bytes as int,
                lengths.finalist_len(),
            );
            &&& plan.capacity_bytes == 0 && plan.unused_bytes == 0 && plan.full_histories == 0
            &&& plan.retained_summaries == if finalist_count < 5 {
                finalist_count
            } else {
                5
            }
            &&& plan.compact_histories == if finalist_count == 0 {
                0usize
            } else {
                1usize
            }
        }),
{
}

/// Whatever the expansion's size, a plan never keeps more summaries than
/// there are finalists, never gives more finalists a history than there
/// are, and never leaves more unused than the capacity.
pub proof fn law_retention_within_bounds(
    reu_kib: usize,
    finalist_count: usize,
    full_history_bytes: usize,
    compact_history_bytes: usize,
    lengths: RecordLengths,
)
    requires
        lengths.wf(),
    ensures
        ({
            let plan = retention_plan(
                reu_kib as int,
                finalist_count as int,
                full_history_bytes as int,
                compact_history_bytes as int,
                lengths.finalist_len(),
            );
            &&& plan.retained_summaries <= finalist_count
            &&& plan.full_histories + plan.compact_histories <= finalist_count
            &&& plan.unused_bytes <= plan.capacity_bytes
        }),
{
    let record = lengths.finalist_len();
    if reu_kib != 0 {
        let capacity = mul_saturating(reu_kib as int, 1024);
        assert(0 <= capacity <= usize::MAX);
        assert((capacity / 4) / record >= 0) by (nonlinear_arith)
            requires
                capacity >= 0,
                record > 0,
        ;
        let summaries = min_of(finalist_count as int, (capacity / 4) / record);
        assert(mul_saturating(summaries, record) >= 0) by (nonlinear_arith)
            requires
                summaries >= 0,
                record > 0,
        ;
        let after_summaries = sub_saturating(capacity, mul_saturating(summaries, record));
        if full_history_bytes != 0 {
            assert(after_summaries / (full_history_bytes as int) >= 0) by (nonlinear_arith)
                requires
                    after_summaries >= 0,
                    full_history_bytes > 0,
            ;
        }
        let full = if full_history_bytes == 0 {
            0
        } else {
            min_of(finalist_count as int, after_summaries / (full_history_bytes as int))
        };
        assert(mul_saturating(full, full_history_bytes as int) >= 0) by (nonlinear_arith)
            requires
                full >= 0,
                full_history_bytes >= 0,
        ;
        let after_full = sub_saturating(
            after_summaries,
            mul_saturating(full, full_history_bytes as int),
        );
        if compact_history_bytes != 0 {
            assert(after_full / (compact_history_bytes as int) >= 0) by (nonlinear_arith)
                requires
                    after_full >= 0,
                    compact_history_bytes > 0,
            ;
        }
        let compact = if compact_history_bytes == 0 {
            0
        } else {
            min_of(
                sub_saturating(finalist_count as int, full),
                after_full / (compact_history_bytes as int),
            )
        };
        assert(mul_saturating(compact, compact_history_bytes as int) >= 0) by (nonlinear_arith)
            requires
                compact >= 0,
                compact_history_bytes >= 0,
        ;
    }
}

// ---------------------------------------------------------------------------
// Reading back what was written

/// A little-endian field read inside a window of a larger sequence reads
/// the same as in the window itself.
proof fn lemma_fields_in_window(input: Seq<u8>, w: Seq<u8>, at: int)
    requires
        0 <= at,
        at + w.len() <= input.len(),
        input.subrange(at, at + w.len()) == w,
    ensures
        forall|off: int| 0 <= off && off + 2 <= w.len() ==> #[trigger] get_u16(input, at + off) == get_u16(w, off),
        forall|off: int| 0 <= off && off + 4 <= w.len() ==> #[trigger] get_u32(input, at + off) == get_u32(w, off),
        forall|k: int| 0 <= k < w.len() ==> #[trigger] input[at + k] == w[k],
{
    assert forall|k: int| 0 <= k < w.len() implies #[trigger] input[at + k] == w[k] by {
        assert(input.subrange(at, at + w.len())[k] == input[at + k]);
    }
    assert forall|off: int| 0 <= off && off + 2 <= w.len() implies #[trigger] get_u16(
        input,
        at + off,
    ) == get_u16(w, off) by {
        assert(input[at + off] == w[off] && input[at + off + 1] == w[off + 1]);
    }
    assert forall|off: int| 0 <= off && off + 4 <= w.len() implies #[trigger] get_u32(
        input,
        at + off,
    ) == get_u32(w, off) by {
        assert(input[at + off] == w[off] && input[at + off + 1] == w[off + 1]);
        assert(input[at + off + 2] == w[off + 2] && input[at + off + 3] == w[off + 3]);
    }
}

/// A segment that passes the checks on its own, ending exactly at its end,
/// when `used` candidate records come before it.
pub open spec fn segment_ok(
    seg: Seq<u8>,
    lengths: RecordLengths,
    manifest: u32,
    facts: Seq<CandidateRecordFacts>,
    used: int,
) -> bool {
    &&& seg.len() >= 32
    &&& segment_check(seg, 0, lengths, manifest, facts, used) is Ok
    &&& segment_end(seg, 0) == seg.len()
}

/// Segment `k` passes the checks on its own, after the records of
/// the segments before it.
pub open spec fn segment_ok_at(
    segs: Seq<Seq<u8>>,
    k: int,
    lengths: RecordLengths,
    manifest: u32,
    facts: Seq<CandidateRecordFacts>,
) -> bool {
    segment_ok(segs[k], lengths, manifest, facts, records_before(segs, k))
}

/// How many records the segments before segment `j` hold.
pub open spec fn records_before(segs: Seq<Seq<u8>>, j: int) -> int
    decreases j,
{
    if j <= 0 {
        0
    } else {
        records_before(segs, j - 1) + segment_records(segs[j - 1], 0)
    }
}

/// The checks on a segment look at its own bytes only.
proof fn lemma_segment_check_local(
    input: Seq<u8>,
    seg: Seq<u8>,
    at: int,
    lengths: RecordLengths,
    manifest: u32,
    facts: Seq<CandidateRecordFacts>,
    used: int,
)
    requires
        0 <= at,
        at + seg.len() <= input.len(),
        input.subrange(at, at + seg.len()) == seg,
        segment_ok(seg, lengths, manifest, facts, used),
    ensures
        segment_check(input, at, lengths, manifest, facts, used) is Ok,
        segment_end(input, at) == at + seg.len(),
        segment_records(input, at) == segment_records(seg, 0),
{
    lemma_fields_in_window(input, seg, at);
    assert(input.subrange(at, at + 4) =~= seg.subrange(0, 4));
    assert(get_u16(input, at + 4) == get_u16(seg, 4));
    assert(get_u16(input, at + 6) == get_u16(seg, 6));
    assert(input[at + 10] == seg[10] && input[at + 11] == seg[11]);
    assert(input.subrange(at, at + 28) =~= seg.subrange(0, 28));
    assert(get_u32(input, at + 12) == get_u32(seg, 12));
    assert(get_u32(input, at + 16) == get_u32(seg, 16));
    assert(get_u32(input, at + 20) == get_u32(seg, 20));
    assert(get_u32(input, at + 24) == get_u32(seg, 24));
    assert(get_u32(input, at + 28) == get_u32(seg, 28));
    let len = get_u32(seg, 16) as int;
    assert(input.subrange(at + 32, at + 32 + len) =~= seg.subrange(32, 32 + len));
}

/// Reading segments from `at` where the rest of the input is exactly the
/// segments from `j` on counts those segments.
#[verifier::spinoff_prover]
#[verifier::rlimit(100)]
proof fn lemma_segments_scan(
    input: Seq<u8>,
    segs: Seq<Seq<u8>>,
    j: int,
    lengths: RecordLengths,
    manifest: u32,
    facts: Seq<CandidateRecordFacts>,
)
    requires
        input.len() >= 128,
        input.subrange(128, input.len() as int) == concat_all(segs),
        0 <= j <= segs.len(),
        forall|k: int| 0 <= k < segs.len() ==> #[trigger] segment_ok_at(segs, k, lengths, manifest, facts),
    ensures
        segments_from(
            input,
            128 + concat_all(segs.take(j)).len() as int,
            lengths,
            manifest,
            facts,
            records_before(segs, j),
        ) == Ok::<nat, AdvancedArchiveError>((segs.len() - j) as nat),
    decreases segs.len() - j,
{
    let n = segs.len() as int;
    lemma_concat_all_append(segs.take(j), segs.skip(j));
    assert(segs.take(j) + segs.skip(j) =~= segs);
    let at: int = 128 + concat_all(segs.take(j)).len() as int;
    if j == n {
        assert(segs.skip(j) =~= Seq::<Seq<u8>>::empty());
        assert(concat_all(segs.skip(j)) =~= Seq::<u8>::empty());
        assert(at == input.len());
    } else {
        let seg = segs[j];
        assert(segment_ok_at(segs, j, lengths, manifest, facts));
        assert(segs.skip(j) =~= seq![seg] + segs.skip(j + 1));
        lemma_concat_all_append(seq![seg], segs.skip(j + 1));
        assert(concat_all(seq![seg]) =~= seg) by {
            assert(seq![seg] =~= Seq::<Seq<u8>>::empty().push(seg));
            lemma_concat_push(Seq::<Seq<u8>>::empty(), seg);
            assert(concat_all(Seq::<Seq<u8>>::empty()) =~= Seq::<u8>::empty());
        }
        let rest = concat_all(segs);
        assert(rest =~= concat_all(segs.take(j)) + seg + concat_all(segs.skip(j + 1)));
        assert(input.subrange(at, at + seg.len()) =~= seg) by {
            assert forall|k: int| 0 <= k < seg.len() implies input.subrange(
                at,
                at + seg.len(),
            )[k] == seg[k] by {
                assert(input[at + k] == rest[at + k - 128]);
            }
        }
        lemma_segment_check_local(input, seg, at, lengths, manifest, facts, records_before(segs, j));
        assert(segs.take(j + 1) =~= segs.take(j).push(seg));
        lemma_concat_push(segs.take(j), seg);
        assert(records_before(segs, j + 1) == records_before(segs, j) + segment_records(
            seg,
            0,
        ));
        assert(128 + concat_all(segs.take(j + 1)).len() == at + seg.len());
        lemma_segments_scan(input, segs, j + 1, lengths, manifest, facts);
    }
}

/// Segments that each pass the checks on their own, under a header that
/// counts them, make an archive that passes validation.
#[verifier::spinoff_prover]
#[verifier::rlimit(80)]
pub proof fn law_valid_segments_make_a_valid_archive(
    manifest: u32,
    study: u32,
    segs: Seq<Seq<u8>>,
    lengths: RecordLengths,
    facts: Seq<CandidateRecordFacts>,
)
    requires
        segs.len() <= u32::MAX,
        concat_all(segs).len() <= u32::MAX,
        forall|k: int| 0 <= k < segs.len() ==> #[trigger] segment_ok_at(segs, k, lengths, manifest, facts),
    ensures
        kae9_check(
            archive_header(
                ArchiveKind::Kae9,
                manifest,
                study,
                segs.len() as u32,
                concat_all(segs),
                0,
            ) + concat_all(segs),
            lengths,
            facts,
        ) == Ok::<(), AdvancedArchiveError>(()),
{
    let payload = concat_all(segs);
    let h = archive_header(ArchiveKind::Kae9, manifest, study, segs.len() as u32, payload, 0);
    let input = h + payload;
    law_written_header_reads_back(ArchiveKind::Kae9, manifest, study, segs.len() as u32, payload, 0);
    assert(input.subrange(128, input.len() as int) =~= payload);
    assert(segs.take(0) =~= Seq::<Seq<u8>>::empty());
    assert(concat_all(segs.take(0)) =~= Seq::<u8>::empty());
    lemma_segments_scan(input, segs, 0, lengths, manifest, facts);
    assert(header_check(input, ArchiveKind::Kae9) == Ok::<(u32, u32, u32, u32), AdvancedArchiveError>(
        (manifest, study, segs.len() as u32, 0u32),
    ));
    assert(segments_from(input, 128, lengths, manifest, facts, 0) == Ok::<nat, AdvancedArchiveError>(
        segs.len(),
    ));
}

/// The fields of a written segment.
proof fn lemma_segment_fields(kind: u16, index: u16, count: u32, payload: Seq<u8>)
    requires
        payload.len() <= u32::MAX,
    ensures
        ({
            let seg = segment_bytes(kind, index, count, payload);
            &&& seg.len() == 32 + payload.len()
            &&& seg.subrange(0, 4) == segment_magic()
            &&& get_u16(seg, 4) == 1
            &&& get_u16(seg, 6) == kind
            &&& seg[10] == 0 && seg[11] == 0
            &&& get_u32(seg, 12) == count
            &&& get_u32(seg, 16) == payload.len()
            &&& get_u32(seg, 20) == crc32_ieee_of(payload)
            &&& get_u32(seg, 28) == crc32_ieee_of(seg.subrange(0, 28))
            &&& seg.subrange(32, 32 + payload.len() as int) == payload
        }),
{
    let prefix = segment_prefix(kind, index, count, payload);
    let head = segment_head(kind, index, count, payload);
    let seg = segment_bytes(kind, index, count, payload);
    lemma_u16_roundtrip(1);
    lemma_u16_roundtrip(kind);
    lemma_u32_roundtrip(count);
    lemma_u32_roundtrip(payload.len() as u32);
    lemma_u32_roundtrip(crc32_ieee_of(payload));
    lemma_u32_roundtrip(crc32_ieee_of(head));
    assert(seg.subrange(0, 4) =~= segment_magic());
    assert(seg.subrange(4, 6) =~= le_u16(1));
    assert(get_u16(seg, 4) == get_u16(le_u16(1), 0));
    assert(seg.subrange(6, 8) =~= le_u16(kind));
    assert(get_u16(seg, 6) == get_u16(le_u16(kind), 0));
    assert(seg.subrange(12, 16) =~= le_u32(count));
    assert(get_u32(seg, 12) == get_u32(le_u32(count), 0));
    assert(seg.subrange(16, 20) =~= le_u32(payload.len() as u32));
    assert(get_u32(seg, 16) == get_u32(le_u32(payload.len() as u32), 0));
    assert(seg.subrange(20, 24) =~= le_u32(crc32_ieee_of(payload)));
    assert(get_u32(seg, 20) == get_u32(le_u32(crc32_ieee_of(payload)), 0));
    assert(seg.subrange(0, 28) =~= head);
    assert(seg.subrange(28, 32) =~= le_u32(crc32_ieee_of(head)));
    assert(get_u32(seg, 28) == get_u32(le_u32(crc32_ieee_of(head)), 0));
    assert(seg.subrange(32, 32 + payload.len() as int) =~= payload);
    assert(seg[10] == prefix[10] && seg[11] == prefix[11]);
}

/// The identity field of a segment.
pub open spec fn segment_identity(seg: Seq<u8>) -> u32 {
    get_u32(seg, 24)
}

/// A written generation segment passes the checks when every candidate
/// record has the candidate length and its identity is not zero.
proof fn lemma_generation_segment_ok(
    g: Kae9Generation,
    lengths: RecordLengths,
    manifest: u32,
    facts: Seq<CandidateRecordFacts>,
    used: int,
)
    requires
        lengths.wf(),
        forall|i: int|
            used <= i < used + g.candidates@.len() ==> #[trigger] record_error(
                manifest,
                facts,
                i,
                false,
            ) is None,
        g.candidates@.len() <= u32::MAX,
        generation_payload(g).len() <= u32::MAX,
        forall|i: int| 0 <= i < g.candidates@.len() ==> (#[trigger] g.candidates@[i])@.len()
            == lengths.candidate_len(),
        segment_identity(generation_segment(g)) != 0,
    ensures
        segment_ok(generation_segment(g), lengths, manifest, facts, used),
{
    lemma_first_record_error(manifest, facts, used, used + g.candidates@.len(), false);
    let payload = generation_payload(g);
    let n = g.candidates@.len();
    lemma_segment_fields(1, g.index, n as u32, payload);
    let views = byte_views(g.candidates@);
    assert forall|i: int| 0 <= i < views.len() implies (#[trigger] views[i]).len()
        == lengths.candidate_len() by {
        assert(views[i] == g.candidates@[i]@);
    }
    lemma_concat_uniform(views, lengths.candidate_len());
    let seg = generation_segment(g);
    assert(seg.subrange(0, 28) =~= seg.subrange(0, 28));
    assert(seg.subrange(32, 32 + payload.len() as int) == payload);
}

/// A written evidence segment passes the checks when its tier is not zero,
/// every case summary has the summary length, and its identity is not zero.
proof fn lemma_evidence_segment_ok(
    e: Kae9Evidence,
    lengths: RecordLengths,
    manifest: u32,
    facts: Seq<CandidateRecordFacts>,
    used: int,
)
    requires
        lengths.wf(),
        e.tier != 0,
        e.cases@.len() <= u32::MAX,
        evidence_payload(e).len() <= u32::MAX,
        forall|i: int| 0 <= i < e.cases@.len() ==> (#[trigger] e.cases@[i])@.len()
            == lengths.summary,
        segment_identity(evidence_segment(e)) != 0,
        summaries_parsed(facts, used, used + e.cases@.len()),
    ensures
        segment_ok(evidence_segment(e), lengths, manifest, facts, used),
{
    let payload = evidence_payload(e);
    let n = e.cases@.len();
    let len = lengths.evidence_len();
    lemma_segment_fields(2, e.tier as u16, n as u32, payload);
    let recs = evidence_records(e);
    assert forall|i: int| 0 <= i < recs.len() implies (#[trigger] recs[i]).len() == len by {
        assert(recs[i] == evidence_record(e.candidate, e.tier, i, e.cases@[i]@));
    }
    lemma_concat_uniform(recs, len);
    assert forall|i: int| 0 <= i < n implies #[trigger] evidence_record_ok(payload, i * len) by {
        let r = recs[i];
        assert(r == evidence_record(e.candidate, e.tier, i, e.cases@[i]@));
        assert((i + 1) * len == i * len + len) by (nonlinear_arith);
        assert(0 <= i * len) by (nonlinear_arith)
            requires
                0 <= i,
                0 <= len,
        ;
        assert((i + 1) * len <= n * len) by (nonlinear_arith)
            requires
                i < n,
                0 <= len,
        ;
        let w = payload.subrange(i * len, (i + 1) * len);
        assert(w == r);
        assert(w[4] == payload[i * len + 4]);
        assert(w[6] == payload[i * len + 6]);
        assert(w[7] == payload[i * len + 7]);
        assert(r[4] == e.tier && r[6] == 0 && r[7] == 0);
    }
}

/// How many candidate records the first `k` generations hold.
pub open spec fn gen_candidates(gens: Seq<Kae9Generation>, k: int) -> int
    decreases k,
{
    if k <= 0 {
        0
    } else {
        gen_candidates(gens, k - 1) + gens[k - 1].candidates@.len()
    }
}

proof fn lemma_gen_candidates_monotone(gens: Seq<Kae9Generation>, a: int, b: int)
    requires
        a <= b,
    ensures
        gen_candidates(gens, a) <= gen_candidates(gens, b),
    decreases b - a,
{
    if a < b {
        lemma_gen_candidates_monotone(gens, a, b - 1);
    }
}

/// In a written archive the segments before segment `k` hold the
/// candidates of the generations before it.
proof fn lemma_written_records_before(
    gens: Seq<Kae9Generation>,
    evs: Seq<Kae9Evidence>,
    k: int,
)
    requires
        kae9_writable(gens, evs),
        0 <= k <= gens.len() + evs.len(),
    ensures
        records_before(kae9_segments(gens, evs), k) == gen_candidates(
            gens,
            if k < gens.len() {
                k
            } else {
                gens.len() as int
            },
        ) + ev_cases(
            evs,
            if k < gens.len() {
                0
            } else {
                k - gens.len()
            },
        ),
    decreases k,
{
    let segs = kae9_segments(gens, evs);
    let ng = gens.len() as int;
    if k > 0 {
        lemma_written_records_before(gens, evs, k - 1);
        lemma_concat_all_piece(segs, k - 1);
        assert(segs[k - 1].len() <= kae9_payload(gens, evs).len());
        if k - 1 < ng {
            let g = gens[k - 1];
            assert(segs[k - 1] == generation_segment(g));
            lemma_segment_fields(1, g.index, g.candidates@.len() as u32, generation_payload(g));
        } else {
            let e = evs[k - 1 - ng];
            assert(segs[k - 1] == evidence_segment(e));
            lemma_segment_fields(2, e.tier as u16, e.cases@.len() as u32, evidence_payload(e));
        }
    }
}

/// How many case records the first `j` evidence entries hold.
pub open spec fn ev_cases(evs: Seq<Kae9Evidence>, j: int) -> int
    decreases j,
{
    if j <= 0 {
        0
    } else {
        ev_cases(evs, j - 1) + evs[j - 1].cases@.len()
    }
}

proof fn lemma_ev_cases_monotone(evs: Seq<Kae9Evidence>, a: int, b: int)
    requires
        a <= b,
    ensures
        ev_cases(evs, a) <= ev_cases(evs, b),
    decreases b - a,
{
    if a < b {
        lemma_ev_cases_monotone(evs, a, b - 1);
    }
}

/// Segment `k` of a written archive passes the checks on its own.
#[verifier::spinoff_prover]
#[verifier::rlimit(80)]
proof fn lemma_written_segment_ok(
    manifest: u32,
    gens: Seq<Kae9Generation>,
    evs: Seq<Kae9Evidence>,
    lengths: RecordLengths,
    facts: Seq<CandidateRecordFacts>,
    k: int,
)
    requires
        lengths.wf(),
        kae9_writable(gens, evs),
        forall|i: int, j: int|
            0 <= i < gens.len() && 0 <= j < gens[i].candidates@.len() ==> (#[trigger] gens[i].candidates@[j])@.len()
                == lengths.candidate_len(),
        forall|i: int|
            0 <= i < gen_candidates(gens, gens.len() as int) ==> #[trigger] record_error(
                manifest,
                facts,
                i,
                false,
            ) is None,
        summaries_parsed(
            facts,
            gen_candidates(gens, gens.len() as int),
            gen_candidates(gens, gens.len() as int) + ev_cases(evs, evs.len() as int),
        ),
        forall|i: int, j: int|
            0 <= i < evs.len() && 0 <= j < evs[i].cases@.len() ==> (#[trigger] evs[i].cases@[j])@.len()
                == lengths.summary,
        forall|i: int| 0 <= i < evs.len() ==> (#[trigger] evs[i]).tier != 0,
        forall|q: int|
            0 <= q < kae9_segments(gens, evs).len() ==> segment_identity(
                #[trigger] kae9_segments(gens, evs)[q],
            ) != 0,
        0 <= k < kae9_segments(gens, evs).len(),
    ensures
        segment_ok_at(kae9_segments(gens, evs), k, lengths, manifest, facts),
{
    let segs = kae9_segments(gens, evs);
    let ng = gens.len() as int;
    lemma_concat_all_piece(segs, k);
    lemma_written_records_before(gens, evs, k);
    if k < ng {
        let g = gens[k];
        let used = gen_candidates(gens, k);
        assert(segs[k] == generation_segment(g));
        assert(segment_identity(segs[k]) != 0);
        lemma_segment_fields(1, g.index, g.candidates@.len() as u32, generation_payload(g));
        assert forall|j: int| 0 <= j < g.candidates@.len() implies (#[trigger] g.candidates@[j])@.len()
            == lengths.candidate_len() by {
            assert(gens[k].candidates@[j]@.len() == lengths.candidate_len());
        }
        lemma_gen_candidates_monotone(gens, k + 1, ng);
        assert(gen_candidates(gens, k + 1) == used + g.candidates@.len());
        assert forall|i: int| used <= i < used + g.candidates@.len() implies #[trigger] record_error(
            manifest,
            facts,
            i,
            false,
        ) is None by {
            lemma_gen_candidates_monotone(gens, 0, k);
            assert(0 <= i < gen_candidates(gens, ng));
        }
        lemma_generation_segment_ok(g, lengths, manifest, facts, used);
    } else {
        let e = evs[k - ng];
        assert(segs[k] == evidence_segment(e));
        assert(segment_identity(segs[k]) != 0);
        lemma_segment_fields(2, e.tier as u16, e.cases@.len() as u32, evidence_payload(e));
        assert forall|j: int| 0 <= j < e.cases@.len() implies (#[trigger] e.cases@[j])@.len()
            == lengths.summary by {
            assert(evs[k - ng].cases@[j]@.len() == lengths.summary);
        }
        let g0 = gen_candidates(gens, ng);
        let used = g0 + ev_cases(evs, k - ng);
        assert(records_before(segs, k) == used);
        lemma_ev_cases_monotone(evs, k - ng + 1, evs.len() as int);
        lemma_ev_cases_monotone(evs, 0, k - ng);
        assert(ev_cases(evs, k - ng + 1) == ev_cases(evs, k - ng) + e.cases@.len());
        assert(ev_cases(evs, 0) == 0);
        let hi = g0 + ev_cases(evs, evs.len() as int);
        assert(g0 <= used);
        assert(used + e.cases@.len() <= hi);
        assert(summaries_parsed(facts, g0, hi));
        lemma_summaries_within(facts, g0, hi, used, used + e.cases@.len());
        lemma_evidence_segment_ok(e, lengths, manifest, facts, used);
    }
}

/// Every archive `encode_kae9` writes passes `validate_kae9`, when each
/// candidate record has the candidate length and reads as a candidate of
/// the archive's manifest, each case summary parses and has the summary
/// length, each
/// evidence tier is not zero, and no segment identity happens to be zero;
/// its header reads back as "KAE9" with the manifest and study identities,
/// the segment count, and the length of what follows the header.
#[verifier::spinoff_prover]
#[verifier::rlimit(80)]
pub proof fn law_written_archive_validates(
    manifest: u32,
    study: u32,
    gens: Seq<Kae9Generation>,
    evs: Seq<Kae9Evidence>,
    lengths: RecordLengths,
    facts: Seq<CandidateRecordFacts>,
)
    requires
        lengths.wf(),
        kae9_writable(gens, evs),
        forall|i: int, j: int|
            0 <= i < gens.len() && 0 <= j < gens[i].candidates@.len() ==> (#[trigger] gens[i].candidates@[j])@.len()
                == lengths.candidate_len(),
        forall|i: int|
            0 <= i < gen_candidates(gens, gens.len() as int) ==> #[trigger] record_error(
                manifest,
                facts,
                i,
                false,
            ) is None,
        summaries_parsed(
            facts,
            gen_candidates(gens, gens.len() as int),
            gen_candidates(gens, gens.len() as int) + ev_cases(evs, evs.len() as int),
        ),
        forall|i: int, j: int|
            0 <= i < evs.len() && 0 <= j < evs[i].cases@.len() ==> (#[trigger] evs[i].cases@[j])@.len()
                == lengths.summary,
        forall|i: int| 0 <= i < evs.len() ==> (#[trigger] evs[i]).tier != 0,
        forall|k: int|
            0 <= k < kae9_segments(gens, evs).len() ==> segment_identity(
                #[trigger] kae9_segments(gens, evs)[k],
            ) != 0,
    ensures
        kae9_check(kae9_bytes(manifest, study, gens, evs), lengths, facts) == Ok::<
            (),
            AdvancedArchiveError,
        >(()),
        header_check(kae9_bytes(manifest, study, gens, evs), ArchiveKind::Kae9) == Ok::<
            (u32, u32, u32, u32),
            AdvancedArchiveError,
        >((manifest, study, (gens.len() + evs.len()) as u32, 0)),
{
    law_written_header_reads_back(
        ArchiveKind::Kae9,
        manifest,
        study,
        (gens.len() + evs.len()) as u32,
        kae9_payload(gens, evs),
        0,
    );
    let segs = kae9_segments(gens, evs);
    let ng = gens.len() as int;
    assert forall|k: int| 0 <= k < segs.len() implies #[trigger] segment_ok_at(
        segs,
        k,
        lengths,
        manifest,
        facts,
    ) by {
        lemma_written_segment_ok(manifest, gens, evs, lengths, facts, k);
    }
    assert(segs.len() == gens.len() + evs.len());
    law_valid_segments_make_a_valid_archive(manifest, study, segs, lengths, facts);
}

} // verus!
