//! Campaign files: the candidate list a campaign runs, and the numbered
//! slots in which it keeps its run records, behind a record header or on
//! their own, written and read back.
use crate::archive::byte_views;
use crate::campaign::Phase85CampaignAggregate;
use crate::crc::{crc32, crc32_ieee_of};
use crate::le::{
    get_u16, get_u32, le_i32, le_u16, le_u32, lemma_u16_roundtrip, lemma_u32_roundtrip, push_u16,
    push_u32, push_zeros, read_u16, read_u32, rotate_left, rotl, zeros,
};
use crate::plot::{any_nonzero, find_nonzero};
use crate::session::{concat_all, lemma_concat_all_append, lemma_concat_push, put_bytes};
use vstd::prelude::*;
use vstd::slice::slice_to_vec;

verus! {

/// The number of runs in an avionics campaign.
pub const PHASE85_CAMPAIGN_RUNS: u32 = 64;

/// One slot: its index, a tag word, then the run record.
pub open spec fn slot_bytes(index: int, tag: u32, record: Seq<u8>) -> Seq<u8> {
    le_u32(index as u32) + le_u32(tag) + record
}

/// The slots of `records`, numbered from `first`, each with its tag.
pub open spec fn slot_list(records: Seq<Seq<u8>>, tags: Seq<u32>, first: int) -> Seq<Seq<u8>> {
    Seq::new(records.len(), |i: int| slot_bytes(first + i, tags[i], records[i]))
}

/// The records of `count` slots of `record_length`-byte records from `at`
/// on, numbered from `first`: each slot's index word must be its number
/// and, where `tag` is given, its tag word must be `tag`.
pub open spec fn read_slots(
    s: Seq<u8>,
    at: int,
    first: int,
    count: int,
    tag: Option<u32>,
    record_length: int,
) -> Option<Seq<Seq<u8>>>
    decreases count,
{
    if count <= 0 {
        Some(Seq::empty())
    } else if get_u32(s, at) != first as u32 || (tag matches Some(t) && get_u32(s, at + 4) != t) {
        None
    } else {
        match read_slots(s, at + 8 + record_length, first + 1, count - 1, tag, record_length) {
            Some(rest) => Some(seq![s.subrange(at + 8, at + 8 + record_length)] + rest),
            None => None,
        }
    }
}

/// Reads `count` slots from `start`, which fill the rest of `input`, and
/// gives their records and the records' concatenation.
fn read_slot_records(
    input: &[u8],
    start: usize,
    count: usize,
    tag: Option<u32>,
    record_length: usize,
) -> (r: Option<(Vec<Vec<u8>>, Vec<u8>)>)
    requires
        record_length <= usize::MAX - 8,
        count <= 0x1_0000_0000,
        start + count * (8 + record_length) == input@.len(),
    ensures
        match read_slots(input@, start as int, 0, count as int, tag, record_length as int) {
            None => r is None,
            Some(recs) => r matches Some(p) && byte_views(p.0@) == recs && p.1@ == concat_all(
                recs,
            ),
        },
{
    let ghost s = input@;
    let ghost rl = record_length as int;
    let n = input.len();
    let slot = 8 + record_length;
    let mut records: Vec<Vec<u8>> = Vec::new();
    let mut joined: Vec<u8> = Vec::new();
    let mut at = start;
    let mut i: usize = 0;
    while i < count
        invariant
            s == input@,
            n == s.len(),
            rl == record_length,
            slot == 8 + record_length,
            count <= 0x1_0000_0000,
            i <= count,
            at == start + i * slot,
            s.len() == start + count * slot,
            read_slots(s, start as int, 0, count as int, tag, rl) == match read_slots(
                s,
                at as int,
                i as int,
                (count - i) as int,
                tag,
                rl,
            ) {
                Some(rest) => Some(byte_views(records@) + rest),
                None => None::<Seq<Seq<u8>>>,
            },
            joined@ == concat_all(byte_views(records@)),
        decreases count - i,
    {
        assert(at + slot <= s.len()) by (nonlinear_arith)
            requires
                at == start + i * slot,
                s.len() == start + count * slot,
                i < count,
        ;
        let index = read_u32(input, at);
        if index as usize != i {
            return None;
        }
        if let Some(t) = tag {
            if read_u32(input, at + 4) != t {
                return None;
            }
        }
        let record = slice_to_vec(&input[at + 8..at + slot]);
        let ghost before = byte_views(records@);
        let ghost rec = s.subrange(at + 8, at + slot);
        assert(record@ == rec);
        put_bytes(&mut joined, &record);
        proof {
            lemma_concat_push(before, rec);
        }
        records.push(record);
        assert(byte_views(records@) =~= before.push(rec));
        proof {
            let rest = read_slots(s, at + slot, i + 1, count - i - 1, tag, rl);
            if let Some(r) = rest {
                assert(before + (seq![rec] + r) =~= before.push(rec) + r);
            }
        }
        assert(at + slot == start + (i + 1) * slot) by (nonlinear_arith)
            requires
                at == start + i * slot,
        ;
        at = at + slot;
        i += 1;
    }
    Some((records, joined))
}

/// Writes the slots of `records`, numbered from 0, with tags `tags`.
fn write_slots(out: &mut Vec<u8>, records: &[Vec<u8>], tags: &[u32])
    requires
        records@.len() <= tags@.len(),
        records@.len() <= 0x1_0000_0000,
    ensures
        final(out)@ == old(out)@ + concat_all(slot_list(byte_views(records@), tags@, 0)),
{
    let ghost start = old(out)@;
    let ghost recs = byte_views(records@);
    let mut i: usize = 0;
    while i < records.len()
        invariant
            recs == byte_views(records@),
            records@.len() <= tags@.len(),
            records@.len() <= 0x1_0000_0000,
            i <= records@.len(),
            out@ == start + concat_all(slot_list(recs.take(i as int), tags@, 0)),
        decreases records@.len() - i,
    {
        let ghost before = out@;
        push_u32(out, i as u32);
        push_u32(out, tags[i]);
        put_bytes(out, &records[i]);
        proof {
            let done = slot_list(recs.take(i as int), tags@, 0);
            let slot = slot_bytes(i as int, tags@[i as int], recs[i as int]);
            assert(slot_list(recs.take(i + 1), tags@, 0) =~= done.push(slot));
            lemma_concat_push(done, slot);
            assert(out@ =~= start + concat_all(done) + slot);
        }
        i += 1;
    }
    assert(recs.take(records@.len() as int) =~= recs);
}

/// Slots read back as the records they were written with.
proof fn lemma_read_written_slots(
    prefix: Seq<u8>,
    records: Seq<Seq<u8>>,
    tags: Seq<u32>,
    first: int,
    tag: Option<u32>,
    record_length: int,
)
    requires
        0 <= first,
        first + records.len() <= 0x1_0000_0000,
        records.len() <= tags.len(),
        forall|i: int| 0 <= i < records.len() ==> (#[trigger] records[i]).len() == record_length,
        forall|i: int| 0 <= i < records.len() ==> (tag matches Some(t) ==> #[trigger] tags[i] == t),
    ensures
        read_slots(
            prefix + concat_all(slot_list(records, tags, first)),
            prefix.len() as int,
            first,
            records.len() as int,
            tag,
            record_length,
        ) == Some(records),
    decreases records.len(),
{
    let s = prefix + concat_all(slot_list(records, tags, first));
    let p = prefix.len() as int;
    if records.len() == 0 {
        assert(records =~= Seq::<Seq<u8>>::empty());
    } else {
        let slot0 = slot_bytes(first, tags[0], records[0]);
        let rest = records.drop_first();
        let rest_tags = tags.drop_first();
        assert(slot_list(records, tags, first) =~= seq![slot0] + slot_list(rest, rest_tags, first + 1));
        lemma_concat_all_append(seq![slot0], slot_list(rest, rest_tags, first + 1));
        lemma_concat_push(Seq::empty(), slot0);
        assert(seq![slot0] =~= Seq::<Seq<u8>>::empty().push(slot0));
        assert(concat_all(seq![slot0]) =~= slot0);
        let next = prefix + slot0;
        assert(s =~= next + concat_all(slot_list(rest, rest_tags, first + 1)));
        lemma_u32_roundtrip(first as u32);
        lemma_u32_roundtrip(tags[0]);
        assert(s.subrange(p, p + 4) =~= le_u32(first as u32));
        assert(s.subrange(p + 4, p + 8) =~= le_u32(tags[0]));
        assert(get_u32(s, p) == get_u32(s.subrange(p, p + 4), 0));
        assert(get_u32(s, p + 4) == get_u32(s.subrange(p + 4, p + 8), 0));
        assert(s.subrange(p + 8, p + 8 + record_length) =~= records[0]);
        assert forall|i: int| 0 <= i < rest.len() implies (#[trigger] rest[i]).len()
            == record_length by {
            assert(rest[i] == records[i + 1]);
        }
        assert forall|i: int| 0 <= i < rest.len() implies (tag matches Some(t) ==> #[trigger] rest_tags[i]
            == t) by {
            assert(rest_tags[i] == tags[i + 1]);
        }
        lemma_read_written_slots(next, rest, rest_tags, first + 1, tag, record_length);
        assert(next.len() == p + 8 + record_length);
        assert(seq![records[0]] + rest =~= records);
    }
}

/// The concatenated slots are as long as their records and words.
proof fn lemma_slots_length(records: Seq<Seq<u8>>, tags: Seq<u32>, first: int, record_length: int)
    requires
        0 <= record_length,
        forall|i: int| 0 <= i < records.len() ==> (#[trigger] records[i]).len() == record_length,
    ensures
        concat_all(slot_list(records, tags, first)).len() == records.len() * (8 + record_length),
    decreases records.len(),
{
    if records.len() > 0 {
        let init = records.drop_last();
        assert forall|i: int| 0 <= i < init.len() implies (#[trigger] init[i]).len()
            == record_length by {
            assert(init[i] == records[i]);
        }
        lemma_slots_length(init, tags, first, record_length);
        let list = slot_list(records, tags, first);
        let last = records.len() - 1;
        assert(list.drop_last() =~= slot_list(init, tags, first));
        assert(list.last() == slot_bytes(first + last, tags[last], records[last]));
        assert(slot_bytes(first + last, tags[last], records[last]).len() == 8 + record_length);
        assert(concat_all(list) == concat_all(list.drop_last()) + list.last());
        assert(records.len() * (8 + record_length) == init.len() * (8 + record_length) + 8
            + record_length) by (nonlinear_arith)
            requires
                records.len() == init.len() + 1,
        ;
    } else {
        assert(slot_list(records, tags, first).len() == 0);
        assert(records.len() * (8 + record_length) == 0) by (nonlinear_arith)
            requires
                records.len() == 0,
        ;
    }
}

// ---------------------------------------------------------------------------
// Archives behind a record header

/// The words a run archive's header carries after its first 32 bytes: the
/// campaign's master seed and run count, the slot length, and the CRC-32 of
/// the run records.
pub open spec fn run_archive_words(seed: u32, runs: u32, slot_length: u32, records_crc32: u32) -> Seq<
    u8,
> {
    le_u32(seed) + le_u32(runs) + le_u32(slot_length) + le_u32(records_crc32)
}

/// A run archive behind a `header_length`-byte record header, before the
/// record library stamps and seals the header's first 32 bytes: the header
/// words, the rest of the header zero, then one slot per record, numbered
/// from 0 and tagged with the record length.
pub open spec fn run_archive_bytes(
    header_length: int,
    seed: u32,
    runs: u32,
    records: Seq<Seq<u8>>,
    record_length: int,
    records_crc32: u32,
) -> Seq<u8> {
    zeros(32) + run_archive_words(seed, runs, (8 + record_length) as u32, records_crc32) + zeros(
        (header_length - 48) as nat,
    ) + concat_all(
        slot_list(records, Seq::new(records.len(), |i: int| record_length as u32), 0),
    )
}

/// The records of a run archive behind a `header_length`-byte record
/// header: the slot length word must be the slot length, the archive must
/// hold exactly the counted slots, each slot its number and the record
/// length, and the records' CRC-32 must be the one the header carries.
pub open spec fn run_archive_records(s: Seq<u8>, header_length: int, record_length: int) -> Option<
    Seq<Seq<u8>>,
> {
    if s.len() < header_length {
        None
    } else if get_u32(s, 40) != 8 + record_length || s.len() != header_length + get_u32(s, 36) * (8
        + record_length) {
        None
    } else {
        match read_slots(
            s,
            header_length,
            0,
            get_u32(s, 36) as int,
            Some(record_length as u32),
            record_length,
        ) {
            None => None,
            Some(records) => if crc32_ieee_of(concat_all(records)) == get_u32(s, 44) {
                Some(records)
            } else {
                None
            },
        }
    }
}

/// Lays out the run archive of a campaign (hobby or spatial) behind a
/// `header_length`-byte record header: the master seed, run count, slot
/// length and records' CRC-32 in the header, then the numbered slots. The
/// header's record kind, identity and seal are left for the record library.
pub fn run_archive_layout(
    header_length: usize,
    master_seed: u32,
    run_count: u32,
    records: &[Vec<u8>],
    record_length: usize,
    records_crc32: u32,
) -> (r: Vec<u8>)
    requires
        48 <= header_length,
        record_length <= 0xffff_ffff - 8,
        records@.len() <= 0x1_0000_0000,
    ensures
        r@ == run_archive_bytes(
            header_length as int,
            master_seed,
            run_count,
            byte_views(records@),
            record_length as int,
            records_crc32,
        ),
{
    let mut out: Vec<u8> = Vec::new();
    push_zeros(&mut out, 32);
    push_u32(&mut out, master_seed);
    push_u32(&mut out, run_count);
    push_u32(&mut out, (8 + record_length) as u32);
    push_u32(&mut out, records_crc32);
    push_zeros(&mut out, header_length - 48);
    let mut tags: Vec<u32> = Vec::new();
    let mut i: usize = 0;
    while i < records.len()
        invariant
            i <= records@.len(),
            record_length <= 0xffff_ffff - 8,
            tags@ == Seq::new(i as nat, |k: int| record_length as u32),
        decreases records@.len() - i,
    {
        tags.push(record_length as u32);
        i += 1;
        assert(tags@ =~= Seq::new(i as nat, |k: int| record_length as u32));
    }
    let ghost before = out@;
    write_slots(&mut out, records, &tags);
    assert(before =~= zeros(32) + run_archive_words(
        master_seed,
        run_count,
        (8 + record_length) as u32,
        records_crc32,
    ) + zeros((header_length - 48) as nat));
    out
}

/// Reads the records of a run archive (hobby or spatial) behind a
/// `header_length`-byte record header, whose kind and seal the record
/// library has already checked: the slot length, the slots' numbers and
/// tags, and the records' CRC-32 must all agree.
pub fn read_run_archive(input: &[u8], header_length: usize, record_length: usize) -> (r: Option<
    Vec<Vec<u8>>,
>)
    requires
        48 <= header_length,
        record_length <= 0xffff_ffff - 8,
    ensures
        match run_archive_records(input@, header_length as int, record_length as int) {
            Some(records) => r matches Some(v) && byte_views(v@) == records,
            None => r is None,
        },
{
    let n = input.len();
    if n < header_length {
        return None;
    }
    let count = read_u32(input, 36) as usize;
    let slot = 8 + record_length;
    if read_u32(input, 40) as usize != slot {
        return None;
    }
    match count.checked_mul(slot) {
        None => {
            return None;
        },
        Some(total) => {
            if n - header_length != total {
                return None;
            }
        },
    }
    match read_slot_records(input, header_length, count, Some(record_length as u32), record_length) {
        None => None,
        Some((records, joined)) => {
            if crc32(&joined) == read_u32(input, 44) {
                Some(records)
            } else {
                None
            }
        },
    }
}

/// A run archive whose header carries its run count and the CRC-32 of its
/// records reads back as exactly those records.
pub proof fn law_run_archive_reads_back(
    header_length: int,
    seed: u32,
    records: Seq<Seq<u8>>,
    record_length: int,
)
    requires
        48 <= header_length,
        0 <= record_length <= 0xffff_ffff - 8,
        records.len() <= u32::MAX,
        forall|i: int| 0 <= i < records.len() ==> (#[trigger] records[i]).len() == record_length,
    ensures
        run_archive_records(
            run_archive_bytes(
                header_length,
                seed,
                records.len() as u32,
                records,
                record_length,
                crc32_ieee_of(concat_all(records)),
            ),
            header_length,
            record_length,
        ) == Some(records),
{
    let crc = crc32_ieee_of(concat_all(records));
    let n = records.len() as u32;
    let tags = Seq::new(records.len(), |i: int| record_length as u32);
    let prefix = zeros(32) + run_archive_words(seed, n, (8 + record_length) as u32, crc) + zeros(
        (header_length - 48) as nat,
    );
    let s = run_archive_bytes(header_length, seed, n, records, record_length, crc);
    assert(s == prefix + concat_all(slot_list(records, tags, 0)));
    lemma_slots_length(records, tags, 0, record_length);
    lemma_u32_roundtrip(n);
    lemma_u32_roundtrip((8 + record_length) as u32);
    lemma_u32_roundtrip(crc);
    assert(prefix.len() == header_length);
    assert(s.subrange(36, 40) =~= le_u32(n));
    assert(s.subrange(40, 44) =~= le_u32((8 + record_length) as u32));
    assert(s.subrange(44, 48) =~= le_u32(crc));
    assert(get_u32(s, 36) == get_u32(s.subrange(36, 40), 0));
    assert(get_u32(s, 40) == get_u32(s.subrange(40, 44), 0));
    assert(get_u32(s, 44) == get_u32(s.subrange(44, 48), 0));
    lemma_read_written_slots(prefix, records, tags, 0, Some(record_length as u32), record_length);
}

// ---------------------------------------------------------------------------
// The avionics campaign archive

/// An avionics campaign's run records, the variation checksum each run was
/// drawn with, and the campaign's aggregate.
#[derive(Clone, Debug, PartialEq, Eq)]
pub struct Phase85CampaignResult {
    pub records: Vec<Vec<u8>>,
    pub variation_checksums: Vec<u32>,
    pub aggregate: Phase85CampaignAggregate,
}

/// The slots of an avionics campaign: each run's record tagged with its
/// variation checksum; a run without a checksum leaves its slot zero.
pub open spec fn phase85_archive_bytes(
    records: Seq<Seq<u8>>,
    variation_checksums: Seq<u32>,
    record_length: int,
) -> Seq<u8> {
    concat_all(
        Seq::new(
            records.len(),
            |i: int|
                if i < variation_checksums.len() {
                    slot_bytes(i, variation_checksums[i], records[i])
                } else {
                    zeros((8 + record_length) as nat)
                },
        ),
    )
}

/// Writes an avionics campaign's runs as numbered slots, each tagged with
/// the run's variation checksum.
pub fn encode_phase85_campaign(result: &Phase85CampaignResult, record_length: usize) -> (r: Vec<u8>)
    requires
        record_length <= usize::MAX - 8,
        result.records@.len() <= 0x1_0000_0000,
        forall|i: int|
            0 <= i < result.records@.len() ==> (#[trigger] result.records@[i])@.len()
                == record_length,
    ensures
        r@ == phase85_archive_bytes(
            byte_views(result.records@),
            result.variation_checksums@,
            record_length as int,
        ),
{
    let records = &result.records;
    let variations = &result.variation_checksums;
    let ghost recs = byte_views(records@);
    let ghost slots = Seq::new(
        recs.len(),
        |i: int|
            if i < variations@.len() {
                slot_bytes(i, variations@[i], recs[i])
            } else {
                zeros((8 + record_length) as nat)
            },
    );
    let mut out: Vec<u8> = Vec::new();
    let mut i: usize = 0;
    while i < records.len()
        invariant
            recs == byte_views(records@),
            slots.len() == recs.len(),
            forall|k: int|
                0 <= k < recs.len() ==> #[trigger] slots[k] == (if k < variations@.len() {
                    slot_bytes(k, variations@[k], recs[k])
                } else {
                    zeros((8 + record_length) as nat)
                }),
            records@.len() <= 0x1_0000_0000,
            record_length <= usize::MAX - 8,
            i <= records@.len(),
            out@ == concat_all(slots.take(i as int)),
        decreases records@.len() - i,
    {
        let ghost before = out@;
        if i < variations.len() {
            push_u32(&mut out, i as u32);
            push_u32(&mut out, variations[i]);
            put_bytes(&mut out, &records[i]);
            assert(out@ =~= before + slots[i as int]);
        } else {
            push_zeros(&mut out, 8 + record_length);
        }
        proof {
            assert(slots.take(i + 1) =~= slots.take(i as int).push(slots[i as int]));
            lemma_concat_push(slots.take(i as int), slots[i as int]);
        }
        i += 1;
    }
    assert(slots.take(records@.len() as int) =~= slots);
    out
}

/// The run records of an avionics campaign archive: exactly the campaign's
/// slots, each numbered in order; the tags are not checked.
pub open spec fn phase85_archive_records(s: Seq<u8>, record_length: int) -> Option<Seq<Seq<u8>>> {
    if s.len() != PHASE85_CAMPAIGN_RUNS * (8 + record_length) {
        None
    } else {
        read_slots(s, 0, 0, PHASE85_CAMPAIGN_RUNS as int, None, record_length)
    }
}

/// Reads the run records of an avionics campaign archive, for the record
/// library to parse each one.
pub fn validate_phase85_campaign(input: &[u8], record_length: usize) -> (r: Option<Vec<Vec<u8>>>)
    requires
        record_length <= 0xffff_ffff - 8,
    ensures
        match phase85_archive_records(input@, record_length as int) {
            Some(records) => r matches Some(v) && byte_views(v@) == records,
            None => r is None,
        },
{
    let n = input.len();
    let slot = 8 + record_length;
    let runs = PHASE85_CAMPAIGN_RUNS as usize;
    match runs.checked_mul(slot) {
        None => {
            return None;
        },
        Some(total) => {
            if n != total {
                return None;
            }
        },
    }
    match read_slot_records(input, 0, runs, None, record_length) {
        None => None,
        Some((records, _)) => Some(records),
    }
}

/// An avionics campaign archive of a full campaign, each run with its
/// variation checksum, reads back as the campaign's run records.
pub proof fn law_phase85_campaign_reads_back(
    records: Seq<Seq<u8>>,
    variation_checksums: Seq<u32>,
    record_length: int,
)
    requires
        records.len() == PHASE85_CAMPAIGN_RUNS,
        variation_checksums.len() == records.len(),
        0 <= record_length,
        forall|i: int| 0 <= i < records.len() ==> (#[trigger] records[i]).len() == record_length,
    ensures
        phase85_archive_records(
            phase85_archive_bytes(records, variation_checksums, record_length),
            record_length,
        ) == Some(records),
{
    let s = phase85_archive_bytes(records, variation_checksums, record_length);
    let slots = slot_list(records, variation_checksums, 0);
    assert(Seq::new(
        records.len(),
        |i: int|
            if i < variation_checksums.len() {
                slot_bytes(i, variation_checksums[i], records[i])
            } else {
                zeros((8 + record_length) as nat)
            },
    ) =~= slots);
    lemma_slots_length(records, variation_checksums, 0, record_length);
    assert(Seq::<u8>::empty() + concat_all(slots) =~= s);
    lemma_read_written_slots(Seq::empty(), records, variation_checksums, 0, None, record_length);
}

// ---------------------------------------------------------------------------
// Candidate lists

/// The length of one candidate's record in a candidate list.
pub const CANDIDATE_RECORD_LENGTH: usize = 20;

/// One design of a hobby-rocket campaign: the dry-mass and body-drag scales
/// in parts per million, the main parachute's deployment altitude and the
/// launch rail's length.
#[derive(Clone, Copy, Debug, PartialEq, Eq, Structural)]
pub struct HobbyDesignVector {
    pub dry_mass_scale_ppm: i32,
    pub body_drag_scale_ppm: i32,
    pub main_deployment_altitude_raw: i32,
    pub rail_length_raw: i32,
}

/// The record identity of a candidate list for a base vehicle and mission:
/// the vehicle identity xor the mission identity rotated left 13 bits.
pub open spec fn candidate_list_identity_of(vehicle: u32, mission: u32) -> u32 {
    vehicle ^ rotl(mission, 13)
}

/// The identity the record library stamps on a candidate list.
pub fn candidate_list_identity(base_vehicle_identity: u32, base_mission_identity: u32) -> (r: u32)
    ensures
        r == candidate_list_identity_of(base_vehicle_identity, base_mission_identity),
{
    base_vehicle_identity ^ rotate_left(base_mission_identity, 13)
}

/// The record of candidate `index`: its index, then its four design values.
pub open spec fn candidate_record(index: int, c: HobbyDesignVector) -> Seq<u8> {
    le_u32(index as u32) + le_i32(c.dry_mass_scale_ppm) + le_i32(c.body_drag_scale_ppm) + le_i32(
        c.main_deployment_altitude_raw,
    ) + le_i32(c.rail_length_raw)
}

/// A candidate list behind a `header_length`-byte record header, before the
/// record library stamps and seals it: the candidate count and record
/// length, the base vehicle and mission identities, the rest of the header
/// zero, the candidates' records in order, and room for the 4-byte seal.
pub open spec fn candidate_list_bytes(
    header_length: int,
    vehicle: u32,
    mission: u32,
    candidates: Seq<HobbyDesignVector>,
) -> Seq<u8> {
    zeros(32) + le_u16(candidates.len() as u16) + le_u16(CANDIDATE_RECORD_LENGTH as u16) + le_u32(
        vehicle,
    ) + le_u32(mission) + zeros((header_length - 44) as nat) + concat_all(
        Seq::new(candidates.len(), |i: int| candidate_record(i, candidates[i])),
    ) + zeros(4)
}

/// Lays out the candidate list of a hobby campaign. The list, header and
/// seal included, must fit a 16-bit length.
pub fn encode_candidate_list(
    header_length: usize,
    base_vehicle_identity: u32,
    base_mission_identity: u32,
    candidates: &[HobbyDesignVector],
) -> (r: Vec<u8>)
    requires
        44 <= header_length,
        header_length + candidates@.len() * CANDIDATE_RECORD_LENGTH + 4 <= u16::MAX,
    ensures
        r@ == candidate_list_bytes(
            header_length as int,
            base_vehicle_identity,
            base_mission_identity,
            candidates@,
        ),
{
    let n = candidates.len();
    let ghost recs = Seq::new(candidates@.len(), |i: int| candidate_record(i, candidates@[i]));
    let mut out: Vec<u8> = Vec::new();
    push_zeros(&mut out, 32);
    push_u16(&mut out, n as u16);
    push_u16(&mut out, CANDIDATE_RECORD_LENGTH as u16);
    push_u32(&mut out, base_vehicle_identity);
    push_u32(&mut out, base_mission_identity);
    push_zeros(&mut out, header_length - 44);
    let ghost prefix = out@;
    let mut i: usize = 0;
    while i < n
        invariant
            n == candidates@.len() <= u16::MAX,
            recs == Seq::new(candidates@.len(), |i: int| candidate_record(i, candidates@[i])),
            i <= n,
            out@ == prefix + concat_all(recs.take(i as int)),
        decreases n - i,
    {
        let c = candidates[i];
        push_u32(&mut out, i as u32);
        push_u32(&mut out, c.dry_mass_scale_ppm as u32);
        push_u32(&mut out, c.body_drag_scale_ppm as u32);
        push_u32(&mut out, c.main_deployment_altitude_raw as u32);
        push_u32(&mut out, c.rail_length_raw as u32);
        proof {
            assert(recs.take(i + 1) =~= recs.take(i as int).push(recs[i as int]));
            lemma_concat_push(recs.take(i as int), recs[i as int]);
            assert(out@ =~= prefix + concat_all(recs.take(i + 1)));
        }
        i += 1;
    }
    assert(recs.take(n as int) =~= recs);
    push_zeros(&mut out, 4);
    out
}

/// A candidate list's body is sound: the header is in place, the record
/// length is the candidate record's, the list holds exactly the counted
/// records and its seal, and the reserved header bytes from 44 on are zero.
pub open spec fn candidate_list_sound(s: Seq<u8>, header_length: int) -> bool {
    &&& s.len() >= header_length + 4
    &&& get_u16(s, 34) == CANDIDATE_RECORD_LENGTH
    &&& s.len() == header_length + get_u16(s, 32) * CANDIDATE_RECORD_LENGTH + 4
    &&& !any_nonzero(s, 44, header_length)
}

/// Checks the body of a candidate list whose record header (kind and seal)
/// the record library has already checked.
pub fn validate_candidate_list(input: &[u8], header_length: usize) -> (r: bool)
    requires
        44 <= header_length,
    ensures
        r == candidate_list_sound(input@, header_length as int),
{
    let n = input.len();
    if n < 4 || n - 4 < header_length {
        return false;
    }
    let count = read_u16(input, 32) as usize;
    let record_length = read_u16(input, 34) as usize;
    record_length == CANDIDATE_RECORD_LENGTH && n - 4 - header_length == count
        * CANDIDATE_RECORD_LENGTH && !find_nonzero(input, 44, header_length)
}

/// A laid-out candidate list passes the body checks.
pub proof fn law_candidate_list_is_sound(
    header_length: int,
    vehicle: u32,
    mission: u32,
    candidates: Seq<HobbyDesignVector>,
)
    requires
        44 <= header_length,
        candidates.len() <= u16::MAX,
    ensures
        candidate_list_sound(
            candidate_list_bytes(header_length, vehicle, mission, candidates),
            header_length,
        ),
{
    let recs = Seq::new(candidates.len(), |i: int| candidate_record(i, candidates[i]));
    let s = candidate_list_bytes(header_length, vehicle, mission, candidates);
    lemma_candidate_records_length(recs, candidates);
    lemma_u16_roundtrip(candidates.len() as u16);
    lemma_u16_roundtrip(20);
    lemma_u32_roundtrip(vehicle);
    lemma_u32_roundtrip(mission);
    assert(s.subrange(32, 34) =~= le_u16(candidates.len() as u16));
    assert(s.subrange(34, 36) =~= le_u16(20));
    assert(get_u16(s, 32) == get_u16(s.subrange(32, 34), 0));
    assert(get_u16(s, 34) == get_u16(s.subrange(34, 36), 0));
    assert forall|i: int| 44 <= i < header_length implies s[i] == 0 by {
        assert(s[i] == zeros((header_length - 44) as nat)[i - 44]);
    }
}

proof fn lemma_candidate_records_length(recs: Seq<Seq<u8>>, candidates: Seq<HobbyDesignVector>)
    requires
        recs == Seq::new(candidates.len(), |i: int| candidate_record(i, candidates[i])),
    ensures
        concat_all(recs).len() == candidates.len() * 20,
    decreases candidates.len(),
{
    if candidates.len() == 0 {
        assert(candidates.len() * 20 == 0);
    } else {
        let init = candidates.drop_last();
        let rinit = Seq::new(init.len(), |i: int| candidate_record(i, init[i]));
        assert(recs.drop_last() =~= rinit);
        lemma_candidate_records_length(rinit, init);
        lemma_u32_roundtrip(0);
        assert(recs.last().len() == 20);
    }
}

} // verus!
