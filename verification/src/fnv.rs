//! FNV-1a running hashes used for transcripts, sensor chains and load digests.
use vstd::prelude::*;
use crate::le::le_u32;

verus! {

/// FNV-1a 32-bit offset basis.
pub const FNV_OFFSET: u32 = 0x811c_9dc5;

/// FNV-1a 32-bit prime.
pub const FNV_PRIME: u32 = 0x0100_0193;

/// One FNV-1a step: xor the byte in, then multiply by the prime modulo 2^32.
pub open spec fn fnv_step(h: u32, b: u8) -> u32 {
    (h ^ (b as u32)).wrapping_mul(FNV_PRIME)
}

/// FNV-1a over `bytes`, starting from `seed`, consuming the bytes in order.
pub open spec fn fnv_fold(seed: u32, bytes: Seq<u8>) -> u32
    decreases bytes.len(),
{
    if bytes.len() == 0 {
        seed
    } else {
        fnv_step(fnv_fold(seed, bytes.drop_last()), bytes.last())
    }
}

/// Hashing a concatenation continues from the hash of the first part.
pub proof fn lemma_fnv_fold_append(seed: u32, a: Seq<u8>, b: Seq<u8>)
    ensures
        fnv_fold(seed, a + b) == fnv_fold(fnv_fold(seed, a), b),
    decreases b.len(),
{
    if b.len() == 0 {
        assert(a + b =~= a);
    } else {
        assert((a + b).drop_last() =~= a + b.drop_last());
        lemma_fnv_fold_append(seed, a, b.drop_last());
    }
}

/// The little-endian bytes of a word sequence, word after word.
pub open spec fn words_le(words: Seq<u32>) -> Seq<u8>
    decreases words.len(),
{
    if words.len() == 0 {
        Seq::empty()
    } else {
        words_le(words.drop_last()) + le_u32(words.last())
    }
}

/// Continues an FNV-1a hash from `hash` over `bytes`.
pub fn rolling_hash(hash: u32, bytes: &[u8]) -> (r: u32)
    ensures
        r == fnv_fold(hash, bytes@),
{
    let mut h = hash;
    let mut i: usize = 0;
    while i < bytes.len()
        invariant
            i <= bytes@.len(),
            h == fnv_fold(hash, bytes@.take(i as int)),
        decreases bytes@.len() - i,
    {
        assert(bytes@.take(i as int + 1).drop_last() =~= bytes@.take(i as int));
        h = (h ^ (bytes[i] as u32)).wrapping_mul(FNV_PRIME);
        i += 1;
    }
    assert(bytes@.take(i as int) =~= bytes@);
    h
}

/// FNV-1a over the little-endian bytes of `values`, never zero: a zero hash is
/// reported as 1.
pub fn hash_words(values: &[u32]) -> (r: u32)
    ensures
        r == (if fnv_fold(FNV_OFFSET, words_le(values@)) == 0 {
            1
        } else {
            fnv_fold(FNV_OFFSET, words_le(values@))
        }),
{
    let mut hash = FNV_OFFSET;
    let mut i: usize = 0;
    while i < values.len()
        invariant
            i <= values@.len(),
            hash == fnv_fold(FNV_OFFSET, words_le(values@.take(i as int))),
        decreases values@.len() - i,
    {
        let v = values[i];
        let ghost before = words_le(values@.take(i as int));
        assert(values@.take(i as int + 1).drop_last() =~= values@.take(i as int));
        let b0 = (v & 0xff) as u8;
        let b1 = ((v >> 8) & 0xff) as u8;
        let b2 = ((v >> 16) & 0xff) as u8;
        let b3 = ((v >> 24) & 0xff) as u8;
        let bytes = [b0, b1, b2, b3];
        proof {
            assert(bytes@ =~= le_u32(v));
            lemma_fnv_fold_append(FNV_OFFSET, before, le_u32(v));
        }
        hash = rolling_hash(hash, &bytes);
        i += 1;
    }
    assert(values@.take(i as int) =~= values@);
    if hash == 0 {
        1
    } else {
        hash
    }
}

/// The digest of an uplink command load: its identity, staging epoch,
/// requested effective epoch, load type number and source estimator
/// checksum, hashed as words.
pub fn hash_load(
    load_identity: u32,
    stage_epoch: u32,
    requested_effective_epoch: u32,
    load_type: u32,
    source_estimator_checksum: u32,
) -> (r: u32)
    ensures
        ({
            let h = fnv_fold(
                FNV_OFFSET,
                words_le(
                    seq![
                        load_identity,
                        stage_epoch,
                        requested_effective_epoch,
                        load_type,
                        source_estimator_checksum,
                    ],
                ),
            );
            r == if h == 0 {
                1
            } else {
                h
            }
        }),
{
    let words = [
        load_identity,
        stage_epoch,
        requested_effective_epoch,
        load_type,
        source_estimator_checksum,
    ];
    assert(words@ =~= seq![
        load_identity,
        stage_epoch,
        requested_effective_epoch,
        load_type,
        source_estimator_checksum,
    ]);
    hash_words(&words)
}

/// Folds whole words into a running hash: each word is xored in, then the
/// hash is multiplied by the FNV prime.
pub open spec fn word_fold(hash: u32, words: Seq<i32>) -> u32
    decreases words.len(),
{
    if words.len() == 0 {
        hash
    } else {
        (word_fold(hash, words.drop_last()) ^ (words.last() as u32)).wrapping_mul(FNV_PRIME)
    }
}

/// Mixes a mission snapshot's words (time, position, velocity, phase,
/// events) into a running checksum.
pub fn mix_words(hash: u32, words: &[i32]) -> (r: u32)
    ensures
        r == word_fold(hash, words@),
{
    let mut h = hash;
    let mut i: usize = 0;
    while i < words.len()
        invariant
            i <= words@.len(),
            h == word_fold(hash, words@.take(i as int)),
        decreases words@.len() - i,
    {
        assert(words@.take(i as int + 1).drop_last() =~= words@.take(i as int));
        h = (h ^ (words[i] as u32)).wrapping_mul(FNV_PRIME);
        i += 1;
    }
    assert(words@.take(i as int) =~= words@);
    h
}

} // verus!
