//! Little-endian integer layouts and word operations shared by every binary
//! format of the host.
use vstd::prelude::*;

verus! {

/// Little-endian bytes of a `u16`.
pub open spec fn le_u16(v: u16) -> Seq<u8> {
    seq![(v & 0xff) as u8, ((v >> 8u16) & 0xff) as u8]
}

/// Little-endian bytes of a `u32`.
pub open spec fn le_u32(v: u32) -> Seq<u8> {
    seq![
        (v & 0xff) as u8,
        ((v >> 8u32) & 0xff) as u8,
        ((v >> 16u32) & 0xff) as u8,
        ((v >> 24u32) & 0xff) as u8,
    ]
}

/// Little-endian bytes of a `u64`.
pub open spec fn le_u64(v: u64) -> Seq<u8> {
    le_u32((v & 0xffff_ffff) as u32) + le_u32(((v >> 32u64) & 0xffff_ffff) as u32)
}

/// Little-endian bytes of an `i16` (two's complement).
pub open spec fn le_i16(v: i16) -> Seq<u8> {
    le_u16(v as u16)
}

/// Little-endian bytes of an `i32` (two's complement).
pub open spec fn le_i32(v: i32) -> Seq<u8> {
    le_u32(v as u32)
}

/// The `u16` stored little-endian at `at` in `s`.
pub open spec fn get_u16(s: Seq<u8>, at: int) -> u16 {
    (s[at] as u16) | ((s[at + 1] as u16) << 8u16)
}

/// The `u32` stored little-endian at `at` in `s`.
pub open spec fn get_u32(s: Seq<u8>, at: int) -> u32 {
    (s[at] as u32) | ((s[at + 1] as u32) << 8u32) | ((s[at + 2] as u32) << 16u32) | ((
    s[at + 3] as u32) << 24u32)
}

/// The `u64` stored little-endian at `at` in `s`.
pub open spec fn get_u64(s: Seq<u8>, at: int) -> u64 {
    (get_u32(s, at) as u64) | ((get_u32(s, at + 4) as u64) << 32u64)
}

pub proof fn lemma_u16_roundtrip(v: u16)
    ensures
        le_u16(v).len() == 2,
        get_u16(le_u16(v), 0) == v,
{
    let b0 = (v & 0xff) as u8;
    let b1 = ((v >> 8u16) & 0xff) as u8;
    assert(((b0 as u16) | ((b1 as u16) << 8u16)) == v) by (bit_vector)
        requires
            b0 == (v & 0xff) as u8,
            b1 == ((v >> 8u16) & 0xff) as u8,
    ;
}

pub proof fn lemma_u32_roundtrip(v: u32)
    ensures
        le_u32(v).len() == 4,
        get_u32(le_u32(v), 0) == v,
{
    let b0 = (v & 0xff) as u8;
    let b1 = ((v >> 8u32) & 0xff) as u8;
    let b2 = ((v >> 16u32) & 0xff) as u8;
    let b3 = ((v >> 24u32) & 0xff) as u8;
    assert(((b0 as u32) | ((b1 as u32) << 8u32) | ((b2 as u32) << 16u32) | ((b3 as u32)
        << 24u32)) == v) by (bit_vector)
        requires
            b0 == (v & 0xff) as u8,
            b1 == ((v >> 8u32) & 0xff) as u8,
            b2 == ((v >> 16u32) & 0xff) as u8,
            b3 == ((v >> 24u32) & 0xff) as u8,
    ;
}

pub proof fn lemma_u64_roundtrip(v: u64)
    ensures
        le_u64(v).len() == 8,
        get_u64(le_u64(v), 0) == v,
{
    let lo = (v & 0xffff_ffff) as u32;
    let hi = ((v >> 32u64) & 0xffff_ffff) as u32;
    lemma_u32_roundtrip(lo);
    lemma_u32_roundtrip(hi);
    let s = le_u64(v);
    assert(s.subrange(0, 4) =~= le_u32(lo));
    assert(s.subrange(4, 8) =~= le_u32(hi));
    assert(get_u32(s, 0) == get_u32(le_u32(lo), 0));
    assert(get_u32(s, 4) == get_u32(le_u32(hi), 0));
    assert(((lo as u64) | ((hi as u64) << 32u64)) == v) by (bit_vector)
        requires
            lo == (v & 0xffff_ffff) as u32,
            hi == ((v >> 32u64) & 0xffff_ffff) as u32,
    ;
}

/// Re-encoding the `u16` read at `at` gives back the two bytes there.
pub proof fn lemma_u16_reencode(s: Seq<u8>, at: int)
    requires
        0 <= at,
        at + 2 <= s.len(),
    ensures
        le_u16(get_u16(s, at)) =~= s.subrange(at, at + 2),
{
    let b0 = s[at];
    let b1 = s[at + 1];
    let v = get_u16(s, at);
    assert((v & 0xff) as u8 == b0 && ((v >> 8u16) & 0xff) as u8 == b1) by (bit_vector)
        requires
            v == (b0 as u16) | ((b1 as u16) << 8u16),
    ;
}

/// Re-encoding the `u32` read at `at` gives back the four bytes there.
pub proof fn lemma_u32_reencode(s: Seq<u8>, at: int)
    requires
        0 <= at,
        at + 4 <= s.len(),
    ensures
        le_u32(get_u32(s, at)) =~= s.subrange(at, at + 4),
{
    let b0 = s[at];
    let b1 = s[at + 1];
    let b2 = s[at + 2];
    let b3 = s[at + 3];
    let v = get_u32(s, at);
    assert((v & 0xff) as u8 == b0 && ((v >> 8u32) & 0xff) as u8 == b1 && ((v >> 16u32) & 0xff) as u8
        == b2 && ((v >> 24u32) & 0xff) as u8 == b3) by (bit_vector)
        requires
            v == (b0 as u32) | ((b1 as u32) << 8u32) | ((b2 as u32) << 16u32) | ((b3 as u32)
                << 24u32),
    ;
}

/// Re-encoding the `u64` read at `at` gives back the eight bytes there.
pub proof fn lemma_u64_reencode(s: Seq<u8>, at: int)
    requires
        0 <= at,
        at + 8 <= s.len(),
    ensures
        le_u64(get_u64(s, at)) =~= s.subrange(at, at + 8),
{
    let lo = get_u32(s, at);
    let hi = get_u32(s, at + 4);
    let v = get_u64(s, at);
    lemma_u32_reencode(s, at);
    lemma_u32_reencode(s, at + 4);
    assert((v & 0xffff_ffff) as u32 == lo && ((v >> 32u64) & 0xffff_ffff) as u32 == hi)
        by (bit_vector)
        requires
            v == (lo as u64) | ((hi as u64) << 32u64),
    ;
}

/// A two's-complement reinterpretation survives the round trip.
pub proof fn lemma_i32_u32_cast(v: i32, w: u32)
    ensures
        (v as u32) as i32 == v,
        (w as i32) as u32 == w,
{
    assert((v as u32) as i32 == v) by (bit_vector);
    assert((w as i32) as u32 == w) by (bit_vector);
}

/// A two's-complement reinterpretation survives the round trip.
pub proof fn lemma_i16_u16_cast(v: i16, w: u16)
    ensures
        (v as u16) as i16 == v,
        (w as i16) as u16 == w,
{
    assert((v as u16) as i16 == v) by (bit_vector);
    assert((w as i16) as u16 == w) by (bit_vector);
}

/// The little-endian encoding of each width is injective.
pub proof fn lemma_le_injective()
    ensures
        forall|a: u16, b: u16| #[trigger] le_u16(a) == #[trigger] le_u16(b) ==> a == b,
        forall|a: u32, b: u32| #[trigger] le_u32(a) == #[trigger] le_u32(b) ==> a == b,
        forall|a: u64, b: u64| #[trigger] le_u64(a) == #[trigger] le_u64(b) ==> a == b,
        forall|a: i16, b: i16| #[trigger] le_i16(a) == #[trigger] le_i16(b) ==> a == b,
        forall|a: i32, b: i32| #[trigger] le_i32(a) == #[trigger] le_i32(b) ==> a == b,
{
    assert forall|a: u16, b: u16| #[trigger] le_u16(a) == #[trigger] le_u16(b) implies a == b by {
        lemma_u16_roundtrip(a);
        lemma_u16_roundtrip(b);
    }
    assert forall|a: u32, b: u32| #[trigger] le_u32(a) == #[trigger] le_u32(b) implies a == b by {
        lemma_u32_roundtrip(a);
        lemma_u32_roundtrip(b);
    }
    assert forall|a: u64, b: u64| #[trigger] le_u64(a) == #[trigger] le_u64(b) implies a == b by {
        lemma_u64_roundtrip(a);
        lemma_u64_roundtrip(b);
    }
    assert forall|a: i16, b: i16| #[trigger] le_i16(a) == #[trigger] le_i16(b) implies a == b by {
        lemma_u16_roundtrip(a as u16);
        lemma_u16_roundtrip(b as u16);
        lemma_i16_u16_cast(a, 0);
        lemma_i16_u16_cast(b, 0);
    }
    assert forall|a: i32, b: i32| #[trigger] le_i32(a) == #[trigger] le_i32(b) implies a == b by {
        lemma_u32_roundtrip(a as u32);
        lemma_u32_roundtrip(b as u32);
        lemma_i32_u32_cast(a, 0);
        lemma_i32_u32_cast(b, 0);
    }
}

/// `x` rotated left by `n` bits, for `0 < n < 32`.
pub open spec fn rotl(x: u32, n: u32) -> u32 {
    (x << n) | (x >> ((32 - n) as u32))
}

/// Rotates `x` left by `n` bits.
pub fn rotate_left(x: u32, n: u32) -> (r: u32)
    requires
        0 < n < 32,
    ensures
        r == rotl(x, n),
{
    (x << n) | (x >> (32 - n))
}

/// `n` zero bytes.
pub open spec fn zeros(n: nat) -> Seq<u8> {
    Seq::new(n, |i: int| 0u8)
}

/// Appends `n` zero bytes.
pub fn push_zeros(o: &mut Vec<u8>, n: usize)
    ensures
        final(o)@ == old(o)@ + zeros(n as nat),
{
    let mut i: usize = 0;
    while i < n
        invariant
            i <= n,
            o@ == old(o)@ + zeros(i as nat),
        decreases n - i,
    {
        o.push(0);
        i += 1;
        assert(o@ =~= old(o)@ + zeros(i as nat));
    }
}

/// Appends the little-endian bytes of `v`.
pub fn push_u16(o: &mut Vec<u8>, v: u16)
    ensures
        final(o)@ == old(o)@ + le_u16(v),
{
    o.push((v & 0xff) as u8);
    o.push(((v >> 8) & 0xff) as u8);
    assert(final(o)@ =~= old(o)@ + le_u16(v));
}

/// Appends the little-endian bytes of `v`.
pub fn push_u32(o: &mut Vec<u8>, v: u32)
    ensures
        final(o)@ == old(o)@ + le_u32(v),
{
    o.push((v & 0xff) as u8);
    o.push(((v >> 8) & 0xff) as u8);
    o.push(((v >> 16) & 0xff) as u8);
    o.push(((v >> 24) & 0xff) as u8);
    assert(final(o)@ =~= old(o)@ + le_u32(v));
}

/// Appends the little-endian bytes of `v`.
pub fn push_u64(o: &mut Vec<u8>, v: u64)
    ensures
        final(o)@ == old(o)@ + le_u64(v),
{
    push_u32(o, (v & 0xffff_ffff) as u32);
    push_u32(o, ((v >> 32) & 0xffff_ffff) as u32);
    assert(final(o)@ =~= old(o)@ + le_u64(v));
}

/// Reads the little-endian `u16` at `at`.
pub fn read_u16(s: &[u8], at: usize) -> (r: u16)
    requires
        at + 2 <= s@.len(),
    ensures
        r == get_u16(s@, at as int),
{
    (s[at] as u16) | ((s[at + 1] as u16) << 8)
}

/// Reads the little-endian `u32` at `at`.
pub fn read_u32(s: &[u8], at: usize) -> (r: u32)
    requires
        at + 4 <= s@.len(),
    ensures
        r == get_u32(s@, at as int),
{
    (s[at] as u32) | ((s[at + 1] as u32) << 8) | ((s[at + 2] as u32) << 16) | ((s[at
        + 3] as u32) << 24)
}

/// Reads the little-endian `u64` at `at`.
pub fn read_u64(s: &[u8], at: usize) -> (r: u64)
    requires
        at + 8 <= s@.len(),
    ensures
        r == get_u64(s@, at as int),
{
    let _n = s.len();
    (read_u32(s, at) as u64) | ((read_u32(s, at + 4) as u64) << 32)
}

} // verus!
