//! Deterministic content hashing of tiles: an FNV-1a 64-bit digest over the
//! tile's geometry, format and pixels, and a SplitMix64 stream derived from it.
use vstd::prelude::*;

use crate::encoder::{Image, PixelFormat, TileKey};

verus! {

/// FNV-1a 64-bit offset basis.
pub const FNV_OFFSET: u64 = 0xcbf2_9ce4_8422_2325;

/// FNV-1a 64-bit prime.
pub const FNV_PRIME: u64 = 0x0000_0100_0000_01b3;

/// SplitMix64 increment.
pub const SPLITMIX_GAMMA: u64 = 0x9E37_79B9_7F4A_7C15;

/// Stable single-byte tag for a [`PixelFormat`], folded into content hashes.
pub open spec fn format_tag_spec(f: PixelFormat) -> u8 {
    match f {
        PixelFormat::Rgb8 => 1,
        PixelFormat::Rgba8 => 2,
        PixelFormat::Gray8 => 3,
    }
}

pub fn format_tag(f: PixelFormat) -> (r: u8)
    ensures
        r == format_tag_spec(f),
{
    match f {
        PixelFormat::Rgb8 => 1,
        PixelFormat::Rgba8 => 2,
        PixelFormat::Gray8 => 3,
    }
}

/// One FNV-1a step: xor in the byte, multiply by the prime (wrapping).
pub open spec fn fnv_step(h: u64, b: u8) -> u64 {
    (h ^ (b as u64)).wrapping_mul(FNV_PRIME)
}

/// FNV-1a over a byte sequence, starting from state `h`.
pub open spec fn fnv_fold(h: u64, bytes: Seq<u8>) -> u64
    decreases bytes.len(),
{
    if bytes.len() == 0 {
        h
    } else {
        fnv_step(fnv_fold(h, bytes.drop_last()), bytes.last())
    }
}

/// Little-endian bytes of a `u32` (`u32::to_le_bytes`).
pub open spec fn le_bytes_u32(x: u32) -> Seq<u8> {
    seq![x as u8, (x >> 8u32) as u8, (x >> 16u32) as u8, (x >> 24u32) as u8]
}

/// Little-endian bytes of a `u64` (`u64::to_le_bytes`).
pub open spec fn le_bytes_u64(x: u64) -> Seq<u8> {
    seq![
        x as u8,
        (x >> 8u64) as u8,
        (x >> 16u64) as u8,
        (x >> 24u64) as u8,
        (x >> 32u64) as u8,
        (x >> 40u64) as u8,
        (x >> 48u64) as u8,
        (x >> 56u64) as u8,
    ]
}

/// The byte serialization of a tile that is hashed: width and height
/// (little-endian), the format tag, then the pixels.
pub open spec fn tile_bytes(tile: Image) -> Seq<u8> {
    le_bytes_u32(tile.width) + le_bytes_u32(tile.height) + seq![format_tag_spec(tile.format)]
        + tile.pixels@
}

/// FNV-1a digest of a tile, starting from state `h`.
pub open spec fn tile_digest(h: u64, tile: Image) -> u64 {
    fnv_fold(h, tile_bytes(tile))
}

/// Fold bytes into an FNV-1a state.
fn fnv_bytes(h: u64, bytes: &[u8]) -> (r: u64)
    ensures
        r == fnv_fold(h, bytes@),
{
    let mut acc = h;
    let mut i: usize = 0;
    while i < bytes.len()
        invariant
            i <= bytes@.len(),
            acc == fnv_fold(h, bytes@.subrange(0, i as int)),
        decreases bytes@.len() - i,
    {
        proof {
            assert(bytes@.subrange(0, i + 1).drop_last() == bytes@.subrange(0, i as int));
        }
        acc = (acc ^ (bytes[i] as u64)).wrapping_mul(FNV_PRIME);
        i = i + 1;
    }
    proof {
        assert(bytes@.subrange(0, bytes@.len() as int) == bytes@);
    }
    acc
}

proof fn lemma_fnv_append(h: u64, a: Seq<u8>, b: Seq<u8>)
    ensures
        fnv_fold(h, a + b) == fnv_fold(fnv_fold(h, a), b),
    decreases b.len(),
{
    if b.len() == 0 {
        assert(a + b == a);
    } else {
        lemma_fnv_append(h, a, b.drop_last());
        assert((a + b).drop_last() == a + b.drop_last());
    }
}

/// Little-endian bytes of a `u32`.
pub fn le_u32(x: u32) -> (r: Vec<u8>)
    ensures
        r@ == le_bytes_u32(x),
{
    let mut v: Vec<u8> = Vec::new();
    v.push(x as u8);
    v.push((x >> 8u32) as u8);
    v.push((x >> 16u32) as u8);
    v.push((x >> 24u32) as u8);
    proof {
        assert(v@ =~= le_bytes_u32(x));
    }
    v
}

/// FNV-1a digest of a tile's geometry, format and pixels, from state `h`.
pub fn digest_tile(h: u64, tile: &Image) -> (r: u64)
    ensures
        r == tile_digest(h, *tile),
{
    let w = le_u32(tile.width);
    let hh = le_u32(tile.height);
    let mut tag: Vec<u8> = Vec::new();
    tag.push(format_tag(tile.format));
    let mut acc = fnv_bytes(h, &w);
    acc = fnv_bytes(acc, &hh);
    acc = fnv_bytes(acc, &tag);
    acc = fnv_bytes(acc, &tile.pixels);
    proof {
        assert(tag@ =~= seq![format_tag_spec(tile.format)]);
        lemma_fnv_append(h, w@, hh@);
        lemma_fnv_append(h, w@ + hh@, tag@);
        lemma_fnv_append(h, w@ + hh@ + tag@, tile.pixels@);
    }
    acc
}

/// The SplitMix64 output function applied to a state.
pub open spec fn splitmix_mix(state: u64) -> u64 {
    let z1 = (state ^ (state >> 30u64)).wrapping_mul(0xBF58_476D_1CE4_E5B9);
    let z2 = (z1 ^ (z1 >> 27u64)).wrapping_mul(0x94D0_49BB_1331_11EB);
    z2 ^ (z2 >> 31u64)
}

/// The `n`-th state (1-based) of a SplitMix64 stream seeded with `seed`.
pub open spec fn splitmix_state(seed: u64, n: nat) -> u64
    decreases n,
{
    if n == 0 {
        seed
    } else {
        splitmix_state(seed, (n - 1) as nat).wrapping_add(SPLITMIX_GAMMA)
    }
}

fn mix(state: u64) -> (r: u64)
    ensures
        r == splitmix_mix(state),
{
    let mut z = state;
    z = (z ^ (z >> 30u64)).wrapping_mul(0xBF58_476D_1CE4_E5B9);
    z = (z ^ (z >> 27u64)).wrapping_mul(0x94D0_49BB_1331_11EB);
    z ^ (z >> 31u64)
}

/// The 32 key bytes expanded from a 64-bit digest: four SplitMix64 outputs,
/// each written little-endian.
pub open spec fn key_bytes(h: u64) -> Seq<u8> {
    le_bytes_u64(splitmix_mix(splitmix_state(h, 1))) + le_bytes_u64(
        splitmix_mix(splitmix_state(h, 2)),
    ) + le_bytes_u64(splitmix_mix(splitmix_state(h, 3))) + le_bytes_u64(
        splitmix_mix(splitmix_state(h, 4)),
    )
}

/// The content key of a tile.
pub open spec fn tile_key_spec(tile: Image) -> Seq<u8> {
    key_bytes(tile_digest(FNV_OFFSET, tile))
}

/// Compute the stable content key for a tile: the FNV-1a digest of its
/// geometry, format and pixels, expanded into 32 bytes by SplitMix64.
/// Identical tiles map to identical keys.
pub fn tile_key(tile: &Image) -> (r: TileKey)
    ensures
        r.0@ == tile_key_spec(*tile),
{
    let h = digest_tile(FNV_OFFSET, tile);
    let mut out: [u8; 32] = [0u8; 32];
    let mut state = h;
    let mut c: usize = 0;
    while c < 4
        invariant
            c <= 4,
            state == splitmix_state(h, c as nat),
            out@.len() == 32,
            forall|j: int| 0 <= j < 8 * c ==> out@[j] == key_bytes(h)[j],
        decreases 4 - c,
    {
        state = state.wrapping_add(SPLITMIX_GAMMA);
        let z = mix(state);
        let base = 8 * c;
        out[base] = z as u8;
        out[base + 1] = (z >> 8u64) as u8;
        out[base + 2] = (z >> 16u64) as u8;
        out[base + 3] = (z >> 24u64) as u8;
        out[base + 4] = (z >> 32u64) as u8;
        out[base + 5] = (z >> 40u64) as u8;
        out[base + 6] = (z >> 48u64) as u8;
        out[base + 7] = (z >> 56u64) as u8;
        proof {
            let kb = key_bytes(h);
            assert forall|k: int| 0 <= k < 8 implies kb[8 * c + k] == le_bytes_u64(z)[k] by {
                assert(kb.len() == 32);
            }
        }
        c = c + 1;
    }
    proof {
        assert(out@ =~= key_bytes(h));
    }
    TileKey(out)
}

/// A minimal SplitMix64 generator: deterministic, not cryptographic.
pub struct SplitMix64 {
    state: u64,
}

impl View for SplitMix64 {
    type V = u64;

    closed spec fn view(&self) -> u64 {
        self.state
    }
}

impl SplitMix64 {
    /// A generator whose stream is determined by `seed`.
    pub fn new(seed: u64) -> (r: Self)
        ensures
            r@ == seed,
    {
        SplitMix64 { state: seed }
    }

    /// Advance the state by the increment and return its mixed output.
    pub fn next_u64(&mut self) -> (r: u64)
        ensures
            final(self)@ == old(self)@.wrapping_add(SPLITMIX_GAMMA),
            r == splitmix_mix(final(self)@),
    {
        self.state = self.state.wrapping_add(SPLITMIX_GAMMA);
        mix(self.state)
    }

    /// The 24 high bits of the next output (the mantissa-sized fraction the
    /// synthetic embedder scales into `[-1, 1)`).
    pub fn next_u24(&mut self) -> (r: u32)
        ensures
            final(self)@ == old(self)@.wrapping_add(SPLITMIX_GAMMA),
            r == (splitmix_mix(final(self)@) >> 40u64) as u32,
            r < 0x100_0000,
    {
        let x = self.next_u64();
        let r = (x >> 40u64) as u32;
        assert((x >> 40u64) < 0x100_0000) by (bit_vector);
        r
    }
}

/// Equal tiles have equal content keys, and the key depends on nothing else.
pub proof fn law_tile_key_depends_only_on_content(a: Image, b: Image)
    requires
        a.width == b.width,
        a.height == b.height,
        a.format == b.format,
        a.pixels@ == b.pixels@,
    ensures
        tile_key_spec(a) == tile_key_spec(b),
{
    assert(tile_bytes(a) == tile_bytes(b));
}

/// Multiplying by an odd constant `p` modulo 2^64 is undone by multiplying by
/// its inverse `inv`.
proof fn lemma_unmul(x: u64, p: u64, inv: u64, k: int)
    requires
        (p as int) * (inv as int) == 1 + k * 0x1_0000_0000_0000_0000,
    ensures
        ((x.wrapping_mul(p) as int) * (inv as int)) % 0x1_0000_0000_0000_0000 == x as int,
{
    let m: int = 0x1_0000_0000_0000_0000;
    let xp = (x as int) * (p as int);
    assert(x.wrapping_mul(p) as int == xp % m);
    vstd::arithmetic::div_mod::lemma_mul_mod_noop_left(xp, inv as int, m);
    assert(xp * (inv as int) == m * ((x as int) * k) + (x as int)) by (nonlinear_arith)
        requires
            xp == (x as int) * (p as int),
            (p as int) * (inv as int) == 1 + k * m,
    ;
    vstd::arithmetic::div_mod::lemma_mod_multiples_vanish((x as int) * k, x as int, m);
    vstd::arithmetic::div_mod::lemma_small_mod(x as nat, m as nat);
}

proof fn lemma_mul_injective(x: u64, y: u64, p: u64, inv: u64, k: int)
    requires
        (p as int) * (inv as int) == 1 + k * 0x1_0000_0000_0000_0000,
        x.wrapping_mul(p) == y.wrapping_mul(p),
    ensures
        x == y,
{
    lemma_unmul(x, p, inv, k);
    lemma_unmul(y, p, inv, k);
}

/// One FNV-1a step is injective in the state for a fixed byte, and in the
/// byte for a fixed state.
proof fn lemma_fnv_step_injective(h1: u64, b1: u8, h2: u64, b2: u8)
    requires
        fnv_step(h1, b1) == fnv_step(h2, b2),
    ensures
        b1 == b2 ==> h1 == h2,
        h1 == h2 ==> b1 == b2,
{
    lemma_mul_injective(h1 ^ (b1 as u64), h2 ^ (b2 as u64), FNV_PRIME, 0xce96_5057_aff6_957b, 0xce96_5059_0f);
    let x1 = h1 ^ (b1 as u64);
    let x2 = h2 ^ (b2 as u64);
    assert(x1 == x2 && b1 == b2 ==> h1 == h2) by (bit_vector)
        requires
            x1 == h1 ^ (b1 as u64),
            x2 == h2 ^ (b2 as u64),
    ;
    assert(x1 == x2 && h1 == h2 ==> b1 == b2) by (bit_vector)
        requires
            x1 == h1 ^ (b1 as u64),
            x2 == h2 ^ (b2 as u64),
    ;
}

/// Folding the same bytes into two different states gives different states.
proof fn lemma_fnv_fold_injective(h1: u64, h2: u64, bytes: Seq<u8>)
    requires
        fnv_fold(h1, bytes) == fnv_fold(h2, bytes),
    ensures
        h1 == h2,
    decreases bytes.len(),
{
    if bytes.len() > 0 {
        lemma_fnv_step_injective(
            fnv_fold(h1, bytes.drop_last()),
            bytes.last(),
            fnv_fold(h2, bytes.drop_last()),
            bytes.last(),
        );
        lemma_fnv_fold_injective(h1, h2, bytes.drop_last());
    }
}

/// The SplitMix64 output function is a bijection on `u64`.
proof fn lemma_splitmix_mix_injective(s1: u64, s2: u64)
    requires
        splitmix_mix(s1) == splitmix_mix(s2),
    ensures
        s1 == s2,
{
    let a1 = s1 ^ (s1 >> 30u64);
    let a2 = s2 ^ (s2 >> 30u64);
    let z1 = a1.wrapping_mul(0xBF58_476D_1CE4_E5B9);
    let z2 = a2.wrapping_mul(0xBF58_476D_1CE4_E5B9);
    let c1 = z1 ^ (z1 >> 27u64);
    let c2 = z2 ^ (z2 >> 27u64);
    let w1 = c1.wrapping_mul(0x94D0_49BB_1331_11EB);
    let w2 = c2.wrapping_mul(0x94D0_49BB_1331_11EB);
    assert(w1 ^ (w1 >> 31u64) == w2 ^ (w2 >> 31u64) ==> w1 == w2) by (bit_vector);
    lemma_mul_injective(c1, c2, 0x94D0_49BB_1331_11EB, 0x3196_42b2_d24d_8ec3, 0x1cd3_36ed_a85f_1453);
    assert(z1 ^ (z1 >> 27u64) == z2 ^ (z2 >> 27u64) ==> z1 == z2) by (bit_vector);
    lemma_mul_injective(a1, a2, 0xBF58_476D_1CE4_E5B9, 0x96de_1b17_3f11_9089, 0x70c3_bca7_8f27_f46c);
    assert(s1 ^ (s1 >> 30u64) == s2 ^ (s2 >> 30u64) ==> s1 == s2) by (bit_vector);
}

/// Different digests expand to different keys.
proof fn lemma_key_bytes_injective(h1: u64, h2: u64)
    requires
        key_bytes(h1) == key_bytes(h2),
    ensures
        h1 == h2,
{
    let x = splitmix_mix(splitmix_state(h1, 1));
    let y = splitmix_mix(splitmix_state(h2, 1));
    let kx = le_bytes_u64(x);
    let ky = le_bytes_u64(y);
    assert forall|i: int| 0 <= i < 8 implies kx[i] == ky[i] by {
        assert(key_bytes(h1)[i] == kx[i]);
        assert(key_bytes(h2)[i] == ky[i]);
    }
    assert(kx[0] == ky[0] && kx[1] == ky[1] && kx[2] == ky[2] && kx[3] == ky[3]);
    assert(kx[4] == ky[4] && kx[5] == ky[5] && kx[6] == ky[6] && kx[7] == ky[7]);
    assert(x == y) by (bit_vector)
        requires
            x as u8 == y as u8,
            (x >> 8u64) as u8 == (y >> 8u64) as u8,
            (x >> 16u64) as u8 == (y >> 16u64) as u8,
            (x >> 24u64) as u8 == (y >> 24u64) as u8,
            (x >> 32u64) as u8 == (y >> 32u64) as u8,
            (x >> 40u64) as u8 == (y >> 40u64) as u8,
            (x >> 48u64) as u8 == (y >> 48u64) as u8,
            (x >> 56u64) as u8 == (y >> 56u64) as u8,
    ;
    lemma_splitmix_mix_injective(splitmix_state(h1, 1), splitmix_state(h2, 1));
    assert(splitmix_state(h1, 0) == h1 && splitmix_state(h2, 0) == h2);
}

proof fn lemma_split_at(head: Seq<u8>, pix: Seq<u8>, p: int)
    requires
        0 <= p < pix.len(),
    ensures
        head + pix == (head + pix.take(p)) + seq![pix[p]] + pix.skip(p + 1),
{
    assert(pix =~= pix.take(p) + seq![pix[p]] + pix.skip(p + 1));
    assert(head + pix =~= (head + pix.take(p)) + seq![pix[p]] + pix.skip(p + 1));
}

proof fn lemma_fold_one(h: u64, x: u8)
    ensures
        fnv_fold(h, seq![x]) == fnv_step(h, x),
{
    assert(seq![x].drop_last() =~= Seq::<u8>::empty());
    assert(fnv_fold(h, Seq::<u8>::empty()) == h);
}

/// Folding byte sequences that differ in exactly one byte gives different
/// states.
proof fn lemma_fold_differs(h: u64, pre: Seq<u8>, x: u8, y: u8, suf: Seq<u8>)
    requires
        x != y,
    ensures
        fnv_fold(h, pre + seq![x] + suf) != fnv_fold(h, pre + seq![y] + suf),
{
    lemma_fnv_append(h, pre + seq![x], suf);
    lemma_fnv_append(h, pre + seq![y], suf);
    lemma_fnv_append(h, pre, seq![x]);
    lemma_fnv_append(h, pre, seq![y]);
    let f = fnv_fold(h, pre);
    lemma_fold_one(f, x);
    lemma_fold_one(f, y);
    if fnv_fold(h, pre + seq![x] + suf) == fnv_fold(h, pre + seq![y] + suf) {
        lemma_fnv_fold_injective(fnv_step(f, x), fnv_step(f, y), suf);
        lemma_fnv_step_injective(f, x, f, y);
    }
}

proof fn lemma_digest_sees_every_pixel(h: u64, a: Image, b: Image, p: int)
    requires
        a.width == b.width,
        a.height == b.height,
        a.format == b.format,
        a.pixels@.len() == b.pixels@.len(),
        0 <= p < a.pixels@.len(),
        a.pixels@[p] != b.pixels@[p],
        forall|q: int| 0 <= q < a.pixels@.len() && q != p ==> a.pixels@[q] == b.pixels@[q],
    ensures
        tile_digest(h, a) != tile_digest(h, b),
{
    let head = le_bytes_u32(a.width) + le_bytes_u32(a.height) + seq![format_tag_spec(a.format)];
    assert(b.pixels@.take(p) =~= a.pixels@.take(p));
    assert(b.pixels@.skip(p + 1) =~= a.pixels@.skip(p + 1));
    lemma_split_at(head, a.pixels@, p);
    lemma_split_at(head, b.pixels@, p);
    lemma_fold_differs(h, head + a.pixels@.take(p), a.pixels@[p], b.pixels@[p], a.pixels@.skip(p + 1));
}

/// The content key sees every pixel byte: two tiles with the same geometry and
/// format whose pixels differ in exactly one byte, wherever it lies, get
/// different digests (from any starting state) and different keys.
pub proof fn law_tile_key_sees_every_pixel(h: u64, a: Image, b: Image, p: int)
    requires
        a.width == b.width,
        a.height == b.height,
        a.format == b.format,
        a.pixels@.len() == b.pixels@.len(),
        0 <= p < a.pixels@.len(),
        a.pixels@[p] != b.pixels@[p],
        forall|q: int| 0 <= q < a.pixels@.len() && q != p ==> a.pixels@[q] == b.pixels@[q],
    ensures
        tile_digest(h, a) != tile_digest(h, b),
        tile_key_spec(a) != tile_key_spec(b),
{
    lemma_digest_sees_every_pixel(h, a, b, p);
    lemma_digest_sees_every_pixel(FNV_OFFSET, a, b, p);
    if tile_key_spec(a) == tile_key_spec(b) {
        lemma_key_bytes_injective(tile_digest(FNV_OFFSET, a), tile_digest(FNV_OFFSET, b));
    }
}

} // verus!
