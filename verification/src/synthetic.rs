//! Parameters and the deterministic bit stream of the synthetic embedder.
//!
//! The synthetic embedder maps tile content through a seeded SplitMix64 stream
//! into a fixed-width vector. It is deterministic and content-sensitive, and
//! encodes no visual meaning: it exists to exercise the pipeline plumbing. This
//! module holds its parameters and the integer stream; scaling the stream into
//! vector components happens where the vectors are built.
use vstd::prelude::*;

use crate::encoder::{EmbedderKind, Image};
use crate::hashing::{
    digest_tile, splitmix_mix, splitmix_state, tile_bytes, tile_digest, SplitMix64, FNV_OFFSET,
    SPLITMIX_GAMMA, law_tile_key_sees_every_pixel,
};

verus! {

/// The default embedding width of the synthetic embedder.
pub const DEFAULT_SYNTHETIC_DIM: usize = 128;

/// Fixed default seed so synthetic runs are reproducible across machines.
pub const DEFAULT_SYNTHETIC_SEED: u64 = 0x5158_5658_5043_4452;

/// A deterministic, non-semantic embedder's parameters.
#[derive(Clone, Copy, Debug, PartialEq, Eq)]
pub struct SyntheticEmbedder {
    dim: usize,
    seed: u64,
    normalize: bool,
}

/// Mathematical value of a [`SyntheticEmbedder`]: width, seed, normalization.
pub struct SyntheticView {
    pub dim: usize,
    pub seed: u64,
    pub normalize: bool,
}

impl View for SyntheticEmbedder {
    type V = SyntheticView;

    closed spec fn view(&self) -> SyntheticView {
        SyntheticView { dim: self.dim, seed: self.seed, normalize: self.normalize }
    }
}

impl Default for SyntheticEmbedder {
    /// 128-wide, fixed default seed, L2-normalized.
    fn default() -> (r: Self)
        ensures
            r@ == (SyntheticView {
                dim: DEFAULT_SYNTHETIC_DIM,
                seed: DEFAULT_SYNTHETIC_SEED,
                normalize: true,
            }),
    {
        SyntheticEmbedder { dim: DEFAULT_SYNTHETIC_DIM, seed: DEFAULT_SYNTHETIC_SEED, normalize: true }
    }
}

/// The seed of a tile's stream: FNV-1a over the tile, starting from the
/// offset basis mixed with the embedder's seed.
pub open spec fn content_seed_spec(seed: u64, tile: Image) -> u64 {
    tile_digest(FNV_OFFSET ^ seed, tile)
}

/// The `i`-th (0-based) 24-bit value of a stream seeded with `s`.
pub open spec fn stream_value(s: u64, i: int) -> u32 {
    (splitmix_mix(splitmix_state(s, (i + 1) as nat)) >> 40u64) as u32
}

impl SyntheticEmbedder {
    /// An embedder of width `dim` (at least 1), default seed, normalized.
    pub fn new(dim: usize) -> (r: Self)
        ensures
            r@ == (SyntheticView {
                dim: if dim >= 1 {
                    dim
                } else {
                    1
                },
                seed: DEFAULT_SYNTHETIC_SEED,
                normalize: true,
            }),
    {
        SyntheticEmbedder {
            dim: if dim >= 1 {
                dim
            } else {
                1
            },
            seed: DEFAULT_SYNTHETIC_SEED,
            normalize: true,
        }
    }

    /// An embedder of width `dim` (at least 1) with an explicit seed, normalized.
    pub fn with_seed(dim: usize, seed: u64) -> (r: Self)
        ensures
            r@ == (SyntheticView {
                dim: if dim >= 1 {
                    dim
                } else {
                    1
                },
                seed,
                normalize: true,
            }),
    {
        SyntheticEmbedder {
            dim: if dim >= 1 {
                dim
            } else {
                1
            },
            seed,
            normalize: true,
        }
    }

    /// The same embedder with L2 normalization switched off.
    pub fn without_normalization(self) -> (r: Self)
        ensures
            r@ == (SyntheticView { dim: self@.dim, seed: self@.seed, normalize: false }),
    {
        SyntheticEmbedder { dim: self.dim, seed: self.seed, normalize: false }
    }

    /// The fixed seed this embedder uses to derive vectors.
    pub fn seed(&self) -> (r: u64)
        ensures
            r == self@.seed,
    {
        self.seed
    }

    /// Whether outputs are L2-normalized.
    pub fn normalizes(&self) -> (r: bool)
        ensures
            r == self@.normalize,
    {
        self.normalize
    }

    /// The embedding width.
    pub fn embedding_dim(&self) -> (r: usize)
        ensures
            r == self@.dim,
    {
        self.dim
    }

    /// The backend kind.
    pub fn kind(&self) -> (r: EmbedderKind)
        ensures
            r == EmbedderKind::Synthetic,
    {
        EmbedderKind::Synthetic
    }

    /// The content seed of a tile: deterministic and content-sensitive.
    pub fn content_seed(&self, tile: &Image) -> (r: u64)
        ensures
            r == content_seed_spec(self@.seed, *tile),
    {
        digest_tile(FNV_OFFSET ^ self.seed, tile)
    }

    /// The `dim` 24-bit values of a tile's stream, one per vector component.
    pub fn stream_bits(&self, tile: &Image) -> (r: Vec<u32>)
        ensures
            r@.len() == self@.dim,
            forall|i: int|
                0 <= i < r@.len() ==> #[trigger] r@[i] == stream_value(
                    content_seed_spec(self@.seed, *tile),
                    i,
                ),
    {
        let s = self.content_seed(tile);
        let mut rng = SplitMix64::new(s);
        let mut out: Vec<u32> = Vec::new();
        let mut i: usize = 0;
        while i < self.dim
            invariant
                i <= self@.dim,
                out@.len() == i,
                rng@ == splitmix_state(s, i as nat),
                s == content_seed_spec(self@.seed, *tile),
                forall|j: int| 0 <= j < i ==> #[trigger] out@[j] == stream_value(s, j),
            decreases self@.dim - i,
        {
            let b = rng.next_u24();
            out.push(b);
            i = i + 1;
        }
        out
    }
}

/// The synthetic stream is a function of the seed and the tile's content:
/// tiles with equal geometry, format and pixels get equal streams.
pub proof fn law_stream_depends_only_on_content(seed: u64, a: Image, b: Image, i: int)
    requires
        a.width == b.width,
        a.height == b.height,
        a.format == b.format,
        a.pixels@ == b.pixels@,
    ensures
        content_seed_spec(seed, a) == content_seed_spec(seed, b),
        stream_value(content_seed_spec(seed, a), i) == stream_value(content_seed_spec(seed, b), i),
{
    assert(tile_bytes(a) == tile_bytes(b));
}

proof fn lemma_state_shift(s: u64, n: nat)
    ensures
        splitmix_state(splitmix_state(s, 1), n) == splitmix_state(s, n + 1),
    decreases n,
{
    if n > 0 {
        lemma_state_shift(s, (n - 1) as nat);
        assert((n - 1 + 1) as nat == n);
    }
}

proof fn lemma_state_closed_form(s: u64, n: nat)
    ensures
        splitmix_state(s, n) as int == (s as int + n * (SPLITMIX_GAMMA as int))
            % 0x1_0000_0000_0000_0000,
    decreases n,
{
    let m: int = 0x1_0000_0000_0000_0000;
    let g = SPLITMIX_GAMMA as int;
    if n == 0 {
        vstd::arithmetic::div_mod::lemma_small_mod(s as nat, m as nat);
    } else {
        lemma_state_closed_form(s, (n - 1) as nat);
        let prev = splitmix_state(s, (n - 1) as nat) as int;
        let total = s as int + (n - 1) * g;
        assert(s as int + n * g == total + g) by (nonlinear_arith)
            requires
                total == s as int + (n - 1) * g,
        ;
        vstd::arithmetic::div_mod::lemma_add_mod_noop(total, g, m);
        vstd::arithmetic::div_mod::lemma_small_mod(g as nat, m as nat);
        assert(0 <= prev < m);
        assert((prev + g) % m == if prev + g >= m { prev + g - m } else { prev + g }) by (nonlinear_arith)
            requires
                0 <= prev < m,
                0 <= g < m,
                m == 0x1_0000_0000_0000_0000,
        ;
    }
}

/// The synthetic stream is the output of one SplitMix64 generator seeded with
/// the content seed: component `i` is the top 24 bits of the generator's
/// `(i + 1)`-th output, whose state is `seed + (i + 1) * GAMMA` (mod 2^64),
/// and the stream from component 1 on is the stream of the generator after
/// one step.
pub proof fn law_stream_is_one_generator(s: u64, i: int)
    requires
        0 <= i,
    ensures
        stream_value(s, i) == (splitmix_mix(
            ((s as int + (i + 1) * (SPLITMIX_GAMMA as int)) % 0x1_0000_0000_0000_0000) as u64,
        ) >> 40u64) as u32,
        stream_value(s, i + 1) == stream_value(s.wrapping_add(SPLITMIX_GAMMA), i),
{
    lemma_state_closed_form(s, (i + 1) as nat);
    lemma_state_shift(s, (i + 1) as nat);
    assert(splitmix_state(s, 0) == s);
    assert(((i + 1) + 1) as nat == (i + 1 + 1) as nat);
}

/// The content seed sees every pixel byte: tiles with the same geometry and
/// format whose pixels differ in exactly one byte get different seeds.
pub proof fn law_content_seed_sees_every_pixel(seed: u64, a: Image, b: Image, p: int)
    requires
        a.width == b.width,
        a.height == b.height,
        a.format == b.format,
        a.pixels@.len() == b.pixels@.len(),
        0 <= p < a.pixels@.len(),
        a.pixels@[p] != b.pixels@[p],
        forall|q: int| 0 <= q < a.pixels@.len() && q != p ==> a.pixels@[q] == b.pixels@[q],
    ensures
        content_seed_spec(seed, a) != content_seed_spec(seed, b),
{
    law_tile_key_sees_every_pixel(FNV_OFFSET ^ seed, a, b, p);
}

} // verus!
