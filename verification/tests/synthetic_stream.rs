use pixelrag::encoder::{EmbedderKind, Image, PixelFormat};
use pixelrag::hashing::{format_tag, SplitMix64};
use pixelrag::synthetic::{SyntheticEmbedder, DEFAULT_SYNTHETIC_DIM, DEFAULT_SYNTHETIC_SEED};

fn tile(bytes: &[u8]) -> Image {
    Image { pixels: bytes.to_vec(), width: 2, height: 2, format: PixelFormat::Rgb8 }
}

fn unit(bits: &[u32]) -> Vec<f32> {
    bits.iter().map(|b| (*b as f32) / 16_777_216.0_f32 * 2.0 - 1.0).collect()
}

#[test]
fn deterministic_same_input_same_output() {
    let e = SyntheticEmbedder::default();
    let a = e.stream_bits(&tile(&[1, 2, 3, 4]));
    let b = e.stream_bits(&tile(&[1, 2, 3, 4]));
    assert_eq!(a, b, "synthetic embedder must be deterministic");
    assert_eq!(a.len(), DEFAULT_SYNTHETIC_DIM);
}

#[test]
fn content_sensitive_different_input_different_output() {
    let e = SyntheticEmbedder::default();
    let a = e.stream_bits(&tile(&[1, 2, 3, 4]));
    let b = e.stream_bits(&tile(&[4, 3, 2, 1]));
    assert_ne!(a, b, "different tiles must map to different vectors");
}

#[test]
fn output_is_l2_normalized_by_default() {
    let e = SyntheticEmbedder::default();
    assert!(e.normalizes());
    let v = unit(&e.stream_bits(&tile(&[9, 8, 7, 6, 5, 4])));
    let norm_sq: f32 = v.iter().map(|x| x * x).sum();
    let n: Vec<f32> = v.iter().map(|x| x / norm_sq.sqrt()).collect();
    let norm: f32 = n.iter().map(|x| x * x).sum::<f32>().sqrt();
    assert!((norm - 1.0).abs() < 1e-4, "expected unit norm, got {norm}");
    assert!(v.iter().all(|x| (-1.0..1.0).contains(x)));
}

#[test]
fn dim_is_configurable() {
    let e = SyntheticEmbedder::new(256);
    assert_eq!(e.embedding_dim(), 256);
    assert_eq!(e.stream_bits(&tile(&[0, 1])).len(), 256);
    assert_eq!(SyntheticEmbedder::new(0).embedding_dim(), 1);
}

#[test]
fn seed_changes_vector() {
    let a = SyntheticEmbedder::with_seed(64, 1).stream_bits(&tile(&[5, 5]));
    let b = SyntheticEmbedder::with_seed(64, 2).stream_bits(&tile(&[5, 5]));
    assert_ne!(a, b, "different seeds must change the vector");
}

#[test]
fn batch_matches_single() {
    let e = SyntheticEmbedder::default();
    let tiles = [tile(&[1]), tile(&[2]), tile(&[3])];
    let batch: Vec<Vec<u32>> = tiles.iter().map(|t| e.stream_bits(t)).collect();
    for (i, t) in tiles.iter().enumerate() {
        assert_eq!(batch[i], e.stream_bits(t), "batch order/content mismatch at {i}");
    }
}

#[test]
fn settings_accessors() {
    let e = SyntheticEmbedder::with_seed(3, 42);
    assert_eq!(e.seed(), 42);
    assert_eq!(SyntheticEmbedder::default().seed(), DEFAULT_SYNTHETIC_SEED);
    let plain = e.without_normalization();
    assert!(!plain.normalizes());
    assert_eq!(plain.seed(), 42);
    assert_eq!(plain.embedding_dim(), 3);
    assert_eq!(plain.kind(), EmbedderKind::Synthetic);
    assert_eq!(EmbedderKind::Synthetic.label(), "synthetic");
    assert_eq!(EmbedderKind::Sidecar.label(), "sidecar");
}

#[test]
fn stream_bits_follow_splitmix() {
    // Reference output of SplitMix64 seeded with 0.
    let mut g = SplitMix64::new(0);
    assert_eq!(g.next_u64(), 0xe220_a839_7b1d_cdaf);
    let e = SyntheticEmbedder::new(2);
    let t = tile(&[7]);
    let mut g = SplitMix64::new(e.content_seed(&t));
    let expect = vec![(g.next_u64() >> 40) as u32, (g.next_u64() >> 40) as u32];
    assert_eq!(e.stream_bits(&t), expect);
    assert!(expect.iter().all(|b| *b < 1 << 24));
}

#[test]
fn content_seed_is_fnv_over_geometry_format_and_pixels() {
    let e = SyntheticEmbedder::with_seed(1, 0);
    let t = Image { pixels: vec![0xab], width: 1, height: 0, format: PixelFormat::Gray8 };
    let mut h: u64 = 0xcbf2_9ce4_8422_2325;
    let mut bytes = vec![1u8, 0, 0, 0, 0, 0, 0, 0];
    bytes.push(format_tag(PixelFormat::Gray8));
    bytes.push(0xab);
    for b in bytes {
        h ^= b as u64;
        h = h.wrapping_mul(0x0000_0100_0000_01b3);
    }
    assert_eq!(e.content_seed(&t), h);
    assert_eq!((format_tag(PixelFormat::Rgb8), format_tag(PixelFormat::Rgba8), format_tag(PixelFormat::Gray8)), (1, 2, 3));
    assert_eq!((PixelFormat::Rgb8.channels(), PixelFormat::Rgba8.channels(), PixelFormat::Gray8.channels()), (3, 4, 1));
}
