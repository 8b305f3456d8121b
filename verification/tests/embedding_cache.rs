use pixelrag::caching::{entry_cost, fill_batch, lookup_batch, miss_inputs};
use pixelrag::encoder::{EncoderError, Image, PixelFormat, TileKey};
use pixelrag::hashing::tile_key;
use pixelrag::lru::{CacheConfig, LruCore};

fn tile(bytes: &[u8]) -> Image {
    Image { pixels: bytes.to_vec(), width: 2, height: 2, format: PixelFormat::Rgb8 }
}

fn embedding(dim: usize) -> Vec<u32> {
    vec![1; dim]
}

#[test]
fn put_get_roundtrip() {
    let mut cache: LruCore<Vec<u32>> = LruCore::new(CacheConfig::default());
    let key = tile_key(&tile(&[1, 2]));
    assert!(cache.get(&key).is_none());
    cache.put(key.clone(), embedding(8), entry_cost(8, 40));
    assert_eq!(cache.get(&key).cloned(), Some(embedding(8)));
    assert_eq!(cache.len(), 1);
    assert!(cache.approx_bytes() > 0);
}

#[test]
fn evicts_lru_on_entry_cap() {
    let mut cache: LruCore<Vec<u32>> =
        LruCore::new(CacheConfig { max_bytes: usize::MAX, max_entries: 2 });
    let k = |n: u8| TileKey([n; 32]);
    cache.put(k(1), embedding(4), 64);
    cache.put(k(2), embedding(4), 64);
    // Touch k(1) so k(2) becomes LRU.
    let _ = cache.get(&k(1));
    cache.put(k(3), embedding(4), 64); // over cap → evict LRU (k2)
    assert_eq!(cache.len(), 2);
    assert!(cache.get(&k(2)).is_none(), "k2 should have been evicted");
    assert!(cache.get(&k(1)).is_some());
    assert!(cache.get(&k(3)).is_some());
}

#[test]
fn clear_resets() {
    let mut cache: LruCore<Vec<u32>> = LruCore::new(CacheConfig::default());
    cache.put(TileKey([7; 32]), embedding(4), 64);
    cache.clear();
    assert!(cache.is_empty());
    assert_eq!(cache.approx_bytes(), 0);
}

#[test]
fn identical_tiles_share_key() {
    let a = tile_key(&tile(&[9, 9, 9]));
    let b = tile_key(&tile(&[9, 9, 9]));
    let c = tile_key(&tile(&[9, 9, 8]));
    assert_eq!(a, b);
    assert_ne!(a, c);
}

#[test]
fn key_depends_on_geometry_and_format() {
    let base = tile(&[1, 2, 3]);
    let mut wider = base.clone();
    wider.width = 3;
    let mut gray = base.clone();
    gray.format = PixelFormat::Gray8;
    assert_ne!(tile_key(&base), tile_key(&wider));
    assert_ne!(tile_key(&base), tile_key(&gray));
}

#[test]
fn byte_budget_evicts_least_recent() {
    let mut cache: LruCore<u32> = LruCore::new(CacheConfig { max_bytes: 100, max_entries: 10 });
    cache.put(TileKey([1; 32]), 1, 40);
    cache.put(TileKey([2; 32]), 2, 40);
    cache.put(TileKey([3; 32]), 3, 40); // 120 > 100 → evict key 1
    assert_eq!(cache.len(), 2);
    assert_eq!(cache.approx_bytes(), 80);
    assert!(cache.get(&TileKey([1; 32])).is_none());
    // Replacing an entry swaps its cost.
    cache.put(TileKey([2; 32]), 22, 10);
    assert_eq!(cache.approx_bytes(), 50);
    assert_eq!(cache.get(&TileKey([2; 32])).cloned(), Some(22));
}

#[test]
fn oversized_entry_is_not_kept() {
    let mut cache: LruCore<u32> = LruCore::new(CacheConfig { max_bytes: 10, max_entries: 10 });
    cache.put(TileKey([1; 32]), 1, 11);
    assert!(cache.is_empty());
    assert_eq!(cache.approx_bytes(), 0);
}

#[test]
fn entry_cost_formula() {
    assert_eq!(entry_cost(16, 48), 16 * 4 + 32 + 48);
    assert_eq!(entry_cost(0, 0), 32);
}

#[test]
fn caching_embedder_serves_hits_and_preserves_order() {
    let mut cache: LruCore<Vec<u32>> = LruCore::new(CacheConfig::default());
    let tiles = [tile(&[1]), tile(&[2]), tile(&[1])]; // index 0 and 2 identical
    let keys: Vec<TileKey> = tiles.iter().map(tile_key).collect();
    let fake_encode = |t: &Image| -> Vec<u32> { t.pixels.iter().map(|b| *b as u32 * 10).collect() };

    let (slots, misses) = lookup_batch(&mut cache, &keys);
    assert_eq!(misses, vec![0, 1, 2]);
    let encoded: Vec<Vec<u32>> = misses.iter().map(|&i| fake_encode(&tiles[i])).collect();
    let costs = vec![64; encoded.len()];
    let out1 = fill_batch(&mut cache, &keys, slots, &misses, encoded, &costs).unwrap();
    assert_eq!(out1[0], out1[2]);
    assert_eq!(out1[0], vec![10]);
    assert_eq!(out1[1], vec![20]);
    assert_eq!(cache.len(), 2);

    // Second pass: everything is a cache hit; results identical.
    let (slots, misses) = lookup_batch(&mut cache, &keys);
    assert!(misses.is_empty());
    let out2 = fill_batch(&mut cache, &keys, slots, &misses, vec![], &vec![]).unwrap();
    assert_eq!(out1, out2);
    assert_eq!(cache.len(), 2);
}

#[test]
fn wrong_encoder_count_is_refused_and_cache_untouched() {
    let mut cache: LruCore<u32> = LruCore::new(CacheConfig::default());
    let keys = vec![TileKey([1; 32]), TileKey([2; 32])];
    let (slots, misses) = lookup_batch(&mut cache, &keys);
    match fill_batch(&mut cache, &keys, slots, &misses, vec![5], &vec![8]) {
        Err(EncoderError::Inference(m)) => {
            assert_eq!(m, "inner embedder returned 1 embeddings for 2 tiles")
        }
        other => panic!("unexpected {:?}", other),
    }
    assert!(cache.is_empty());
}

#[test]
fn unbounded_byte_budget_still_fills() {
    let mut cache: LruCore<u32> =
        LruCore::new(CacheConfig { max_bytes: usize::MAX, max_entries: 2 });
    let keys = vec![TileKey([1; 32]), TileKey([2; 32]), TileKey([3; 32])];
    let (slots, misses) = lookup_batch(&mut cache, &keys);
    let out = fill_batch(&mut cache, &keys, slots, &misses, vec![7, 8, 9], &vec![64, 64, 64]).unwrap();
    assert_eq!(out, vec![7, 8, 9]);
    // The entry cap still holds: the least recent key was evicted.
    assert_eq!(cache.len(), 2);
    assert_eq!(cache.approx_bytes(), 128);
    assert!(cache.get(&TileKey([1; 32])).is_none());
}

#[test]
fn only_misses_go_to_the_encoder() {
    let mut cache: LruCore<u32> = LruCore::new(CacheConfig::default());
    cache.put(TileKey([2; 32]), 20, 64);
    let tiles = vec![tile(&[1]), tile(&[2]), tile(&[3])];
    let keys = vec![TileKey([1; 32]), TileKey([2; 32]), TileKey([3; 32])];
    let (_slots, misses) = lookup_batch(&mut cache, &keys);
    assert_eq!(misses, vec![0, 2]);
    let picked = miss_inputs(&tiles, &misses).unwrap();
    assert_eq!(picked, vec![tile(&[1]), tile(&[3])]);
    // Nothing missed: the encoder is not called at all.
    assert!(miss_inputs(&tiles, &vec![]).is_none());
}

#[test]
fn batch_lookup_marks_hits_recently_used() {
    let mut cache: LruCore<u32> = LruCore::new(CacheConfig { max_bytes: usize::MAX, max_entries: 2 });
    cache.put(TileKey([1; 32]), 1, 64);
    cache.put(TileKey([2; 32]), 2, 64);
    // Looking up key 1 through the batch path makes key 2 the least recent.
    let (slots, misses) = lookup_batch(&mut cache, &vec![TileKey([1; 32])]);
    assert_eq!(slots, vec![Some(1)]);
    assert!(misses.is_empty());
    cache.put(TileKey([3; 32]), 3, 64);
    assert!(cache.get(&TileKey([2; 32])).is_none(), "key 2 should have been evicted");
    assert_eq!(cache.get(&TileKey([1; 32])).cloned(), Some(1));
    assert_eq!(cache.get(&TileKey([3; 32])).cloned(), Some(3));
}
