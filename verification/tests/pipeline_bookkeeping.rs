use pixelrag::config::Config;
use pixelrag::error::Error;
use pixelrag::pipeline::{batch_ranges, check_batch_count, check_parts, IngestReport, TileRegistry};
use pixelrag::search::{runs_rerank, SearchRequest};
use pixelrag::tile::TileMetadata;

fn meta(doc: &str, t: u32) -> TileMetadata {
    TileMetadata { doc_id: doc.to_string(), page: 0, tile_index: t }
}

#[test]
fn registry_hands_out_ids_in_order() {
    let mut r = TileRegistry::new();
    assert_eq!(r.len(), 0);
    assert_eq!(r.register(meta("doc-a", 0)), 0);
    assert_eq!(r.register(meta("doc-b", 0)), 1);
    assert_eq!(r.len(), 2);
    assert_eq!(r.lookup(1).unwrap().doc_id, "doc-b");
    assert_eq!(r.lookup(0).unwrap().doc_id, "doc-a");
    assert!(r.lookup(2).is_none());
}

#[test]
fn enrich_drops_unknown_ids_and_keeps_order() {
    let mut r = TileRegistry::new();
    r.register(meta("a", 0));
    r.register(meta("b", 1));
    let hits = vec![(1usize, 0.5f32), (9, 0.1), (0, 0.7)];
    let out = r.enrich(hits);
    assert_eq!(out.len(), 2);
    assert_eq!((out[0].0, out[0].1, out[0].2.doc_id.as_str(), out[0].2.tile_index), (1, 0.5, "b", 1));
    assert_eq!((out[1].0, out[1].2.doc_id.as_str()), (0, "a"));
}

#[test]
fn batches_cover_every_tile() {
    assert_eq!(batch_ranges(7, 3), vec![(0, 3), (3, 6), (6, 7)]);
    assert_eq!(batch_ranges(6, 3), vec![(0, 3), (3, 6)]);
    assert_eq!(batch_ranges(2, 0), vec![(0, 1), (1, 2)]);
    assert_eq!(batch_ranges(0, 4), vec![]);
    assert_eq!(batch_ranges(3, usize::MAX), vec![(0, 3)]);
}

#[test]
fn batch_count_must_match() {
    assert!(check_batch_count(3, 3).is_ok());
    match check_batch_count(2, 3) {
        Err(Error::Embedding(m)) => assert_eq!(m, "embed_batch returned 2 vectors for 3 tiles"),
        other => panic!("unexpected {:?}", other),
    }
}

#[test]
fn parts_must_fit() {
    let c = Config::default();
    assert!(check_parts(&c, 16, 16).is_ok());
    match check_parts(&c, 16, 8) {
        Err(Error::Pipeline(m)) => assert_eq!(m, "embedder dim 16 != index dim 8"),
        other => panic!("unexpected {:?}", other),
    }
    let mut bad = Config::default();
    bad.batch_size = 0;
    match check_parts(&bad, 16, 8) {
        Err(Error::Config(m)) => assert_eq!(m, "batch_size must be > 0"),
        other => panic!("unexpected {:?}", other),
    }
}

#[test]
fn search_request_defaults() {
    let r = SearchRequest::default();
    assert_eq!(r.k, 10);
    assert!(r.allowlist.is_none());
    assert!(!r.rerank);
    assert!(!runs_rerank(&r, true));
    let r = SearchRequest { k: 3, allowlist: Some(vec![1]), rerank: true };
    assert!(runs_rerank(&r, true));
    assert!(!runs_rerank(&r, false));
    assert_eq!(IngestReport { tiles: 2, indexed: 2 }, IngestReport { tiles: 2, indexed: 2 });
}
