use pixelrag::config::IndexBackend;
use pixelrag::error::Error;
use pixelrag::index::{
    check_backend, check_embedding_width, check_index_dim, check_query_width, effective_nclusters,
    external_ids, graph_memory_bytes, id_key, inverted_memory_bytes, key_id, not_finalized,
    over_fetch, probe_count, retain_allowed, IVF_MAX_ITER, IVF_REQUESTED_NCLUSTERS, IVF_SEED,
};

fn index_message(r: Result<(), Error>) -> String {
    match r {
        Err(Error::Index(m)) => m,
        other => panic!("expected an index error, got {:?}", other),
    }
}

#[test]
fn nclusters_clamp_is_safe() {
    assert_eq!(effective_nclusters(1), 1);
    assert_eq!(effective_nclusters(2), 1);
    assert_eq!(effective_nclusters(6), 3);
    assert_eq!(effective_nclusters(10_000), IVF_REQUESTED_NCLUSTERS);
}

#[test]
fn nclusters_edge_cases() {
    assert_eq!(effective_nclusters(0), 1);
    assert_eq!(effective_nclusters(3), 1);
    assert_eq!(effective_nclusters(31), 15);
    assert_eq!(effective_nclusters(32), 16);
    assert_eq!(effective_nclusters(usize::MAX), 16);
    assert_eq!((IVF_MAX_ITER, IVF_SEED), (25, 0x5158_6c61));
}

#[test]
fn retain_allowed_keeps_only_allowed_ids_in_order() {
    let hits = vec![(20usize, 0.1f32), (21, 0.2), (22, 0.3), (23, 0.4)];
    let kept = retain_allowed(hits, &vec![21, 23], 4);
    assert_eq!(kept, vec![(21, 0.2), (23, 0.4)]);
    assert!(kept.iter().all(|h| h.0 == 21 || h.0 == 23));
}

#[test]
fn retain_allowed_truncates_to_k() {
    let hits = vec![(5usize, 'a'), (1, 'b'), (5, 'c'), (2, 'd')];
    assert_eq!(retain_allowed(hits.clone(), &vec![5, 2], 2), vec![(5, 'a'), (5, 'c')]);
    assert_eq!(retain_allowed(hits.clone(), &vec![5, 2], 0), vec![]);
    assert_eq!(retain_allowed(hits, &vec![], 9), vec![]);
}

#[test]
fn over_fetch_saturates() {
    assert_eq!(over_fetch(10, 2), 12);
    assert_eq!(over_fetch(usize::MAX - 1, 5), usize::MAX);
    assert_eq!(over_fetch(0, 0), 0);
}

#[test]
fn probe_count_is_at_least_one() {
    assert_eq!(probe_count(None), 1);
    assert_eq!(probe_count(Some(0)), 1);
    assert_eq!(probe_count(Some(7)), 7);
}

#[test]
fn backend_positions_map_to_external_ids() {
    let table = vec![10usize, 11, 12, 13, 14, 15];
    assert_eq!(external_ids(&table, &vec![3, 0, 9, 5]), vec![13, 10, 15]);
    assert_eq!(external_ids(&table, &vec![]), Vec::<usize>::new());
}

#[test]
fn keys_round_trip() {
    for id in [0usize, 7, 10, 4096, usize::MAX] {
        let key = id_key(id);
        assert_eq!(key, id.to_string());
        assert_eq!(key_id(&key), Some(id));
    }
    assert_eq!(key_id("+12"), Some(12));
    assert_eq!(key_id("1e3"), None);
    assert_eq!(key_id(""), None);
    assert_eq!(key_id("99999999999999999999999"), None);
}

#[test]
fn footprints() {
    let word = std::mem::size_of::<usize>();
    assert_eq!(graph_memory_bytes(6, 8), 6 * 8 * 4 + 6 * word);
    assert_eq!(inverted_memory_bytes(6, 8, 3), 6 * 8 * 4 + 6 * word + 3 * 8 * 4);
    assert_eq!(graph_memory_bytes(0, 384), 0);
}

#[test]
fn width_checks() {
    assert_eq!(index_message(check_index_dim(0)), "embedding dimension must be > 0");
    assert!(check_index_dim(1).is_ok());
    assert_eq!(index_message(check_embedding_width(3, 4)), "embedding dim 3 != index dim 4");
    assert_eq!(index_message(check_query_width(12, 128)), "query dim 12 != index dim 128");
    assert!(check_query_width(4, 4).is_ok());
}

#[test]
fn backend_availability() {
    assert!(check_backend(IndexBackend::Hnsw).is_ok());
    assert!(check_backend(IndexBackend::IvfFlat).is_ok());
    assert!(index_message(check_backend(IndexBackend::IvfSq)).starts_with("IVF-SQ backend"));
    match not_finalized() {
        Error::Index(m) => assert!(m.starts_with("IVF index not finalized")),
        other => panic!("unexpected {:?}", other),
    }
}
