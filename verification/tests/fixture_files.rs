use pixelrag::bench::{GroundTruth, Predictions};
use pixelrag::config::{Config, IndexBackend};
use pixelrag::error::Error;
use pixelrag::fixtures::{manifest_from_text, queries_from_text, tile_stem, visual_queries_from_text};
use pixelrag::json::{parse_json, JsonValue};

fn config_message(r: Result<Config, Error>) -> String {
    match r {
        Err(Error::Config(m)) => m,
        other => panic!("expected a config error, got {:?}", other.map(|c| c.batch_size)),
    }
}

#[test]
fn ground_truth_reads_relevance_entries() {
    let g = GroundTruth::from_json_text(
        r#"{"relevance":[{"query_id":"q1","relevant":["t1","t2",3]},{"query_id":"q2"}]}"#,
    )
    .unwrap();
    assert_eq!(
        g.by_query,
        vec![
            ("q1".to_string(), vec!["t1".to_string(), "t2".to_string()]),
            ("q2".to_string(), vec![]),
        ]
    );
}

#[test]
fn ground_truth_errors() {
    assert_eq!(
        GroundTruth::from_json_text(r#"{"qrels":[]}"#).unwrap_err().message,
        "ground-truth missing 'relevance' array"
    );
    assert_eq!(
        GroundTruth::from_json_text(r#"{"relevance":[{"relevant":[]}]}"#).unwrap_err().message,
        "relevance entry missing 'query_id'"
    );
    assert!(GroundTruth::from_json_text("{").unwrap_err().message.starts_with("parse ground-truth: "));
}

#[test]
fn predictions_accept_results_or_bare_object() {
    let p = Predictions::from_json_text(
        r#"{"results":[{"query_id":"q1","tiles":["a","b"]},{"tiles":["c"]}]}"#,
    )
    .unwrap();
    assert_eq!(
        p.by_query,
        vec![
            ("q1".to_string(), vec!["a".to_string(), "b".to_string()]),
            ("".to_string(), vec!["c".to_string()]),
        ]
    );
    let p = Predictions::from_json_text(r#"{"q2":["x"],"q1":["y",1,"z"],"note":"skip"}"#).unwrap();
    assert_eq!(
        p.by_query,
        vec![
            ("q1".to_string(), vec!["y".to_string(), "z".to_string()]),
            ("q2".to_string(), vec!["x".to_string()]),
        ]
    );
    assert!(Predictions::from_json_text("[1,2]").unwrap().by_query.is_empty());
}

#[test]
fn text_queries_with_dataset() {
    let (dataset, qs) = queries_from_text(
        r#"{"dataset":"mini","queries":[{"query_id":"q1","text":"cats"},{"query_id":"q2"}]}"#,
    )
    .unwrap();
    assert_eq!(dataset, "mini");
    assert_eq!(qs, vec![("q1".to_string(), "cats".to_string()), ("q2".to_string(), "".to_string())]);
    let (dataset, qs) = queries_from_text(r#"{"queries":[]}"#).unwrap();
    assert_eq!(dataset, "pixelrag-subset");
    assert!(qs.is_empty());
    assert_eq!(
        queries_from_text(r#"{"dataset":"x"}"#).unwrap_err().message,
        "queries.json missing 'queries' array"
    );
    assert_eq!(
        queries_from_text(r#"{"queries":[{"text":"t"}]}"#).unwrap_err().message,
        "query missing 'query_id'"
    );
}

#[test]
fn visual_fixture_files() {
    let qs = visual_queries_from_text(r#"[{"query_id":"v1","text":"a chart"}]"#).unwrap();
    assert_eq!(qs, vec![("v1".to_string(), "a chart".to_string())]);
    assert_eq!(
        visual_queries_from_text(r#"{"queries":[]}"#).unwrap_err().message,
        "visual queries.json must be a JSON array"
    );
    let g = GroundTruth::from_visual_json_text(r#"{"v2":["doc-01"],"v1":["doc-00",7]}"#).unwrap();
    assert_eq!(
        g.by_query,
        vec![
            ("v1".to_string(), vec!["doc-00".to_string()]),
            ("v2".to_string(), vec!["doc-01".to_string()]),
        ]
    );
    assert_eq!(
        GroundTruth::from_visual_json_text("[]").unwrap_err().message,
        "visual ground-truth.json must be a JSON object"
    );
    let m = manifest_from_text(
        r#"[{"id":"doc-00","url":"https://a","image":"images/doc-00.png"},{"id":"doc-01"}]"#,
    )
    .unwrap();
    assert_eq!(m.len(), 2);
    assert_eq!((m[0].id.as_str(), m[0].url.as_str(), m[0].image.as_str()), ("doc-00", "https://a", "images/doc-00.png"));
    assert_eq!((m[1].url.as_str(), m[1].image.as_str()), ("", ""));
    assert_eq!(manifest_from_text("{}").unwrap_err().message, "manifest must be a JSON array");
    assert_eq!(manifest_from_text(r#"[{"url":"u"}]"#).unwrap_err().message, "manifest entry missing 'id'");
}

#[test]
fn json_accessors() {
    let v = parse_json(r#"{"a":{"b":[1,"x",-2,1.5]},"s":"t"}"#).unwrap();
    let b = v.get("a").unwrap().get("b").unwrap().as_array().unwrap();
    assert_eq!(b.len(), 4);
    assert_eq!(b[0].as_u64(), Some(1));
    assert_eq!(b[1].as_str().map(|s| s.as_str()), Some("x"));
    assert_eq!(b[2].as_u64(), None);
    assert_eq!(b[3].as_u64(), None);
    assert!(v.get("missing").is_none());
    assert!(matches!(v.get("s"), Some(JsonValue::Str(_))));
    assert!(parse_json("nope").is_err());
}

#[test]
fn default_config_is_the_baseline() {
    let c = Config::default();
    assert_eq!(c.index_backend, IndexBackend::Hnsw);
    assert_eq!(c.batch_size, 32);
    assert_eq!(c.embedding_cache_mb, 100);
    assert_eq!(c.darwin_config_path, None);
    assert!(c.validate().is_ok());
}

#[test]
fn validate_bounds() {
    let mut c = Config::default();
    c.batch_size = 0;
    assert_eq!(config_message(c.validate().map(|_| Config::default())), "batch_size must be > 0");
    let mut c = Config::default();
    c.embedding_cache_mb = 32 * 1024 + 1;
    assert_eq!(
        config_message(c.validate().map(|_| Config::default())),
        "embedding_cache_mb 32769 exceeds the 32768 MB ceiling"
    );
    c.embedding_cache_mb = 32 * 1024;
    assert!(c.validate().is_ok());
}

#[test]
fn genome_overlays_defaults() {
    let c = Config::from_darwin_text(
        "g.json",
        r#"{"config":{"index_backend":"IVF-Flat","batch_size":8},"metrics":{"ndcg":0.5}}"#,
    )
    .unwrap();
    assert_eq!(c.index_backend, IndexBackend::IvfFlat);
    assert_eq!(c.batch_size, 8);
    assert_eq!(c.embedding_cache_mb, 100);
    assert_eq!(c.darwin_config_path, Some("g.json".to_string()));
    let c = Config::from_darwin_text("bare.json", r#"{"embedding_cache_mb":0,"extra":true}"#).unwrap();
    assert_eq!(c.embedding_cache_mb, 0);
    assert_eq!(c.batch_size, 32);
}

#[test]
fn genome_errors() {
    assert_eq!(
        config_message(Config::from_darwin_text("g", r#"{"index_backend":7}"#)),
        "index_backend must be a string"
    );
    assert_eq!(
        config_message(Config::from_darwin_text("g", r#"{"index_backend":"Annoy"}"#)),
        "unknown index_backend 'annoy'"
    );
    assert_eq!(
        config_message(Config::from_darwin_text("g", r#"{"batch_size":-3}"#)),
        "batch_size must be a positive integer"
    );
    assert_eq!(
        config_message(Config::from_darwin_text("g", r#"{"embedding_cache_mb":"big"}"#)),
        "embedding_cache_mb must be an integer"
    );
    assert_eq!(config_message(Config::from_darwin_text("g", r#"{"batch_size":0}"#)), "batch_size must be > 0");
    assert!(config_message(Config::from_darwin_text("g", "{")).starts_with("darwin genome parse failed: "));
}

#[test]
fn only_txt_entries_are_tiles() {
    assert_eq!(tile_stem("tile-000.txt"), Some("tile-000".to_string()));
    assert_eq!(tile_stem("a.b.txt"), Some("a.b".to_string()));
    assert_eq!(tile_stem("..txt"), Some(".".to_string()));
    assert_eq!(tile_stem(".txt"), None);
    assert_eq!(tile_stem("tile-001.md"), None);
    assert_eq!(tile_stem("tile-002.TXT"), None);
    assert_eq!(tile_stem("tile-003.txt.bak"), None);
    assert_eq!(tile_stem("txt"), None);
}
