use pixelrag::bench::{
    backend_label, effective_cutoff, embedder_labels, embedding_width, query_image,
    check_tiles_found, resolve_config, select_metrics, EmbedderChoice, MetricKind, HONESTY_LABEL,
    HONESTY_LABEL_REAL,
};
use pixelrag::config::{Config, IndexBackend};
use pixelrag::encoder::{EmbedderKind, EncoderError, PixelFormat};
use pixelrag::error::Error;
use pixelrag::outcome::{answer_without_process, SidecarOutput};
use pixelrag::serve::ServeError;
use pixelrag::sidecar::{SidecarEmbedder, MINILM_DIM};

fn sidecar_message(r: Result<(), EncoderError>) -> String {
    match r {
        Err(EncoderError::Sidecar(m)) => m,
        other => panic!("expected a sidecar error, got {:?}", other),
    }
}

#[test]
fn sidecar_embedder_settings() {
    let e = SidecarEmbedder::new("embed.mjs".into(), None, None);
    assert_eq!(e.sidecar_path(), "embed.mjs");
    assert_eq!(e.node_bin(), "node");
    assert_eq!(e.embedding_dim(), MINILM_DIM);
    assert_eq!(MINILM_DIM, 384);
    assert_eq!(e.kind(), EmbedderKind::Sidecar);
    let e = SidecarEmbedder::new("embed.mjs".into(), Some("/x/e.mjs".into()), Some("/usr/bin/node".into()));
    assert_eq!(e.sidecar_path(), "/x/e.mjs");
    assert_eq!(e.node_bin(), "/usr/bin/node");
}

#[test]
fn sidecar_reply_shape() {
    let e = SidecarEmbedder::new("e".into(), None, None);
    assert!(e.check_reply(2, "all-MiniLM-L6-v2", 384, &vec![384, 384]).is_ok());
    assert_eq!(
        sidecar_message(e.check_reply(2, "m", 768, &vec![384])),
        "sidecar dim mismatch: expected 384, got 768 (model=m)"
    );
    assert_eq!(sidecar_message(e.check_reply(2, "m", 384, &vec![384])), "sidecar returned 1 vectors for 2 tiles");
    assert_eq!(
        sidecar_message(e.check_reply(3, "m", 384, &vec![384, 383, 2])),
        "vector 1 has width 383, expected 384"
    );
    match SidecarEmbedder::decode_failure("EOF while parsing") {
        e @ EncoderError::Sidecar(_) => {
            assert_eq!(e.message(), "encoder sidecar failed: parse sidecar response JSON: EOF while parsing")
        }
        other => panic!("unexpected {:?}", other),
    }
}

#[test]
fn sidecar_process_outcome() {
    let fail = SidecarOutput { success: false, status: "exit status: 1".into(), stderr: "boom\n".into(), stdout: "".into() };
    match SidecarEmbedder::reply(&fail) {
        Err(EncoderError::Sidecar(m)) => assert_eq!(m, "sidecar exited with exit status: 1: boom"),
        other => panic!("unexpected {:?}", other),
    }
    let empty = SidecarOutput { success: true, status: "exit status: 0".into(), stderr: "".into(), stdout: "  ".into() };
    assert_eq!(
        sidecar_message(SidecarEmbedder::reply(&empty).map(|_| ())),
        "sidecar produced empty stdout (no JSON response)"
    );
    let clip = SidecarOutput { success: true, status: "ok".into(), stderr: "".into(), stdout: "".into() };
    assert_eq!(clip.reply("CLIP sidecar", "").unwrap_err(), "CLIP sidecar produced empty stdout");
}

#[test]
fn run_settings() {
    let (label, honesty) = embedder_labels(EmbedderChoice::Real);
    assert_eq!(label, "real all-MiniLM-L6-v2");
    assert_eq!(honesty, HONESTY_LABEL_REAL);
    let (label, honesty) = embedder_labels(EmbedderChoice::Synthetic);
    assert_eq!(label, "synthetic");
    assert_eq!(honesty, HONESTY_LABEL);
    assert_eq!(embedding_width(EmbedderChoice::Real), 384);
    assert_eq!(embedding_width(EmbedderChoice::Synthetic), 128);
    assert_eq!(effective_cutoff(0), 10);
    assert_eq!(effective_cutoff(3), 3);
    assert_eq!(backend_label(IndexBackend::IvfFlat), "ivf-flat");
    assert_eq!(backend_label(IndexBackend::IvfSq), "ivf-sq");
    assert_eq!(backend_label(IndexBackend::Hnsw), "hnsw");
    assert_eq!(
        select_metrics(&vec![], 5),
        vec![MetricKind::Ndcg(5), MetricKind::Mrr, MetricKind::Recall(5)]
    );
    assert_eq!(select_metrics(&vec![MetricKind::Mrr], 5), vec![MetricKind::Mrr]);
    assert_eq!(check_tiles_found(0, "fx/tiles").unwrap_err().message, "no tiles found under fx/tiles");
    assert!(check_tiles_found(1, "fx/tiles").is_ok());
}

#[test]
fn resolved_configuration() {
    let c = resolve_config(None, Some(0), Some(IndexBackend::IvfFlat));
    assert_eq!((c.batch_size, c.index_backend, c.embedding_cache_mb), (1, IndexBackend::IvfFlat, 100));
    let mut g = Config::default();
    g.batch_size = 4;
    g.embedding_cache_mb = 7;
    let c = resolve_config(Some(Ok(g)), None, None);
    assert_eq!((c.batch_size, c.embedding_cache_mb), (4, 7));
    let c = resolve_config(Some(Err(Error::Config("bad".into()))), None, None);
    assert_eq!((c.batch_size, c.embedding_cache_mb, c.index_backend), (32, 100, IndexBackend::Hnsw));
}

#[test]
fn query_text_becomes_gray_row() {
    let img = query_image("héllo");
    assert_eq!(img.pixels, "héllo".as_bytes().to_vec());
    assert_eq!((img.width, img.height, img.format), (6, 1, PixelFormat::Gray8));
    let img = query_image("");
    assert!(img.pixels.is_empty());
    assert_eq!(img.width, 1);
}

#[test]
fn service_error_messages() {
    assert_eq!(ServeError::BadRequest("b".into()).message(), "bad request: b");
    assert_eq!(ServeError::NotFound("/x".into()).message(), "not found: /x");
    assert_eq!(ServeError::Pipeline("p".into()).message(), "pipeline error: p");
    assert_eq!(ServeError::Transport("t".into()).message(), "transport error: t");
    assert_eq!(EncoderError::EmptyBatch.message(), "batch produced no embeddings");
}

#[test]
fn service_defaults() {
    let c = pixelrag::serve::ServerConfig::default();
    assert_eq!((c.bind_ip, c.bind_port), ([127, 0, 0, 1], 8788));
    assert_eq!((c.batch_size, c.max_concurrency, c.max_body_bytes), (32, 64, 16 * 1024 * 1024));
    assert!(c.index_path.is_none() && c.model_path.is_none() && c.darwin_config_path.is_none());
    let r = pixelrag::serve::SearchRequest::default();
    assert!(r.k.is_none() && r.query_text.is_none());
}

#[test]
fn empty_batches_need_no_process() {
    let empty: Option<Vec<u32>> = answer_without_process(0);
    assert_eq!(empty, Some(vec![]));
    let busy: Option<Vec<u32>> = answer_without_process(3);
    assert_eq!(busy, None);
}
