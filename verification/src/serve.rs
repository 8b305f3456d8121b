//! Request and response records of the retrieval service, and its error.
use vstd::prelude::*;
use vstd::string::*;

verus! {

/// Settings of the retrieval service.
#[derive(Debug, Clone)]
pub struct ServerConfig {
    /// IPv4 address to listen on.
    pub bind_ip: [u8; 4],
    /// Port to listen on.
    pub bind_port: u16,
    /// Persisted index to load at startup, if any.
    pub index_path: Option<String>,
    /// Encoder model file, if any.
    pub model_path: Option<String>,
    /// Embedding batch size.
    pub batch_size: usize,
    /// Maximum concurrent in-flight requests.
    pub max_concurrency: usize,
    /// Maximum accepted request body, bytes.
    pub max_body_bytes: usize,
    /// Optional tuning genome.
    pub darwin_config_path: Option<String>,
}

impl Default for ServerConfig {
    /// Listen on 127.0.0.1:8788; batch 32, 64 concurrent requests, 16 MiB bodies.
    fn default() -> (r: Self)
        ensures
            r.bind_ip == [127u8, 0u8, 0u8, 1u8],
            r.bind_port == 8788,
            r.index_path is None,
            r.model_path is None,
            r.batch_size == 32,
            r.max_concurrency == 64,
            r.max_body_bytes == 16 * 1024 * 1024,
            r.darwin_config_path is None,
    {
        ServerConfig {
            bind_ip: [127, 0, 0, 1],
            bind_port: 8788,
            index_path: None,
            model_path: None,
            batch_size: 32,
            max_concurrency: 64,
            max_body_bytes: 16 * 1024 * 1024,
            darwin_config_path: None,
        }
    }
}

/// Request to index one document.
#[derive(Debug, Clone, Default)]
pub struct IndexRequest {
    /// Caller-chosen document id.
    pub doc_id: String,
    /// URL to render, if the document is a web page.
    pub url: Option<String>,
    /// Pre-rendered image, base64, if supplied directly.
    pub image_b64: Option<String>,
    /// Free-form metadata stored alongside the tiles.
    pub metadata: Option<String>,
}

/// Result of indexing one document.
#[derive(Debug, Clone, Default)]
pub struct IndexResponse {
    /// Echo of the document id.
    pub doc_id: String,
    /// Tiles produced and inserted.
    pub tiles_indexed: usize,
    /// Wall-clock time spent, milliseconds.
    pub elapsed_ms: u64,
}

/// A retrieval query by text or image.
#[derive(Debug, Clone, Default)]
pub struct SearchRequest {
    /// Text query.
    pub query_text: Option<String>,
    /// Image query, base64.
    pub query_image_b64: Option<String>,
    /// Number of hits to return; the service default when `None`.
    pub k: Option<usize>,
    /// Optional allowlist of document ids.
    pub allowlist: Option<Vec<String>>,
}

/// Health report.
#[derive(Debug, Clone, Default)]
pub struct HealthResponse {
    /// `"ok"` when serving.
    pub status: String,
    /// Service version.
    pub version: String,
    /// Number of documents currently indexed.
    pub indexed_docs: usize,
}

/// Errors surfaced by the service.
#[derive(Debug)]
pub enum ServeError {
    /// Malformed or invalid request.
    BadRequest(String),
    /// Unknown route or resource.
    NotFound(String),
    /// A pipeline stage failed.
    Pipeline(String),
    /// Transport failure.
    Transport(String),
}

/// The text each service error displays.
pub open spec fn serve_error_text(e: ServeError) -> Seq<char> {
    match e {
        ServeError::BadRequest(m) => "bad request: "@ + m@,
        ServeError::NotFound(m) => "not found: "@ + m@,
        ServeError::Pipeline(m) => "pipeline error: "@ + m@,
        ServeError::Transport(m) => "transport error: "@ + m@,
    }
}

impl ServeError {
    /// The text the error displays.
    pub fn message(&self) -> (r: String)
        ensures
            r@ == serve_error_text(*self),
    {
        match self {
            ServeError::BadRequest(m) => String::from_str("bad request: ").concat(m.as_str()),
            ServeError::NotFound(m) => String::from_str("not found: ").concat(m.as_str()),
            ServeError::Pipeline(m) => String::from_str("pipeline error: ").concat(m.as_str()),
            ServeError::Transport(m) => String::from_str("transport error: ").concat(m.as_str()),
        }
    }
}

} // verus!
