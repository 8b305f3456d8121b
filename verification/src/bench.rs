//! Benchmark harness data: argument records, metric selection, the qrels and
//! predictions read from fixture JSON, and the harness settings they resolve to.
use vstd::prelude::*;
use vstd::string::*;

use crate::config::{default_config, Config, ConfigView, IndexBackend};
use crate::encoder::{Image, PixelFormat};
use crate::sidecar::MINILM_DIM;
use crate::synthetic::DEFAULT_SYNTHETIC_DIM;
use crate::tile::copy_range;
use crate::json::{
    collect_strings, json_array, json_get, json_object, json_str, parse_json, spec_parse_json,
    strings_of, strings_view, JsonValue,
};
use crate::text::{
    chars_eq_str, chars_of, lower_chars, lower_seq, parse_usize, parse_usize_spec, split_first,
    split_first_exec, string_of, trim, trim_chars,
};

verus! {

/// Which embedder backend the text benchmark drives.
#[derive(Debug, Clone, Copy, PartialEq, Eq, Structural)]
pub enum EmbedderChoice {
    /// Real semantic embeddings via the sidecar (default).
    Real,
    /// Deterministic non-semantic plumbing embedder.
    Synthetic,
}

impl Default for EmbedderChoice {
    fn default() -> (r: Self)
        ensures
            r == EmbedderChoice::Real,
    {
        EmbedderChoice::Real
    }
}

/// The embedder a token names (trimmed, case-insensitive).
pub open spec fn embedder_from_token(token: Seq<char>) -> Option<EmbedderChoice> {
    let l = lower_seq(trim(token));
    if l == "real"@ || l == "minilm"@ || l == "sidecar"@ {
        Some(EmbedderChoice::Real)
    } else if l == "synthetic"@ || l == "synth"@ {
        Some(EmbedderChoice::Synthetic)
    } else {
        None
    }
}

impl EmbedderChoice {
    /// Parse `real|minilm|sidecar` or `synthetic|synth` (trimmed, case-insensitive).
    pub fn parse(token: &str) -> (r: Option<Self>)
        ensures
            r == embedder_from_token(token@),
    {
        let l = lower_chars(&trim_chars(&chars_of(token)));
        if chars_eq_str(&l, "real") || chars_eq_str(&l, "minilm") || chars_eq_str(&l, "sidecar") {
            Some(EmbedderChoice::Real)
        } else if chars_eq_str(&l, "synthetic") || chars_eq_str(&l, "synth") {
            Some(EmbedderChoice::Synthetic)
        } else {
            None
        }
    }
}

/// A single benchmark metric the harness can compute.
#[derive(Debug, Clone, Copy, PartialEq, Eq, Structural)]
pub enum MetricKind {
    /// Recall@k.
    Recall(usize),
    /// Normalized Discounted Cumulative Gain at cutoff k.
    Ndcg(usize),
    /// Mean Reciprocal Rank.
    Mrr,
}

/// Error returned when a metric token cannot be parsed.
#[derive(Debug, Clone, PartialEq, Eq)]
pub struct MetricParseError {
    /// The offending (trimmed) token.
    pub token: String,
}

/// The metric a (lower-cased) name selects with cutoff `k`.
pub open spec fn metric_named(name: Seq<char>, k: usize) -> Option<MetricKind> {
    let l = lower_seq(name);
    if l == "recall"@ {
        Some(MetricKind::Recall(k))
    } else if l == "ndcg"@ {
        Some(MetricKind::Ndcg(k))
    } else if l == "mrr"@ {
        Some(MetricKind::Mrr)
    } else {
        None
    }
}

/// What a metric token parses to: `name` or `name@k` (default cutoff 10), with
/// the name matched case-insensitively; otherwise the trimmed token is the error.
pub open spec fn metric_from_token(token: Seq<char>) -> Result<MetricKind, Seq<char>> {
    let t = trim(token);
    match split_first(t, '@') {
        Some(p) => match parse_usize_spec(p.1) {
            None => Err(t),
            Some(k) => match metric_named(p.0, k) {
                Some(m) => Ok(m),
                None => Err(t),
            },
        },
        None => match metric_named(t, 10) {
            Some(m) => Ok(m),
            None => Err(t),
        },
    }
}

fn metric_named_exec(name: &Vec<char>, k: usize) -> (r: Option<MetricKind>)
    ensures
        r == metric_named(name@, k),
{
    let l = lower_chars(name);
    if chars_eq_str(&l, "recall") {
        Some(MetricKind::Recall(k))
    } else if chars_eq_str(&l, "ndcg") {
        Some(MetricKind::Ndcg(k))
    } else if chars_eq_str(&l, "mrr") {
        Some(MetricKind::Mrr)
    } else {
        None
    }
}

impl MetricKind {
    /// Parse a single metric token (`"ndcg"`, `"mrr"`, `"recall@10"`, `"ndcg@5"`):
    /// trimmed, split at the first `@` for a cutoff (default 10).
    pub fn parse(token: &str) -> (r: Result<Self, MetricParseError>)
        ensures
            match metric_from_token(token@) {
                Ok(m) => r == Ok::<MetricKind, MetricParseError>(m),
                Err(t) => r matches Err(e) && e.token@ == t,
            },
    {
        let t = trim_chars(&chars_of(token));
        let named = match split_first_exec(&t, '@') {
            Some((name, k_str)) => match parse_usize(&k_str) {
                Some(k) => metric_named_exec(&name, k),
                None => None,
            },
            None => metric_named_exec(&t, 10),
        };
        match named {
            Some(m) => Ok(m),
            None => Err(MetricParseError { token: string_of(&t) }),
        }
    }
}

/// Error type for the benchmark harness.
#[derive(Debug)]
pub struct BenchError {
    /// Human-readable description of the failure.
    pub message: String,
}

/// A benchmark error carrying `msg`.
pub open spec fn is_bench_error(e: BenchError, msg: Seq<char>) -> bool {
    e.message@ == msg
}

/// Arguments for the text benchmark.
#[derive(Debug, Clone, PartialEq, Eq, Default)]
pub struct BenchArgs {
    /// Where to write the per-query ranked predictions JSON.
    pub predictions: String,
    /// Ground-truth relevance JSON (qrels).
    pub ground_truth: String,
    /// Queries JSON (`query_id` + `text`).
    pub queries: String,
    /// Tiles directory; `None` means the `tiles/` sibling of the ground truth.
    pub tiles_dir: Option<String>,
    /// Metrics to compute.
    pub metrics: Vec<MetricKind>,
    /// Where to write the report JSON; `None` means the default location.
    pub report_out: Option<String>,
    /// Optional tuning genome JSON.
    pub darwin_config: Option<String>,
    /// Retrieval cutoff.
    pub k: usize,
    /// Override of the embedding batch size.
    pub batch_size: Option<usize>,
    /// Override of the index backend.
    pub index_backend: Option<IndexBackend>,
    /// Which embedder backend to use.
    pub embedder: EmbedderChoice,
}

/// Text of an optional string.
pub open spec fn opt_view(o: Option<String>) -> Option<Seq<char>> {
    match o {
        Some(s) => Some(s@),
        None => None,
    }
}

/// The harness configuration a run resolves to: the genome's configuration
/// when one was given and loaded (else the built-in one), then the batch-size
/// override (at least 1) and the backend override.
pub open spec fn resolved_config(
    genome: Option<Result<ConfigView, Seq<char>>>,
    batch_size: Option<usize>,
    index_backend: Option<IndexBackend>,
) -> ConfigView {
    let base = match genome {
        Some(Ok(c)) => c,
        _ => default_config(),
    };
    let with_batch = match batch_size {
        Some(bs) => ConfigView {
            batch_size: if bs >= 1 {
                bs
            } else {
                1
            },
            ..base
        },
        None => base,
    };
    match index_backend {
        Some(b) => ConfigView { index_backend: b, ..with_batch },
        None => with_batch,
    }
}

/// A run without a genome, or whose genome fails to load, uses the built-in
/// configuration when nothing overrides it.
pub proof fn law_failed_genome_falls_back_to_default(reason: Seq<char>)
    ensures
        resolved_config(Some(Err(reason)), None, None) == default_config(),
        resolved_config(None, None, None) == default_config(),
{
}

/// The effective cutoff: `k`, or 10 when `k` is 0.
pub open spec fn effective_k(k: usize) -> usize {
    if k == 0 {
        10
    } else {
        k
    }
}

/// Resolve the harness configuration of a run. `genome` is the outcome of
/// loading the optional genome; a failed load falls back to the built-in
/// configuration.
pub fn resolve_config(
    genome: Option<Result<Config, crate::error::Error>>,
    batch_size: Option<usize>,
    index_backend: Option<IndexBackend>,
) -> (r: Config)
    ensures
        r@ == resolved_config(
            match genome {
                Some(Ok(c)) => Some(Ok::<ConfigView, Seq<char>>(c@)),
                Some(Err(_)) => Some(Err::<ConfigView, Seq<char>>(Seq::empty())),
                None => None,
            },
            batch_size,
            index_backend,
        ),
{
    let mut config = match genome {
        Some(Ok(c)) => c,
        _ => Config::default(),
    };
    match batch_size {
        Some(bs) => {
            config.batch_size = if bs >= 1 {
                bs
            } else {
                1
            };
        },
        None => {},
    }
    match index_backend {
        Some(b) => {
            config.index_backend = b;
        },
        None => {},
    }
    config
}

/// The effective retrieval cutoff of a run.
pub fn effective_cutoff(k: usize) -> (r: usize)
    ensures
        r == effective_k(k),
{
    if k == 0 {
        10
    } else {
        k
    }
}

/// The metrics a run scores: the requested ones, or NDCG@k, MRR and recall@k.
pub open spec fn metrics_to_score(requested: Seq<MetricKind>, k: usize) -> Seq<MetricKind> {
    if requested.len() == 0 {
        seq![MetricKind::Ndcg(k), MetricKind::Mrr, MetricKind::Recall(k)]
    } else {
        requested
    }
}

/// The metrics a run scores (see [`metrics_to_score`]).
pub fn select_metrics(requested: &Vec<MetricKind>, k: usize) -> (r: Vec<MetricKind>)
    ensures
        r@ == metrics_to_score(requested@, k),
{
    if requested.len() == 0 {
        let mut v: Vec<MetricKind> = Vec::new();
        v.push(MetricKind::Ndcg(k));
        v.push(MetricKind::Mrr);
        v.push(MetricKind::Recall(k));
        proof {
            assert(v@ =~= seq![MetricKind::Ndcg(k), MetricKind::Mrr, MetricKind::Recall(k)]);
        }
        v
    } else {
        let mut v: Vec<MetricKind> = Vec::new();
        let mut i: usize = 0;
        while i < requested.len()
            invariant
                i <= requested@.len(),
                v@ == requested@.subrange(0, i as int),
            decreases requested@.len() - i,
        {
            v.push(requested[i]);
            i = i + 1;
        }
        proof {
            assert(requested@.subrange(0, i as int) == requested@);
        }
        v
    }
}

/// The label of each backend in reports.
pub open spec fn backend_label_spec(b: IndexBackend) -> Seq<char> {
    match b {
        IndexBackend::Hnsw => "hnsw"@,
        IndexBackend::IvfFlat => "ivf-flat"@,
        IndexBackend::IvfSq => "ivf-sq"@,
    }
}

/// The label of a backend in reports.
pub fn backend_label(b: IndexBackend) -> (r: String)
    ensures
        r@ == backend_label_spec(b),
{
    match b {
        IndexBackend::Hnsw => String::from_str("hnsw"),
        IndexBackend::IvfFlat => String::from_str("ivf-flat"),
        IndexBackend::IvfSq => String::from_str("ivf-sq"),
    }
}

/// Ranked lists per query: `(query id, ordered ids)`.
pub open spec fn ranked_view(v: Seq<(String, Vec<String>)>) -> Seq<(Seq<char>, Seq<Seq<char>>)> {
    v.map_values(|e: (String, Vec<String>)| (e.0@, strings_view(e.1@)))
}

/// Per-query ranked retrieval results.
#[derive(Debug, Clone, Default, PartialEq, Eq)]
pub struct Predictions {
    /// Ranked `(query_id, ordered tile_ids)` entries.
    pub by_query: Vec<(String, Vec<String>)>,
}

/// Ground-truth relevance (qrels): `(query_id, ranked relevant ids)`.
#[derive(Debug, Clone, Default, PartialEq, Eq)]
pub struct GroundTruth {
    /// `(query_id, ranked relevant tile_ids)` entries.
    pub by_query: Vec<(String, Vec<String>)>,
}

/// The string members of an array-valued member `key` (empty when absent or
/// not an array).
pub open spec fn member_strings(v: JsonValue, key: Seq<char>) -> Seq<Seq<char>> {
    match json_get(v, key) {
        Some(a) => match json_array(a) {
            Some(xs) => strings_of(xs),
            None => Seq::empty(),
        },
        None => Seq::empty(),
    }
}

/// A string member `key`, or `default` when absent or not a string.
pub open spec fn member_str_or(v: JsonValue, key: Seq<char>, default: Seq<char>) -> Seq<char> {
    match json_get(v, key) {
        Some(s) => match json_str(s) {
            Some(t) => t,
            None => default,
        },
        None => default,
    }
}

/// A string member `key`, if present and a string.
pub open spec fn member_str(v: JsonValue, key: Seq<char>) -> Option<Seq<char>> {
    match json_get(v, key) {
        Some(s) => json_str(s),
        None => None,
    }
}

pub fn member_strings_pub(v: &JsonValue, key: &str) -> (r: Vec<String>)
    ensures
        strings_view(r@) == member_strings(*v, key@),
{
    match v.get(key) {
        Some(a) => match a.as_array() {
            Some(xs) => collect_strings(xs),
            None => Vec::new(),
        },
        None => Vec::new(),
    }
}

pub fn member_str_or_pub(v: &JsonValue, key: &str, default: &str) -> (r: String)
    ensures
        r@ == member_str_or(*v, key@, default@),
{
    match v.get(key) {
        Some(s) => match s.as_str() {
            Some(t) => t.clone(),
            None => String::from_str(default),
        },
        None => String::from_str(default),
    }
}

pub fn member_str_pub(v: &JsonValue, key: &str) -> (r: Option<String>)
    ensures
        opt_view(r) == member_str(*v, key@),
{
    match v.get(key) {
        Some(s) => match s.as_str() {
            Some(t) => Some(t.clone()),
            None => None,
        },
        None => None,
    }
}

/// The qrels entries of a `relevance` array, or `None` when some entry lacks a
/// string `query_id`.
pub open spec fn qrels_entries(arr: Seq<JsonValue>) -> Option<Seq<(Seq<char>, Seq<Seq<char>>)>>
    decreases arr.len(),
{
    if arr.len() == 0 {
        Some(Seq::empty())
    } else {
        match qrels_entries(arr.drop_last()) {
            None => None,
            Some(prefix) => match member_str(arr.last(), "query_id"@) {
                None => None,
                Some(q) => Some(prefix.push((q, member_strings(arr.last(), "relevant"@)))),
            },
        }
    }
}

/// The qrels a ground-truth document holds (`{"relevance":[{"query_id", "relevant"}]}`).
pub open spec fn ground_truth_spec(json: JsonValue) -> Result<
    Seq<(Seq<char>, Seq<Seq<char>>)>,
    Seq<char>,
> {
    match json_get(json, "relevance"@) {
        None => Err("ground-truth missing 'relevance' array"@),
        Some(a) => match json_array(a) {
            None => Err("ground-truth missing 'relevance' array"@),
            Some(arr) => match qrels_entries(arr) {
                None => Err("relevance entry missing 'query_id'"@),
                Some(es) => Ok(es),
            },
        },
    }
}

proof fn lemma_qrels_prefix_none(arr: Seq<JsonValue>, i: int)
    requires
        0 <= i <= arr.len(),
        qrels_entries(arr.subrange(0, i)) is None,
    ensures
        qrels_entries(arr) is None,
    decreases arr.len() - i,
{
    if i < arr.len() {
        assert(arr.subrange(0, i + 1).drop_last() == arr.subrange(0, i));
        lemma_qrels_prefix_none(arr, i + 1);
    } else {
        assert(arr.subrange(0, i) == arr);
    }
}

impl GroundTruth {
    /// Read qrels from a parsed ground-truth document.
    pub fn from_json(json: &JsonValue) -> (r: Result<GroundTruth, BenchError>)
        ensures
            match ground_truth_spec(*json) {
                Ok(es) => r is Ok && ranked_view(r->Ok_0.by_query@) == es,
                Err(m) => r matches Err(e) && is_bench_error(e, m),
            },
    {
        let arr = match json.get("relevance") {
            Some(a) => match a.as_array() {
                Some(arr) => arr,
                None => {
                    return Err(
                        BenchError {
                            message: String::from_str("ground-truth missing 'relevance' array"),
                        },
                    );
                },
            },
            None => {
                return Err(
                    BenchError {
                        message: String::from_str("ground-truth missing 'relevance' array"),
                    },
                );
            },
        };
        let mut out: Vec<(String, Vec<String>)> = Vec::new();
        let mut i: usize = 0;
        while i < arr.len()
            invariant
                i <= arr@.len(),
                ground_truth_spec(*json) == match qrels_entries(arr@) {
                    None => Err::<Seq<(Seq<char>, Seq<Seq<char>>)>, Seq<char>>(
                        "relevance entry missing 'query_id'"@,
                    ),
                    Some(es) => Ok(es),
                },
                qrels_entries(arr@.subrange(0, i as int)) == Some(ranked_view(out@)),
            decreases arr@.len() - i,
        {
            proof {
                assert(arr@.subrange(0, i + 1).drop_last() == arr@.subrange(0, i as int));
                assert(arr@.subrange(0, i + 1).last() == arr@[i as int]);
            }
            let qid = match member_str_pub(&arr[i], "query_id") {
                Some(q) => q,
                None => {
                    proof {
                        lemma_qrels_prefix_none(arr@, i + 1);
                    }
                    return Err(
                        BenchError { message: String::from_str("relevance entry missing 'query_id'") },
                    );
                },
            };
            let rel = member_strings_pub(&arr[i], "relevant");
            let ghost prev = out@;
            out.push((qid, rel));
            proof {
                assert(ranked_view(out@) =~= ranked_view(prev).push((qid@, strings_view(rel@))));
            }
            i = i + 1;
        }
        proof {
            assert(arr@.subrange(0, i as int) == arr@);
        }
        Ok(GroundTruth { by_query: out })
    }

    /// Parse a ground-truth document's text and read its qrels.
    pub fn from_json_text(raw: &str) -> (r: Result<GroundTruth, BenchError>)
        ensures
            match spec_parse_json(raw@) {
                Err(pe) => r matches Err(e) && is_bench_error(e, "parse ground-truth: "@ + pe),
                Ok(json) => match ground_truth_spec(json) {
                    Ok(es) => r is Ok && ranked_view(r->Ok_0.by_query@) == es,
                    Err(m) => r matches Err(e) && is_bench_error(e, m),
                },
            },
    {
        match parse_json(raw) {
            Ok(json) => GroundTruth::from_json(&json),
            Err(pe) => Err(
                BenchError { message: String::from_str("parse ground-truth: ").concat(pe.as_str()) },
            ),
        }
    }
}

} // verus!

verus! {

/// Honesty label of runs with the deterministic plumbing embedder.
pub const HONESTY_LABEL: &'static str = "subset fixture + synthetic embeddings — plumbing validation, NOT semantic retrieval quality; real recall requires Qwen3-VL-2B (blocked)";

/// Honesty label of runs with real semantic embeddings.
pub const HONESTY_LABEL_REAL: &'static str = "real all-MiniLM-L6-v2 semantic embeddings over a small real eval fixture — semantic retrieval, still a tiny corpus vs full-scale";

/// The report path used when none is given.
pub const DEFAULT_REPORT: &'static str = "bench_output/pixelrag_bench.json";

/// The embedder label and honesty label a run reports for its embedder.
pub open spec fn labels_of(choice: EmbedderChoice) -> (Seq<char>, Seq<char>) {
    match choice {
        EmbedderChoice::Real => ("real all-MiniLM-L6-v2"@, HONESTY_LABEL_REAL@),
        EmbedderChoice::Synthetic => ("synthetic"@, HONESTY_LABEL@),
    }
}

/// The embedder label and honesty label of a run.
pub fn embedder_labels(choice: EmbedderChoice) -> (r: (String, &'static str))
    ensures
        r.0@ == labels_of(choice).0,
        r.1@ == labels_of(choice).1,
{
    match choice {
        EmbedderChoice::Real => (String::from_str("real all-MiniLM-L6-v2"), HONESTY_LABEL_REAL),
        EmbedderChoice::Synthetic => (String::from_str("synthetic"), HONESTY_LABEL),
    }
}

/// The embedding width of each embedder choice.
pub open spec fn width_of(choice: EmbedderChoice) -> usize {
    match choice {
        EmbedderChoice::Real => MINILM_DIM,
        EmbedderChoice::Synthetic => DEFAULT_SYNTHETIC_DIM,
    }
}

/// The embedding width (and so the index width) a run uses.
pub fn embedding_width(choice: EmbedderChoice) -> (r: usize)
    ensures
        r == width_of(choice),
{
    match choice {
        EmbedderChoice::Real => MINILM_DIM,
        EmbedderChoice::Synthetic => DEFAULT_SYNTHETIC_DIM,
    }
}

/// A query text as the encoder sees it: its UTF-8 bytes as a one-row
/// grayscale image at least one pixel wide (the width truncated to 32 bits).
pub fn query_image(text: &str) -> (r: Image)
    ensures
        r.pixels@ == text.spec_bytes(),
        r.width == (if text.spec_bytes().len() >= 1 {
            text.spec_bytes().len() as usize
        } else {
            1usize
        }) as u32,
        r.height == 1,
        r.format == PixelFormat::Gray8,
{
    let bytes = text.as_bytes();
    let pixels = copy_range(bytes, 0, bytes.len());
    let n = pixels.len();
    let w: usize = if n >= 1 {
        n
    } else {
        1
    };
    Image { pixels, width: w as u32, height: 1, format: PixelFormat::Gray8 }
}

/// A text run needs at least one tile.
pub fn check_tiles_found(n_tiles: usize, dir: &str) -> (r: Result<(), BenchError>)
    ensures
        n_tiles == 0 ==> (r matches Err(e) && e.message@ == "no tiles found under "@ + dir@),
        n_tiles != 0 ==> r is Ok,
{
    if n_tiles == 0 {
        Err(BenchError { message: String::from_str("no tiles found under ").concat(dir) })
    } else {
        Ok(())
    }
}

} // verus!
