//! The visual benchmark's decisions: its argument record, where a document's
//! screenshot is looked for, and the checks on what the image/text encoder
//! sidecar hands back.
use vstd::prelude::*;
use vstd::string::*;

use crate::bench::{BenchError, MetricKind};
use crate::config::IndexBackend;
use crate::index::in_range;
use crate::text::{decimal, push_decimal};

verus! {

/// Arguments of the visual benchmark.
#[derive(Debug, Clone, PartialEq, Eq)]
pub struct VisualArgs {
    /// Fixture directory holding the manifest, queries, ground truth and images.
    pub fixture_dir: String,
    /// Where to write the per-query ranked predictions JSON.
    pub predictions: String,
    /// Where to write the report JSON; `None` means the default location.
    pub report_out: Option<String>,
    /// Metrics to compute (empty: NDCG@k, MRR and recall@k).
    pub metrics: Vec<MetricKind>,
    /// Retrieval cutoff.
    pub k: usize,
    /// Override of the index backend.
    pub index_backend: Option<IndexBackend>,
}

/// The fixture directory used when none is given.
pub open spec fn default_fixture_dir() -> Seq<char> {
    "tests/fixtures/pixelrag/visual"@
}

/// The predictions path used when none is given.
pub open spec fn default_visual_predictions() -> Seq<char> {
    "bench_output/pixelrag_visual_results.json"@
}

impl Default for VisualArgs {
    fn default() -> (r: Self)
        ensures
            r.fixture_dir@ == default_fixture_dir(),
            r.predictions@ == default_visual_predictions(),
            r.report_out is None,
            r.metrics@.len() == 0,
            r.k == 10,
            r.index_backend is None,
    {
        VisualArgs {
            fixture_dir: String::from_str("tests/fixtures/pixelrag/visual"),
            predictions: String::from_str("bench_output/pixelrag_visual_results.json"),
            report_out: None,
            metrics: Vec::new(),
            k: 10,
            index_backend: None,
        }
    }
}

/// Which candidate path a document's screenshot is read from.
#[derive(Debug, Clone, Copy, PartialEq, Eq, Structural)]
pub enum ImageSource {
    /// The manifest's path, under the fixture directory.
    Primary,
    /// `images/<id>.png` under the fixture directory.
    Fallback,
}

/// Where a document's screenshot comes from, and whether it must be rendered
/// first because it is missing there.
#[derive(Debug, Clone, Copy, PartialEq, Eq, Structural)]
pub struct ImagePlan {
    /// The chosen candidate path.
    pub source: ImageSource,
    /// Whether the screenshot is missing there and will be rendered from its URL.
    pub render: bool,
}

/// The candidate chosen for a manifest entry with image path `image_rel`: the
/// manifest path when it is given and exists, else the fallback when it
/// exists, else the manifest path when it is given, else the fallback.
pub open spec fn image_source(image_rel: Seq<char>, primary_exists: bool, fallback_exists: bool) -> ImageSource {
    if image_rel.len() > 0 && primary_exists {
        ImageSource::Primary
    } else if fallback_exists {
        ImageSource::Fallback
    } else if image_rel.len() > 0 {
        ImageSource::Primary
    } else {
        ImageSource::Fallback
    }
}

/// Plan where a document's screenshot is read from. The screenshot is rendered
/// from `url` when the chosen path does not exist and the URL is given.
pub fn plan_image(image_rel: &str, url: &str, primary_exists: bool, fallback_exists: bool) -> (r: ImagePlan)
    ensures
        r.source == image_source(image_rel@, primary_exists, fallback_exists),
        r.render == (url@.len() > 0 && !(match r.source {
            ImageSource::Primary => primary_exists,
            ImageSource::Fallback => fallback_exists,
        })),
{
    let has_rel = image_rel.unicode_len() > 0;
    let source = if has_rel && primary_exists {
        ImageSource::Primary
    } else if fallback_exists {
        ImageSource::Fallback
    } else if has_rel {
        ImageSource::Primary
    } else {
        ImageSource::Fallback
    };
    let exists = match source {
        ImageSource::Primary => primary_exists,
        ImageSource::Fallback => fallback_exists,
    };
    ImagePlan { source, render: url.unicode_len() > 0 && !exists }
}

/// The error of a screenshot that was missing and could not be rendered.
pub fn render_failure(id: &str, detail: &str, path: &str) -> (r: BenchError)
    ensures
        r.message@ == "image for '"@ + id@ + "' missing and render failed: "@ + detail@
            + ". Pre-render the fixture or place the PNG at "@ + path@,
{
    let mut m = String::from_str("image for '");
    m.append(id);
    m.append("' missing and render failed: ");
    m.append(detail);
    m.append(". Pre-render the fixture or place the PNG at ");
    m.append(path);
    BenchError { message: m }
}

/// Why a fixture with `n_docs` documents and `n_queries` queries is refused, if it is.
pub open spec fn fixture_size_error(n_docs: nat, n_queries: nat, manifest: Seq<char>, queries: Seq<char>) -> Option<Seq<char>> {
    if n_docs == 0 {
        Some("no docs in manifest "@ + manifest)
    } else if n_queries == 0 {
        Some("no queries in "@ + queries)
    } else {
        None
    }
}

/// A visual fixture needs at least one document and one query.
pub fn check_fixture_sizes(n_docs: usize, n_queries: usize, manifest: &str, queries: &str) -> (r: Result<(), BenchError>)
    ensures
        match fixture_size_error(n_docs as nat, n_queries as nat, manifest@, queries@) {
            Some(m) => r matches Err(e) && e.message@ == m,
            None => r is Ok,
        },
{
    if n_docs == 0 {
        return Err(BenchError { message: String::from_str("no docs in manifest ").concat(manifest) });
    }
    if n_queries == 0 {
        return Err(BenchError { message: String::from_str("no queries in ").concat(queries) });
    }
    Ok(())
}

/// Why an encoder reply with `n_images` image vectors, `n_texts` text vectors
/// and declared width `dim` does not fit `n_docs` documents and `n_queries`
/// queries, if it does not.
pub open spec fn clip_shape_error(n_images: nat, n_docs: nat, n_texts: nat, n_queries: nat, dim: nat) -> Option<Seq<char>> {
    if n_images != n_docs {
        Some("CLIP returned "@ + decimal(n_images) + " image vectors for "@ + decimal(n_docs) + " docs"@)
    } else if n_texts != n_queries {
        Some("CLIP returned "@ + decimal(n_texts) + " text vectors for "@ + decimal(n_queries) + " queries"@)
    } else if dim == 0 {
        Some("CLIP reported dim=0"@)
    } else {
        None
    }
}

/// Check the counts and declared width of an encoder reply.
pub fn check_clip_shape(n_images: usize, n_docs: usize, n_texts: usize, n_queries: usize, dim: usize) -> (r: Result<(), BenchError>)
    ensures
        match clip_shape_error(n_images as nat, n_docs as nat, n_texts as nat, n_queries as nat, dim as nat) {
            Some(m) => r matches Err(e) && e.message@ == m,
            None => r is Ok,
        },
{
    if n_images != n_docs {
        let mut m = String::from_str("CLIP returned ");
        push_decimal(&mut m, n_images);
        m.append(" image vectors for ");
        push_decimal(&mut m, n_docs);
        m.append(" docs");
        return Err(BenchError { message: m });
    }
    if n_texts != n_queries {
        let mut m = String::from_str("CLIP returned ");
        push_decimal(&mut m, n_texts);
        m.append(" text vectors for ");
        push_decimal(&mut m, n_queries);
        m.append(" queries");
        return Err(BenchError { message: m });
    }
    if dim == 0 {
        return Err(BenchError { message: String::from_str("CLIP reported dim=0") });
    }
    Ok(())
}

/// Image vector `i` must have the declared width.
pub fn check_image_width(i: usize, width: usize, dim: usize) -> (r: Result<(), BenchError>)
    ensures
        width != dim ==> (r matches Err(e) && e.message@ == "image vector "@ + decimal(i as nat)
            + " width "@ + decimal(width as nat) + " != dim "@ + decimal(dim as nat)),
        width == dim ==> r is Ok,
{
    if width != dim {
        let mut m = String::from_str("image vector ");
        push_decimal(&mut m, i);
        m.append(" width ");
        push_decimal(&mut m, width);
        m.append(" != dim ");
        push_decimal(&mut m, dim);
        return Err(BenchError { message: m });
    }
    Ok(())
}

/// The vector of query `query_id` must have the declared width.
pub fn check_query_width(query_id: &str, width: usize, dim: usize) -> (r: Result<(), BenchError>)
    ensures
        width != dim ==> (r matches Err(e) && e.message@ == "query '"@ + query_id@
            + "' vector width "@ + decimal(width as nat) + " != dim "@ + decimal(dim as nat)),
        width == dim ==> r is Ok,
{
    if width != dim {
        let mut m = String::from_str("query '");
        m.append(query_id);
        m.append("' vector width ");
        push_decimal(&mut m, width);
        m.append(" != dim ");
        push_decimal(&mut m, dim);
        return Err(BenchError { message: m });
    }
    Ok(())
}

/// The document ids of a ranked list of manifest positions: positions past the
/// manifest are dropped.
pub fn ranked_doc_ids(doc_ids: &Vec<String>, hits: &Vec<usize>) -> (r: Vec<String>)
    ensures
        r@.len() == in_range(hits@, doc_ids@.len()).len(),
        forall|i: int|
            0 <= i < r@.len() ==> #[trigger] r@[i] == doc_ids@[in_range(hits@, doc_ids@.len())[i] as int],
{
    let mut out: Vec<String> = Vec::new();
    let mut i: usize = 0;
    while i < hits.len()
        invariant
            i <= hits@.len(),
            out@.len() == in_range(hits@.subrange(0, i as int), doc_ids@.len()).len(),
            forall|a: int|
                0 <= a < out@.len() ==> #[trigger] out@[a] == doc_ids@[in_range(
                    hits@.subrange(0, i as int),
                    doc_ids@.len(),
                )[a] as int],
        decreases hits@.len() - i,
    {
        let ghost pre = hits@.subrange(0, i + 1);
        proof {
            assert(pre.drop_last() == hits@.subrange(0, i as int));
            assert(pre.last() == hits@[i as int]);
        }
        let p = hits[i];
        if p < doc_ids.len() {
            let ghost prev = out@;
            out.push(doc_ids[p].clone());
            proof {
                assert forall|a: int| 0 <= a < out@.len() implies #[trigger] out@[a] == doc_ids@[in_range(
                    pre,
                    doc_ids@.len(),
                )[a] as int] by {
                    if a < prev.len() {
                        assert(out@[a] == prev[a]);
                    }
                }
            }
        }
        i = i + 1;
    }
    proof {
        assert(hits@.subrange(0, i as int) == hits@);
    }
    out
}

/// The metrics a visual run reports, in order: recall@1 (top-1 accuracy)
/// first, then the metrics to score other than recall@1.
pub open spec fn visual_metric_plan(metrics: Seq<MetricKind>) -> Seq<MetricKind> {
    seq![MetricKind::Recall(1)] + metrics.filter(|m: MetricKind| m != MetricKind::Recall(1))
}

/// The metrics a visual run computes for the metrics it scores (see
/// [`visual_metric_plan`]).
pub fn plan_visual_metrics(metrics: &Vec<MetricKind>) -> (r: Vec<MetricKind>)
    ensures
        r@ == visual_metric_plan(metrics@),
{
    let mut out: Vec<MetricKind> = Vec::new();
    out.push(MetricKind::Recall(1));
    let mut i: usize = 0;
    proof {
        assert(metrics@.subrange(0, 0).filter(|m: MetricKind| m != MetricKind::Recall(1)) =~= Seq::<MetricKind>::empty());
    }
    while i < metrics.len()
        invariant
            i <= metrics@.len(),
            out@ == seq![MetricKind::Recall(1)] + metrics@.subrange(0, i as int).filter(
                |m: MetricKind| m != MetricKind::Recall(1),
            ),
        decreases metrics@.len() - i,
    {
        let m = metrics[i];
        proof {
            let pre = metrics@.subrange(0, i + 1);
            assert(pre.drop_last() == metrics@.subrange(0, i as int));
            assert(pre.last() == m);
            reveal(Seq::filter);
        }
        let is_top1 = match m {
            MetricKind::Recall(kk) => kk == 1,
            _ => false,
        };
        if !is_top1 {
            out.push(m);
        }
        i = i + 1;
    }
    proof {
        assert(metrics@.subrange(0, i as int) == metrics@);
    }
    out
}

/// The dataset name of visual reports.
pub const VISUAL_DATASET: &'static str = "pixelrag-visual-subset";

/// The embedder label of visual reports.
pub const EMBEDDER_LABEL_VISUAL: &'static str = "clip-vit-base-patch32 (visual)";

/// The honesty label of visual reports.
pub const HONESTY_LABEL_VISUAL: &'static str = "real CLIP ViT-B/32 cross-modal embeddings (CPU/WASM); text→image retrieval over rendered document screenshots — a real visual encoder; Qwen3-VL/ColPali is the GPU upgrade";

/// The report path used when none is given.
pub const DEFAULT_VISUAL_REPORT: &'static str = "bench_output/pixelrag_visual_bench.json";

} // verus!
