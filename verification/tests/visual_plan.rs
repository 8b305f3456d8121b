use pixelrag::bench::MetricKind;
use pixelrag::visual::{
    check_clip_shape, check_fixture_sizes, check_image_width, check_query_width, plan_image,
    plan_visual_metrics, ranked_doc_ids, render_failure, ImagePlan, ImageSource, VisualArgs,
    DEFAULT_VISUAL_REPORT, EMBEDDER_LABEL_VISUAL, VISUAL_DATASET,
};

#[test]
fn image_plan_prefers_existing_manifest_path() {
    assert_eq!(plan_image("images/a.png", "u", true, true), ImagePlan { source: ImageSource::Primary, render: false });
    assert_eq!(plan_image("images/a.png", "u", false, true), ImagePlan { source: ImageSource::Fallback, render: false });
    assert_eq!(plan_image("images/a.png", "u", false, false), ImagePlan { source: ImageSource::Primary, render: true });
    assert_eq!(plan_image("", "u", true, false), ImagePlan { source: ImageSource::Fallback, render: true });
    assert_eq!(plan_image("", "", true, false), ImagePlan { source: ImageSource::Fallback, render: false });
    assert_eq!(plan_image("", "u", false, true), ImagePlan { source: ImageSource::Fallback, render: false });
}

#[test]
fn fixture_must_not_be_empty() {
    assert_eq!(check_fixture_sizes(0, 0, "m.json", "q.json").unwrap_err().message, "no docs in manifest m.json");
    assert_eq!(check_fixture_sizes(2, 0, "m.json", "q.json").unwrap_err().message, "no queries in q.json");
    assert!(check_fixture_sizes(1, 1, "m", "q").is_ok());
}

#[test]
fn encoder_reply_shape_checks() {
    assert_eq!(check_clip_shape(7, 8, 3, 3, 512).unwrap_err().message, "CLIP returned 7 image vectors for 8 docs");
    assert_eq!(check_clip_shape(8, 8, 2, 3, 512).unwrap_err().message, "CLIP returned 2 text vectors for 3 queries");
    assert_eq!(check_clip_shape(8, 8, 3, 3, 0).unwrap_err().message, "CLIP reported dim=0");
    assert!(check_clip_shape(8, 8, 3, 3, 512).is_ok());
    assert_eq!(check_image_width(4, 511, 512).unwrap_err().message, "image vector 4 width 511 != dim 512");
    assert!(check_image_width(4, 512, 512).is_ok());
    assert_eq!(check_query_width("v1", 3, 512).unwrap_err().message, "query 'v1' vector width 3 != dim 512");
}

#[test]
fn hits_map_to_document_ids() {
    let docs: Vec<String> = vec!["doc-00".into(), "doc-01".into(), "doc-02".into()];
    assert_eq!(ranked_doc_ids(&docs, &vec![2, 7, 0]), vec!["doc-02".to_string(), "doc-00".to_string()]);
}

#[test]
fn visual_metrics_lead_with_top1() {
    assert_eq!(
        plan_visual_metrics(&vec![MetricKind::Ndcg(10), MetricKind::Mrr, MetricKind::Recall(10)]),
        vec![MetricKind::Recall(1), MetricKind::Ndcg(10), MetricKind::Mrr, MetricKind::Recall(10)]
    );
    assert_eq!(
        plan_visual_metrics(&vec![MetricKind::Recall(1), MetricKind::Ndcg(1)]),
        vec![MetricKind::Recall(1), MetricKind::Ndcg(1)]
    );
    assert_eq!(plan_visual_metrics(&vec![]), vec![MetricKind::Recall(1)]);
}

#[test]
fn render_failure_message() {
    assert_eq!(
        render_failure("doc-03", "pixelrag render spawn error: no node", "/f/images/doc-03.png").message,
        "image for 'doc-03' missing and render failed: pixelrag render spawn error: no node. Pre-render the fixture or place the PNG at /f/images/doc-03.png"
    );
}

#[test]
fn visual_defaults() {
    let va = VisualArgs::default();
    assert_eq!(va.fixture_dir, "tests/fixtures/pixelrag/visual");
    assert_eq!(va.k, 10);
    assert_eq!(VISUAL_DATASET, "pixelrag-visual-subset");
    assert_eq!(EMBEDDER_LABEL_VISUAL, "clip-vit-base-patch32 (visual)");
    assert_eq!(DEFAULT_VISUAL_REPORT, "bench_output/pixelrag_visual_bench.json");
}
