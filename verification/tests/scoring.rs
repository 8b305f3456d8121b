use pixelrag::bench::{GroundTruth, Predictions};
use pixelrag::metrics::{first_relevant_ranks, ndcg_inputs, recall_counts, NdcgInput};

fn rows(rows: &[(&str, &[&str])]) -> Vec<(String, Vec<String>)> {
    rows.iter()
        .map(|(q, ts)| (q.to_string(), ts.iter().map(|t| t.to_string()).collect()))
        .collect()
}

fn preds(r: &[(&str, &[&str])]) -> Predictions {
    Predictions { by_query: rows(r) }
}

fn gt(r: &[(&str, &[&str])]) -> GroundTruth {
    GroundTruth { by_query: rows(r) }
}

fn mean(xs: &[f64]) -> f64 {
    if xs.is_empty() {
        0.0
    } else {
        xs.iter().sum::<f64>() / xs.len() as f64
    }
}

fn recall(p: &Predictions, g: &GroundTruth, k: usize) -> f64 {
    let per: Vec<f64> = recall_counts(p, g, k).iter().map(|(h, n)| *h as f64 / *n as f64).collect();
    mean(&per)
}

fn mrr(p: &Predictions, g: &GroundTruth) -> f64 {
    let per: Vec<f64> = first_relevant_ranks(p, g)
        .iter()
        .map(|r| r.map(|x| 1.0 / x as f64).unwrap_or(0.0))
        .collect();
    mean(&per)
}

fn ndcg(p: &Predictions, g: &GroundTruth, k: usize) -> f64 {
    let per: Vec<f64> = ndcg_inputs(p, g, k)
        .iter()
        .filter_map(|q: &NdcgInput| {
            let dcg: f64 = q.gains.iter().map(|(i, g)| *g as f64 / (*i as f64 + 2.0).log2()).sum();
            let idcg: f64 =
                q.ideal.iter().enumerate().map(|(i, g)| *g as f64 / (i as f64 + 2.0).log2()).sum();
            if idcg > 0.0 { Some(dcg / idcg) } else { None }
        })
        .collect();
    mean(&per)
}

#[test]
fn recall_perfect_and_zero() {
    let p = preds(&[("q1", &["a", "b"]), ("q2", &["x"])]);
    let g = gt(&[("q1", &["a"]), ("q2", &["y"])]);
    // q1: a in top-k → 1.0; q2: y not retrieved → 0.0; mean = 0.5
    assert!((recall(&p, &g, 10) - 0.5).abs() < 1e-9);
    assert_eq!(recall_counts(&p, &g, 10), vec![(1, 1), (0, 1)]);
}

#[test]
fn mrr_first_relevant_rank() {
    let p = preds(&[("q1", &["x", "a", "b"])]); // first relevant at rank 2
    let g = gt(&[("q1", &["a"])]);
    assert!((mrr(&p, &g) - 0.5).abs() < 1e-9);
    assert_eq!(first_relevant_ranks(&p, &g), vec![Some(2)]);
}

#[test]
fn ndcg_perfect_ranking_is_one() {
    let p = preds(&[("q1", &["a", "b"])]);
    let g = gt(&[("q1", &["a", "b"])]); // ranked relevance a > b
    assert!((ndcg(&p, &g, 10) - 1.0).abs() < 1e-9);
    let inputs = ndcg_inputs(&p, &g, 10);
    assert_eq!(inputs[0].gains, vec![(0, 2), (1, 1)]);
    assert_eq!(inputs[0].ideal, vec![2, 1]);
}

#[test]
fn recall_counts_only_top_k_and_skip_unscored_queries() {
    let p = preds(&[("q1", &["x", "a", "b"]), ("q2", &["z"]), ("q3", &["c"])]);
    let g = gt(&[("q1", &["a", "b", "c"]), ("q2", &[]), ("q1", &["z"])]);
    // q1 uses its first qrels entry; q2 has no relevant ids; q3 has no entry.
    assert_eq!(recall_counts(&p, &g, 2), vec![(1, 3)]);
    assert_eq!(recall_counts(&p, &g, 0), vec![(0, 3)]);
    assert_eq!(first_relevant_ranks(&p, &g), vec![Some(2)]);
}

#[test]
fn repeated_relevant_ids_count_each_time() {
    let p = preds(&[("q", &["a"])]);
    let g = gt(&[("q", &["a", "a", "b"])]);
    assert_eq!(recall_counts(&p, &g, 10), vec![(2, 3)]);
}

#[test]
fn no_relevant_hit_has_no_rank() {
    let p = preds(&[("q", &["x", "y"])]);
    let g = gt(&[("q", &["a"])]);
    assert_eq!(first_relevant_ranks(&p, &g), vec![None]);
    assert_eq!(mrr(&p, &g), 0.0);
}

#[test]
fn ndcg_grades_by_position_with_last_listing_winning() {
    let p = preds(&[("q", &["c", "x", "a", "b"])]);
    let g = gt(&[("q", &["a", "b", "a", "c"])]);
    // n = 4: a last listed at 2 → grade 2; b at 1 → 3; c at 3 → 1.
    let inputs = ndcg_inputs(&p, &g, 3);
    assert_eq!(inputs.len(), 1);
    assert_eq!(inputs[0].gains, vec![(0, 1), (2, 2)]);
    assert_eq!(inputs[0].ideal, vec![3, 2, 1]);
    let inputs = ndcg_inputs(&p, &g, 2);
    assert_eq!(inputs[0].ideal, vec![3, 2]);
    assert_eq!(inputs[0].gains, vec![(0, 1)]);
}

#[test]
fn ndcg_zero_cutoff_has_no_ideal_gain() {
    let p = preds(&[("q", &["a"])]);
    let g = gt(&[("q", &["a"])]);
    let inputs = ndcg_inputs(&p, &g, 0);
    assert!(inputs[0].gains.is_empty());
    assert!(inputs[0].ideal.is_empty());
    assert_eq!(ndcg(&p, &g, 0), 0.0);
}
