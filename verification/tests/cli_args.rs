use pixelrag::bench::{EmbedderChoice, MetricKind};
use pixelrag::cli::{Cli, Command, USAGE_TEXT};
use pixelrag::config::IndexBackend;

fn argv(parts: &[&str]) -> Vec<String> {
    parts.iter().map(|s| s.to_string()).collect()
}

fn usage_error(parts: &[&str]) -> String {
    match Cli::parse_args(argv(parts)) {
        Ok(cli) => panic!("expected a usage error, got {:?}", cli),
        Err(e) => e.message,
    }
}

#[test]
fn metric_parse() {
    assert_eq!(MetricKind::parse("recall@10").unwrap(), MetricKind::Recall(10));
    assert_eq!(MetricKind::parse("ndcg").unwrap(), MetricKind::Ndcg(10));
    assert_eq!(MetricKind::parse("ndcg@5").unwrap(), MetricKind::Ndcg(5));
    assert_eq!(MetricKind::parse("mrr").unwrap(), MetricKind::Mrr);
    assert!(MetricKind::parse("bogus").is_err());
}

#[test]
fn metric_parse_trims_and_ignores_case() {
    assert_eq!(MetricKind::parse("  NDCG@3 ").unwrap(), MetricKind::Ndcg(3));
    assert_eq!(MetricKind::parse("Recall").unwrap(), MetricKind::Recall(10));
    assert_eq!(MetricKind::parse("recall@+7").unwrap(), MetricKind::Recall(7));
    let e = MetricKind::parse(" recall@x ").unwrap_err();
    assert_eq!(e.token, "recall@x");
    assert_eq!(MetricKind::parse("mrr@").unwrap_err().token, "mrr@");
}

#[test]
fn embedder_choice_parse() {
    assert_eq!(EmbedderChoice::parse(" Real "), Some(EmbedderChoice::Real));
    assert_eq!(EmbedderChoice::parse("minilm"), Some(EmbedderChoice::Real));
    assert_eq!(EmbedderChoice::parse("sidecar"), Some(EmbedderChoice::Real));
    assert_eq!(EmbedderChoice::parse("SYNTH"), Some(EmbedderChoice::Synthetic));
    assert_eq!(EmbedderChoice::parse("synthetic"), Some(EmbedderChoice::Synthetic));
    assert_eq!(EmbedderChoice::parse("onnx"), None);
}

#[test]
fn missing_subcommand_is_refused() {
    assert_eq!(usage_error(&["pixelrag-cli"]), "missing subcommand");
    assert_eq!(usage_error(&[]), "missing subcommand");
}

#[test]
fn unknown_subcommand_is_refused() {
    assert_eq!(usage_error(&["p", "serve"]), "unknown subcommand 'serve'");
}

#[test]
fn help_words_select_help() {
    for word in ["help", "-h", "--help"] {
        let cli = Cli::parse_args(argv(&["prog", word])).unwrap();
        assert_eq!(cli.program, "prog");
        assert_eq!(cli.command, Command::Help);
    }
}

#[test]
fn text_benchmark_with_defaults() {
    let cli = Cli::parse_args(argv(&[
        "pixelrag-cli",
        "benchmark",
        "--ground-truth",
        "gt.json",
        "--queries",
        "q.json",
    ]))
    .unwrap();
    match cli.command {
        Command::Benchmark(a) => {
            assert_eq!(a.ground_truth, "gt.json");
            assert_eq!(a.queries, "q.json");
            assert_eq!(a.predictions, "bench_output/vidore_results.json");
            assert!(a.metrics.is_empty());
            assert_eq!(a.k, 10);
            assert_eq!(a.batch_size, None);
            assert_eq!(a.index_backend, None);
            assert_eq!(a.embedder, EmbedderChoice::Real);
            assert_eq!(a.tiles_dir, None);
            assert_eq!(a.report_out, None);
            assert_eq!(a.darwin_config, None);
        }
        other => panic!("unexpected command {:?}", other),
    }
}

#[test]
fn text_benchmark_with_every_option() {
    let cli = Cli::parse_args(argv(&[
        "p",
        "bench",
        "--mode",
        " TEXT ",
        "--ground-truth=gt.json",
        "--queries",
        "q.json",
        "--predictions",
        "out/p.json",
        "--metrics",
        "ndcg@5, ,mrr,recall",
        "--index-backend",
        "IVF_FLAT",
        "--embedder",
        "synthetic",
        "--tiles",
        "tiles",
        "--report-out",
        "r.json",
        "--darwin-config",
        "g.json",
        "--k",
        "3",
        "--batch-size",
        "8",
    ]))
    .unwrap();
    match cli.command {
        Command::Benchmark(a) => {
            assert_eq!(a.ground_truth, "gt.json");
            assert_eq!(a.predictions, "out/p.json");
            assert_eq!(a.metrics, vec![MetricKind::Ndcg(5), MetricKind::Mrr, MetricKind::Recall(10)]);
            assert_eq!(a.index_backend, Some(IndexBackend::IvfFlat));
            assert_eq!(a.embedder, EmbedderChoice::Synthetic);
            assert_eq!(a.tiles_dir, Some("tiles".to_string()));
            assert_eq!(a.report_out, Some("r.json".to_string()));
            assert_eq!(a.darwin_config, Some("g.json".to_string()));
            assert_eq!(a.k, 3);
            assert_eq!(a.batch_size, Some(8));
        }
        other => panic!("unexpected command {:?}", other),
    }
}

#[test]
fn unparseable_numbers_fall_back() {
    let cli = Cli::parse_args(argv(&[
        "p", "benchmark", "--ground-truth", "g", "--queries", "q", "--k", "ten", "--batch-size", "-1",
    ]))
    .unwrap();
    match cli.command {
        Command::Benchmark(a) => {
            assert_eq!(a.k, 10);
            assert_eq!(a.batch_size, None);
        }
        other => panic!("unexpected command {:?}", other),
    }
}

#[test]
fn text_benchmark_errors_in_order() {
    assert_eq!(usage_error(&["p", "benchmark"]), "benchmark requires --ground-truth");
    assert_eq!(
        usage_error(&["p", "benchmark", "--ground-truth", "g"]),
        "benchmark requires --queries"
    );
    assert_eq!(
        usage_error(&[
            "p", "benchmark", "--ground-truth", "g", "--queries", "q", "--metrics", "ndcg,bogus@2",
            "--index-backend", "flat",
        ]),
        "bad --metrics token 'bogus@2'"
    );
    assert_eq!(
        usage_error(&["p", "benchmark", "--ground-truth", "g", "--queries", "q", "--index-backend", "Flat"]),
        "unknown --index-backend 'flat'"
    );
    assert_eq!(
        usage_error(&["p", "benchmark", "--ground-truth", "g", "--queries", "q", "--embedder", "Onnx"]),
        "unknown --embedder 'Onnx' (use real|synthetic)"
    );
}

#[test]
fn flag_as_last_argument_has_no_value() {
    assert_eq!(
        usage_error(&["p", "benchmark", "--queries", "q", "--ground-truth"]),
        "benchmark requires --ground-truth"
    );
}

#[test]
fn first_occurrence_of_a_flag_wins() {
    let cli = Cli::parse_args(argv(&[
        "p", "benchmark", "--ground-truth=a", "--ground-truth", "b", "--queries", "q",
    ]))
    .unwrap();
    match cli.command {
        Command::Benchmark(a) => assert_eq!(a.ground_truth, "a"),
        other => panic!("unexpected command {:?}", other),
    }
}

#[test]
fn visual_benchmark_defaults() {
    let cli = Cli::parse_args(argv(&["p", "benchmark", "--mode", "Visual"])).unwrap();
    match cli.command {
        Command::BenchmarkVisual(va) => {
            assert_eq!(va.fixture_dir, "tests/fixtures/pixelrag/visual");
            assert_eq!(va.predictions, "bench_output/pixelrag_visual_results.json");
            assert_eq!(va.report_out, None);
            assert!(va.metrics.is_empty());
            assert_eq!(va.k, 10);
            assert_eq!(va.index_backend, None);
        }
        other => panic!("unexpected command {:?}", other),
    }
}

#[test]
fn visual_benchmark_options() {
    let cli = Cli::parse_args(argv(&[
        "p", "bench", "--mode=visual", "--fixture-dir", "fx", "--predictions", "pp.json",
        "--report-out", "rr.json", "--k", "4", "--index-backend", "hnsw", "--metrics", "mrr",
    ]))
    .unwrap();
    match cli.command {
        Command::BenchmarkVisual(va) => {
            assert_eq!(va.fixture_dir, "fx");
            assert_eq!(va.predictions, "pp.json");
            assert_eq!(va.report_out, Some("rr.json".to_string()));
            assert_eq!(va.k, 4);
            assert_eq!(va.index_backend, Some(IndexBackend::Hnsw));
            assert_eq!(va.metrics, vec![MetricKind::Mrr]);
        }
        other => panic!("unexpected command {:?}", other),
    }
}

#[test]
fn visual_benchmark_backend_error_precedes_metric_error() {
    assert_eq!(
        usage_error(&["p", "bench", "--mode", "visual", "--metrics", "x", "--index-backend", "ann"]),
        "unknown --index-backend 'ann'"
    );
    assert_eq!(
        usage_error(&["p", "bench", "--mode", "visual", "--metrics", "mrr,x"]),
        "bad --metrics token 'x'"
    );
}

#[test]
fn unknown_mode_is_refused() {
    assert_eq!(
        usage_error(&["p", "benchmark", "--mode", " Audio "]),
        "unknown --mode 'audio' (use text|visual)"
    );
}

#[test]
fn usage_text_lists_the_subcommands() {
    let u = Cli::usage();
    assert_eq!(u, USAGE_TEXT);
    assert!(u.starts_with("pixelrag-cli — PixelRAG visual-RAG CLI"));
    assert!(u.contains("  benchmark   Build the index"));
    assert!(u.contains("--index-backend <name>  hnsw (default) | ivf-flat | ivf-sq."));
    assert!(u.ends_with("not a SOTA claim.\n"));
}
