//! Command-line parsing: the subcommand, `--flag value` / `--flag=value`
//! options, and the argument records of the two benchmark modes.
use vstd::prelude::*;
use vstd::string::*;

use crate::bench::{embedder_from_token, metric_from_token, BenchArgs, EmbedderChoice, MetricKind};
use crate::config::{backend_from_lower, backend_from_name, IndexBackend};
use crate::json::strings_view;
use crate::visual::{default_fixture_dir, default_visual_predictions, VisualArgs};
use crate::text::{
    chars_eq, chars_eq_str, chars_of, concat3, lower_chars, lower_seq, parse_usize, parse_usize_spec, split_all,
    split_all_exec, chars_views, starts_with, starts_with_exec, string_of, suffix_from, trim,
    trim_chars,
};

verus! {

/// The value given for option `name`: the argument after the first exact
/// `name` (none when it is the last argument), or the text after `name=` in an
/// argument of that form, whichever comes first.
pub open spec fn flag_value(args: Seq<Seq<char>>, name: Seq<char>) -> Option<Seq<char>>
    decreases args.len(),
{
    if args.len() == 0 {
        None
    } else if args[0] == name {
        if args.len() >= 2 {
            Some(args[1])
        } else {
            None
        }
    } else if starts_with(args[0], name) && args[0].len() > name.len() && args[0][name.len() as int]
        == '=' {
        Some(args[0].subrange(name.len() as int + 1, args[0].len() as int))
    } else {
        flag_value(args.drop_first(), name)
    }
}

/// Both forms of an option give its value: `name value` and `name=value`,
/// whatever follows.
pub proof fn law_flag_forms(name: Seq<char>, v: Seq<char>, rest: Seq<Seq<char>>)
    ensures
        flag_value(seq![name, v] + rest, name) == Some(v),
        flag_value(seq![name + seq!['='] + v] + rest, name) == Some(v),
{
    let a = seq![name, v] + rest;
    assert(a[0] == name && a[1] == v);
    let joined = name + seq!['='] + v;
    let b = seq![joined] + rest;
    assert(b[0] == joined);
    assert(joined != name) by {
        assert(joined.len() != name.len());
    }
    assert(joined.subrange(0, name.len() as int) =~= name);
    assert(joined[name.len() as int] == '=');
    assert(joined.subrange(name.len() as int + 1, joined.len() as int) =~= v);
}

/// The value given for option `name` (see [`flag_value`]).
fn flag(args: &Vec<String>, name: &str) -> (r: Option<String>)
    ensures
        match flag_value(strings_view(args@), name@) {
            Some(v) => r matches Some(s) && s@ == v,
            None => r is None,
        },
{
    let ghost all = strings_view(args@);
    let n = chars_of(name);
    let mut i: usize = 0;
    proof {
        assert(all.subrange(0, all.len() as int) == all);
    }
    while i < args.len()
        invariant
            i <= args@.len(),
            all == strings_view(args@),
            n@ == name@,
            flag_value(all, name@) == flag_value(all.subrange(i as int, all.len() as int), name@),
        decreases args@.len() - i,
    {
        let ghost rest = all.subrange(i as int, all.len() as int);
        let a = chars_of(args[i].as_str());
        proof {
            assert(rest[0] == a@);
            assert(rest.drop_first() == all.subrange(i + 1, all.len() as int));
        }
        if chars_eq(&a, &n) {
            proof {
                assert(rest[0] == name@);
            }
            if i + 1 < args.len() {
                proof {
                    assert(rest[1] == args@[i + 1]@);
                }
                return Some(args[i + 1].clone());
            }
            return None;
        }
        if starts_with_exec(&a, &n) && a.len() > n.len() && a[n.len()] == '=' {
            let v = suffix_from(&a, n.len() + 1);
            return Some(string_of(&v));
        }
        i = i + 1;
    }
    None
}

/// Usage (argument) error.
#[derive(Debug, Clone, PartialEq, Eq)]
pub struct UsageError {
    /// What was wrong with the invocation.
    pub message: String,
}

/// The metrics a comma-separated list names: blank pieces are skipped, the
/// others parsed in order; the first that does not parse is reported.
pub open spec fn metric_list(pieces: Seq<Seq<char>>) -> Result<Seq<MetricKind>, Seq<char>>
    decreases pieces.len(),
{
    if pieces.len() == 0 {
        Ok(Seq::empty())
    } else {
        match metric_list(pieces.drop_last()) {
            Err(e) => Err(e),
            Ok(ms) => {
                let p = pieces.last();
                if trim(p).len() == 0 {
                    Ok(ms)
                } else {
                    match metric_from_token(p) {
                        Ok(m) => Ok(ms.push(m)),
                        Err(t) => Err("bad --metrics token '"@ + t + "'"@),
                    }
                }
            },
        }
    }
}

/// The metrics of a `--metrics` value.
pub open spec fn metrics_of(list: Seq<char>) -> Result<Seq<MetricKind>, Seq<char>> {
    metric_list(split_all(list, ','))
}

fn parse_metric_list(list: &String) -> (r: Result<Vec<MetricKind>, UsageError>)
    ensures
        match metrics_of(list@) {
            Ok(ms) => r matches Ok(v) && v@ == ms,
            Err(m) => r matches Err(e) && e.message@ == m,
        },
{
    let pieces = split_all_exec(&chars_of(list.as_str()), ',');
    let ghost pv = chars_views(pieces@);
    let mut out: Vec<MetricKind> = Vec::new();
    let mut i: usize = 0;
    proof {
        assert(pv.subrange(0, 0) =~= Seq::<Seq<char>>::empty());
    }
    while i < pieces.len()
        invariant
            i <= pieces@.len(),
            pv == chars_views(pieces@),
            pv == split_all(list@, ','),
            metric_list(pv.subrange(0, i as int)) == Ok::<Seq<MetricKind>, Seq<char>>(out@),
        decreases pieces@.len() - i,
    {
        let ghost pre = pv.subrange(0, i + 1);
        proof {
            assert(pre.drop_last() == pv.subrange(0, i as int));
            assert(pre.last() == pieces@[i as int]@);
        }
        let t = trim_chars(&pieces[i]);
        if t.len() > 0 {
            let tok = string_of(&pieces[i]);
            match MetricKind::parse(tok.as_str()) {
                Ok(m) => {
                    out.push(m);
                },
                Err(e) => {
                    proof {
                        lemma_metric_list_stops(pv, i as int);
                    }
                    return Err(UsageError { message: concat3("bad --metrics token '", e.token.as_str(), "'") });
                },
            }
        }
        i = i + 1;
    }
    proof {
        assert(pv.subrange(0, i as int) == pv);
    }
    Ok(out)
}

/// Once a prefix of the pieces fails, every longer prefix fails the same way.
proof fn lemma_metric_list_stops(pv: Seq<Seq<char>>, i: int)
    requires
        0 <= i < pv.len(),
        metric_list(pv.subrange(0, i + 1)) is Err,
    ensures
        metric_list(pv) == metric_list(pv.subrange(0, i + 1)),
    decreases pv.len() - i,
{
    if i + 1 == pv.len() {
        assert(pv.subrange(0, i + 1) == pv);
    } else {
        let pre = pv.subrange(0, i + 2);
        assert(pre.drop_last() == pv.subrange(0, i + 1));
        lemma_metric_list_stops(pv, i + 1);
    }
}

/// The backend an `--index-backend` value selects (matched lower-cased).
pub open spec fn backend_option(v: Option<Seq<char>>) -> Result<Option<IndexBackend>, Seq<char>> {
    match v {
        None => Ok(None),
        Some(s) => match backend_from_name(lower_seq(s)) {
            Some(b) => Ok(Some(b)),
            None => Err("unknown --index-backend '"@ + lower_seq(s) + "'"@),
        },
    }
}

/// The embedder an `--embedder` value selects (the real one when absent).
pub open spec fn embedder_option(v: Option<Seq<char>>) -> Result<EmbedderChoice, Seq<char>> {
    match v {
        None => Ok(EmbedderChoice::Real),
        Some(s) => match embedder_from_token(s) {
            Some(e) => Ok(e),
            None => Err("unknown --embedder '"@ + s + "' (use real|synthetic)"@),
        },
    }
}

/// The metrics of an optional `--metrics` value (none when absent).
pub open spec fn metrics_option(v: Option<Seq<char>>) -> Result<Seq<MetricKind>, Seq<char>> {
    match v {
        None => Ok(Seq::empty()),
        Some(list) => metrics_of(list),
    }
}

/// A numeric option: its value when present and parseable as `usize`.
pub open spec fn usize_option(v: Option<Seq<char>>) -> Option<usize> {
    match v {
        Some(s) => parse_usize_spec(s),
        None => None,
    }
}

fn parse_backend_option(v: &Option<String>) -> (r: Result<Option<IndexBackend>, UsageError>)
    ensures
        match backend_option(crate::bench::opt_view(*v)) {
            Ok(b) => r == Ok::<Option<IndexBackend>, UsageError>(b),
            Err(m) => r matches Err(e) && e.message@ == m,
        },
{
    match v {
        None => Ok(None),
        Some(s) => {
            let l = lower_chars(&chars_of(s.as_str()));
            match backend_from_lower(&l) {
                Some(b) => Ok(Some(b)),
                None => {
                    let ls = string_of(&l);
                    Err(UsageError { message: concat3("unknown --index-backend '", ls.as_str(), "'") })
                },
            }
        },
    }
}

fn parse_usize_option(v: &Option<String>) -> (r: Option<usize>)
    ensures
        r == usize_option(crate::bench::opt_view(*v)),
{
    match v {
        None => None,
        Some(s) => parse_usize(&chars_of(s.as_str())),
    }
}

fn parse_metrics_option(v: &Option<String>) -> (r: Result<Vec<MetricKind>, UsageError>)
    ensures
        match metrics_option(crate::bench::opt_view(*v)) {
            Ok(ms) => r matches Ok(x) && x@ == ms,
            Err(m) => r matches Err(e) && e.message@ == m,
        },
{
    match v {
        None => Ok(Vec::new()),
        Some(list) => parse_metric_list(list),
    }
}

/// Why a text-benchmark option list is refused, if it is: the first of a
/// missing `--ground-truth`, a missing `--queries`, a bad `--metrics` token,
/// an unknown `--index-backend`, an unknown `--embedder`.
pub open spec fn bench_args_error(args: Seq<Seq<char>>) -> Option<Seq<char>> {
    if flag_value(args, "--ground-truth"@) is None {
        Some("benchmark requires --ground-truth"@)
    } else if flag_value(args, "--queries"@) is None {
        Some("benchmark requires --queries"@)
    } else if metrics_option(flag_value(args, "--metrics"@)) is Err {
        Some(metrics_option(flag_value(args, "--metrics"@))->Err_0)
    } else if backend_option(flag_value(args, "--index-backend"@)) is Err {
        Some(backend_option(flag_value(args, "--index-backend"@))->Err_0)
    } else if embedder_option(flag_value(args, "--embedder"@)) is Err {
        Some(embedder_option(flag_value(args, "--embedder"@))->Err_0)
    } else {
        None
    }
}

/// Whether `a` holds what an accepted text-benchmark option list gives.
pub open spec fn bench_args_match(a: BenchArgs, args: Seq<Seq<char>>) -> bool {
    &&& flag_value(args, "--ground-truth"@) == Some(a.ground_truth@)
    &&& flag_value(args, "--queries"@) == Some(a.queries@)
    &&& a.predictions@ == match flag_value(args, "--predictions"@) {
        Some(p) => p,
        None => "bench_output/vidore_results.json"@,
    }
    &&& metrics_option(flag_value(args, "--metrics"@)) == Ok::<Seq<MetricKind>, Seq<char>>(a.metrics@)
    &&& backend_option(flag_value(args, "--index-backend"@)) == Ok::<
        Option<IndexBackend>,
        Seq<char>,
    >(a.index_backend)
    &&& embedder_option(flag_value(args, "--embedder"@)) == Ok::<EmbedderChoice, Seq<char>>(
        a.embedder,
    )
    &&& crate::bench::opt_view(a.tiles_dir) == flag_value(args, "--tiles"@)
    &&& crate::bench::opt_view(a.report_out) == flag_value(args, "--report-out"@)
    &&& crate::bench::opt_view(a.darwin_config) == flag_value(args, "--darwin-config"@)
    &&& a.k == match usize_option(flag_value(args, "--k"@)) {
        Some(k) => k,
        None => 10,
    }
    &&& a.batch_size == usize_option(flag_value(args, "--batch-size"@))
}

/// Parse the options of the text benchmark.
fn parse_benchmark(args: &Vec<String>) -> (r: Result<BenchArgs, UsageError>)
    ensures
        match bench_args_error(strings_view(args@)) {
            Some(m) => r matches Err(e) && e.message@ == m,
            None => r matches Ok(a) && bench_args_match(a, strings_view(args@)),
        },
{
    let ground_truth = match flag(args, "--ground-truth") {
        Some(v) => v,
        None => {
            return Err(UsageError { message: String::from_str("benchmark requires --ground-truth") });
        },
    };
    let queries = match flag(args, "--queries") {
        Some(v) => v,
        None => {
            return Err(UsageError { message: String::from_str("benchmark requires --queries") });
        },
    };
    let predictions = match flag(args, "--predictions") {
        Some(v) => v,
        None => String::from_str("bench_output/vidore_results.json"),
    };
    let metrics = match parse_metrics_option(&flag(args, "--metrics")) {
        Ok(m) => m,
        Err(e) => {
            return Err(e);
        },
    };
    let index_backend = match parse_backend_option(&flag(args, "--index-backend")) {
        Ok(b) => b,
        Err(e) => {
            return Err(e);
        },
    };
    let embedder = match flag(args, "--embedder") {
        Some(s) => match EmbedderChoice::parse(s.as_str()) {
            Some(e) => e,
            None => {
                return Err(
                    UsageError {
                        message: concat3("unknown --embedder '", s.as_str(), "' (use real|synthetic)"),
                    },
                );
            },
        },
        None => EmbedderChoice::Real,
    };
    let k = match parse_usize_option(&flag(args, "--k")) {
        Some(k) => k,
        None => 10,
    };
    Ok(
        BenchArgs {
            predictions,
            ground_truth,
            queries,
            tiles_dir: flag(args, "--tiles"),
            metrics,
            report_out: flag(args, "--report-out"),
            darwin_config: flag(args, "--darwin-config"),
            k,
            batch_size: parse_usize_option(&flag(args, "--batch-size")),
            index_backend,
            embedder,
        },
    )
}

/// Why a visual-benchmark option list is refused, if it is: an unknown
/// `--index-backend`, else a bad `--metrics` token.
pub open spec fn visual_args_error(args: Seq<Seq<char>>) -> Option<Seq<char>> {
    if backend_option(flag_value(args, "--index-backend"@)) is Err {
        Some(backend_option(flag_value(args, "--index-backend"@))->Err_0)
    } else if metrics_option(flag_value(args, "--metrics"@)) is Err {
        Some(metrics_option(flag_value(args, "--metrics"@))->Err_0)
    } else {
        None
    }
}

/// Whether `va` holds what an accepted visual-benchmark option list gives.
pub open spec fn visual_args_match(va: VisualArgs, args: Seq<Seq<char>>) -> bool {
    &&& va.fixture_dir@ == match flag_value(args, "--fixture-dir"@) {
        Some(d) => d,
        None => default_fixture_dir(),
    }
    &&& va.predictions@ == match flag_value(args, "--predictions"@) {
        Some(p) => p,
        None => default_visual_predictions(),
    }
    &&& crate::bench::opt_view(va.report_out) == flag_value(args, "--report-out"@)
    &&& va.k == match usize_option(flag_value(args, "--k"@)) {
        Some(k) => k,
        None => 10,
    }
    &&& backend_option(flag_value(args, "--index-backend"@)) == Ok::<
        Option<IndexBackend>,
        Seq<char>,
    >(va.index_backend)
    &&& metrics_option(flag_value(args, "--metrics"@)) == Ok::<Seq<MetricKind>, Seq<char>>(va.metrics@)
}

/// Parse the options of the visual benchmark.
fn parse_benchmark_visual(args: &Vec<String>) -> (r: Result<VisualArgs, UsageError>)
    ensures
        match visual_args_error(strings_view(args@)) {
            Some(m) => r matches Err(e) && e.message@ == m,
            None => r matches Ok(va) && visual_args_match(va, strings_view(args@)),
        },
{
    let mut va = VisualArgs::default();
    match flag(args, "--fixture-dir") {
        Some(d) => {
            va.fixture_dir = d;
        },
        None => {},
    }
    match flag(args, "--predictions") {
        Some(p) => {
            va.predictions = p;
        },
        None => {},
    }
    va.report_out = flag(args, "--report-out");
    match parse_usize_option(&flag(args, "--k")) {
        Some(kv) => {
            va.k = kv;
        },
        None => {},
    }
    match parse_backend_option(&flag(args, "--index-backend")) {
        Ok(b) => {
            va.index_backend = b;
        },
        Err(e) => {
            return Err(e);
        },
    }
    match parse_metrics_option(&flag(args, "--metrics")) {
        Ok(ms) => {
            va.metrics = ms;
        },
        Err(e) => {
            return Err(e);
        },
    }
    Ok(va)
}

/// The subcommand a command line selects.
#[derive(Debug, Clone, PartialEq, Eq)]
pub enum Command {
    /// The text benchmark.
    Benchmark(BenchArgs),
    /// The visual (image/text cross-modal) benchmark.
    BenchmarkVisual(VisualArgs),
    /// Print usage help.
    Help,
}

/// A parsed command line: the program name and the selected subcommand.
#[derive(Debug, Clone, PartialEq, Eq)]
pub struct Cli {
    /// The program name (the first argument).
    pub program: String,
    /// The selected subcommand.
    pub command: Command,
}

/// The program name of a command line (a default when it is empty).
pub open spec fn cli_program(argv: Seq<Seq<char>>) -> Seq<char> {
    if argv.len() >= 1 {
        argv[0]
    } else {
        "pixelrag-cli"@
    }
}

/// Whether a subcommand asks for help.
pub open spec fn is_help_word(sub: Seq<char>) -> bool {
    sub == "help"@ || sub == "-h"@ || sub == "--help"@
}

/// Whether a subcommand selects a benchmark.
pub open spec fn is_bench_word(sub: Seq<char>) -> bool {
    sub == "benchmark"@ || sub == "bench"@
}

/// The options after the subcommand.
pub open spec fn cli_rest(argv: Seq<Seq<char>>) -> Seq<Seq<char>> {
    argv.subrange(2, argv.len() as int)
}

/// The benchmark mode asked for by `--mode` (trimmed, lower-cased), if any.
pub open spec fn cli_mode(argv: Seq<Seq<char>>) -> Option<Seq<char>> {
    match flag_value(cli_rest(argv), "--mode"@) {
        Some(m) => Some(lower_seq(trim(m))),
        None => None,
    }
}

/// Whether a benchmark command line selects the visual mode.
pub open spec fn is_visual_mode(argv: Seq<Seq<char>>) -> bool {
    cli_mode(argv) == Some("visual"@)
}

/// Whether a benchmark command line selects the text mode (the default).
pub open spec fn is_text_mode(argv: Seq<Seq<char>>) -> bool {
    cli_mode(argv) is None || cli_mode(argv) == Some("text"@)
}

/// Why a command line is refused, if it is.
pub open spec fn cli_error(argv: Seq<Seq<char>>) -> Option<Seq<char>> {
    if argv.len() < 2 {
        Some("missing subcommand"@)
    } else if is_help_word(argv[1]) {
        None
    } else if is_bench_word(argv[1]) {
        if is_visual_mode(argv) {
            visual_args_error(cli_rest(argv))
        } else if is_text_mode(argv) {
            bench_args_error(cli_rest(argv))
        } else {
            Some("unknown --mode '"@ + cli_mode(argv)->Some_0 + "' (use text|visual)"@)
        }
    } else {
        Some("unknown subcommand '"@ + argv[1] + "'"@)
    }
}

/// Whether `cli` is what an accepted command line parses to.
pub open spec fn cli_match(cli: Cli, argv: Seq<Seq<char>>) -> bool {
    &&& cli.program@ == cli_program(argv)
    &&& argv.len() >= 2
    &&& match cli.command {
        Command::Help => is_help_word(argv[1]),
        Command::Benchmark(a) => !is_help_word(argv[1]) && is_bench_word(argv[1]) && is_text_mode(
            argv,
        ) && !is_visual_mode(argv) && bench_args_match(a, cli_rest(argv)),
        Command::BenchmarkVisual(va) => !is_help_word(argv[1]) && is_bench_word(argv[1])
            && is_visual_mode(argv) && visual_args_match(va, cli_rest(argv)),
    }
}

fn tail_from(args: &Vec<String>, from: usize) -> (r: Vec<String>)
    requires
        from <= args@.len(),
    ensures
        strings_view(r@) == strings_view(args@).subrange(from as int, args@.len() as int),
{
    let mut out: Vec<String> = Vec::new();
    let mut i: usize = from;
    while i < args.len()
        invariant
            from <= i <= args@.len(),
            strings_view(out@) == strings_view(args@).subrange(from as int, i as int),
        decreases args@.len() - i,
    {
        let ghost prev = out@;
        let s = args[i].clone();
        out.push(s);
        proof {
            assert(out@ == prev.push(s));
            assert(s@ == args@[i as int]@);
            assert(strings_view(out@) =~= strings_view(prev).push(s@));
            assert(strings_view(out@) =~= strings_view(args@).subrange(from as int, i + 1));
        }
        i = i + 1;
    }
    out
}

impl Cli {
    /// Parse a command line (program name first). The second argument selects
    /// the subcommand: `help`, `-h` or `--help` for help; `benchmark` or `bench`
    /// for a benchmark, whose `--mode` (`text`, the default, or `visual`) picks
    /// how the remaining options are read.
    pub fn parse_args(args: Vec<String>) -> (r: Result<Cli, UsageError>)
        ensures
            match cli_error(strings_view(args@)) {
                Some(m) => r matches Err(e) && e.message@ == m,
                None => r matches Ok(cli) && cli_match(cli, strings_view(args@)),
            },
    {
        let ghost argv = strings_view(args@);
        let program = if args.len() >= 1 {
            args[0].clone()
        } else {
            String::from_str("pixelrag-cli")
        };
        if args.len() < 2 {
            return Err(UsageError { message: String::from_str("missing subcommand") });
        }
        let sub = chars_of(args[1].as_str());
        proof {
            assert(argv[1] == sub@);
        }
        if chars_eq_str(&sub, "help") || chars_eq_str(&sub, "-h") || chars_eq_str(&sub, "--help") {
            return Ok(Cli { program, command: Command::Help });
        }
        if !(chars_eq_str(&sub, "benchmark") || chars_eq_str(&sub, "bench")) {
            return Err(
                UsageError { message: concat3("unknown subcommand '", args[1].as_str(), "'") },
            );
        }
        let rest = tail_from(&args, 2);
        let mode = match flag(&rest, "--mode") {
            Some(m) => Some(lower_chars(&trim_chars(&chars_of(m.as_str())))),
            None => None,
        };
        let command = match mode {
            None => match parse_benchmark(&rest) {
                Ok(a) => Command::Benchmark(a),
                Err(e) => {
                    return Err(e);
                },
            },
            Some(m) => {
                if chars_eq_str(&m, "visual") {
                    match parse_benchmark_visual(&rest) {
                        Ok(va) => Command::BenchmarkVisual(va),
                        Err(e) => {
                            return Err(e);
                        },
                    }
                } else if chars_eq_str(&m, "text") {
                    match parse_benchmark(&rest) {
                        Ok(a) => Command::Benchmark(a),
                        Err(e) => {
                            return Err(e);
                        },
                    }
                } else {
                    let ms = string_of(&m);
                    return Err(
                        UsageError {
                            message: concat3("unknown --mode '", ms.as_str(), "' (use text|visual)"),
                        },
                    );
                }
            },
        };
        Ok(Cli { program, command })
    }

    /// The usage help text.
    pub fn usage() -> (r: &'static str)
        ensures
            r@ == USAGE_TEXT@,
    {
        USAGE_TEXT
    }
}

/// The usage help text.
pub const USAGE_TEXT: &'static str = "pixelrag-cli — PixelRAG visual-RAG CLI + benchmark harness (ADR-264)\n\
     \n\
     USAGE:\n\
     \x20 pixelrag-cli <SUBCOMMAND> [FLAGS]\n\
     \n\
     SUBCOMMANDS:\n\
     \x20 benchmark   Build the index from the subset fixture, run queries, and\n\
     \x20             score recall@10 / NDCG@10 / MRR + latency/build/memory.\n\
     \x20 help        Print this help.\n\
     \n\
     benchmark FLAGS:\n\
     \x20 --mode <text|visual>    text (default) = all-MiniLM/synthetic over tile bytes;\n\
     \x20                         visual = REAL CLIP ViT-B/32 text→image retrieval.\n\
     \n\
     benchmark --mode text FLAGS:\n\
     \x20 --predictions <path>    Output path for per-query ranked predictions JSON.\n\
     \x20 --ground-truth <path>   qrels JSON (e.g. tests/fixtures/pixelrag/ground-truth.json).\n\
     \x20 --queries <path>        Queries JSON (e.g. tests/fixtures/pixelrag/queries.json).\n\
     \x20 --metrics <list>        Comma list, e.g. ndcg,mrr,recall@10 (default).\n\
     \x20 --tiles <dir>           Tiles dir (default: tiles/ next to --ground-truth).\n\
     \x20 --report-out <path>     Report JSON (default: bench_output/pixelrag_bench.json).\n\
     \x20 --k <n>                 Retrieval cutoff (default 10).\n\
     \x20 --batch-size <n>        Override embedding batch size.\n\
     \x20 --index-backend <name>  hnsw (default) | ivf-flat | ivf-sq.\n\
     \x20 --embedder <name>       real (default, all-MiniLM-L6-v2 via Node sidecar) | synthetic.\n\
     \x20 --darwin-config <path>  Optional darwin genome JSON (read-only).\n\
     \n\
     benchmark --mode visual FLAGS:\n\
     \x20 --fixture-dir <dir>     Visual fixture dir (default tests/fixtures/pixelrag/visual)\n\
     \x20                         holding the manifest/queries/ground-truth JSON + images/.\n\
     \x20 --predictions <path>    Output path for per-query ranked predictions JSON.\n\
     \x20 --report-out <path>     Report JSON (default: bench_output/pixelrag_visual_bench.json).\n\
     \x20 --metrics <list>        Comma list, e.g. ndcg,mrr,recall@10 (default).\n\
     \x20 --k <n>                 Retrieval cutoff (default 10).\n\
     \x20 --index-backend <name>  hnsw (default) | ivf-flat.\n\
     \n\
     HONESTY (text): with --embedder real (default) the benchmark uses REAL all-MiniLM-L6-v2\n\
     semantic embeddings over a small real eval fixture — semantic retrieval, still a\n\
     tiny corpus vs full-scale. With --embedder synthetic it uses a DETERMINISTIC\n\
     NON-SEMANTIC embedder (plumbing validation only). Either way the fixture is tiny.\n\
     HONESTY (visual): real CLIP ViT-B/32 cross-modal embeddings (CPU/WASM); text→image\n\
     retrieval over rendered document screenshots — a real visual encoder; Qwen3-VL/ColPali\n\
     is the GPU upgrade. Tiny 8-doc corpus — honest about scale, not a SOTA claim.\n";

} // verus!
