//! Readers of the benchmark fixture documents: queries, predictions, the
//! visual manifest and the visual ground truth.
use vstd::prelude::*;
use vstd::string::*;

use crate::bench::{
    is_bench_error, member_str, member_str_or, member_strings, opt_view, ranked_view, BenchError,
    GroundTruth, Predictions,
};
use crate::text::{chars_of, prefix_to, string_of};
use crate::json::{
    collect_strings, json_array, json_get, json_object, parse_json, spec_parse_json, strings_of,
    strings_view, JsonValue,
};

verus! {

/// `(id, text)` pairs of a sequence of strings pairs.
pub open spec fn pairs_view(v: Seq<(String, String)>) -> Seq<(Seq<char>, Seq<char>)> {
    v.map_values(|e: (String, String)| (e.0@, e.1@))
}

/// Query entries `{query_id, text}` of an array, or `None` when one lacks a
/// string `query_id` (a missing text is empty).
pub open spec fn query_entries(arr: Seq<JsonValue>) -> Option<Seq<(Seq<char>, Seq<char>)>>
    decreases arr.len(),
{
    if arr.len() == 0 {
        Some(Seq::empty())
    } else {
        match query_entries(arr.drop_last()) {
            None => None,
            Some(prefix) => match member_str(arr.last(), "query_id"@) {
                None => None,
                Some(q) => Some(prefix.push((q, member_str_or(arr.last(), "text"@, ""@)))),
            },
        }
    }
}

proof fn lemma_query_prefix_none(arr: Seq<JsonValue>, i: int)
    requires
        0 <= i <= arr.len(),
        query_entries(arr.subrange(0, i)) is None,
    ensures
        query_entries(arr) is None,
    decreases arr.len() - i,
{
    if i < arr.len() {
        assert(arr.subrange(0, i + 1).drop_last() == arr.subrange(0, i));
        lemma_query_prefix_none(arr, i + 1);
    } else {
        assert(arr.subrange(0, i) == arr);
    }
}

/// Read the query entries of an array.
pub fn read_query_entries(arr: &Vec<JsonValue>) -> (r: Option<Vec<(String, String)>>)
    ensures
        match query_entries(arr@) {
            None => r is None,
            Some(es) => r is Some && pairs_view(r->0@) == es,
        },
{
    let mut out: Vec<(String, String)> = Vec::new();
    let mut i: usize = 0;
    while i < arr.len()
        invariant
            i <= arr@.len(),
            query_entries(arr@.subrange(0, i as int)) == Some(pairs_view(out@)),
        decreases arr@.len() - i,
    {
        proof {
            assert(arr@.subrange(0, i + 1).drop_last() == arr@.subrange(0, i as int));
            assert(arr@.subrange(0, i + 1).last() == arr@[i as int]);
        }
        let qid = match crate::bench::member_str_pub(&arr[i], "query_id") {
            Some(q) => q,
            None => {
                proof {
                    lemma_query_prefix_none(arr@, i + 1);
                }
                return None;
            },
        };
        let text = crate::bench::member_str_or_pub(&arr[i], "text", "");
        let ghost prev = out@;
        out.push((qid, text));
        proof {
            assert(pairs_view(out@) =~= pairs_view(prev).push((qid@, text@)));
        }
        i = i + 1;
    }
    proof {
        assert(arr@.subrange(0, i as int) == arr@);
    }
    Some(out)
}

/// The dataset name and queries a text-benchmark queries document holds
/// (`{"dataset", "queries":[{"query_id", "text"}]}`).
pub open spec fn queries_spec(json: JsonValue) -> Result<
    (Seq<char>, Seq<(Seq<char>, Seq<char>)>),
    Seq<char>,
> {
    let dataset = member_str_or(json, "dataset"@, "pixelrag-subset"@);
    match json_get(json, "queries"@) {
        None => Err("queries.json missing 'queries' array"@),
        Some(a) => match json_array(a) {
            None => Err("queries.json missing 'queries' array"@),
            Some(arr) => match query_entries(arr) {
                None => Err("query missing 'query_id'"@),
                Some(es) => Ok((dataset, es)),
            },
        },
    }
}

/// Read the dataset name and queries of a parsed queries document.
pub fn queries_from_json(json: &JsonValue) -> (r: Result<(String, Vec<(String, String)>), BenchError>)
    ensures
        match queries_spec(*json) {
            Ok(q) => r is Ok && r->Ok_0.0@ == q.0 && pairs_view(r->Ok_0.1@) == q.1,
            Err(m) => r matches Err(e) && is_bench_error(e, m),
        },
{
    let dataset = crate::bench::member_str_or_pub(json, "dataset", "pixelrag-subset");
    let arr = match json.get("queries") {
        Some(a) => match a.as_array() {
            Some(arr) => arr,
            None => {
                return Err(
                    BenchError { message: String::from_str("queries.json missing 'queries' array") },
                );
            },
        },
        None => {
            return Err(
                BenchError { message: String::from_str("queries.json missing 'queries' array") },
            );
        },
    };
    match read_query_entries(arr) {
        Some(es) => Ok((dataset, es)),
        None => Err(BenchError { message: String::from_str("query missing 'query_id'") }),
    }
}

/// Parse a queries document's text and read it.
pub fn queries_from_text(raw: &str) -> (r: Result<(String, Vec<(String, String)>), BenchError>)
    ensures
        match spec_parse_json(raw@) {
            Err(pe) => r matches Err(e) && is_bench_error(e, "parse queries: "@ + pe),
            Ok(json) => match queries_spec(json) {
                Ok(q) => r is Ok && r->Ok_0.0@ == q.0 && pairs_view(r->Ok_0.1@) == q.1,
                Err(m) => r matches Err(e) && is_bench_error(e, m),
            },
        },
{
    match parse_json(raw) {
        Ok(json) => queries_from_json(&json),
        Err(pe) => Err(BenchError { message: String::from_str("parse queries: ").concat(pe.as_str()) }),
    }
}

/// The queries of a visual queries document: a bare array of `{query_id, text}`.
pub open spec fn visual_queries_spec(json: JsonValue) -> Result<Seq<(Seq<char>, Seq<char>)>, Seq<char>> {
    match json_array(json) {
        None => Err("visual queries.json must be a JSON array"@),
        Some(arr) => match query_entries(arr) {
            None => Err("query missing 'query_id'"@),
            Some(es) => Ok(es),
        },
    }
}

/// Read the queries of a parsed visual queries document.
pub fn visual_queries_from_json(json: &JsonValue) -> (r: Result<Vec<(String, String)>, BenchError>)
    ensures
        match visual_queries_spec(*json) {
            Ok(q) => r is Ok && pairs_view(r->Ok_0@) == q,
            Err(m) => r matches Err(e) && is_bench_error(e, m),
        },
{
    match json.as_array() {
        None => Err(BenchError { message: String::from_str("visual queries.json must be a JSON array") }),
        Some(arr) => match read_query_entries(arr) {
            Some(es) => Ok(es),
            None => Err(BenchError { message: String::from_str("query missing 'query_id'") }),
        },
    }
}

/// Parse a visual queries document's text and read it.
pub fn visual_queries_from_text(raw: &str) -> (r: Result<Vec<(String, String)>, BenchError>)
    ensures
        match spec_parse_json(raw@) {
            Err(pe) => r matches Err(e) && is_bench_error(e, "parse queries: "@ + pe),
            Ok(json) => match visual_queries_spec(json) {
                Ok(q) => r is Ok && pairs_view(r->Ok_0@) == q,
                Err(m) => r matches Err(e) && is_bench_error(e, m),
            },
        },
{
    match parse_json(raw) {
        Ok(json) => visual_queries_from_json(&json),
        Err(pe) => Err(BenchError { message: String::from_str("parse queries: ").concat(pe.as_str()) }),
    }
}

/// `(key, string members)` of each object entry whose value is an array.
pub open spec fn array_members(m: Seq<(String, JsonValue)>) -> Seq<(Seq<char>, Seq<Seq<char>>)>
    decreases m.len(),
{
    if m.len() == 0 {
        Seq::empty()
    } else {
        match json_array(m.last().1) {
            Some(xs) => array_members(m.drop_last()).push((m.last().0@, strings_of(xs))),
            None => array_members(m.drop_last()),
        }
    }
}

/// `(key, string members)` of every object entry (non-arrays count as empty).
pub open spec fn all_members(m: Seq<(String, JsonValue)>) -> Seq<(Seq<char>, Seq<Seq<char>>)> {
    m.map_values(
        |e: (String, JsonValue)|
            (
                e.0@,
                match json_array(e.1) {
                    Some(xs) => strings_of(xs),
                    None => Seq::empty(),
                },
            ),
    )
}

/// `(query_id, tiles)` of each `results` entry (missing id: empty; missing
/// tiles: none).
pub open spec fn result_entries(arr: Seq<JsonValue>) -> Seq<(Seq<char>, Seq<Seq<char>>)> {
    arr.map_values(
        |r: JsonValue| (member_str_or(r, "query_id"@, ""@), member_strings(r, "tiles"@)),
    )
}

/// The predictions a results document holds: its `results` array when there is
/// one, else each array-valued member of a bare object, else none.
pub open spec fn predictions_spec(json: JsonValue) -> Seq<(Seq<char>, Seq<Seq<char>>)> {
    let results = match json_get(json, "results"@) {
        Some(a) => json_array(a),
        None => None,
    };
    match results {
        Some(arr) => result_entries(arr),
        None => match json_object(json) {
            Some(m) => array_members(m),
            None => Seq::empty(),
        },
    }
}

impl Predictions {
    /// Read predictions from a parsed results document.
    pub fn from_json(json: &JsonValue) -> (r: Predictions)
        ensures
            ranked_view(r.by_query@) == predictions_spec(*json),
    {
        let mut out: Vec<(String, Vec<String>)> = Vec::new();
        let results = match json.get("results") {
            Some(a) => a.as_array(),
            None => None,
        };
        match results {
            Some(arr) => {
                let mut i: usize = 0;
                while i < arr.len()
                    invariant
                        i <= arr@.len(),
                        ranked_view(out@) == result_entries(arr@).subrange(0, i as int),
                    decreases arr@.len() - i,
                {
                    let qid = crate::bench::member_str_or_pub(&arr[i], "query_id", "");
                    let tiles = crate::bench::member_strings_pub(&arr[i], "tiles");
                    let ghost prev = out@;
                    out.push((qid, tiles));
                    proof {
                        assert(ranked_view(out@) =~= ranked_view(prev).push(
                            (qid@, strings_view(tiles@)),
                        ));
                        assert(result_entries(arr@).subrange(0, i + 1) =~= result_entries(
                            arr@,
                        ).subrange(0, i as int).push(result_entries(arr@)[i as int]));
                    }
                    i = i + 1;
                }
                proof {
                    assert(result_entries(arr@).subrange(0, i as int) == result_entries(arr@));
                }
            },
            None => match json.as_object() {
                Some(m) => {
                    let mut i: usize = 0;
                    while i < m.len()
                        invariant
                            i <= m@.len(),
                            ranked_view(out@) == array_members(m@.subrange(0, i as int)),
                        decreases m@.len() - i,
                    {
                        proof {
                            assert(m@.subrange(0, i + 1).drop_last() == m@.subrange(0, i as int));
                            assert(m@.subrange(0, i + 1).last() == m@[i as int]);
                        }
                        match m[i].1.as_array() {
                            Some(xs) => {
                                let tiles = collect_strings(xs);
                                let ghost prev = out@;
                                out.push((m[i].0.clone(), tiles));
                                proof {
                                    assert(ranked_view(out@) =~= ranked_view(prev).push(
                                        (m@[i as int].0@, strings_view(tiles@)),
                                    ));
                                }
                            },
                            None => {},
                        }
                        i = i + 1;
                    }
                    proof {
                        assert(m@.subrange(0, i as int) == m@);
                    }
                },
                None => {},
            },
        }
        Predictions { by_query: out }
    }

    /// Parse a results document's text and read its predictions.
    pub fn from_json_text(raw: &str) -> (r: Result<Predictions, BenchError>)
        ensures
            match spec_parse_json(raw@) {
                Err(pe) => r matches Err(e) && is_bench_error(e, "parse predictions: "@ + pe),
                Ok(json) => r is Ok && ranked_view(r->Ok_0.by_query@) == predictions_spec(json),
            },
    {
        match parse_json(raw) {
            Ok(json) => Ok(Predictions::from_json(&json)),
            Err(pe) => Err(
                BenchError { message: String::from_str("parse predictions: ").concat(pe.as_str()) },
            ),
        }
    }
}

/// The qrels of a visual ground-truth document: a bare object mapping each
/// query id to its relevant document ids.
pub open spec fn visual_ground_truth_spec(json: JsonValue) -> Result<
    Seq<(Seq<char>, Seq<Seq<char>>)>,
    Seq<char>,
> {
    match json_object(json) {
        None => Err("visual ground-truth.json must be a JSON object"@),
        Some(m) => Ok(all_members(m)),
    }
}

impl GroundTruth {
    /// Read qrels from a parsed visual ground-truth document.
    pub fn from_visual_json(json: &JsonValue) -> (r: Result<GroundTruth, BenchError>)
        ensures
            match visual_ground_truth_spec(*json) {
                Ok(es) => r is Ok && ranked_view(r->Ok_0.by_query@) == es,
                Err(m) => r matches Err(e) && is_bench_error(e, m),
            },
    {
        let m = match json.as_object() {
            Some(m) => m,
            None => {
                return Err(
                    BenchError {
                        message: String::from_str("visual ground-truth.json must be a JSON object"),
                    },
                );
            },
        };
        let mut out: Vec<(String, Vec<String>)> = Vec::new();
        let mut i: usize = 0;
        while i < m.len()
            invariant
                i <= m@.len(),
                ranked_view(out@) == all_members(m@).subrange(0, i as int),
            decreases m@.len() - i,
        {
            let rel = match m[i].1.as_array() {
                Some(xs) => collect_strings(xs),
                None => {
                    let v: Vec<String> = Vec::new();
                    proof {
                        assert(strings_view(v@) =~= Seq::<Seq<char>>::empty());
                    }
                    v
                },
            };
            let ghost prev = out@;
            out.push((m[i].0.clone(), rel));
            proof {
                assert(all_members(m@)[i as int] == (m@[i as int].0@, strings_view(rel@)));
                assert(ranked_view(out@) =~= ranked_view(prev).push((m@[i as int].0@, strings_view(rel@))));
                assert(all_members(m@).subrange(0, i + 1) =~= all_members(m@).subrange(0, i as int).push(
                    all_members(m@)[i as int],
                ));
            }
            i = i + 1;
        }
        proof {
            assert(all_members(m@).subrange(0, i as int) == all_members(m@));
        }
        Ok(GroundTruth { by_query: out })
    }

    /// Parse a visual ground-truth document's text and read its qrels.
    pub fn from_visual_json_text(raw: &str) -> (r: Result<GroundTruth, BenchError>)
        ensures
            match spec_parse_json(raw@) {
                Err(pe) => r matches Err(e) && is_bench_error(e, "parse ground-truth: "@ + pe),
                Ok(json) => match visual_ground_truth_spec(json) {
                    Ok(es) => r is Ok && ranked_view(r->Ok_0.by_query@) == es,
                    Err(m) => r matches Err(e) && is_bench_error(e, m),
                },
            },
    {
        match parse_json(raw) {
            Ok(json) => GroundTruth::from_visual_json(&json),
            Err(pe) => Err(
                BenchError { message: String::from_str("parse ground-truth: ").concat(pe.as_str()) },
            ),
        }
    }
}

/// One manifest entry: document id, source URL and declared image path.
#[derive(Debug, Clone, PartialEq, Eq)]
pub struct ManifestEntry {
    /// Document id.
    pub id: String,
    /// Source URL (empty when absent).
    pub url: String,
    /// Image path relative to the fixture directory (empty when absent).
    pub image: String,
}

/// `(id, url, image)` of a sequence of manifest entries.
pub open spec fn manifest_view(v: Seq<ManifestEntry>) -> Seq<(Seq<char>, Seq<char>, Seq<char>)> {
    v.map_values(|e: ManifestEntry| (e.id@, e.url@, e.image@))
}

/// Manifest entries `{id, url, image}` of an array, or `None` when one lacks a
/// string `id` (a missing url or image is empty).
pub open spec fn manifest_entries(arr: Seq<JsonValue>) -> Option<
    Seq<(Seq<char>, Seq<char>, Seq<char>)>,
>
    decreases arr.len(),
{
    if arr.len() == 0 {
        Some(Seq::empty())
    } else {
        match manifest_entries(arr.drop_last()) {
            None => None,
            Some(prefix) => match member_str(arr.last(), "id"@) {
                None => None,
                Some(id) => Some(
                    prefix.push(
                        (
                            id,
                            member_str_or(arr.last(), "url"@, ""@),
                            member_str_or(arr.last(), "image"@, ""@),
                        ),
                    ),
                ),
            },
        }
    }
}

/// The entries of a visual manifest: a bare array of `{id, url, image}`.
pub open spec fn manifest_spec(json: JsonValue) -> Result<
    Seq<(Seq<char>, Seq<char>, Seq<char>)>,
    Seq<char>,
> {
    match json_array(json) {
        None => Err("manifest must be a JSON array"@),
        Some(arr) => match manifest_entries(arr) {
            None => Err("manifest entry missing 'id'"@),
            Some(es) => Ok(es),
        },
    }
}

proof fn lemma_manifest_prefix_none(arr: Seq<JsonValue>, i: int)
    requires
        0 <= i <= arr.len(),
        manifest_entries(arr.subrange(0, i)) is None,
    ensures
        manifest_entries(arr) is None,
    decreases arr.len() - i,
{
    if i < arr.len() {
        assert(arr.subrange(0, i + 1).drop_last() == arr.subrange(0, i));
        lemma_manifest_prefix_none(arr, i + 1);
    } else {
        assert(arr.subrange(0, i) == arr);
    }
}

/// Read the entries of a parsed visual manifest.
pub fn manifest_from_json(json: &JsonValue) -> (r: Result<Vec<ManifestEntry>, BenchError>)
    ensures
        match manifest_spec(*json) {
            Ok(es) => r is Ok && manifest_view(r->Ok_0@) == es,
            Err(m) => r matches Err(e) && is_bench_error(e, m),
        },
{
    let arr = match json.as_array() {
        Some(a) => a,
        None => {
            return Err(BenchError { message: String::from_str("manifest must be a JSON array") });
        },
    };
    let mut out: Vec<ManifestEntry> = Vec::new();
    let mut i: usize = 0;
    while i < arr.len()
        invariant
            i <= arr@.len(),
            manifest_spec(*json) == match manifest_entries(arr@) {
                None => Err::<Seq<(Seq<char>, Seq<char>, Seq<char>)>, Seq<char>>(
                    "manifest entry missing 'id'"@,
                ),
                Some(es) => Ok(es),
            },
            manifest_entries(arr@.subrange(0, i as int)) == Some(manifest_view(out@)),
        decreases arr@.len() - i,
    {
        proof {
            assert(arr@.subrange(0, i + 1).drop_last() == arr@.subrange(0, i as int));
            assert(arr@.subrange(0, i + 1).last() == arr@[i as int]);
        }
        let id = match crate::bench::member_str_pub(&arr[i], "id") {
            Some(q) => q,
            None => {
                proof {
                    lemma_manifest_prefix_none(arr@, i + 1);
                }
                return Err(BenchError { message: String::from_str("manifest entry missing 'id'") });
            },
        };
        let url = crate::bench::member_str_or_pub(&arr[i], "url", "");
        let image = crate::bench::member_str_or_pub(&arr[i], "image", "");
        let ghost prev = out@;
        let e = ManifestEntry { id, url, image };
        let ghost ev = (e.id@, e.url@, e.image@);
        out.push(e);
        proof {
            assert(manifest_view(out@) =~= manifest_view(prev).push(ev));
        }
        i = i + 1;
    }
    proof {
        assert(arr@.subrange(0, i as int) == arr@);
    }
    Ok(out)
}

/// Parse a manifest's text and read its entries.
pub fn manifest_from_text(raw: &str) -> (r: Result<Vec<ManifestEntry>, BenchError>)
    ensures
        match spec_parse_json(raw@) {
            Err(pe) => r matches Err(e) && is_bench_error(e, "parse manifest: "@ + pe),
            Ok(json) => match manifest_spec(json) {
                Ok(es) => r is Ok && manifest_view(r->Ok_0@) == es,
                Err(m) => r matches Err(e) && is_bench_error(e, m),
            },
        },
{
    match parse_json(raw) {
        Ok(json) => manifest_from_json(&json),
        Err(pe) => Err(BenchError { message: String::from_str("parse manifest: ").concat(pe.as_str()) }),
    }
}

/// The tile id a directory entry named `name` stands for: its file stem when
/// its extension is exactly `txt` (`tile-000.txt` is tile `tile-000`), and
/// nothing for any other entry. A name that is only `.txt` has no extension.
pub open spec fn txt_stem(name: Seq<char>) -> Option<Seq<char>> {
    let n = name.len();
    if n >= 5 && name[n - 4] == '.' && name[n - 3] == 't' && name[n - 2] == 'x' && name[n - 1]
        == 't' {
        Some(name.subrange(0, n - 4))
    } else {
        None
    }
}

/// The tile id of a directory entry (see [`txt_stem`]).
pub fn tile_stem(name: &str) -> (r: Option<String>)
    ensures
        r is Some <==> txt_stem(name@) is Some,
        r is Some ==> r->0@ == txt_stem(name@)->0,
{
    let cs = chars_of(name);
    let n = cs.len();
    if n >= 5 && cs[n - 4] == '.' && cs[n - 3] == 't' && cs[n - 2] == 'x' && cs[n - 1] == 't' {
        let stem = prefix_to(&cs, n - 4);
        Some(string_of(&stem))
    } else {
        None
    }
}

} // verus!
