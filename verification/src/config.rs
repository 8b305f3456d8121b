//! Runtime configuration for the retrieval pipeline.
//!
//! [`Config::default`] is the built-in harness (HNSW, batch 32, 100 MB cache) and
//! is always usable; a tuning genome (JSON) may optionally overlay recognised,
//! in-range fields onto it.
use vstd::prelude::*;
use vstd::string::*;

use crate::error::Error;
use crate::json::{json_get, json_str, json_u64, parse_json, spec_parse_json, JsonValue};
use crate::text::{
    chars_eq_str, chars_of, decimal, lower_chars, lower_seq, push_decimal, string_of,
};

verus! {

/// Which ANN backend the index adaptor wraps.
#[derive(Debug, Clone, Copy, PartialEq, Eq, Structural)]
pub enum IndexBackend {
    /// Graph-based HNSW index (primary backend).
    Hnsw,
    /// IVF-Flat: train-then-add inverted lists with a flat list scan.
    IvfFlat,
    /// IVF with scalar quantization (fallback on memory budget).
    IvfSq,
}

impl Default for IndexBackend {
    fn default() -> (r: Self)
        ensures
            r == IndexBackend::Hnsw,
    {
        IndexBackend::Hnsw
    }
}

/// The backend a lower-cased name selects.
pub open spec fn backend_from_name(name: Seq<char>) -> Option<IndexBackend> {
    if name == "hnsw"@ {
        Some(IndexBackend::Hnsw)
    } else if name == "ivfflat"@ || name == "ivf_flat"@ || name == "ivf-flat"@ {
        Some(IndexBackend::IvfFlat)
    } else if name == "ivfsq"@ || name == "ivf_sq"@ || name == "ivf-sq"@ {
        Some(IndexBackend::IvfSq)
    } else {
        None
    }
}

/// Select a backend by an already lower-cased name.
pub fn backend_from_lower(name: &Vec<char>) -> (r: Option<IndexBackend>)
    ensures
        r == backend_from_name(name@),
{
    if chars_eq_str(name, "hnsw") {
        Some(IndexBackend::Hnsw)
    } else if chars_eq_str(name, "ivfflat") || chars_eq_str(name, "ivf_flat") || chars_eq_str(
        name,
        "ivf-flat",
    ) {
        Some(IndexBackend::IvfFlat)
    } else if chars_eq_str(name, "ivfsq") || chars_eq_str(name, "ivf_sq") || chars_eq_str(
        name,
        "ivf-sq",
    ) {
        Some(IndexBackend::IvfSq)
    } else {
        None
    }
}

/// Top-level runtime configuration.
#[derive(Debug, Clone)]
pub struct Config {
    /// ANN backend selection.
    pub index_backend: IndexBackend,
    /// Tile embedding batch size handed to the encoder.
    pub batch_size: usize,
    /// LRU embedding-cache budget in megabytes.
    pub embedding_cache_mb: usize,
    /// Path of the genome this configuration was loaded from, if any.
    pub darwin_config_path: Option<String>,
}

/// Mathematical value of a [`Config`].
pub struct ConfigView {
    pub index_backend: IndexBackend,
    pub batch_size: usize,
    pub embedding_cache_mb: usize,
    pub darwin_config_path: Option<Seq<char>>,
}

impl View for Config {
    type V = ConfigView;

    open spec fn view(&self) -> ConfigView {
        ConfigView {
            index_backend: self.index_backend,
            batch_size: self.batch_size,
            embedding_cache_mb: self.embedding_cache_mb,
            darwin_config_path: match self.darwin_config_path {
                Some(p) => Some(p@),
                None => None,
            },
        }
    }
}

/// The built-in configuration.
pub open spec fn default_config() -> ConfigView {
    ConfigView {
        index_backend: IndexBackend::Hnsw,
        batch_size: 32,
        embedding_cache_mb: 100,
        darwin_config_path: None,
    }
}

/// Largest accepted embedding-cache budget, in megabytes.
pub const MAX_CACHE_MB: usize = 32768;

/// Why a configuration is rejected, if it is.
pub open spec fn config_problem(c: ConfigView) -> Option<Seq<char>> {
    if c.batch_size == 0 {
        Some("batch_size must be > 0"@)
    } else if c.embedding_cache_mb > MAX_CACHE_MB {
        Some(
            "embedding_cache_mb "@ + decimal(c.embedding_cache_mb as nat)
                + " exceeds the 32768 MB ceiling"@,
        )
    } else {
        None
    }
}

/// The subtree of a genome that holds the harness settings: its `config` member
/// when present, else the whole document.
pub open spec fn genome_root(json: JsonValue) -> JsonValue {
    match json_get(json, "config"@) {
        Some(c) => c,
        None => json,
    }
}

/// The backend a genome selects, starting from `base`.
pub open spec fn genome_backend(cfg: JsonValue, base: IndexBackend) -> Result<
    IndexBackend,
    Seq<char>,
> {
    match json_get(cfg, "index_backend"@) {
        None => Ok(base),
        Some(v) => match json_str(v) {
            None => Err("index_backend must be a string"@),
            Some(s) => match backend_from_name(lower_seq(s)) {
                Some(b) => Ok(b),
                None => Err("unknown index_backend '"@ + lower_seq(s) + "'"@),
            },
        },
    }
}

/// An integer setting of a genome, starting from `base`.
pub open spec fn genome_usize(cfg: JsonValue, key: Seq<char>, base: usize, msg: Seq<char>) -> Result<
    usize,
    Seq<char>,
> {
    match json_get(cfg, key) {
        None => Ok(base),
        Some(v) => match json_u64(v) {
            None => Err(msg),
            Some(n) => Ok(n as usize),
        },
    }
}

/// The configuration a genome document yields (or the reason it is rejected).
pub open spec fn genome_config(path: Seq<char>, json: JsonValue) -> Result<ConfigView, Seq<char>> {
    let cfg = genome_root(json);
    match genome_backend(cfg, IndexBackend::Hnsw) {
        Err(m) => Err(m),
        Ok(b) => match genome_usize(
            cfg,
            "batch_size"@,
            32,
            "batch_size must be a positive integer"@,
        ) {
            Err(m) => Err(m),
            Ok(bs) => match genome_usize(
                cfg,
                "embedding_cache_mb"@,
                100,
                "embedding_cache_mb must be an integer"@,
            ) {
                Err(m) => Err(m),
                Ok(mb) => {
                    let c = ConfigView {
                        index_backend: b,
                        batch_size: bs,
                        embedding_cache_mb: mb,
                        darwin_config_path: Some(path),
                    };
                    match config_problem(c) {
                        Some(m) => Err(m),
                        None => Ok(c),
                    }
                },
            },
        },
    }
}

/// A configuration error carrying `msg`.
pub open spec fn is_config_error(e: Error, msg: Seq<char>) -> bool {
    e matches Error::Config(m) && m@ == msg
}

impl Config {
    /// The built-in configuration: HNSW, `batch_size = 32`,
    /// `embedding_cache_mb = 100`, no genome path.
    pub fn default() -> (r: Self)
        ensures
            r@ == default_config(),
    {
        Config {
            index_backend: IndexBackend::Hnsw,
            batch_size: 32,
            embedding_cache_mb: 100,
            darwin_config_path: None,
        }
    }

    /// Check that all fields are in range: `batch_size > 0` and
    /// `embedding_cache_mb <= 32768`.
    pub fn validate(&self) -> (r: Result<(), Error>)
        ensures
            match config_problem(self@) {
                None => r is Ok,
                Some(m) => r matches Err(e) && is_config_error(e, m),
            },
    {
        if self.batch_size == 0 {
            return Err(Error::Config(String::from_str("batch_size must be > 0")));
        }
        if self.embedding_cache_mb > MAX_CACHE_MB {
            let mut m = String::from_str("embedding_cache_mb ");
            push_decimal(&mut m, self.embedding_cache_mb);
            m.append(" exceeds the 32768 MB ceiling");
            return Err(Error::Config(m));
        }
        Ok(())
    }

    /// Overlay a parsed genome onto the built-in configuration.
    ///
    /// The genome's `config` member (or the whole document when absent) may set
    /// `index_backend` (a string, matched case-insensitively), `batch_size` and
    /// `embedding_cache_mb` (non-negative integers); other members are ignored.
    /// A wrongly typed or unknown value, or an out-of-range result, is an error.
    pub fn from_darwin_value(path: &str, json: &JsonValue) -> (r: Result<Config, Error>)
        ensures
            match genome_config(path@, *json) {
                Ok(c) => r is Ok && r->Ok_0@ == c,
                Err(m) => r matches Err(e) && is_config_error(e, m),
            },
    {
        let cfg = match json.get("config") {
            Some(c) => c,
            None => json,
        };
        let mut out = Config::default();
        match cfg.get("index_backend") {
            Some(v) => {
                let s = match v.as_str() {
                    Some(s) => s,
                    None => {
                        return Err(
                            Error::Config(String::from_str("index_backend must be a string")),
                        );
                    },
                };
                let lower = lower_chars(&chars_of(s.as_str()));
                match backend_from_lower(&lower) {
                    Some(b) => {
                        out.index_backend = b;
                    },
                    None => {
                        let mut m = String::from_str("unknown index_backend '");
                        let l = string_of(&lower);
                        m.append(l.as_str());
                        m.append("'");
                        return Err(Error::Config(m));
                    },
                }
            },
            None => {},
        }
        match cfg.get("batch_size") {
            Some(v) => match v.as_u64() {
                Some(n) => {
                    out.batch_size = #[verifier::truncate] (n as usize);
                },
                None => {
                    return Err(
                        Error::Config(String::from_str("batch_size must be a positive integer")),
                    );
                },
            },
            None => {},
        }
        match cfg.get("embedding_cache_mb") {
            Some(v) => match v.as_u64() {
                Some(n) => {
                    out.embedding_cache_mb = #[verifier::truncate] (n as usize);
                },
                None => {
                    return Err(
                        Error::Config(String::from_str("embedding_cache_mb must be an integer")),
                    );
                },
            },
            None => {},
        }
        out.darwin_config_path = Some(String::from_str(path));
        match out.validate() {
            Ok(()) => Ok(out),
            Err(e) => Err(e),
        }
    }

    /// Parse genome text and overlay it onto the built-in configuration.
    ///
    /// Text that does not parse as JSON is rejected with
    /// `"darwin genome parse failed: "` followed by the parser's message.
    pub fn from_darwin_text(path: &str, raw: &str) -> (r: Result<Config, Error>)
        ensures
            match spec_parse_json(raw@) {
                Err(pe) => r matches Err(e) && is_config_error(
                    e,
                    "darwin genome parse failed: "@ + pe,
                ),
                Ok(json) => match genome_config(path@, json) {
                    Ok(c) => r is Ok && r->Ok_0@ == c,
                    Err(m) => r matches Err(e) && is_config_error(e, m),
                },
            },
    {
        match parse_json(raw) {
            Ok(json) => Config::from_darwin_value(path, &json),
            Err(pe) => {
                let mut m = String::from_str("darwin genome parse failed: ");
                m.append(pe.as_str());
                Err(Error::Config(m))
            },
        }
    }
}

/// The built-in configuration is valid.
pub proof fn law_default_config_is_valid()
    ensures
        config_problem(default_config()) is None,
{
}

/// Every configuration a genome yields is valid and records the genome's path.
pub proof fn law_genome_config_is_valid(path: Seq<char>, json: JsonValue)
    ensures
        genome_config(path, json) matches Ok(c) ==> config_problem(c) is None
            && c.darwin_config_path == Some(path),
{
}

/// Every harness setting of a genome is read from the same place: its
/// `config` member when it has one, else the document itself. A setting given
/// there as an integer is the one loaded, an absent one keeps its default, and
/// a genome that sets only the cache budget (within the ceiling) loads with
/// exactly that budget.
pub proof fn law_genome_settings_share_one_subtree(path: Seq<char>, json: JsonValue)
    ensures
        ({
            let cfg = match json_get(json, "config"@) {
                Some(c) => c,
                None => json,
            };
            &&& genome_config(path, json) matches Ok(c) ==> {
                &&& match json_get(cfg, "embedding_cache_mb"@) {
                    Some(v) => json_u64(v) is Some && c.embedding_cache_mb == json_u64(v)->0 as usize,
                    None => c.embedding_cache_mb == 100,
                }
                &&& match json_get(cfg, "batch_size"@) {
                    Some(v) => json_u64(v) is Some && c.batch_size == json_u64(v)->0 as usize,
                    None => c.batch_size == 32,
                }
                &&& json_get(cfg, "index_backend"@) is None ==> c.index_backend == IndexBackend::Hnsw
            }
            &&& ({
                &&& json_get(cfg, "index_backend"@) is None
                &&& json_get(cfg, "batch_size"@) is None
                &&& json_get(cfg, "embedding_cache_mb"@) is Some
                &&& json_u64(json_get(cfg, "embedding_cache_mb"@)->0) is Some
                &&& json_u64(json_get(cfg, "embedding_cache_mb"@)->0)->0 <= MAX_CACHE_MB
            }) ==> {
                &&& genome_config(path, json) is Ok
                &&& genome_config(path, json)->Ok_0.embedding_cache_mb as u64 == json_u64(
                    json_get(cfg, "embedding_cache_mb"@)->0,
                )->0
                &&& genome_config(path, json)->Ok_0.batch_size == 32
                &&& genome_config(path, json)->Ok_0.index_backend == IndexBackend::Hnsw
            }
        }),
{
}

} // verus!
