//! Crate-wide error type for the retrieval pipeline.
use vstd::prelude::*;
use vstd::string::*;

verus! {

/// Errors raised by the pipeline stages.
#[derive(Debug)]
pub enum Error {
    /// A pipeline stage (render/embed/index/search) failed with a message.
    Pipeline(String),
    /// Tiling a document failed.
    Tile(String),
    /// The embedding backend failed.
    Embedding(String),
    /// The ANN index backend failed.
    Index(String),
    /// Configuration was invalid or a genome could not be parsed.
    Config(String),
    /// An underlying I/O error.
    Io(String),
}

/// The human-readable prefix of each error kind.
pub open spec fn error_prefix(e: Error) -> Seq<char> {
    match e {
        Error::Pipeline(_) => "pixelrag pipeline error: "@,
        Error::Tile(_) => "pixelrag tile error: "@,
        Error::Embedding(_) => "pixelrag embedding error: "@,
        Error::Index(_) => "pixelrag index error: "@,
        Error::Config(_) => "pixelrag config error: "@,
        Error::Io(_) => "pixelrag io error: "@,
    }
}

/// The message carried by an error.
pub open spec fn error_detail(e: Error) -> Seq<char> {
    match e {
        Error::Pipeline(m) => m@,
        Error::Tile(m) => m@,
        Error::Embedding(m) => m@,
        Error::Index(m) => m@,
        Error::Config(m) => m@,
        Error::Io(m) => m@,
    }
}

impl Error {
    /// The text the error displays: its kind's prefix followed by its message.
    pub fn message(&self) -> (r: String)
        ensures
            r@ == error_prefix(*self) + error_detail(*self),
    {
        let (prefix, detail) = match self {
            Error::Pipeline(m) => ("pixelrag pipeline error: ", m),
            Error::Tile(m) => ("pixelrag tile error: ", m),
            Error::Embedding(m) => ("pixelrag embedding error: ", m),
            Error::Index(m) => ("pixelrag index error: ", m),
            Error::Config(m) => ("pixelrag config error: ", m),
            Error::Io(m) => ("pixelrag io error: ", m),
        };
        let mut out = String::from_str(prefix);
        out.append(detail.as_str());
        out
    }
}

} // verus!
