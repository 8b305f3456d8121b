//! Data types of the visual encoder tier: tiles to encode, their content keys,
//! encoder kinds and errors.
use vstd::prelude::*;
use vstd::string::*;

verus! {

/// A rendered screenshot tile to be encoded.
#[derive(Clone, Debug, PartialEq, Eq)]
pub struct Image {
    /// Decoded pixel bytes, row-major.
    pub pixels: Vec<u8>,
    /// Tile width in pixels.
    pub width: u32,
    /// Tile height in pixels.
    pub height: u32,
    /// Channel layout of `pixels`.
    pub format: PixelFormat,
}

/// Pixel channel layout for an [`Image`].
#[derive(Clone, Copy, Debug, PartialEq, Eq, Hash, Structural)]
pub enum PixelFormat {
    /// 3 channels, 8 bits each (R, G, B).
    Rgb8,
    /// 4 channels, 8 bits each (R, G, B, A).
    Rgba8,
    /// 1 channel, 8 bits (luminance).
    Gray8,
}

/// Bytes per pixel of each layout.
pub open spec fn channels_of(f: PixelFormat) -> usize {
    match f {
        PixelFormat::Rgb8 => 3,
        PixelFormat::Rgba8 => 4,
        PixelFormat::Gray8 => 1,
    }
}

impl PixelFormat {
    /// Number of bytes per pixel for this layout.
    pub fn channels(self) -> (r: usize)
        ensures
            r == channels_of(self),
    {
        match self {
            PixelFormat::Rgb8 => 3,
            PixelFormat::Rgba8 => 4,
            PixelFormat::Gray8 => 1,
        }
    }
}

/// Stable content key for a tile, used as the embedding-cache key.
#[derive(Clone, Debug, PartialEq, Eq, Hash, PartialOrd, Ord)]
pub struct TileKey(pub [u8; 32]);

impl TileKey {
    /// A copy of the key.
    pub fn copy(&self) -> (r: TileKey)
        ensures
            r == *self,
    {
        TileKey(self.0)
    }
}

/// Identifies which encoder backend is active.
#[derive(Clone, Copy, Debug, PartialEq, Eq, Hash, Structural)]
pub enum EmbedderKind {
    /// Deterministic, non-semantic plumbing backend.
    Synthetic,
    /// External-encoder sidecar over IPC.
    Sidecar,
}

/// The label of each backend.
pub open spec fn kind_label(k: EmbedderKind) -> Seq<char> {
    match k {
        EmbedderKind::Synthetic => "synthetic"@,
        EmbedderKind::Sidecar => "sidecar"@,
    }
}

impl EmbedderKind {
    /// The backend's label, as it displays.
    pub fn label(self) -> (r: String)
        ensures
            r@ == kind_label(self),
    {
        match self {
            EmbedderKind::Synthetic => String::from_str("synthetic"),
            EmbedderKind::Sidecar => String::from_str("sidecar"),
        }
    }
}

/// Errors raised by any encoder backend or the cache layer.
#[derive(Debug)]
pub enum EncoderError {
    /// The model file or runtime could not be loaded.
    ModelLoad(String),
    /// Tile preprocessing failed.
    Preprocess(String),
    /// The backend forward pass failed.
    Inference(String),
    /// The sidecar process failed (spawn, transport, protocol).
    Sidecar(String),
    /// A batch operation was asked to return an embedding but produced none.
    EmptyBatch,
}

/// The text each encoder error displays.
pub open spec fn encoder_error_text(e: EncoderError) -> Seq<char> {
    match e {
        EncoderError::ModelLoad(m) => "model load failed: "@ + m@,
        EncoderError::Preprocess(m) => "tile preprocessing failed: "@ + m@,
        EncoderError::Inference(m) => "inference failed: "@ + m@,
        EncoderError::Sidecar(m) => "encoder sidecar failed: "@ + m@,
        EncoderError::EmptyBatch => "batch produced no embeddings"@,
    }
}

impl EncoderError {
    /// The text the error displays.
    pub fn message(&self) -> (r: String)
        ensures
            r@ == encoder_error_text(*self),
    {
        match self {
            EncoderError::ModelLoad(m) => String::from_str("model load failed: ").concat(m.as_str()),
            EncoderError::Preprocess(m) => String::from_str("tile preprocessing failed: ").concat(
                m.as_str(),
            ),
            EncoderError::Inference(m) => String::from_str("inference failed: ").concat(m.as_str()),
            EncoderError::Sidecar(m) => String::from_str("encoder sidecar failed: ").concat(
                m.as_str(),
            ),
            EncoderError::EmptyBatch => String::from_str("batch produced no embeddings"),
        }
    }
}

/// Which visual-embedding model family is loaded.
#[derive(Clone, Copy, Debug, PartialEq, Eq, Hash, Structural)]
pub enum ModelKind {
    /// Qwen3-VL-Embedding-2B (ONNX export). Primary target.
    Qwen3VlEmbedding2B,
    /// CLIP ViT-L/14 ONNX surrogate.
    ClipVitLargePatch14,
}

/// Compute device an inference session targets.
#[derive(Clone, Copy, Debug, PartialEq, Eq, Structural)]
pub enum Device {
    /// CPU execution (always available).
    Cpu,
    /// CUDA execution on the GPU with this ordinal.
    Cuda(usize),
}

impl Default for Device {
    fn default() -> (r: Self)
        ensures
            r == Device::Cpu,
    {
        Device::Cpu
    }
}

/// Settings for loading an inference-runtime encoder.
#[derive(Clone, Debug)]
pub struct OnnxConfig {
    /// Path of the model file.
    pub model_path: String,
    /// Which model family the file holds.
    pub model_kind: ModelKind,
    /// Execution device.
    pub device: Device,
    /// Intra-op thread count; `None` for the runtime default.
    pub intra_threads: Option<usize>,
    /// Whether outputs are L2-normalized before they are returned.
    pub normalize: bool,
}

impl OnnxConfig {
    /// Settings for a model file of the given family: CPU, runtime-default
    /// threading, normalized outputs.
    pub fn new(model_path: String, model_kind: ModelKind) -> (r: Self)
        ensures
            r.model_path == model_path,
            r.model_kind == model_kind,
            r.device == Device::Cpu,
            r.intra_threads is None,
            r.normalize,
    {
        OnnxConfig { model_path, model_kind, device: Device::Cpu, intra_threads: None, normalize: true }
    }
}

} // verus!
