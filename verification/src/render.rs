//! The headless renderer's side of the screenshot protocol: which sidecar and
//! `node` binary a renderer runs, its viewport, and what a sidecar reply turns
//! into.
use vstd::prelude::*;
use vstd::string::*;

use crate::outcome::{chosen_node, chosen_sidecar, reply_line, sidecar_command, SidecarOutput};
use crate::text::{decimal, push_decimal};

verus! {

/// Default screenshot viewport width.
pub const DEFAULT_WIDTH: u32 = 1024;

/// Default screenshot viewport height.
pub const DEFAULT_HEIGHT: u32 = 768;

/// One rendered document screenshot.
#[derive(Debug, Clone, PartialEq, Eq)]
pub struct RenderedImage {
    /// Sidecar-assigned id (`doc-00`, `doc-01`, ... by input order).
    pub id: String,
    /// The source URL that was rendered.
    pub url: String,
    /// Filesystem path of the written PNG.
    pub path: String,
}

/// One image entry of a sidecar reply, as the sidecar writes it.
#[derive(Debug, Clone, PartialEq, Eq)]
pub struct RawImage {
    /// Sidecar-assigned id.
    pub id: String,
    /// The source URL.
    pub url: String,
    /// Path of the written PNG.
    pub path: String,
}

impl From<RawImage> for RenderedImage {
    fn from(r: RawImage) -> (out: RenderedImage) {
        RenderedImage { id: r.id, url: r.url, path: r.path }
    }
}

impl vstd::std_specs::convert::FromSpecImpl<RawImage> for RenderedImage {
    open spec fn obeys_from_spec() -> bool {
        true
    }

    open spec fn from_spec(v: RawImage) -> RenderedImage {
        RenderedImage { id: v.id, url: v.url, path: v.path }
    }
}

/// Error of the render adaptor.
#[derive(Debug)]
pub enum RenderError {
    /// The `node` process could not be started.
    Spawn(String),
    /// Writing the request or reading the reply failed.
    Io(String),
    /// The sidecar failed or answered inconsistently.
    Sidecar(String),
    /// The sidecar reply could not be parsed.
    Parse(String),
}

/// The text each render error displays.
pub open spec fn render_error_text(e: RenderError) -> Seq<char> {
    match e {
        RenderError::Spawn(m) => "pixelrag render spawn error: "@ + m@,
        RenderError::Io(m) => "pixelrag render io error: "@ + m@,
        RenderError::Sidecar(m) => "pixelrag render sidecar error: "@ + m@,
        RenderError::Parse(m) => "pixelrag render parse error: "@ + m@,
    }
}

impl RenderError {
    /// The text the error displays.
    pub fn message(&self) -> (r: String)
        ensures
            r@ == render_error_text(*self),
    {
        match self {
            RenderError::Spawn(m) => String::from_str("pixelrag render spawn error: ").concat(
                m.as_str(),
            ),
            RenderError::Io(m) => String::from_str("pixelrag render io error: ").concat(m.as_str()),
            RenderError::Sidecar(m) => String::from_str("pixelrag render sidecar error: ").concat(
                m.as_str(),
            ),
            RenderError::Parse(m) => String::from_str("pixelrag render parse error: ").concat(
                m.as_str(),
            ),
        }
    }
}

/// A headless renderer: the sidecar script and `node` binary it runs, and the
/// screenshot viewport (each side at least 1).
#[derive(Clone, Debug, PartialEq, Eq)]
pub struct Renderer {
    sidecar_path: String,
    node_bin: String,
    width: u32,
    height: u32,
}

/// What a renderer is: its sidecar script, `node` binary and viewport.
pub struct RendererView {
    /// The sidecar script it runs.
    pub sidecar_path: Seq<char>,
    /// The `node` binary it runs.
    pub node_bin: Seq<char>,
    /// Viewport width.
    pub width: u32,
    /// Viewport height.
    pub height: u32,
}

impl View for Renderer {
    type V = RendererView;

    closed spec fn view(&self) -> RendererView {
        RendererView {
            sidecar_path: self.sidecar_path@,
            node_bin: self.node_bin@,
            width: self.width,
            height: self.height,
        }
    }
}

/// The reply a render run's output yields, or why it yields none.
pub open spec fn render_reply(o: SidecarOutput) -> Result<Seq<char>, Seq<char>> {
    reply_line(o, "render sidecar"@, " (no JSON response)"@)
}

impl Renderer {
    /// A renderer that runs `node_override` (else `node`) on the sidecar script
    /// `sidecar_override` when that is non-empty, else on `sidecar_path`, with
    /// the default viewport. The overrides are what the environment names.
    pub fn new(sidecar_path: String, sidecar_override: Option<String>, node_override: Option<String>) -> (r: Self)
        ensures
            r@.sidecar_path == chosen_sidecar(
                sidecar_path@,
                crate::bench::opt_view(sidecar_override),
            ),
            r@.node_bin == chosen_node(crate::bench::opt_view(node_override)),
            r@.width == DEFAULT_WIDTH,
            r@.height == DEFAULT_HEIGHT,
    {
        let (sidecar, node_bin) = sidecar_command(sidecar_path, sidecar_override, node_override);
        Renderer { sidecar_path: sidecar, node_bin, width: DEFAULT_WIDTH, height: DEFAULT_HEIGHT }
    }

    /// The same renderer with a `width` x `height` viewport, each raised to at least 1.
    pub fn with_viewport(self, width: u32, height: u32) -> (r: Self)
        ensures
            r@.sidecar_path == self@.sidecar_path,
            r@.node_bin == self@.node_bin,
            r@.width == if width >= 1 {
                width
            } else {
                1
            },
            r@.height == if height >= 1 {
                height
            } else {
                1
            },
    {
        let mut r = self;
        r.width = if width >= 1 {
            width
        } else {
            1
        };
        r.height = if height >= 1 {
            height
        } else {
            1
        };
        r
    }

    /// The sidecar script this renderer runs.
    pub fn sidecar_path(&self) -> (r: &String)
        ensures
            r@ == self@.sidecar_path,
    {
        &self.sidecar_path
    }

    /// The `node` binary this renderer runs.
    pub fn node_bin(&self) -> (r: &String)
        ensures
            r@ == self@.node_bin,
    {
        &self.node_bin
    }

    /// Viewport width.
    pub fn width(&self) -> (r: u32)
        ensures
            r == self@.width,
    {
        self.width
    }

    /// Viewport height.
    pub fn height(&self) -> (r: u32)
        ensures
            r == self@.height,
    {
        self.height
    }

    /// The reply line of a finished render run; a failed exit or an empty reply
    /// is a sidecar error.
    pub fn reply(out: &SidecarOutput) -> (r: Result<String, RenderError>)
        ensures
            match render_reply(*out) {
                Ok(l) => r matches Ok(s) && s@ == l,
                Err(m) => r matches Err(RenderError::Sidecar(s)) && s@ == m,
            },
    {
        match out.reply("render sidecar", " (no JSON response)") {
            Ok(l) => Ok(l),
            Err(m) => Err(RenderError::Sidecar(m)),
        }
    }
}

/// The message of a reply whose image count differs from the URL count.
pub open spec fn count_mismatch_text(images: nat, urls: nat) -> Seq<char> {
    "render sidecar returned "@ + decimal(images) + " images for "@ + decimal(urls) + " urls"@
}

/// What a decoded reply to `url_count` URLs yields: a decoding failure is a
/// parse error; an image count other than `url_count` is a sidecar error;
/// otherwise the images, in reply order.
pub fn render_outcome(url_count: usize, decoded: Result<Vec<RawImage>, String>) -> (r: Result<
    Vec<RenderedImage>,
    RenderError,
>)
    ensures
        match decoded {
            Err(e) => r matches Err(RenderError::Parse(m)) && m@ == "parse render response JSON: "@
                + e@,
            Ok(imgs) => if imgs@.len() != url_count {
                r matches Err(RenderError::Sidecar(m)) && m@ == count_mismatch_text(
                    imgs@.len(),
                    url_count as nat,
                )
            } else {
                r matches Ok(v) && v@.len() == imgs@.len() && forall|i: int|
                    0 <= i < v@.len() ==> (#[trigger] v@[i]).id == imgs@[i].id && v@[i].url
                        == imgs@[i].url && v@[i].path == imgs@[i].path
            },
        },
{
    match decoded {
        Err(e) => Err(RenderError::Parse(String::from_str("parse render response JSON: ").concat(e.as_str()))),
        Ok(imgs) => {
            if imgs.len() != url_count {
                let mut m = String::from_str("render sidecar returned ");
                push_decimal(&mut m, imgs.len());
                m.append(" images for ");
                push_decimal(&mut m, url_count);
                m.append(" urls");
                return Err(RenderError::Sidecar(m));
            }
            let ghost src = imgs@;
            let mut out: Vec<RenderedImage> = Vec::new();
            let mut rest = imgs;
            while rest.len() > 0
                invariant
                    out@.len() + rest@.len() == src.len(),
                    rest@ == src.subrange(out@.len() as int, src.len() as int),
                    forall|i: int|
                        0 <= i < out@.len() ==> (#[trigger] out@[i]).id == src[i].id && out@[i].url
                            == src[i].url && out@[i].path == src[i].path,
                decreases rest@.len(),
            {
                let ghost k: int = out@.len() as int;
                let img = rest.remove(0);
                proof {
                    assert(img == src[k]);
                    assert(rest@ =~= src.subrange(k + 1, src.len() as int));
                }
                out.push(RenderedImage::from(img));
            }
            Ok(out)
        },
    }
}

} // verus!
