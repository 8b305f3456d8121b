//! Document → tiles, with bounds and metadata.
//!
//! A tile is the unit that gets embedded and indexed; its [`TileBounds`] and
//! [`TileMetadata`] let a retrieval hit be mapped back to a region of its source
//! document.
use vstd::prelude::*;
use vstd::string::*;

use crate::error::Error;

verus! {

/// Pixel-space bounds of a tile within its source page (origin top-left).
#[derive(Debug, Clone, Copy, PartialEq, Eq, Structural)]
pub struct TileBounds {
    /// Left edge (px) of the tile within the page.
    pub x: u32,
    /// Top edge (px) of the tile within the page.
    pub y: u32,
    /// Tile width (px).
    pub width: u32,
    /// Tile height (px).
    pub height: u32,
}

/// Provenance + retrieval metadata carried alongside every tile.
#[derive(Debug, Clone)]
pub struct TileMetadata {
    /// Source document identifier (URL, file path, or dataset doc id).
    pub doc_id: String,
    /// Zero-based page index within the source document.
    pub page: u32,
    /// Index of this tile within its page.
    pub tile_index: u32,
}

/// Mathematical value of a [`TileMetadata`].
pub struct MetadataView {
    pub doc_id: Seq<char>,
    pub page: u32,
    pub tile_index: u32,
}

impl View for TileMetadata {
    type V = MetadataView;

    open spec fn view(&self) -> MetadataView {
        MetadataView { doc_id: self.doc_id@, page: self.page, tile_index: self.tile_index }
    }
}

impl TileMetadata {
    /// A field-by-field copy.
    pub fn copy(&self) -> (r: TileMetadata)
        ensures
            r@ == self@,
    {
        TileMetadata { doc_id: self.doc_id.clone(), page: self.page, tile_index: self.tile_index }
    }
}

/// A single screenshot tile: raw image bytes plus its bounds and metadata.
#[derive(Debug, Clone)]
pub struct Tile {
    /// Encoded tile image bytes.
    pub image: Vec<u8>,
    /// Where this tile sits in the source page.
    pub bounds: TileBounds,
    /// Provenance + retrieval metadata.
    pub metadata: TileMetadata,
}

/// Mathematical value of a [`Tile`].
pub struct TileView {
    pub image: Seq<u8>,
    pub bounds: TileBounds,
    pub metadata: MetadataView,
}

impl View for Tile {
    type V = TileView;

    open spec fn view(&self) -> TileView {
        TileView { image: self.image@, bounds: self.bounds, metadata: self.metadata@ }
    }
}

/// The values of a sequence of tiles.
pub open spec fn tiles_view(ts: Seq<Tile>) -> Seq<TileView> {
    ts.map_values(|t: Tile| t@)
}

/// How a rendered document is split into tiles.
#[derive(Debug, Clone, Copy, PartialEq, Eq, Structural)]
pub struct TileSpec {
    /// Target tile width in pixels.
    pub tile_width: u32,
    /// Target tile height in pixels.
    pub tile_height: u32,
    /// Pixel overlap between adjacent tiles: rows a tile shares with the one
    /// above it (must be smaller than `tile_height` to tile pages).
    pub overlap: u32,
}

impl Default for TileSpec {
    fn default() -> (r: Self)
        ensures
            r == (TileSpec { tile_width: 512, tile_height: 512, overlap: 0 }),
    {
        TileSpec { tile_width: 512, tile_height: 512, overlap: 0 }
    }
}

/// How a byte buffer is cut into tiles: windows of `chunk` bytes that start
/// every `step` bytes, with consecutive tiles `rise` pixels apart vertically.
pub struct Cut {
    pub chunk: nat,
    pub step: nat,
    pub rise: nat,
}

/// A cut is usable when windows are non-empty and consecutive windows leave no
/// gap between them.
pub open spec fn cut_ok(cut: Cut) -> bool {
    0 < cut.step <= cut.chunk
}

/// The cut of a rendered page: `tile_height` rows of `tile_width` bytes per
/// tile, consecutive tiles sharing `overlap` rows, so each tile starts
/// `tile_height - overlap` rows below the previous one.
pub open spec fn page_cut(spec: TileSpec) -> Cut {
    Cut {
        chunk: (spec.tile_width * spec.tile_height) as nat,
        step: (spec.tile_width * (spec.tile_height - spec.overlap)) as nat,
        rise: (spec.tile_height - spec.overlap) as nat,
    }
}

/// The cut of a plain text: consecutive, non-overlapping runs of
/// `chars_per_tile` bytes, stacked `tile_height` pixels apart.
pub open spec fn text_cut(spec: TileSpec, chars_per_tile: nat) -> Cut {
    Cut { chunk: chars_per_tile, step: chars_per_tile, rise: spec.tile_height as nat }
}

/// Number of tiles a buffer of `len` bytes yields: one window when it fits in
/// a single window, otherwise enough further windows to reach the end.
pub open spec fn tile_count(len: nat, chunk: nat, step: nat) -> nat {
    if len <= chunk {
        1
    } else {
        1 + ((len - chunk + step - 1) / step as int) as nat
    }
}

/// Smaller of two integers.
pub open spec fn min_int(a: int, b: int) -> int {
    if a <= b {
        a
    } else {
        b
    }
}

/// The `t`-th window of `bytes`: `chunk` bytes from `t * step` (the last one
/// may be shorter).
pub open spec fn window(bytes: Seq<u8>, cut: Cut, t: int) -> Seq<u8> {
    bytes.subrange(t * cut.step, min_int(t * cut.step + cut.chunk, bytes.len() as int))
}

/// The `t`-th tile of a byte buffer: its window, a full-width bounds box
/// `t * rise` pixels from the top, and its provenance.
pub open spec fn tile_at(
    doc_id: Seq<char>,
    page: int,
    bytes: Seq<u8>,
    spec: TileSpec,
    cut: Cut,
    t: int,
) -> TileView {
    TileView {
        image: window(bytes, cut, t),
        bounds: TileBounds {
            x: 0,
            y: (t * cut.rise) as u32,
            width: spec.tile_width,
            height: spec.tile_height,
        },
        metadata: MetadataView { doc_id, page: page as u32, tile_index: t as u32 },
    }
}

/// All tiles of one byte buffer, in order.
pub open spec fn buffer_tiles(
    doc_id: Seq<char>,
    page: int,
    bytes: Seq<u8>,
    spec: TileSpec,
    cut: Cut,
) -> Seq<TileView> {
    Seq::new(tile_count(bytes.len(), cut.chunk, cut.step), |t: int| tile_at(doc_id, page, bytes, spec, cut, t))
}

/// All tiles of one page, in order.
pub open spec fn page_tiles(doc_id: Seq<char>, page: int, bytes: Seq<u8>, spec: TileSpec) -> Seq<
    TileView,
> {
    buffer_tiles(doc_id, page, bytes, spec, page_cut(spec))
}

/// All tiles of a document: the tiles of each page in page order.
pub open spec fn document_tiles(doc_id: Seq<char>, pages: Seq<Seq<u8>>, spec: TileSpec) -> Seq<
    TileView,
>
    decreases pages.len(),
{
    if pages.len() == 0 {
        Seq::empty()
    } else {
        document_tiles(doc_id, pages.drop_last(), spec) + page_tiles(
            doc_id,
            pages.len() - 1,
            pages.last(),
            spec,
        )
    }
}

/// The byte contents of each page.
pub open spec fn pages_view(pages: Seq<Vec<u8>>) -> Seq<Seq<u8>> {
    pages.map_values(|p: Vec<u8>| p@)
}

/// Machine limits of cutting `len` bytes: the end of the last window,
/// `start + chunk`, stays within `usize`, and the last vertical offset
/// `tile_index * rise` stays within `u32` (both are checked arithmetic).
pub open spec fn buffer_fits(len: nat, cut: Cut) -> bool {
    &&& (tile_count(len, cut.chunk, cut.step) - 1) * cut.step + cut.chunk <= usize::MAX
    &&& (tile_count(len, cut.chunk, cut.step) - 1) * cut.rise <= u32::MAX
}

/// Machine limits of tiling a page.
pub open spec fn page_fits(len: nat, spec: TileSpec) -> bool {
    buffer_fits(len, page_cut(spec))
}

/// Whether a tile spec can cut pages: non-empty tiles, and an overlap smaller
/// than the tile height.
pub open spec fn spec_usable(spec: TileSpec) -> bool {
    spec.tile_width > 0 && spec.tile_height > 0 && spec.overlap < spec.tile_height
}

/// Splits a rendered document into tiles.
#[derive(Debug, Clone)]
pub struct Tiler {
    spec: TileSpec,
}

impl View for Tiler {
    type V = TileSpec;

    closed spec fn view(&self) -> TileSpec {
        self.spec
    }
}

impl Default for Tiler {
    fn default() -> (r: Self)
        ensures
            r@ == (TileSpec { tile_width: 512, tile_height: 512, overlap: 0 }),
    {
        Tiler { spec: TileSpec::default() }
    }
}

/// Copy of the bytes `v[start..end]`.
pub fn copy_range(v: &[u8], start: usize, end: usize) -> (r: Vec<u8>)
    requires
        start <= end <= v@.len(),
    ensures
        r@ == v@.subrange(start as int, end as int),
{
    let mut out: Vec<u8> = Vec::new();
    let mut k: usize = start;
    while k < end
        invariant
            start <= k <= end <= v@.len(),
            out@ == v@.subrange(start as int, k as int),
        decreases end - k,
    {
        out.push(v[k]);
        k = k + 1;
    }
    out
}

proof fn lemma_tile_count_bounds(len: nat, cut: Cut, t: int)
    requires
        cut_ok(cut),
        0 <= t < tile_count(len, cut.chunk, cut.step),
    ensures
        t * cut.step <= len,
        len > 0 ==> t * cut.step < len,
        t + 1 == tile_count(len, cut.chunk, cut.step) ==> len <= t * cut.step + cut.chunk,
        t + 1 < tile_count(len, cut.chunk, cut.step) ==> t * cut.step + cut.chunk < len,
        t * cut.step <= (tile_count(len, cut.chunk, cut.step) - 1) * cut.step,
{
    let s = cut.step as int;
    let n = tile_count(len, cut.chunk, cut.step) as int;
    if len > cut.chunk {
        let r = len - cut.chunk;
        let q = (r + s - 1) / s;
        assert(q * s <= r + s - 1 && q * s + s > r + s - 1) by (nonlinear_arith)
            requires
                q == (r + s - 1) / s,
                s > 0,
        ;
        assert(t * s <= q * s) by (nonlinear_arith)
            requires
                t <= q,
                s > 0,
        ;
        assert(t + 1 <= q ==> t * s + s <= q * s) by (nonlinear_arith)
            requires
                s > 0,
        ;
    } else {
        assert(t == 0);
    }
    assert(t * s <= (n - 1) * s) by (nonlinear_arith)
        requires
            t <= n - 1,
            s > 0,
    ;
}

/// The number of tiles a buffer of `len` bytes yields with windows of `chunk`
/// bytes starting every `step` bytes.
pub fn tile_count_exec(len: usize, chunk: usize, step: usize) -> (r: usize)
    requires
        0 < step <= chunk,
    ensures
        r == tile_count(len as nat, chunk as nat, step as nat),
{
    if len <= chunk {
        return 1;
    }
    let rem = len - chunk;
    let d = rem / step;
    let m = rem % step;
    proof {
        let s = step as int;
        let l = rem as int;
        assert(l == d * s + m && 0 <= m < s) by (nonlinear_arith)
            requires
                s > 0,
                d == l / s,
                m == l % s,
        ;
        assert(d <= d * s) by (nonlinear_arith)
            requires
                s >= 1,
                d >= 0,
        ;
        assert(m > 0 ==> (l + s - 1) / s == d + 1) by (nonlinear_arith)
            requires
                l == d * s + m,
                0 <= m < s,
        ;
        assert(m == 0 ==> (l + s - 1) / s == d) by (nonlinear_arith)
            requires
                l == d * s + m,
                0 <= m < s,
        ;
    }
    if m > 0 {
        d + 2
    } else {
        d + 1
    }
}

impl Tiler {
    /// Construct a tiler with the given [`TileSpec`].
    pub fn new(spec: TileSpec) -> (r: Self)
        ensures
            r@ == spec,
    {
        Tiler { spec }
    }

    /// The tile spec this tiler applies.
    pub fn spec(&self) -> (r: TileSpec)
        ensures
            r == self@,
    {
        self.spec
    }

    /// Whether cutting `len` bytes with windows of `chunk` bytes every `step`
    /// bytes, `rise` pixels apart, stays within machine limits (see
    /// [`buffer_fits`]).
    fn buffer_fits_exec(&self, len: usize, chunk: u64, step: u64, rise: u64) -> (r: bool)
        requires
            0 < step <= chunk,
        ensures
            r == buffer_fits(len as nat, Cut { chunk: chunk as nat, step: step as nat, rise: rise as nat }),
    {
        if chunk > usize::MAX as u64 {
            return false;
        }
        let c = chunk as usize;
        let s = step as usize;
        let n = tile_count_exec(len, c, s);
        let k = n - 1;
        match k.checked_mul(s) {
            None => {
                proof {
                    assert(k * s <= k * s + c);
                }
                false
            },
            Some(p) => match p.checked_add(c) {
                None => false,
                Some(_) => match (k as u64).checked_mul(rise) {
                    Some(q) => q <= u32::MAX as u64,
                    None => false,
                },
            },
        }
    }

    /// Whether tiling `pages` stays within machine limits (the precondition of
    /// [`Tiler::tile_document`]).
    pub fn pages_fit(&self, pages: &[Vec<u8>]) -> (r: bool)
        ensures
            r == (spec_usable(self@) ==> forall|i: int|
                0 <= i < pages@.len() ==> page_fits(#[trigger] pages@[i]@.len(), self@)),
    {
        if self.spec.tile_width == 0 || self.spec.tile_height == 0
            || self.spec.overlap >= self.spec.tile_height {
            return true;
        }
        let w = self.spec.tile_width as u64;
        let h = self.spec.tile_height as u64;
        let rise = (self.spec.tile_height - self.spec.overlap) as u64;
        proof {
            assert(w * h <= u64::MAX && w * rise <= w * h && w * rise > 0) by (nonlinear_arith)
                requires
                    w <= u32::MAX,
                    h <= u32::MAX,
                    0 < rise <= h,
                    w > 0,
            ;
        }
        let chunk: u64 = w * h;
        let step: u64 = w * rise;
        let ghost cut = page_cut(self@);
        proof {
            assert(chunk as nat == cut.chunk && step as nat == cut.step && rise as nat == cut.rise);
        }
        let mut i: usize = 0;
        while i < pages.len()
            invariant
                i <= pages@.len(),
                spec_usable(self@),
                0 < step <= chunk,
                cut == page_cut(self@),
                chunk as nat == cut.chunk,
                step as nat == cut.step,
                rise as nat == cut.rise,
                forall|j: int| 0 <= j < i ==> page_fits(#[trigger] pages@[j]@.len(), self@),
            decreases pages@.len() - i,
        {
            proof {
                assert(cut == (Cut { chunk: chunk as nat, step: step as nat, rise: rise as nat }));
            }
            if !self.buffer_fits_exec(pages[i].len(), chunk, step, rise) {
                proof {
                    assert(!page_fits(pages@[i as int]@.len(), self@));
                }
                return false;
            }
            i = i + 1;
        }
        true
    }

    /// Whether tiling `text` in runs of `chars_per_tile` bytes stays within
    /// machine limits (the precondition of [`Tiler::tile_text`]).
    pub fn text_fits(&self, text: &str, chars_per_tile: usize) -> (r: bool)
        ensures
            r == (chars_per_tile > 0 ==> buffer_fits(
                text.spec_bytes().len(),
                text_cut(self@, chars_per_tile as nat),
            )),
    {
        if chars_per_tile == 0 {
            return true;
        }
        self.buffer_fits_exec(
            text.as_bytes().len(),
            chars_per_tile as u64,
            chars_per_tile as u64,
            self.spec.tile_height as u64,
        )
    }

    /// Append the tiles of one byte buffer to `out`.
    fn push_tiles(
        &self,
        doc_id: &str,
        page: usize,
        bytes: &[u8],
        chunk: usize,
        step: usize,
        rise: u32,
        out: &mut Vec<Tile>,
    )
        requires
            0 < step <= chunk,
            buffer_fits(bytes@.len(), Cut { chunk: chunk as nat, step: step as nat, rise: rise as nat }),
        ensures
            tiles_view(final(out)@) == tiles_view(old(out)@) + buffer_tiles(
                doc_id@,
                page as int,
                bytes@,
                self@,
                Cut { chunk: chunk as nat, step: step as nat, rise: rise as nat },
            ),
    {
        let ghost cut = Cut { chunk: chunk as nat, step: step as nat, rise: rise as nat };
        let n = tile_count_exec(bytes.len(), chunk, step);
        let ghost before = tiles_view(out@);
        let ghost want = buffer_tiles(doc_id@, page as int, bytes@, self@, cut);
        let mut t: usize = 0;
        while t < n
            invariant
                0 < step <= chunk,
                cut == (Cut { chunk: chunk as nat, step: step as nat, rise: rise as nat }),
                buffer_fits(bytes@.len(), cut),
                n == tile_count(bytes@.len(), chunk as nat, step as nat),
                want == buffer_tiles(doc_id@, page as int, bytes@, self@, cut),
                t <= n,
                tiles_view(out@) == before + want.subrange(0, t as int),
            decreases n - t,
        {
            proof {
                lemma_tile_count_bounds(bytes@.len(), cut, t as int);
                assert((t as nat) * (rise as nat) <= u32::MAX) by (nonlinear_arith)
                    requires
                        (n - 1) * (rise as nat) <= u32::MAX,
                        t <= n - 1,
                ;
                if rise > 0 {
                    assert(t <= u32::MAX) by (nonlinear_arith)
                        requires
                            (t as nat) * (rise as nat) <= u32::MAX,
                            rise >= 1,
                    ;
                    assert((t as u32) as nat == t as nat);
                    let tt = (t as u32) as nat;
                    assert(tt * (rise as nat) <= u32::MAX) by (nonlinear_arith)
                        requires
                            tt == t as nat,
                            (t as nat) * (rise as nat) <= u32::MAX,
                    ;
                } else {
                    let tt = (t as u32) as nat;
                    assert(tt * (rise as nat) == 0 && (t as nat) * (rise as nat) == 0) by (nonlinear_arith)
                        requires
                            rise == 0,
                    ;
                }
            }
            let start = t * step;
            let end = if start + chunk < bytes.len() {
                start + chunk
            } else {
                bytes.len()
            };
            let image = copy_range(bytes, start, end);
            let tile = Tile {
                image,
                bounds: TileBounds {
                    x: 0,
                    y: (#[verifier::truncate] (t as u32)) * rise,
                    width: self.spec.tile_width,
                    height: self.spec.tile_height,
                },
                metadata: TileMetadata {
                    doc_id: String::from_str(doc_id),
                    page: #[verifier::truncate] (page as u32),
                    tile_index: #[verifier::truncate] (t as u32),
                },
            };
            proof {
                assert(tile@ == tile_at(doc_id@, page as int, bytes@, self@, cut, t as int));
            }
            let ghost prev = out@;
            out.push(tile);
            proof {
                assert(want.subrange(0, t + 1) == want.subrange(0, t as int).push(want[t as int]));
                assert(tiles_view(out@) =~= tiles_view(prev).push(tile@));
            }
            t = t + 1;
        }
        proof {
            assert(want.subrange(0, n as int) == want);
        }
    }

    /// Split a rendered document into tiles.
    ///
    /// Each page's bytes are read as rows of `tile_width` bytes and grid-split
    /// into tiles of `tile_height` rows (`tile_width * tile_height` bytes; the
    /// last one may be shorter), adjacent tiles sharing `overlap` rows: tile `t`
    /// starts at row `t * (tile_height - overlap)`, which is also its vertical
    /// offset. Every page yields at least one tile, so an empty page gives one
    /// empty tile. Tiles are numbered within their page. An overlap of a whole
    /// tile or more is refused.
    pub fn tile_document(&self, doc_id: &str, pages: &[Vec<u8>]) -> (r: Result<Vec<Tile>, Error>)
        requires
            spec_usable(self@) ==> forall|i: int|
                0 <= i < pages@.len() ==> page_fits(#[trigger] pages@[i]@.len(), self@),
        ensures
            (self@.tile_width == 0 || self@.tile_height == 0) ==> (r matches Err(Error::Tile(m))
                && m@ == "TileSpec width/height must be > 0"@),
            (self@.tile_width > 0 && self@.tile_height > 0 && self@.overlap >= self@.tile_height)
                ==> (r matches Err(Error::Tile(m)) && m@
                == "TileSpec overlap must be smaller than tile_height"@),
            spec_usable(self@) ==> r is Ok && tiles_view(r->Ok_0@) == document_tiles(
                doc_id@,
                pages_view(pages@),
                self@,
            ),
    {
        if self.spec.tile_width == 0 || self.spec.tile_height == 0 {
            return Err(Error::Tile(String::from_str("TileSpec width/height must be > 0")));
        }
        if self.spec.overlap >= self.spec.tile_height {
            return Err(
                Error::Tile(String::from_str("TileSpec overlap must be smaller than tile_height")),
            );
        }
        let rise: u32 = self.spec.tile_height - self.spec.overlap;
        let ghost cut = page_cut(self@);
        proof {
            assert(self@.tile_width * rise > 0 && self@.tile_width * rise <= self@.tile_width
                * self@.tile_height) by (nonlinear_arith)
                requires
                    self@.tile_width > 0,
                    0 < rise <= self@.tile_height,
            ;
            if pages@.len() > 0 {
                assert(page_fits(pages@[0]@.len(), self@));
                assert(cut.chunk <= usize::MAX) by (nonlinear_arith)
                    requires
                        (tile_count(pages@[0]@.len(), cut.chunk, cut.step) - 1) * cut.step
                            + cut.chunk <= usize::MAX,
                        tile_count(pages@[0]@.len(), cut.chunk, cut.step) >= 1,
                ;
            }
        }
        let (chunk, step): (usize, usize) = if pages.len() > 0 {
            (
                (self.spec.tile_width as usize) * (self.spec.tile_height as usize),
                (self.spec.tile_width as usize) * (rise as usize),
            )
        } else {
            (1, 1)
        };
        let mut tiles: Vec<Tile> = Vec::new();
        let mut p: usize = 0;
        while p < pages.len()
            invariant
                spec_usable(self@),
                cut == page_cut(self@),
                rise as nat == cut.rise,
                pages@.len() > 0 ==> chunk as nat == cut.chunk && step as nat == cut.step,
                0 < step <= chunk,
                forall|i: int|
                    0 <= i < pages@.len() ==> page_fits(#[trigger] pages@[i]@.len(), self@),
                p <= pages@.len(),
                tiles_view(tiles@) == document_tiles(
                    doc_id@,
                    pages_view(pages@).subrange(0, p as int),
                    self@,
                ),
            decreases pages@.len() - p,
        {
            proof {
                assert(page_fits(pages@[p as int]@.len(), self@));
                assert(cut == (Cut { chunk: chunk as nat, step: step as nat, rise: rise as nat }));
            }
            self.push_tiles(doc_id, p, &pages[p], chunk, step, rise, &mut tiles);
            proof {
                let pv = pages_view(pages@);
                assert(pv.subrange(0, p + 1).drop_last() == pv.subrange(0, p as int));
                assert(pv.subrange(0, p + 1).last() == pages@[p as int]@);
            }
            p = p + 1;
        }
        proof {
            assert(pages_view(pages@).subrange(0, p as int) == pages_view(pages@));
        }
        Ok(tiles)
    }

    /// Split a plain-text "document" into deterministic tiles: each run of
    /// `chars_per_tile` UTF-8 bytes becomes one tile (page 0) whose image is
    /// those bytes, stacked `tile_height` pixels apart; an empty text gives one
    /// empty tile.
    pub fn tile_text(&self, doc_id: &str, text: &str, chars_per_tile: usize) -> (r: Result<
        Vec<Tile>,
        Error,
    >)
        requires
            chars_per_tile > 0 ==> buffer_fits(
                text.spec_bytes().len(),
                text_cut(self@, chars_per_tile as nat),
            ),
        ensures
            chars_per_tile == 0 ==> (r matches Err(Error::Tile(m)) && m@
                == "chars_per_tile must be > 0"@),
            chars_per_tile > 0 ==> r is Ok && tiles_view(r->Ok_0@) == buffer_tiles(
                doc_id@,
                0,
                text.spec_bytes(),
                self@,
                text_cut(self@, chars_per_tile as nat),
            ),
    {
        if chars_per_tile == 0 {
            return Err(Error::Tile(String::from_str("chars_per_tile must be > 0")));
        }
        let bytes = text.as_bytes();
        let mut tiles: Vec<Tile> = Vec::new();
        self.push_tiles(
            doc_id,
            0,
            bytes,
            chars_per_tile,
            chars_per_tile,
            self.spec.tile_height,
            &mut tiles,
        );
        Ok(tiles)
    }
}

} // verus!

verus! {

/// The images of a sequence of tiles joined end to end, dropping the first
/// `shared` bytes of every tile after the first (the bytes it shares with the
/// tile before it).
pub open spec fn joined_images(ts: Seq<TileView>, shared: nat) -> Seq<u8>
    decreases ts.len(),
{
    if ts.len() == 0 {
        Seq::empty()
    } else if ts.len() == 1 {
        ts[0].image
    } else {
        joined_images(ts.drop_last(), shared) + ts.last().image.skip(shared as int)
    }
}

#[verifier::spinoff_prover]
proof fn lemma_joined_prefix(
    doc_id: Seq<char>,
    page: int,
    bytes: Seq<u8>,
    spec: TileSpec,
    cut: Cut,
    j: int,
)
    requires
        cut_ok(cut),
        1 <= j <= tile_count(bytes.len(), cut.chunk, cut.step),
    ensures
        joined_images(
            buffer_tiles(doc_id, page, bytes, spec, cut).subrange(0, j),
            (cut.chunk - cut.step) as nat,
        ) == bytes.subrange(0, min_int((j - 1) * cut.step + cut.chunk, bytes.len() as int)),
    decreases j,
{
    let ts = buffer_tiles(doc_id, page, bytes, spec, cut);
    let shared = (cut.chunk - cut.step) as nat;
    if j == 1 {
        assert(0 * cut.step == 0) by (nonlinear_arith);
        assert(ts.subrange(0, 1)[0] == ts[0]);
    } else {
        lemma_joined_prefix(doc_id, page, bytes, spec, cut, j - 1);
        lemma_tile_count_bounds(bytes.len(), cut, j - 2);
        lemma_tile_count_bounds(bytes.len(), cut, j - 1);
        assert(ts.subrange(0, j).drop_last() == ts.subrange(0, j - 1));
        assert(ts.subrange(0, j).last() == ts[j - 1]);
        let a = (j - 2) * cut.step + cut.chunk;
        let b = (j - 1) * cut.step;
        assert(b == (j - 2) * cut.step + cut.step) by (nonlinear_arith)
            requires
                b == (j - 1) * cut.step,
        ;
        let e = min_int(b + cut.chunk, bytes.len() as int);
        assert(ts[j - 1] == tile_at(doc_id, page, bytes, spec, cut, j - 1));
        assert(ts[j - 1].image == window(bytes, cut, j - 1));
        assert(bytes.subrange(b, e).skip(shared as int) =~= bytes.subrange(a, e));
        assert(bytes.subrange(0, a) + bytes.subrange(a, e) =~= bytes.subrange(0, e));
    }
}

/// Tiling loses nothing: the first tile's image, followed by the part of each
/// later tile past the bytes it shares with the tile before it, is exactly the
/// buffer.
pub proof fn law_tiles_rejoin_to_buffer(
    doc_id: Seq<char>,
    page: int,
    bytes: Seq<u8>,
    spec: TileSpec,
    cut: Cut,
)
    requires
        cut_ok(cut),
    ensures
        joined_images(buffer_tiles(doc_id, page, bytes, spec, cut), (cut.chunk - cut.step) as nat)
            == bytes,
{
    let n = tile_count(bytes.len(), cut.chunk, cut.step);
    lemma_joined_prefix(doc_id, page, bytes, spec, cut, n as int);
    lemma_tile_count_bounds(bytes.len(), cut, n - 1);
    let ts = buffer_tiles(doc_id, page, bytes, spec, cut);
    assert(ts.subrange(0, n as int) == ts);
    assert(bytes.subrange(0, bytes.len() as int) == bytes);
}

/// Every buffer yields at least one tile, each no longer than the window, and
/// only the last may be shorter than the window.
pub proof fn law_tile_shape(doc_id: Seq<char>, page: int, bytes: Seq<u8>, spec: TileSpec, cut: Cut)
    requires
        cut_ok(cut),
    ensures
        buffer_tiles(doc_id, page, bytes, spec, cut).len() >= 1,
        forall|t: int|
            0 <= t < buffer_tiles(doc_id, page, bytes, spec, cut).len() ==> (
            #[trigger] buffer_tiles(doc_id, page, bytes, spec, cut)[t]).image.len() <= cut.chunk,
        forall|t: int|
            0 <= t < buffer_tiles(doc_id, page, bytes, spec, cut).len() - 1 ==> (
            #[trigger] buffer_tiles(doc_id, page, bytes, spec, cut)[t]).image.len() == cut.chunk,
{
    let ts = buffer_tiles(doc_id, page, bytes, spec, cut);
    assert forall|t: int| 0 <= t < ts.len() implies (#[trigger] ts[t]).image.len() <= cut.chunk by {
        lemma_tile_count_bounds(bytes.len(), cut, t);
    }
    assert forall|t: int| 0 <= t < ts.len() - 1 implies (#[trigger] ts[t]).image.len()
        == cut.chunk by {
        lemma_tile_count_bounds(bytes.len(), cut, t);
    }
}

/// Adjacent tiles overlap: the next tile starts `rise` pixels lower, and its
/// first `chunk - step` bytes are the last `chunk - step` bytes of the tile
/// before it.
pub proof fn law_adjacent_tiles(
    doc_id: Seq<char>,
    page: int,
    bytes: Seq<u8>,
    spec: TileSpec,
    cut: Cut,
    t: int,
)
    requires
        cut_ok(cut),
        buffer_fits(bytes.len(), cut),
        0 <= t,
        t + 1 < buffer_tiles(doc_id, page, bytes, spec, cut).len(),
    ensures
        buffer_tiles(doc_id, page, bytes, spec, cut)[t + 1].bounds.y == buffer_tiles(
            doc_id,
            page,
            bytes,
            spec,
            cut,
        )[t].bounds.y + cut.rise,
        buffer_tiles(doc_id, page, bytes, spec, cut)[t + 1].image.take(
            (cut.chunk - cut.step) as int,
        ) == buffer_tiles(doc_id, page, bytes, spec, cut)[t].image.skip(cut.step as int),
{
    let ts = buffer_tiles(doc_id, page, bytes, spec, cut);
    let n = tile_count(bytes.len(), cut.chunk, cut.step);
    lemma_tile_count_bounds(bytes.len(), cut, t);
    lemma_tile_count_bounds(bytes.len(), cut, t + 1);
    let s = cut.step as int;
    assert((t + 1) * s == t * s + s) by (nonlinear_arith);
    assert((t + 1) * cut.rise == t * cut.rise + cut.rise && (t + 1) * cut.rise <= (n - 1)
        * cut.rise) by (nonlinear_arith)
        requires
            t + 1 <= n - 1,
    ;
    assert(ts[t].image == bytes.subrange(t * s, t * s + cut.chunk));
    assert(ts[t + 1].image.take((cut.chunk - cut.step) as int) =~= bytes.subrange(
        t * s + s,
        t * s + cut.chunk,
    ));
    assert(ts[t].image.skip(s) =~= bytes.subrange(t * s + s, t * s + cut.chunk));
}

/// Adjacent tiles of a page share `overlap` rows: the next tile sits
/// `tile_height - overlap` pixels lower, and its first `overlap` rows
/// (`overlap * tile_width` bytes) are the last `overlap` rows of the tile
/// before it.
pub proof fn law_adjacent_page_tiles_overlap(
    doc_id: Seq<char>,
    page: int,
    bytes: Seq<u8>,
    spec: TileSpec,
    t: int,
)
    requires
        spec_usable(spec),
        page_fits(bytes.len(), spec),
        0 <= t,
        t + 1 < page_tiles(doc_id, page, bytes, spec).len(),
    ensures
        page_tiles(doc_id, page, bytes, spec)[t + 1].bounds.y == page_tiles(
            doc_id,
            page,
            bytes,
            spec,
        )[t].bounds.y + spec.tile_height - spec.overlap,
        page_tiles(doc_id, page, bytes, spec)[t + 1].image.take(
            (spec.overlap * spec.tile_width) as int,
        ) == page_tiles(doc_id, page, bytes, spec)[t].image.skip(
            ((spec.tile_height - spec.overlap) * spec.tile_width) as int,
        ),
{
    let cut = page_cut(spec);
    let w = spec.tile_width as int;
    let h = spec.tile_height as int;
    let o = spec.overlap as int;
    assert(w * (h - o) > 0 && w * (h - o) <= w * h && w * h - w * (h - o) == o * w && w * (h - o)
        == (h - o) * w) by (nonlinear_arith)
        requires
            w > 0,
            0 <= o < h,
    ;
    law_adjacent_tiles(doc_id, page, bytes, spec, cut, t);
}

proof fn lemma_offset_fits(len: nat, cut: Cut, t: int)
    requires
        cut_ok(cut),
        buffer_fits(len, cut),
        0 <= t < tile_count(len, cut.chunk, cut.step),
    ensures
        (t * cut.rise) as u32 == t * cut.rise,
{
    let n = tile_count(len, cut.chunk, cut.step);
    assert(0 <= t * cut.rise <= (n - 1) * cut.rise) by (nonlinear_arith)
        requires
            0 <= t <= n - 1,
    ;
}

/// Tiling a text: it yields `ceil(len / chars_per_tile)` tiles (one for an
/// empty text); tile `t` holds bytes `t * chars_per_tile` up to
/// `(t + 1) * chars_per_tile` (or the end), sits at `x = 0`,
/// `y = t * tile_height` with the spec's width and height, and is tile `t`
/// (as a `u32`) of page 0.
pub proof fn law_text_tiles(doc_id: Seq<char>, bytes: Seq<u8>, spec: TileSpec, chars_per_tile: nat)
    requires
        chars_per_tile > 0,
        buffer_fits(bytes.len(), text_cut(spec, chars_per_tile)),
    ensures
        ({
            let ts = buffer_tiles(doc_id, 0, bytes, spec, text_cut(spec, chars_per_tile));
            &&& ts.len() == if bytes.len() == 0 {
                1
            } else {
                (bytes.len() + chars_per_tile - 1) / chars_per_tile as int
            }
            &&& forall|t: int|
                0 <= t < ts.len() ==> {
                    &&& (#[trigger] ts[t]).bounds.y == t * spec.tile_height
                    &&& ts[t].bounds.x == 0
                    &&& ts[t].bounds.width == spec.tile_width
                    &&& ts[t].bounds.height == spec.tile_height
                    &&& ts[t].image == bytes.subrange(
                        t * chars_per_tile,
                        min_int((t + 1) * chars_per_tile, bytes.len() as int),
                    )
                    &&& ts[t].metadata.page == 0
                    &&& ts[t].metadata.tile_index == t as u32
                    &&& ts[t].metadata.doc_id == doc_id
                }
        }),
{
    let cut = text_cut(spec, chars_per_tile);
    let ts = buffer_tiles(doc_id, 0, bytes, spec, cut);
    let c = chars_per_tile as int;
    let len = bytes.len() as int;
    if len > c {
        assert((len - c + c - 1) / c + 1 == (len + c - 1) / c) by (nonlinear_arith)
            requires
                c > 0,
                len > c,
        ;
    } else if len > 0 {
        assert((len + c - 1) / c == 1) by (nonlinear_arith)
            requires
                c > 0,
                0 < len <= c,
        ;
    }
    assert forall|t: int| 0 <= t < ts.len() implies {
        &&& (#[trigger] ts[t]).bounds.y == t * spec.tile_height
        &&& ts[t].bounds.x == 0
        &&& ts[t].bounds.width == spec.tile_width
        &&& ts[t].bounds.height == spec.tile_height
        &&& ts[t].image == bytes.subrange(t * c, min_int((t + 1) * c, len))
        &&& ts[t].metadata.page == 0
        &&& ts[t].metadata.tile_index == t as u32
        &&& ts[t].metadata.doc_id == doc_id
    } by {
        lemma_offset_fits(bytes.len(), cut, t);
        lemma_tile_count_bounds(bytes.len(), cut, t);
        assert((t + 1) * c == t * c + c) by (nonlinear_arith);
    }
}

/// Tiling a page: tile `t` holds the `tile_height` rows of `tile_width` bytes
/// starting at row `t * (tile_height - overlap)` (cut short at the end of the
/// page), sits at `x = 0`, `y = t * (tile_height - overlap)` with the spec's
/// width and height, and is tile `t` of its page.
pub proof fn law_page_tiles_grid(doc_id: Seq<char>, page: int, bytes: Seq<u8>, spec: TileSpec)
    requires
        spec_usable(spec),
        page_fits(bytes.len(), spec),
    ensures
        forall|t: int|
            0 <= t < page_tiles(doc_id, page, bytes, spec).len() ==> {
                &&& (#[trigger] page_tiles(doc_id, page, bytes, spec)[t]).bounds.y == t * (
                spec.tile_height - spec.overlap)
                &&& page_tiles(doc_id, page, bytes, spec)[t].bounds.x == 0
                &&& page_tiles(doc_id, page, bytes, spec)[t].bounds.width == spec.tile_width
                &&& page_tiles(doc_id, page, bytes, spec)[t].bounds.height == spec.tile_height
                &&& page_tiles(doc_id, page, bytes, spec)[t].image == bytes.subrange(
                    t * (spec.tile_height - spec.overlap) * spec.tile_width,
                    min_int(
                        t * (spec.tile_height - spec.overlap) * spec.tile_width + spec.tile_width
                            * spec.tile_height,
                        bytes.len() as int,
                    ),
                )
                &&& page_tiles(doc_id, page, bytes, spec)[t].metadata.tile_index == t
            },
{
    let cut = page_cut(spec);
    let ts = page_tiles(doc_id, page, bytes, spec);
    let w = spec.tile_width as int;
    let h = spec.tile_height as int;
    let o = spec.overlap as int;
    assert(w * (h - o) > 0 && w * (h - o) <= w * h) by (nonlinear_arith)
        requires
            w > 0,
            0 <= o < h,
    ;
    assert forall|t: int| 0 <= t < ts.len() implies {
        &&& (#[trigger] ts[t]).bounds.y == t * (h - o)
        &&& ts[t].bounds.x == 0
        &&& ts[t].bounds.width == spec.tile_width
        &&& ts[t].bounds.height == spec.tile_height
        &&& ts[t].image == bytes.subrange(
            t * (h - o) * w,
            min_int(t * (h - o) * w + w * h, bytes.len() as int),
        )
        &&& ts[t].metadata.tile_index == t
    } by {
        lemma_offset_fits(bytes.len(), cut, t);
        lemma_tile_count_bounds(bytes.len(), cut, t);
        assert(t * (h - o) * w == t * (w * (h - o))) by (nonlinear_arith);
        assert(t <= u32::MAX) by (nonlinear_arith)
            requires
                t * (h - o) <= u32::MAX,
                h - o >= 1,
                t >= 0,
        ;
    }
}

} // verus!
