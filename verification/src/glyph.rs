//! Glyph rasterization on top of the `rusttype` font engine.
//!
//! A [`Rasterizer`] owns a parsed font at a fixed pixel size. Rasterizing
//! a character yields a cell-local coverage bitmap (one byte per pixel,
//! 0 to 255) plus the placement offset of that bitmap relative to the pen
//! position on the baseline. Rasterization is a pure function of the font
//! bytes, the pixel size and the character; the uninterpreted functions
//! below name those results so that contracts can speak of them.
//!
//! The constructor validates, through `ttf-parser`, everything the later
//! rusttype calls would otherwise abort on: the font must parse, its
//! vertical extent must be positive (rusttype scales by its inverse),
//! and the probe glyph must stay below the glyph count and carry
//! horizontal metrics. Characters whose mapped glyph identifier falls at
//! or beyond the glyph count — possible in a malformed character table —
//! are treated as undrawable instead of being handed to rusttype.

use owned_ttf_parser::AsFaceRef;
use vstd::prelude::*;

verus! {

/// The largest pixel size a rasterizer accepts. Together with the
/// positive vertical extent this keeps rusttype's scaled glyph
/// coordinates far from the integer range where its rasterizer's
/// bounding-box arithmetic could overflow.
pub const MAX_GLYPH_SIZE_PX: u32 = 4096;

/// rusttype's font handle, declared so that a parsed font can live in a
/// field. Verus sees nothing inside a value of it.
#[verifier::external_type_specification]
#[verifier::external_body]
pub struct ExFont<'a>(rusttype::Font<'a>);

/// ttf-parser's owning font face, declared so that a parsed face can
/// live in a field beside the rusttype font it validates for.
#[verifier::external_type_specification]
#[verifier::external_body]
pub struct ExOwnedFace(owned_ttf_parser::OwnedFace);

/// A rasterized glyph: coverage bytes, row-major in a cell `cell_w`
/// columns wide, and the placement offset of the cell relative to the
/// pen position on the baseline.
#[derive(Clone)]
pub struct GlyphBitmap {
    /// Coverage, one byte per pixel, row-major with rows `cell_w` wide.
    pub data: Vec<u8>,
    /// Horizontal offset of the bitmap's left edge from the pen position.
    pub off_x: i32,
    /// Vertical offset of the bitmap's top edge from the baseline.
    pub off_y: i32,
}

/// Whether the bytes are a font the rasterizer accepts: they parse, the
/// vertical extent is positive, and the probe glyph is in range with
/// horizontal metrics. A pure function of the bytes alone.
pub uninterp spec fn font_ok(data: Seq<u8>) -> bool;

/// The font's metrics at a pixel size, in 1/256-pixel fixed point:
/// the advance width of the probe glyph, then ascent, descent and line
/// gap. A pure function of the font bytes and the size.
pub uninterp spec fn font_metrics_q8_of(font: Seq<u8>, size_px: u32) -> (u32, i32, i32, i32);

/// What drawing a character's coverage over a cell-local buffer leaves
/// behind, together with the glyph's placement offset: a pure function
/// of the font bytes, the pixel size, the character, the cell width and
/// the buffer drawn over.
pub uninterp spec fn glyph_draw_of(
    font: Seq<u8>,
    size_px: u32,
    ch: char,
    cell_w: nat,
    base: Seq<u8>,
) -> (Seq<u8>, int, int);

/// Writes one coverage byte at cell-local position (`x`, `y`) into a
/// row-major bitmap with rows `cell_w` wide; positions outside the
/// buffer, or beyond the cell width, are ignored.
pub(crate) fn plot(buf: &mut Vec<u8>, cell_w: usize, x: usize, y: usize, v: u8)
    ensures
        ({
            let pos = y as int * cell_w as int + x as int;
            if x < cell_w && pos < old(buf)@.len() {
                final(buf)@ == old(buf)@.update(pos, v)
            } else {
                final(buf)@ == old(buf)@
            }
        }),
{
    let n = buf.len();
    if x < cell_w {
        if let Some(row) = y.checked_mul(cell_w) {
            if let Some(pos) = row.checked_add(x) {
                if pos < n {
                    buf[pos] = v;
                }
            }
        }
    }
}

/// Relies on ttf-parser: parses the bytes and refuses fonts on which
/// the rusttype calls made later could abort — a non-positive vertical
/// extent (rusttype divides the pixel size by it), a probe glyph
/// identifier at or beyond the glyph count (rusttype asserts it is
/// below), or missing horizontal metrics for the probe glyph (rusttype
/// unwraps them). The parsed face is returned for later per-character
/// identifier checks.
#[verifier::external_body]
fn probe_face(data: &Vec<u8>) -> Option<owned_ttf_parser::OwnedFace> {
    let face = owned_ttf_parser::OwnedFace::from_vec(data.clone(), 0).ok()?;
    let fr = face.as_face_ref();
    if fr.ascender() <= fr.descender() {
        return None;
    }
    let gid = fr.glyph_index('a').unwrap_or(owned_ttf_parser::GlyphId(0));
    if gid.0 >= fr.number_of_glyphs() {
        return None;
    }
    fr.glyph_hor_advance(gid)?;
    fr.glyph_hor_side_bearing(gid)?;
    Some(face)
}

/// Relies on ttf-parser's `glyph_index` and `number_of_glyphs`: the
/// character's glyph identifier, resolved exactly as rusttype resolves
/// it (the undefined-character glyph when unmapped), or nothing when a
/// malformed character table maps the character at or beyond the glyph
/// count — an identifier rusttype's range assertion would abort on.
#[verifier::external_body]
fn checked_glyph_id(face: &owned_ttf_parser::OwnedFace, ch: char) -> Option<u16> {
    let fr = face.as_face_ref();
    let gid = fr.glyph_index(ch).unwrap_or(owned_ttf_parser::GlyphId(0));
    if gid.0 >= fr.number_of_glyphs() {
        None
    } else {
        Some(gid.0)
    }
}

/// A font fixed at one pixel size, ready to rasterize single characters.
pub struct Rasterizer {
    bytes: Vec<u8>,
    px: u32,
    adv_q8: u32,
    asc_q8: i32,
    desc_q8: i32,
    gap_q8: i32,
    face: owned_ttf_parser::OwnedFace,
    font: rusttype::Font<'static>,
}

impl Rasterizer {
    /// The bytes the font was parsed from.
    pub closed spec fn font_bytes(&self) -> Seq<u8> {
        self.bytes@
    }

    /// The fixed pixel size.
    pub closed spec fn size(&self) -> u32 {
        self.px
    }

    /// The stored fixed-point metrics: advance, ascent, descent, line gap.
    pub closed spec fn metrics_view(&self) -> (u32, i32, i32, i32) {
        (self.adv_q8, self.asc_q8, self.desc_q8, self.gap_q8)
    }

    /// The fixed-point metrics: advance, ascent, descent, line gap.
    pub fn metrics_q8(&self) -> (m: (u32, i32, i32, i32))
        ensures
            m == self.metrics_view(),
    {
        (self.adv_q8, self.asc_q8, self.desc_q8, self.gap_q8)
    }

    /// The fixed pixel size.
    pub fn size_px(&self) -> (s: u32)
        ensures
            s == self.size(),
    {
        self.px
    }

    /// Relies on rusttype's `Font::try_from_vec`, `glyph`, `scaled`,
    /// `h_metrics` and `v_metrics`: parsing and the scaled metrics are
    /// deterministic in the font bytes and the size, so acceptance is
    /// named `font_ok` and the metrics `font_metrics_q8_of`. The float
    /// metrics are converted to 1/256-pixel fixed point. `probe_face`
    /// refuses up front every font on which these calls could abort,
    /// and the pixel size is bounded to keep the scaled coordinates
    /// small; the probe glyph's identifier was checked against the
    /// glyph count, so `glyph('a')` cannot trip rusttype's range
    /// assertion.
    #[verifier::external_body]
    pub fn try_new(data: Vec<u8>, size_px: u32) -> (r: Option<Rasterizer>)
        ensures
            r is Some <==> (font_ok(data@) && size_px <= MAX_GLYPH_SIZE_PX),
            r matches Some(rz) ==> rz.font_bytes() == data@ && rz.size() == size_px
                && rz.metrics_view() == font_metrics_q8_of(data@, size_px),
    {
        if size_px > MAX_GLYPH_SIZE_PX {
            return None;
        }
        let face = probe_face(&data)?;
        let font = rusttype::Font::try_from_vec(data.clone())?;
        let scale = rusttype::Scale::uniform(size_px as _);
        let hm = font.glyph('a').scaled(scale).h_metrics();
        let vm = font.v_metrics(scale);
        let adv_q8 = hm.advance_width.mul_add(256u16.into(), Default::default()) as u32;
        let asc_q8 = vm.ascent.mul_add(256u16.into(), Default::default()) as i32;
        let desc_q8 = vm.descent.mul_add(256u16.into(), Default::default()) as i32;
        let gap_q8 = vm.line_gap.mul_add(256u16.into(), Default::default()) as i32;
        Some(Rasterizer { bytes: data, px: size_px, adv_q8, asc_q8, desc_q8, gap_q8, face, font })
    }

    /// Relies on rusttype's `glyph`, `scaled`, `positioned`,
    /// `pixel_bounding_box` and `PositionedGlyph::draw`: for a glyph
    /// positioned at the pen origin, `draw` reports the coverage of each
    /// bounding-box pixel, and coverage and box depend on the font bytes,
    /// the size and the character alone. The character's glyph identifier
    /// is resolved through the stored ttf-parser face exactly as rusttype
    /// would resolve it, and checked against the glyph count first: a
    /// malformed mapping is treated as an undrawable glyph (buffer
    /// untouched, offset zero) rather than handed to rusttype's range
    /// assertion — still a function of the bytes and the character alone.
    /// Every reported pixel goes through the verified `plot`, so the
    /// buffer keeps its length. A glyph without ink (whitespace) reports
    /// nothing and has no bounding box.
    #[verifier::external_body]
    pub fn draw_glyph_into(&self, ch: char, cell_w: usize, buf: &mut Vec<u8>) -> (off: (i32, i32))
        ensures
            ({
                let (cov, ox, oy) = glyph_draw_of(
                    self.font_bytes(),
                    self.size(),
                    ch,
                    cell_w as nat,
                    old(buf)@,
                );
                final(buf)@ == cov && off.0 as int == ox && off.1 as int == oy
            }),
            final(buf)@.len() == old(buf)@.len(),
    {
        let gid = match checked_glyph_id(&self.face, ch) {
            Some(g) => g,
            None => return (0, 0),
        };
        let scale = rusttype::Scale::uniform(self.px as _);
        let origin = rusttype::Point { x: Default::default(), y: Default::default() };
        let glyph = self.font.glyph(rusttype::GlyphId(gid)).scaled(scale).positioned(origin);
        if let Some(bb) = glyph.pixel_bounding_box() {
            glyph.draw(|gx, gy, gv| {
                plot(buf, cell_w, gx as usize, gy as usize, gv.mul_add(u8::MAX.into(), Default::default()) as u8);
            });
            (bb.min.x, bb.min.y)
        } else {
            (0, 0)
        }
    }
}

} // verus!
