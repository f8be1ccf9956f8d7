//! End-to-end behaviour of the console over a real font: a tiny
//! TrueType face with one square glyph is assembled byte by byte, so
//! rasterization, caching, wrapping and painting all run for real.
//!
//! The face: 1000 units per em, ascender 800, descender -200, no line
//! gap; every printable ASCII character maps to one glyph, a filled
//! square from (100, 0) to (400, 700), with an advance of 500 units.

use rs_console::cache::GlyphCache;
use rs_console::console::Console;
use rs_console::glyph::Rasterizer;
use rs_console::surface::Surface;

fn be16(out: &mut Vec<u8>, v: u16) {
    out.extend_from_slice(&v.to_be_bytes());
}

fn bei16(out: &mut Vec<u8>, v: i16) {
    out.extend_from_slice(&v.to_be_bytes());
}

fn be32(out: &mut Vec<u8>, v: u32) {
    out.extend_from_slice(&v.to_be_bytes());
}

fn head_table() -> Vec<u8> {
    let mut t = Vec::new();
    be32(&mut t, 0x0001_0000); // version
    be32(&mut t, 0); // revision
    be32(&mut t, 0); // checksum adjustment
    be32(&mut t, 0x5F0F_3CF5); // magic
    be16(&mut t, 0); // flags
    be16(&mut t, 1000); // units per em
    t.extend_from_slice(&[0u8; 16]); // created + modified
    bei16(&mut t, 0); // x min
    bei16(&mut t, 0); // y min
    bei16(&mut t, 500); // x max
    bei16(&mut t, 700); // y max
    be16(&mut t, 0); // mac style
    be16(&mut t, 8); // lowest recommended ppem
    bei16(&mut t, 2); // direction hint
    be16(&mut t, 0); // index-to-location format: short
    bei16(&mut t, 0); // glyph data format
    assert_eq!(t.len(), 54);
    t
}

fn hhea_table() -> Vec<u8> {
    let mut t = Vec::new();
    be32(&mut t, 0x0001_0000); // version
    bei16(&mut t, 800); // ascender
    bei16(&mut t, -200); // descender
    bei16(&mut t, 0); // line gap
    be16(&mut t, 500); // max advance
    bei16(&mut t, 0); // min left side bearing
    bei16(&mut t, 0); // min right side bearing
    bei16(&mut t, 500); // max extent
    bei16(&mut t, 1); // caret slope rise
    bei16(&mut t, 0); // caret slope run
    bei16(&mut t, 0); // caret offset
    t.extend_from_slice(&[0u8; 8]); // reserved
    bei16(&mut t, 0); // metric data format
    be16(&mut t, 2); // number of horizontal metrics
    assert_eq!(t.len(), 36);
    t
}

fn maxp_table() -> Vec<u8> {
    let mut t = Vec::new();
    be32(&mut t, 0x0000_5000); // version 0.5
    be16(&mut t, 2); // number of glyphs
    t
}

fn cmap_table() -> Vec<u8> {
    let mut t = Vec::new();
    be16(&mut t, 0); // table version
    be16(&mut t, 1); // one encoding record
    be16(&mut t, 0); // platform: unicode
    be16(&mut t, 3); // encoding
    be32(&mut t, 12); // subtable offset
    be16(&mut t, 0); // format 0
    be16(&mut t, 262); // subtable length
    be16(&mut t, 0); // language
    let mut ids = [0u8; 256];
    let mut c = 0x21;
    while c < 0x7f {
        ids[c] = 1;
        c += 1;
    }
    t.extend_from_slice(&ids);
    t
}

fn hmtx_table() -> Vec<u8> {
    let mut t = Vec::new();
    be16(&mut t, 500); // advance of the empty glyph
    bei16(&mut t, 0);
    be16(&mut t, 500); // advance of the square
    bei16(&mut t, 100);
    t
}

fn glyf_table() -> Vec<u8> {
    let mut t = Vec::new();
    bei16(&mut t, 1); // one contour
    bei16(&mut t, 100); // x min
    bei16(&mut t, 0); // y min
    bei16(&mut t, 400); // x max
    bei16(&mut t, 700); // y max
    be16(&mut t, 3); // last point of the contour
    be16(&mut t, 0); // no instructions
    t.extend_from_slice(&[0x01, 0x01, 0x01, 0x01]); // four on-curve points
    bei16(&mut t, 100); // x deltas
    bei16(&mut t, 300);
    bei16(&mut t, 0);
    bei16(&mut t, -300);
    bei16(&mut t, 0); // y deltas
    bei16(&mut t, 0);
    bei16(&mut t, 700);
    bei16(&mut t, 0);
    assert_eq!(t.len(), 34);
    t
}

fn loca_table(glyf_len: u16) -> Vec<u8> {
    let mut t = Vec::new();
    be16(&mut t, 0); // empty glyph starts at 0
    be16(&mut t, 0); // and ends at 0; the square starts at 0
    be16(&mut t, glyf_len / 2); // and ends at the table's end
    t
}

fn build_font() -> Vec<u8> {
    let glyf = glyf_table();
    let tables: Vec<([u8; 4], Vec<u8>)> = vec![
        (*b"cmap", cmap_table()),
        (*b"glyf", glyf.clone()),
        (*b"head", head_table()),
        (*b"hhea", hhea_table()),
        (*b"hmtx", hmtx_table()),
        (*b"loca", loca_table(glyf.len() as u16)),
        (*b"maxp", maxp_table()),
    ];
    let mut font = Vec::new();
    be32(&mut font, 0x0001_0000); // TrueType magic
    be16(&mut font, tables.len() as u16);
    be16(&mut font, 0); // search range, unused by the parser
    be16(&mut font, 0); // entry selector
    be16(&mut font, 0); // range shift
    let mut offset = 12 + 16 * tables.len();
    let mut body = Vec::new();
    for (tag, data) in &tables {
        font.extend_from_slice(tag);
        be32(&mut font, 0); // checksum, not validated
        be32(&mut font, offset as u32);
        be32(&mut font, data.len() as u32);
        body.extend_from_slice(data);
        while (body.len() + 12 + 16 * tables.len()) % 4 != 0 {
            body.push(0);
        }
        offset = 12 + 16 * tables.len() + body.len();
    }
    font.extend_from_slice(&body);
    font
}

fn rasterizer() -> Rasterizer {
    Rasterizer::try_new(build_font(), 20).expect("the built face should parse")
}

fn console() -> Console {
    Console::new(rasterizer(), 1280, 720, 64).expect("construction should succeed")
}

fn surface() -> Surface {
    Surface::new(1280, 720, 4 * 1280).expect("surface allocation should succeed")
}

#[test]
fn garbage_bytes_give_no_rasterizer() {
    assert!(Rasterizer::try_new(vec![1, 2, 3, 4, 5], 20).is_none());
}

#[test]
fn the_built_face_parses_with_plausible_metrics() {
    let r = rasterizer();
    let (adv, asc, desc, gap) = r.metrics_q8();
    assert!(adv >= 2550 && adv <= 2570, "advance {}", adv);
    assert!(asc >= 4080 && asc <= 4100, "ascent {}", asc);
    assert!(desc <= -1010 && desc >= -1030, "descent {}", desc);
    assert_eq!(gap, 0);
}

#[test]
fn cached_bitmap_equals_direct_rasterization() {
    let r = rasterizer();
    let (adv, _, _, _) = r.metrics_q8();
    let cell_w = ((adv as usize) + 255) / 256;
    let cell_h = 20;
    let mut warm = GlyphCache::new(8);
    let first = warm.get_or_rasterize(&r, 'a', cell_w, cell_h);
    let second = warm.get_or_rasterize(&r, 'a', cell_w, cell_h);
    let mut cold = GlyphCache::new(8);
    let direct = cold.get_or_rasterize(&r, 'a', cell_w, cell_h);
    assert_eq!(first.data, second.data);
    assert_eq!(first.data, direct.data);
    assert_eq!(first.off_x, direct.off_x);
    assert_eq!(first.off_y, direct.off_y);
    assert!(first.data.iter().any(|b| *b != 0), "the square should have ink");
}

#[test]
fn scenario_exact_width_line_does_not_wrap() {
    let mut con = console();
    let m = con.max_columns();
    assert!(m >= 2, "columns {}", m);
    let mut text = String::new();
    let mut i = 0;
    while i < m {
        text.push('x');
        i += 1;
    }
    con.append(&text);
    assert_eq!(con.occupied_lines(), 1);
    assert_eq!(con.line_at(0).len(), m);
}

#[test]
fn scenario_one_over_width_wraps_into_two_lines() {
    let mut con = console();
    let m = con.max_columns();
    let mut text = String::new();
    let mut i = 0;
    while i < m + 1 {
        text.push('x');
        i += 1;
    }
    con.append(&text);
    assert_eq!(con.occupied_lines(), 2);
    assert_eq!(con.line_at(0).len(), m);
    assert_eq!(con.line_at(1).len(), 1);
}

#[test]
fn scenario_overflow_evicts_the_first_line_and_forces_full_redraw() {
    let mut con = console();
    let n = con.line_count();
    let mut text = String::new();
    let mut i = 0;
    while i <= n {
        if i > 0 {
            text.push('\n');
        }
        text.push(if i == 0 { 'f' } else { 'x' });
        i += 1;
    }
    con.append(&text);
    assert_eq!(con.occupied_lines(), n);
    assert_eq!(con.line_at(0), &vec!['x']);
    assert!(con.is_full_redraw());
    let mut surf = surface();
    con.draw(&mut surf);
    assert!(!con.is_full_redraw());
    assert_eq!(con.dirty_slot_count(), 0);
}

#[test]
fn scenario_blank_line_between_two_line_feeds() {
    let mut con = console();
    con.append("a\n\nb");
    assert_eq!(con.occupied_lines(), 3);
    assert_eq!(con.line_at(0), &vec!['a']);
    assert_eq!(con.line_at(1), &Vec::<char>::new());
    assert_eq!(con.line_at(2), &vec!['b']);
}

#[test]
fn append_without_eviction_records_only_the_new_slots() {
    let mut con = console();
    con.append("one\ntwo");
    assert!(!con.is_full_redraw());
    assert_eq!(con.dirty_slot_count(), 2);
    assert_eq!(con.dirty_slot_at(0), 0);
    assert_eq!(con.dirty_slot_at(1), 1);
    con.append("three");
    assert_eq!(con.dirty_slot_count(), 3);
    assert_eq!(con.dirty_slot_at(2), 2);
}

#[test]
fn paint_writes_opaque_gray_pixels_for_a_glyph() {
    let mut con = console();
    let mut surf = surface();
    con.append("a");
    con.draw(&mut surf);
    let bytes = surf.to_bytes();
    let stride = 4 * 1280;
    // The square covers columns 2..8 of the cell and the rows just
    // above the baseline; probe a pixel well inside it.
    let x = 4;
    let y = 8;
    let base = y * stride + 4 * x;
    assert_eq!(bytes[base], 255);
    assert_eq!(bytes[base + 1], 255);
    assert_eq!(bytes[base + 2], 255);
    assert_eq!(bytes[base + 3], 255);
    // Far away from the glyph nothing is painted.
    let far = 300 * stride + 4 * 600;
    assert_eq!(bytes[far], 0);
    assert_eq!(bytes[far + 3], 0);
}

#[test]
fn paint_with_nothing_appended_is_a_no_op() {
    let mut con = console();
    let mut surf = surface();
    con.append("hello");
    con.draw(&mut surf);
    let before = surf.to_bytes();
    con.draw(&mut surf);
    let after = surf.to_bytes();
    assert_eq!(before, after);
}

#[test]
fn whitespace_has_no_ink() {
    let r = rasterizer();
    let (adv, _, _, _) = r.metrics_q8();
    let cell_w = ((adv as usize) + 255) / 256;
    let mut cache = GlyphCache::new(4);
    let bm = cache.get_or_rasterize(&r, ' ', cell_w, 20);
    assert!(bm.data.iter().all(|b| *b == 0));
}

#[test]
fn oversized_pixel_size_gives_no_rasterizer() {
    assert!(Rasterizer::try_new(build_font(), 5000).is_none());
    assert!(Rasterizer::try_new(build_font(), 4096).is_some());
}
