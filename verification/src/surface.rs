//! A raw RGBA pixel surface addressed through an explicit stride.
//!
//! A [`Surface`] is a byte buffer of `stride * height` bytes: `height`
//! rows of `stride` bytes, of which the first `4 * width` carry pixels,
//! four bytes per pixel in R, G, B, A order; the rest of each row is
//! alignment padding and is never read as a pixel. All addressing goes
//! through the stride, never through `4 * width`.

use vstd::prelude::*;

verus! {

/// Four bytes of a grayscale-as-RGBA pixel written over a byte sequence:
/// R, G and B carry the coverage value, A is fully opaque.
pub open spec fn write_rgba(b: Seq<u8>, base: int, v: u8) -> Seq<u8> {
    b.update(base, v).update(base + 1, v).update(base + 2, v).update(base + 3, 255u8)
}

/// The bytes after blending the first `n` cell pixels of a coverage
/// bitmap into a surface: cell pixel `i` sits at cell coordinates
/// (`i % cell_w`, `i / cell_w`), lands on surface pixel
/// (`ox + i % cell_w`, `oy + i / cell_w`), and is written as an opaque
/// gray pixel when its coverage is not zero and it falls inside the
/// surface; zero-coverage and clamped pixels leave the surface alone.
pub open spec fn blit_upto(
    b: Seq<u8>,
    bm: Seq<u8>,
    cell_w: nat,
    ox: int,
    oy: int,
    stride: nat,
    width: nat,
    height: nat,
    n: int,
) -> Seq<u8>
    recommends
        cell_w > 0,
    decreases n,
{
    if n <= 0 {
        b
    } else {
        let prev = blit_upto(b, bm, cell_w, ox, oy, stride, width, height, n - 1);
        let x = ox + (n - 1) % cell_w as int;
        let y = oy + (n - 1) / cell_w as int;
        if n - 1 < bm.len() && bm[n - 1] != 0 && 0 <= x < width && 0 <= y < height {
            write_rgba(prev, y * stride + 4 * x, bm[n - 1])
        } else {
            prev
        }
    }
}

/// The byte a finished blit leaves at buffer position `j`, stated
/// directly: decode `j` into its row, pixel and channel through the
/// stride; where that pixel lies in the cell, the cell carries ink
/// there, and the position is among the first `n` cell pixels, the
/// byte is the coverage (or full alpha in the fourth channel);
/// everywhere else, padding included, the old byte stands.
pub open spec fn blit_byte_at(
    b: Seq<u8>,
    bm: Seq<u8>,
    cell_w: nat,
    ox: int,
    oy: int,
    stride: nat,
    width: nat,
    n: int,
    j: int,
) -> u8
    recommends
        cell_w > 0,
        stride > 0,
        0 <= j < b.len(),
{
    let y = j / stride as int;
    let rem = j % stride as int;
    let x = rem / 4;
    let ch = rem % 4;
    let lx = x - ox;
    let ly = y - oy;
    let pos = ly * cell_w + lx;
    if rem < 4 * width && 0 <= lx < cell_w && 0 <= ly && pos < n && pos < bm.len() && bm[pos]
        != 0 {
        if ch == 3 {
            255u8
        } else {
            bm[pos]
        }
    } else {
        b[j]
    }
}

/// The fold `blit_upto` and the direct per-byte reading agree: after
/// blending the first `n` cell pixels, every buffer byte is exactly
/// what `blit_byte_at` says of it.
pub proof fn lemma_blit_upto_pointwise(
    b: Seq<u8>,
    bm: Seq<u8>,
    cell_w: nat,
    ox: int,
    oy: int,
    stride: nat,
    width: nat,
    height: nat,
    n: int,
    j: int,
)
    requires
        cell_w > 0,
        4 * width <= stride,
        b.len() == stride * height,
        0 <= n <= bm.len(),
        0 <= j < b.len(),
    ensures
        blit_upto(b, bm, cell_w, ox, oy, stride, width, height, n).len() == b.len(),
        blit_upto(b, bm, cell_w, ox, oy, stride, width, height, n)[j] == blit_byte_at(
            b,
            bm,
            cell_w,
            ox,
            oy,
            stride,
            width,
            n,
            j,
        ),
    decreases n,
{
    broadcast use vstd::arithmetic::div_mod::lemma_mod_bound;
    broadcast use vstd::arithmetic::div_mod::lemma_div_pos_is_pos;
    broadcast use vstd::arithmetic::mul::lemma_mul_is_commutative;

    let cw = cell_w as int;
    let st = stride as int;
    let yj = j / st;
    let remj = j % st;
    let xj = remj / 4;
    let chj = remj % 4;
    let lx = xj - ox;
    let ly = yj - oy;
    let pos = ly * cw + lx;
    vstd::arithmetic::div_mod::lemma_fundamental_div_mod(j, st);
    vstd::arithmetic::div_mod::lemma_fundamental_div_mod(remj, 4);
    assert(0 <= remj < st);
    assert(0 <= chj < 4);
    assert(0 <= yj < height) by (nonlinear_arith)
        requires
            j == yj * st + remj,
            0 <= remj < st,
            0 <= j < st * height,
            yj == j / st,
            st > 0,
    ;
    if n == 0 {
        assert(0 <= lx < cw && 0 <= ly ==> pos >= 0) by (nonlinear_arith)
            requires
                cw > 0,
                pos == ly * cw + lx,
        ;
    } else {
        lemma_blit_upto_pointwise(b, bm, cell_w, ox, oy, stride, width, height, n - 1, j);
        let prev = blit_upto(b, bm, cell_w, ox, oy, stride, width, height, n - 1);
        let out = blit_upto(b, bm, cell_w, ox, oy, stride, width, height, n);
        let lxn = (n - 1) % cw;
        let lyn = (n - 1) / cw;
        vstd::arithmetic::div_mod::lemma_fundamental_div_mod(n - 1, cw);
        assert(0 <= lxn < cw);
        assert(lyn >= 0);
        let xn = ox + lxn;
        let yn = oy + lyn;
        let written = bm[n - 1] != 0 && 0 <= xn < width && 0 <= yn < height;
        // whether the decoded byte is the one the n-th cell pixel lands on
        if 0 <= lx < cw && 0 <= ly && pos == n - 1 {
            vstd::arithmetic::div_mod::lemma_fundamental_div_mod_converse_div(pos, cw, ly, lx);
            vstd::arithmetic::div_mod::lemma_fundamental_div_mod_converse_mod(pos, cw, ly, lx);
            assert(lx == lxn && ly == lyn);
        }
        if written {
            let base = yn * st + 4 * xn;
            assert(out == write_rgba(prev, base, bm[n - 1]));
            assert(0 <= base && base + 3 < b.len()) by (nonlinear_arith)
                requires
                    4 * width <= st,
                    0 <= xn < width,
                    0 <= yn < height,
                    b.len() == st * height,
                    base == yn * st + 4 * xn,
            ;
            assert(out.len() == b.len());
            if base <= j <= base + 3 {
                assert(4 * xn + (j - base) < st);
                vstd::arithmetic::div_mod::lemma_fundamental_div_mod_converse_div(
                    j,
                    st,
                    yn,
                    4 * xn + (j - base),
                );
                vstd::arithmetic::div_mod::lemma_fundamental_div_mod_converse_mod(
                    j,
                    st,
                    yn,
                    4 * xn + (j - base),
                );
                assert(yj == yn && remj == 4 * xn + (j - base));
                vstd::arithmetic::div_mod::lemma_fundamental_div_mod_converse_div(
                    remj,
                    4,
                    xn,
                    j - base,
                );
                vstd::arithmetic::div_mod::lemma_fundamental_div_mod_converse_mod(
                    remj,
                    4,
                    xn,
                    j - base,
                );
                assert(xj == xn && chj == j - base);
                assert(pos == n - 1);
                assert(remj < 4 * width);
                assert(out[j] == blit_byte_at(b, bm, cell_w, ox, oy, stride, width, n, j));
            } else {
                assert(out[j] == prev[j]);
                if 0 <= lx < cw && 0 <= ly && pos == n - 1 {
                    assert(xj == xn && yj == yn);
                    assert(j == yn * st + 4 * xn + chj);
                    assert(false);
                }
                assert(out[j] == blit_byte_at(b, bm, cell_w, ox, oy, stride, width, n, j));
            }
        } else {
            assert(out == prev);
            if 0 <= lx < cw && 0 <= ly && pos == n - 1 && remj < 4 * width && bm[pos] != 0 {
                assert(4 * xj <= remj) by (nonlinear_arith)
                    requires
                        remj == 4 * xj + chj,
                        chj >= 0,
                ;
                assert(0 <= xn < width);
                assert(0 <= yn < height);
                assert(false);
            }
            assert(out[j] == blit_byte_at(b, bm, cell_w, ox, oy, stride, width, n, j));
        }
    }
}

/// A borrowed-in-spirit pixel target: an owned byte buffer standing for
/// one frame of the framebuffer, with its dimensions and row stride.
pub struct Surface {
    data: Vec<u8>,
    width: usize,
    height: usize,
    stride: usize,
}

impl Surface {
    /// The raw bytes, row-major with `stride` bytes per row.
    pub closed spec fn bytes(&self) -> Seq<u8> {
        self.data@
    }

    /// Width in pixels.
    pub closed spec fn spec_width(&self) -> nat {
        self.width as nat
    }

    /// Height in pixels.
    pub closed spec fn spec_height(&self) -> nat {
        self.height as nat
    }

    /// Bytes per row.
    pub closed spec fn spec_stride(&self) -> nat {
        self.stride as nat
    }

    /// Each row holds its pixels and possibly padding, and the buffer
    /// holds exactly the rows.
    pub closed spec fn wf(&self) -> bool {
        &&& self.stride >= 4 * self.width
        &&& self.data@.len() == self.stride * self.height
    }

    /// Allocates a zeroed surface. Fails exactly when the stride cannot
    /// hold a row of pixels or the whole buffer would not be addressable.
    pub fn new(width: usize, height: usize, stride: usize) -> (r: Option<Surface>)
        ensures
            r is Some <==> 4 * width <= stride && stride * height <= usize::MAX,
            r matches Some(s) ==> {
                &&& s.wf()
                &&& s.spec_width() == width
                &&& s.spec_height() == height
                &&& s.spec_stride() == stride
                &&& s.bytes() == Seq::new((stride * height) as nat, |i: int| 0u8)
            },
    {
        if width > stride / 4 {
            proof {
                vstd::arithmetic::div_mod::lemma_fundamental_div_mod(stride as int, 4);
            }
            return None;
        }
        proof {
            vstd::arithmetic::div_mod::lemma_fundamental_div_mod(stride as int, 4);
        }
        match stride.checked_mul(height) {
            Some(total) => {
                let data = vec![0u8; total];
                proof {
                    assert(data@ =~= Seq::new((stride * height) as nat, |i: int| 0u8));
                }
                Some(Surface { data, width, height, stride })
            },
            None => None,
        }
    }

    /// Width in pixels.
    pub fn width(&self) -> (w: usize)
        ensures
            w == self.spec_width(),
    {
        self.width
    }

    /// Height in pixels.
    pub fn height(&self) -> (h: usize)
        ensures
            h == self.spec_height(),
    {
        self.height
    }

    /// Bytes per row.
    pub fn stride(&self) -> (s: usize)
        ensures
            s == self.spec_stride(),
    {
        self.stride
    }

    /// A copy of the raw bytes, for handing a painted frame on.
    pub fn to_bytes(&self) -> (b: Vec<u8>)
        ensures
            b@ == self.bytes(),
    {
        let mut out: Vec<u8> = Vec::new();
        let mut i: usize = 0;
        let n = self.data.len();
        while i < n
            invariant
                i <= n == self.data@.len(),
                out@ == self.data@.subrange(0, i as int),
            decreases n - i,
        {
            out.push(self.data[i]);
            i = i + 1;
            proof {
                assert(out@ =~= self.data@.subrange(0, i as int));
            }
        }
        proof {
            assert(out@ =~= self.data@);
        }
        out
    }

    /// Zeroes every byte, padding included.
    pub fn clear(&mut self)
        requires
            old(self).wf(),
        ensures
            final(self).wf(),
            final(self).spec_width() == old(self).spec_width(),
            final(self).spec_height() == old(self).spec_height(),
            final(self).spec_stride() == old(self).spec_stride(),
            final(self).bytes() == Seq::new(old(self).bytes().len(), |i: int| 0u8),
    {
        let n = self.data.len();
        let mut i: usize = 0;
        while i < n
            invariant
                i <= n == self.data@.len(),
                self.width == old(self).width,
                self.height == old(self).height,
                self.stride == old(self).stride,
                forall|j: int| 0 <= j < i ==> self.data@[j] == 0u8,
            decreases n - i,
        {
            self.data[i] = 0;
            i = i + 1;
        }
        proof {
            assert(self.data@ =~= Seq::new(old(self).bytes().len(), |i: int| 0u8));
        }
    }

    /// Writes one opaque gray pixel at (`x`, `y`).
    pub fn write_pixel(&mut self, x: usize, y: usize, v: u8)
        requires
            old(self).wf(),
            x < old(self).spec_width(),
            y < old(self).spec_height(),
        ensures
            final(self).wf(),
            final(self).spec_width() == old(self).spec_width(),
            final(self).spec_height() == old(self).spec_height(),
            final(self).spec_stride() == old(self).spec_stride(),
            final(self).bytes().len() == old(self).bytes().len(),
            final(self).bytes() == write_rgba(
                old(self).bytes(),
                y * old(self).spec_stride() + 4 * x,
                v,
            ),
    {
        let total = self.data.len();
        proof {
            lemma_pixel_base_in_bounds(
                self.width as nat,
                self.height as nat,
                self.stride as nat,
                x as nat,
                y as nat,
            );
            assert(total == self.data@.len());
        }
        let base = y * self.stride + 4 * x;
        self.data[base] = v;
        self.data[base + 1] = v;
        self.data[base + 2] = v;
        self.data[base + 3] = 255;
        proof {
            assert(self.data@ =~= write_rgba(
                old(self).bytes(),
                y as int * old(self).spec_stride() as int + 4 * x as int,
                v,
            ));
        }
    }

    /// Blends a glyph's coverage bitmap into the surface at pen offset
    /// (`ox`, `oy`): every cell pixel with coverage becomes an opaque
    /// gray pixel; zero-coverage pixels, and pixels falling outside the
    /// surface, are skipped and leave the old bytes standing.
    pub fn blit_glyph(&mut self, bm: &Vec<u8>, cell_w: usize, ox: i64, oy: i64)
        requires
            old(self).wf(),
            cell_w >= 1,
            cell_w <= 0xffff_ffff,
            bm@.len() <= 0xffff_ffff,
            old(self).spec_width() <= 0xffff_ffff,
            old(self).spec_height() <= 0xffff_ffff,
        ensures
            final(self).wf(),
            final(self).spec_width() == old(self).spec_width(),
            final(self).spec_height() == old(self).spec_height(),
            final(self).spec_stride() == old(self).spec_stride(),
            final(self).bytes().len() == old(self).bytes().len(),
            final(self).bytes() == blit_upto(
                old(self).bytes(),
                bm@,
                cell_w as nat,
                ox as int,
                oy as int,
                old(self).spec_stride(),
                old(self).spec_width(),
                old(self).spec_height(),
                bm@.len() as int,
            ),
    {
        let n = bm.len();
        let mut i: usize = 0;
        while i < n
            invariant
                i <= n == bm@.len(),
                cell_w >= 1,
                cell_w <= 0xffff_ffff,
                n <= 0xffff_ffff,
                self.wf(),
                self.spec_width() == old(self).spec_width(),
                self.spec_height() == old(self).spec_height(),
                self.spec_stride() == old(self).spec_stride(),
                old(self).spec_width() <= 0xffff_ffff,
                old(self).spec_height() <= 0xffff_ffff,
                self.bytes() == blit_upto(
                    old(self).bytes(),
                    bm@,
                    cell_w as nat,
                    ox as int,
                    oy as int,
                    old(self).spec_stride(),
                    old(self).spec_width(),
                    old(self).spec_height(),
                    i as int,
                ),
            decreases n - i,
        {
            let v = bm[i];
            let lx = i % cell_w;
            let ly = i / cell_w;
            let tx: i128 = ox as i128 + lx as i128;
            let ty: i128 = oy as i128 + ly as i128;
            if v != 0 && tx >= 0 && tx < self.width as i128 && ty >= 0 && ty
                < self.height as i128 {
                self.write_pixel(tx as usize, ty as usize, v);
            }
            i = i + 1;
        }
    }
}

/// The four bytes of pixel (`x`, `y`) lie inside the buffer.
proof fn lemma_pixel_base_in_bounds(width: nat, height: nat, stride: nat, x: nat, y: nat)
    requires
        stride >= 4 * width,
        x < width,
        y < height,
    ensures
        y * stride + 4 * x + 3 < stride * height,
{
    assert(y * stride + 4 * x + 3 < stride * height) by (nonlinear_arith)
        requires
            stride >= 4 * width,
            x < width,
            y < height,
    ;
}

} // verus!
