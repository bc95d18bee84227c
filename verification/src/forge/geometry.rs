//! Where the bars and cells of a symbol go on the label: each is a
//! rectangle laid out in the symbol's own frame, then turned with the
//! field orientation.

use vstd::prelude::*;
use super::symbology::Element;

verus! {

/// A rectangle in dots: left, top, width and height.
pub type DotRect = (i32, i32, u32, u32);

/// A rectangle at (`lx`, `ly`) of `w` by `h` dots inside an `fw` by `fh`
/// symbol, turned with the orientation (`R` 90°, `I` 180°, `B` 270°,
/// anything else upright) and moved to the origin (`bx`, `by`).
pub open spec fn rotated(o: char, bx: int, by: int, lx: int, ly: int, w: int, h: int, fw: int, fh: int) -> (
    int,
    int,
    int,
    int,
) {
    if o == 'R' {
        (bx + (fh - (ly + h)), by + lx, h, w)
    } else if o == 'I' {
        (bx + (fw - (lx + w)), by + (fh - (ly + h)), w, h)
    } else if o == 'B' {
        (bx + ly, by + (fw - (lx + w)), h, w)
    } else {
        (bx + lx, by + ly, w, h)
    }
}

pub open spec fn fits_i32(v: int) -> bool {
    i32::MIN <= v <= i32::MAX
}

/// The arithmetic of `rotated` stays within `i32`.
pub open spec fn rotation_fits(o: char, bx: int, by: int, lx: int, ly: int, w: int, h: int, fw: int, fh: int) -> bool {
    let r = rotated(o, bx, by, lx, ly, w, h, fw, fh);
    &&& 0 <= bx <= i32::MAX && 0 <= by <= i32::MAX
    &&& fits_i32(lx) && fits_i32(ly)
    &&& 0 <= w <= i32::MAX && 0 <= h <= i32::MAX && 0 <= fw <= i32::MAX && 0 <= fh <= i32::MAX
    &&& fits_i32(lx + w) && fits_i32(ly + h)
    &&& fits_i32(fw - (lx + w)) && fits_i32(fh - (ly + h))
    &&& fits_i32(r.0) && fits_i32(r.1)
}

pub open spec fn rect_of(r: (int, int, int, int)) -> DotRect {
    (r.0 as i32, r.1 as i32, r.2 as u32, r.3 as u32)
}

/// Turns a rectangle of a symbol with the field orientation.
pub fn rotate_rect(o: char, bx: u32, by: u32, lx: i32, ly: i32, w: u32, h: u32, fw: u32, fh: u32) -> (r: DotRect)
    requires
        rotation_fits(o, bx as int, by as int, lx as int, ly as int, w as int, h as int, fw as int, fh as int),
    ensures
        r == rect_of(rotated(o, bx as int, by as int, lx as int, ly as int, w as int, h as int, fw as int, fh as int)),
{
    let bx = bx as i64;
    let by = by as i64;
    let lx = lx as i64;
    let ly = ly as i64;
    let wi = w as i64;
    let hi = h as i64;
    let fw = fw as i64;
    let fh = fh as i64;
    if o == 'R' {
        ((bx + (fh - (ly + hi))) as i32, (by + lx) as i32, h, w)
    } else if o == 'I' {
        ((bx + (fw - (lx + wi))) as i32, (by + (fh - (ly + hi))) as i32, w, h)
    } else if o == 'B' {
        ((bx + ly) as i32, (by + (fw - (lx + wi))) as i32, h, w)
    } else {
        ((bx + lx) as i32, (by + ly) as i32, w, h)
    }
}

/// The total width of `els`, in dots.
pub open spec fn elements_width(els: Seq<Element>) -> int
    decreases els.len(),
{
    if els.len() == 0 {
        0
    } else {
        elements_width(els.drop_last()) + els.last().width
    }
}

/// The bars of the first `k` elements, `height` dots tall, side by side from
/// the left edge of a symbol `bw` dots wide, turned with the orientation.
pub open spec fn bar_rects(els: Seq<Element>, k: int, o: char, x: int, y: int, height: int, bw: int) -> Seq<(int, int, int, int)>
    decreases k,
{
    if k <= 0 || k > els.len() {
        Seq::empty()
    } else {
        let prev = bar_rects(els, k - 1, o, x, y, height, bw);
        let e = els[k - 1];
        if e.bar {
            prev.push(rotated(o, x, y, elements_width(els.take(k - 1)), 0, e.width as int, height, bw, height))
        } else {
            prev
        }
    }
}

/// The arithmetic of every bar stays within `i32`.
pub open spec fn bars_fit(els: Seq<Element>, o: char, x: int, y: int, height: int) -> bool {
    let bw = elements_width(els);
    &&& bw <= i32::MAX
    &&& forall|k: int|
        0 <= k < els.len() ==> #[trigger] els[k].bar ==> rotation_fits(
            o,
            x,
            y,
            elements_width(els.take(k)),
            0,
            els[k].width as int,
            height,
            bw,
            height,
        )
}

pub proof fn lemma_elements_width_prefix(els: Seq<Element>, k: int)
    requires
        0 <= k <= els.len(),
    ensures
        0 <= elements_width(els.take(k)) <= elements_width(els),
    decreases els.len() - k,
{
    if k < els.len() {
        lemma_elements_width_prefix(els, k + 1);
        assert(els.take(k + 1).drop_last() =~= els.take(k));
    } else {
        assert(els.take(k) =~= els);
    }
    lemma_elements_width_nonneg(els.take(k));
}

pub proof fn lemma_elements_width_nonneg(els: Seq<Element>)
    ensures
        0 <= elements_width(els),
    decreases els.len(),
{
    if els.len() > 0 {
        lemma_elements_width_nonneg(els.drop_last());
    }
}

/// The rectangles of the bars of a 1-D symbol drawn `height` dots tall at
/// (`x`, `y`) with the field orientation.
pub fn element_rects(x: u32, y: u32, o: char, height: u32, els: &[Element]) -> (out: Vec<DotRect>)
    requires
        bars_fit(els@, o, x as int, y as int, height as int),
    ensures
        out@ == bar_rects(els@, els@.len() as int, o, x as int, y as int, height as int, elements_width(els@)).map_values(
            |r: (int, int, int, int)| rect_of(r),
        ),
{
    let n = els.len();
    let mut total: u32 = 0;
    let mut k: usize = 0;
    while k < n
        invariant
            n == els@.len(),
            k <= n,
            total == elements_width(els@.take(k as int)),
            elements_width(els@) <= i32::MAX,
        decreases n - k,
    {
        proof {
            assert(els@.take(k + 1).drop_last() =~= els@.take(k as int));
            lemma_elements_width_prefix(els@, k + 1);
        }
        total = total + els[k].width;
        k = k + 1;
    }
    proof {
        assert(els@.take(n as int) =~= els@);
    }
    let bw = total;
    let mut out: Vec<DotRect> = Vec::new();
    let mut cursor: u32 = 0;
    let mut j: usize = 0;
    while j < n
        invariant
            n == els@.len(),
            j <= n,
            bw == elements_width(els@),
            bars_fit(els@, o, x as int, y as int, height as int),
            cursor == elements_width(els@.take(j as int)),
            out@ == bar_rects(els@, j as int, o, x as int, y as int, height as int, bw as int).map_values(
                |r: (int, int, int, int)| rect_of(r),
            ),
        decreases n - j,
    {
        proof {
            assert(els@.take(j + 1).drop_last() =~= els@.take(j as int));
            lemma_elements_width_prefix(els@, j + 1);
            lemma_elements_width_prefix(els@, j as int);
        }
        let e = els[j];
        if e.bar {
            proof {
                assert(els@[j as int].bar);
            }
            let r = rotate_rect(o, x, y, cursor as i32, 0, e.width, height, bw, height);
            out.push(r);
        }
        proof {
            assert(out@ =~= bar_rects(els@, j + 1, o, x as int, y as int, height as int, bw as int).map_values(
                |r: (int, int, int, int)| rect_of(r),
            ));
        }
        cursor = cursor + e.width;
        j = j + 1;
    }
    out
}

/// The dark cells of the first `cx` modules of row `gy`, each `cw` by `ch`
/// dots, in a symbol of `fw` by `fh` dots, turned with the orientation.
pub open spec fn row_cells(row: Seq<bool>, gy: int, cx: int, o: char, x: int, y: int, cw: int, ch: int, fw: int, fh: int) -> Seq<(int, int, int, int)>
    decreases cx,
{
    if cx <= 0 || cx > row.len() {
        Seq::empty()
    } else {
        let prev = row_cells(row, gy, cx - 1, o, x, y, cw, ch, fw, fh);
        if row[cx - 1] {
            prev.push(rotated(o, x, y, (cx - 1) * cw, gy * ch, cw, ch, fw, fh))
        } else {
            prev
        }
    }
}

/// The dark cells of the first `ry` rows, row by row.
pub open spec fn matrix_cells(m: Seq<Seq<bool>>, ry: int, o: char, x: int, y: int, cw: int, ch: int, fw: int, fh: int) -> Seq<(int, int, int, int)>
    decreases ry,
{
    if ry <= 0 || ry > m.len() {
        Seq::empty()
    } else {
        matrix_cells(m, ry - 1, o, x, y, cw, ch, fw, fh) + row_cells(m[ry - 1], ry - 1, m[ry - 1].len() as int, o, x, y, cw, ch, fw, fh)
    }
}

/// The symbol's size and the arithmetic of every dark cell stay within
/// `i32`; all rows have the width `w`.
pub open spec fn cells_fit(m: Seq<Seq<bool>>, w: int, o: char, x: int, y: int, cw: int, ch: int) -> bool {
    &&& forall|r: int| 0 <= r < m.len() ==> #[trigger] m[r].len() == w
    &&& w * cw <= i32::MAX && m.len() * ch <= i32::MAX
    &&& forall|gy: int, gx: int|
        0 <= gy < m.len() && 0 <= gx < w && #[trigger] m[gy][gx] ==> rotation_fits(
            o,
            x,
            y,
            gx * cw,
            gy * ch,
            cw,
            ch,
            w * cw,
            m.len() * ch,
        )
}

/// The rectangles of the dark cells of a 2-D symbol, each module `cell_w`
/// by `cell_h` dots, drawn at (`x`, `y`) with the field orientation.
pub fn cell_rects(x: u32, y: u32, o: char, cell_w: u32, cell_h: u32, rows: &Vec<Vec<bool>>, w: u32) -> (out: Vec<DotRect>)
    requires
        rows@.len() <= u32::MAX,
        cells_fit(rows@.map_values(|r: Vec<bool>| r@), w as int, o, x as int, y as int, cell_w as int, cell_h as int),
    ensures
        ({
            let m = rows@.map_values(|r: Vec<bool>| r@);
            out@ == matrix_cells(m, m.len() as int, o, x as int, y as int, cell_w as int, cell_h as int, w * cell_w, m.len() * cell_h).map_values(
                |r: (int, int, int, int)| rect_of(r),
            )
        }),
{
    let ghost m = rows@.map_values(|r: Vec<bool>| r@);
    let h = rows.len();
    proof {
        assert(m.len() == h);
        assert(0 <= w * cell_w) by (nonlinear_arith);
        assert(0 <= h * cell_h) by (nonlinear_arith);
    }
    let full_w: u32 = w * cell_w;
    let hh: u32 = h as u32;
    let full_h: u32 = hh * cell_h;
    let ghost fw: int = full_w as int;
    let ghost fh: int = full_h as int;
    let mut out: Vec<DotRect> = Vec::new();
    let mut gy: usize = 0;
    while gy < h
        invariant
            gy <= h,
            h == rows@.len(),
            m == rows@.map_values(|r: Vec<bool>| r@),
            cells_fit(m, w as int, o, x as int, y as int, cell_w as int, cell_h as int),
            fw == full_w,
            fh == full_h,
            full_w == w * cell_w,
            full_h == h * cell_h,
            h <= u32::MAX,
            out@ == matrix_cells(m, gy as int, o, x as int, y as int, cell_w as int, cell_h as int, fw, fh).map_values(
                |r: (int, int, int, int)| rect_of(r),
            ),
        decreases h - gy,
    {
        let row = &rows[gy];
        proof {
            assert(m[gy as int] == row@);
            assert(row@.len() == w);
            assert(gy * cell_h <= h * cell_h) by (nonlinear_arith)
                requires
                    gy < h,
            ;
        }
        let ghost before = out@;
        let mut gx: usize = 0;
        while gx < w as usize
            invariant
                gx <= w,
                gy < h,
                h == rows@.len(),
                m == rows@.map_values(|r: Vec<bool>| r@),
                m[gy as int] == row@,
                row@.len() == w,
                cells_fit(m, w as int, o, x as int, y as int, cell_w as int, cell_h as int),
                fw == full_w,
                fh == full_h,
                full_w == w * cell_w,
                full_h == h * cell_h,
                gy * cell_h <= full_h,
                h <= u32::MAX,
                out@ == before + row_cells(row@, gy as int, gx as int, o, x as int, y as int, cell_w as int, cell_h as int, fw, fh).map_values(
                    |r: (int, int, int, int)| rect_of(r),
                ),
            decreases w - gx,
        {
            proof {
                assert(gx * cell_w <= w * cell_w) by (nonlinear_arith)
                    requires
                        gx < w,
                ;
            }
            if row[gx] {
                proof {
                    assert(m[gy as int][gx as int]);
                    assert(rotation_fits(o, x as int, y as int, gx * cell_w, gy * cell_h, cell_w as int, cell_h as int, w * cell_w, m.len() * cell_h));
                }
                let lx: i32 = ((gx as u32) * cell_w) as i32;
                let gy32: u32 = gy as u32;
                let ly: i32 = (gy32 * cell_h) as i32;
                let r = rotate_rect(o, x, y, lx, ly, cell_w, cell_h, full_w, full_h);
                out.push(r);
            }
            proof {
                assert(out@ =~= before + row_cells(row@, gy as int, gx + 1, o, x as int, y as int, cell_w as int, cell_h as int, fw, fh).map_values(
                    |r: (int, int, int, int)| rect_of(r),
                ));
            }
            gx = gx + 1;
        }
        proof {
            assert(out@ =~= matrix_cells(m, gy + 1, o, x as int, y as int, cell_w as int, cell_h as int, fw, fh).map_values(
                |r: (int, int, int, int)| rect_of(r),
            ));
        }
        gy = gy + 1;
    }
    out
}

/// Whether `rotated` stays within `i32` for these values (see
/// `rotation_fits`).
pub fn rotation_fits_check(o: char, bx: i64, by: i64, lx: i64, ly: i64, w: i64, h: i64, fw: i64, fh: i64) -> (b: bool)
    requires
        -0x1_0000_0000 <= bx <= 0x1_0000_0000,
        -0x1_0000_0000 <= by <= 0x1_0000_0000,
        -0x1_0000_0000 <= lx <= 0x1_0000_0000,
        -0x1_0000_0000 <= ly <= 0x1_0000_0000,
        -0x1_0000_0000 <= w <= 0x1_0000_0000,
        -0x1_0000_0000 <= h <= 0x1_0000_0000,
        -0x1_0000_0000 <= fw <= 0x1_0000_0000,
        -0x1_0000_0000 <= fh <= 0x1_0000_0000,
    ensures
        b == rotation_fits(o, bx as int, by as int, lx as int, ly as int, w as int, h as int, fw as int, fh as int),
{
    let lo: i64 = -0x8000_0000;
    let hi: i64 = 0x7fff_ffff;
    let (r0, r1): (i64, i64) = if o == 'R' {
        (bx + (fh - (ly + h)), by + lx)
    } else if o == 'I' {
        (bx + (fw - (lx + w)), by + (fh - (ly + h)))
    } else if o == 'B' {
        (bx + ly, by + (fw - (lx + w)))
    } else {
        (bx + lx, by + ly)
    };
    0 <= bx && bx <= hi && 0 <= by && by <= hi && lo <= lx && lx <= hi && lo <= ly && ly <= hi && 0 <= w
        && w <= hi && 0 <= h && h <= hi && 0 <= fw && fw <= hi && 0 <= fh && fh <= hi && lo <= lx + w
        && lx + w <= hi && lo <= ly + h && ly + h <= hi && lo <= fw - (lx + w) && fw - (lx + w) <= hi
        && lo <= fh - (ly + h) && fh - (ly + h) <= hi && lo <= r0 && r0 <= hi && lo <= r1 && r1 <= hi
}

/// Whether the bars of `els` can be laid out (see `bars_fit`).
pub fn bars_fit_check(x: u32, y: u32, o: char, height: u32, els: &[Element]) -> (b: bool)
    ensures
        b == bars_fit(els@, o, x as int, y as int, height as int),
{
    let n = els.len();
    let mut total: u64 = 0;
    let mut k: usize = 0;
    while k < n
        invariant
            n == els@.len(),
            k <= n,
            total == elements_width(els@.take(k as int)),
            total <= 0x7fff_ffff,
        decreases n - k,
    {
        proof {
            assert(els@.take(k + 1).drop_last() =~= els@.take(k as int));
        }
        let next = total + els[k].width as u64;
        if next > 0x7fff_ffff {
            proof {
                lemma_elements_width_prefix(els@, k + 1);
            }
            return false;
        }
        total = next;
        k = k + 1;
    }
    proof {
        assert(els@.take(n as int) =~= els@);
    }
    let bw = total as i64;
    let mut cursor: i64 = 0;
    let mut j: usize = 0;
    while j < n
        invariant
            n == els@.len(),
            j <= n,
            bw == elements_width(els@),
            bw <= 0x7fff_ffff,
            cursor == elements_width(els@.take(j as int)),
            forall|i: int|
                0 <= i < j ==> #[trigger] els@[i].bar ==> rotation_fits(
                    o,
                    x as int,
                    y as int,
                    elements_width(els@.take(i)),
                    0,
                    els@[i].width as int,
                    height as int,
                    bw as int,
                    height as int,
                ),
        decreases n - j,
    {
        proof {
            assert(els@.take(j + 1).drop_last() =~= els@.take(j as int));
            lemma_elements_width_prefix(els@, j + 1);
            lemma_elements_width_prefix(els@, j as int);
        }
        let e = els[j];
        if e.bar {
            if !rotation_fits_check(o, x as i64, y as i64, cursor, 0, e.width as i64, height as i64, bw, height as i64) {
                return false;
            }
        }
        cursor = cursor + e.width as i64;
        j = j + 1;
    }
    true
}

/// Whether the cells of a matrix can be laid out (see `cells_fit`).
pub fn cells_fit_check(x: u32, y: u32, o: char, cell_w: u32, cell_h: u32, rows: &Vec<Vec<bool>>, w: u32) -> (b: bool)
    requires
        rows@.len() <= u32::MAX,
    ensures
        b == cells_fit(rows@.map_values(|r: Vec<bool>| r@), w as int, o, x as int, y as int, cell_w as int, cell_h as int),
{
    let ghost m = rows@.map_values(|r: Vec<bool>| r@);
    let h = rows.len();
    let mut i: usize = 0;
    while i < h
        invariant
            i <= h,
            h == rows@.len(),
            m == rows@.map_values(|r: Vec<bool>| r@),
            forall|r: int| 0 <= r < i ==> #[trigger] m[r].len() == w,
        decreases h - i,
    {
        if rows[i].len() != w as usize {
            proof {
                assert(m[i as int].len() != w);
            }
            return false;
        }
        i = i + 1;
    }
    proof {
        assert((w as u64) * (cell_w as u64) <= u64::MAX) by (nonlinear_arith)
            requires
                w <= u32::MAX,
                cell_w <= u32::MAX,
        ;
        assert((h as u64) * (cell_h as u64) <= u64::MAX) by (nonlinear_arith)
            requires
                h <= u32::MAX,
                cell_h <= u32::MAX,
        ;
    }
    let fw: u64 = (w as u64) * (cell_w as u64);
    let fh: u64 = (h as u64) * (cell_h as u64);
    proof {
        assert(fw == w * cell_w);
        assert(fh == h * cell_h);
    }
    if fw > 0x7fff_ffff || fh > 0x7fff_ffff {
        return false;
    }
    let mut gy: usize = 0;
    while gy < h
        invariant
            gy <= h,
            h == rows@.len(),
            m == rows@.map_values(|r: Vec<bool>| r@),
            forall|r: int| 0 <= r < h ==> #[trigger] m[r].len() == w,
            fw == w * cell_w,
            fh == h * cell_h,
            fw <= 0x7fff_ffff,
            fh <= 0x7fff_ffff,
            h <= u32::MAX,
            forall|yy: int, gx: int|
                0 <= yy < gy && 0 <= gx < w && #[trigger] m[yy][gx] ==> rotation_fits(
                    o,
                    x as int,
                    y as int,
                    gx * cell_w,
                    yy * cell_h,
                    cell_w as int,
                    cell_h as int,
                    w * cell_w,
                    m.len() * cell_h,
                ),
        decreases h - gy,
    {
        let row = &rows[gy];
        proof {
            assert(m[gy as int] == row@);
            assert(gy * cell_h <= h * cell_h) by (nonlinear_arith)
                requires
                    gy < h,
            ;
        }
        let mut gx: usize = 0;
        while gx < w as usize
            invariant
                gx <= w,
                gy < h,
                h == rows@.len(),
                m == rows@.map_values(|r: Vec<bool>| r@),
                m[gy as int] == row@,
                forall|r: int| 0 <= r < h ==> #[trigger] m[r].len() == w,
                fw == w * cell_w,
                fh == h * cell_h,
                fw <= 0x7fff_ffff,
                fh <= 0x7fff_ffff,
                gy * cell_h <= fh,
                h <= u32::MAX,
                forall|yy: int, xx: int|
                    0 <= yy < gy && 0 <= xx < w && #[trigger] m[yy][xx] ==> rotation_fits(
                        o,
                        x as int,
                        y as int,
                        xx * cell_w,
                        yy * cell_h,
                        cell_w as int,
                        cell_h as int,
                        w * cell_w,
                        m.len() * cell_h,
                    ),
                forall|xx: int|
                    0 <= xx < gx && #[trigger] m[gy as int][xx] ==> rotation_fits(
                        o,
                        x as int,
                        y as int,
                        xx * cell_w,
                        gy * cell_h,
                        cell_w as int,
                        cell_h as int,
                        w * cell_w,
                        m.len() * cell_h,
                    ),
            decreases w - gx,
        {
            proof {
                assert(gx * cell_w <= w * cell_w) by (nonlinear_arith)
                    requires
                        gx < w,
                ;
            }
            if row[gx] {
                let lx: i64 = (gx as i64) * (cell_w as i64);
                let ly: i64 = (gy as i64) * (cell_h as i64);
                if !rotation_fits_check(o, x as i64, y as i64, lx, ly, cell_w as i64, cell_h as i64, fw as i64, fh as i64) {
                    proof {
                        assert(m[gy as int][gx as int]);
                    }
                    return false;
                }
            }
            gx = gx + 1;
        }
        proof {
            assert forall|yy: int, xx: int|
                0 <= yy < gy + 1 && 0 <= xx < w && #[trigger] m[yy][xx] implies rotation_fits(
                    o,
                    x as int,
                    y as int,
                    xx * cell_w,
                    yy * cell_h,
                    cell_w as int,
                    cell_h as int,
                    w * cell_w,
                    m.len() * cell_h,
                ) by {
                if yy == gy {
                    assert(m[gy as int][xx]);
                }
            }
        }
        gy = gy + 1;
    }
    true
}

} // verus!
