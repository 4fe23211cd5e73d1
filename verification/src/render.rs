use vstd::prelude::*;

use crate::grid::Grid;
use crate::material::Material;
use crate::theme::Theme;

verus! {

/// Pixel side length of one grid cell in the frame buffer.
pub const CELL_WIDTH: usize = 16;

/// Pixel thickness of the cursor outline.
pub const BORDER: usize = 2;

/// Pixel side length of the frame buffer for a grid of the given side.
pub open spec fn win_width(side: int) -> int {
    side * (CELL_WIDTH as int)
}

/// The pixel row of buffer index `k`.
pub open spec fn pix_row(side: int, k: int) -> int {
    k / win_width(side)
}

/// The pixel column of buffer index `k`.
pub open spec fn pix_col(side: int, k: int) -> int {
    k % win_width(side)
}

/// The grid column buffer index `k` lies in.
pub open spec fn cell_col(side: int, k: int) -> int {
    pix_col(side, k) / (CELL_WIDTH as int)
}

/// The grid row buffer index `k` lies in.
pub open spec fn cell_row(side: int, k: int) -> int {
    pix_row(side, k) / (CELL_WIDTH as int)
}

/// The theme colour a material is drawn with.
pub open spec fn theme_color(t: Theme, m: Material) -> u32 {
    match m {
        Material::Empty => t.0,
        Material::Solid => t.1,
        Material::Particulate => t.2,
    }
}

/// The buffer index of pixel `(16x + px, 16y + py)` lies inside the buffer
/// and decomposes back into that pixel's row, column and cell.
pub proof fn lemma_pix_index(side: int, x: int, y: int, px: int, py: int)
    requires
        1 <= side <= 1024,
        0 <= x < side,
        0 <= y < side,
        0 <= px < CELL_WIDTH,
        0 <= py < CELL_WIDTH,
    ensures
        0 <= (y * 16 + py) * win_width(side) + (x * 16 + px) < win_width(side) * win_width(side),
        pix_row(side, (y * 16 + py) * win_width(side) + (x * 16 + px)) == y * 16 + py,
        pix_col(side, (y * 16 + py) * win_width(side) + (x * 16 + px)) == x * 16 + px,
        cell_col(side, (y * 16 + py) * win_width(side) + (x * 16 + px)) == x,
        cell_row(side, (y * 16 + py) * win_width(side) + (x * 16 + px)) == y,
{
    let w = win_width(side);
    let r = y * 16 + py;
    let c = x * 16 + px;
    let k = r * w + c;
    assert(c < w);
    assert(r < w);
    assert(0 <= k < w * w) by (nonlinear_arith)
        requires
            0 <= r < w,
            0 <= c < w,
            k == r * w + c,
    ;
    vstd::arithmetic::div_mod::lemma_fundamental_div_mod_converse(k, w, r, c);
    vstd::arithmetic::div_mod::lemma_fundamental_div_mod_converse(c, 16, x, px);
    vstd::arithmetic::div_mod::lemma_fundamental_div_mod_converse(r, 16, y, py);
}

/// Any in-range buffer index decomposes uniquely into a pixel row and
/// column, which in turn lie in an in-range grid cell.
pub proof fn lemma_pix_decomp(side: int, k: int)
    requires
        1 <= side <= 1024,
        0 <= k < win_width(side) * win_width(side),
    ensures
        0 <= pix_row(side, k) < win_width(side),
        0 <= pix_col(side, k) < win_width(side),
        k == pix_row(side, k) * win_width(side) + pix_col(side, k),
        0 <= cell_col(side, k) < side,
        0 <= cell_row(side, k) < side,
        cell_col(side, k) * 16 <= pix_col(side, k) < cell_col(side, k) * 16 + 16,
        cell_row(side, k) * 16 <= pix_row(side, k) < cell_row(side, k) * 16 + 16,
{
    let w = win_width(side);
    vstd::arithmetic::div_mod::lemma_fundamental_div_mod(k, w);
    vstd::arithmetic::div_mod::lemma_mod_pos_bound(k, w);
    let q = k / w;
    let c = k % w;
    assert(0 <= q < w) by (nonlinear_arith)
        requires
            w > 0,
            0 <= k < w * w,
            0 <= c < w,
            k == w * q + c,
    ;
    assert(k == q * w + c) by (nonlinear_arith)
        requires
            k == w * q + c,
    ;
    vstd::arithmetic::div_mod::lemma_fundamental_div_mod(c, 16);
    vstd::arithmetic::div_mod::lemma_mod_pos_bound(c, 16);
    vstd::arithmetic::div_mod::lemma_fundamental_div_mod(q, 16);
    vstd::arithmetic::div_mod::lemma_mod_pos_bound(q, 16);
}

/// Fills the 16-by-16 pixel block of grid cell `(x, y)` with one colour;
/// every pixel outside the block keeps its value.
fn fill_cell(buf: &mut Vec<u32>, side: usize, x: usize, y: usize, color: u32)
    requires
        1 <= side <= 1024,
        old(buf)@.len() == win_width(side as int) * win_width(side as int),
        x < side,
        y < side,
    ensures
        final(buf)@.len() == old(buf)@.len(),
        forall|k: int|
            0 <= k < old(buf)@.len() ==> final(buf)@[k] == if cell_col(side as int, k) == x
                && cell_row(side as int, k) == y {
                color
            } else {
                old(buf)@[k]
            },
{
    let w = side * CELL_WIDTH;
    let x0 = x * CELL_WIDTH;
    let y0 = y * CELL_WIDTH;
    let ghost b0 = buf@;
    let mut py: usize = 0;
    while py < CELL_WIDTH
        invariant
            1 <= side <= 1024,
            x < side,
            y < side,
            w == win_width(side as int),
            x0 == x * 16,
            y0 == y * 16,
            py <= CELL_WIDTH,
            buf@.len() == b0.len(),
            b0.len() == win_width(side as int) * win_width(side as int),
            forall|k: int|
                0 <= k < b0.len() ==> buf@[k] == if cell_col(side as int, k) == x && cell_row(
                    side as int,
                    k,
                ) == y && pix_row(side as int, k) < y0 + py {
                    color
                } else {
                    b0[k]
                },
        decreases CELL_WIDTH - py,
    {
        let mut px: usize = 0;
        while px < CELL_WIDTH
            invariant
                1 <= side <= 1024,
                x < side,
                y < side,
                w == win_width(side as int),
                x0 == x * 16,
                y0 == y * 16,
                py < CELL_WIDTH,
                px <= CELL_WIDTH,
                buf@.len() == b0.len(),
                b0.len() == win_width(side as int) * win_width(side as int),
                forall|k: int|
                    0 <= k < b0.len() ==> buf@[k] == if cell_col(side as int, k) == x && cell_row(
                        side as int,
                        k,
                    ) == y && (pix_row(side as int, k) < y0 + py || (pix_row(side as int, k) == y0
                        + py && pix_col(side as int, k) < x0 + px)) {
                        color
                    } else {
                        b0[k]
                    },
            decreases CELL_WIDTH - px,
        {
            proof {
                lemma_pix_index(side as int, x as int, y as int, px as int, py as int);
                assert((side as int * 16) * (side as int * 16) <= 0x10000000) by (nonlinear_arith)
                    requires
                        1 <= side as int <= 1024,
                ;
            }
            let row = y0 + py;
            let col = x0 + px;
            let k = row * w + col;
            let ghost bpre = buf@;
            buf[k] = color;
            proof {
                assert forall|k2: int| 0 <= k2 < b0.len() implies buf@[k2] == (if cell_col(
                    side as int,
                    k2,
                ) == x && cell_row(side as int, k2) == y && (pix_row(side as int, k2) < y0 + py || (
                pix_row(side as int, k2) == y0 + py && pix_col(side as int, k2) < x0 + px + 1)) {
                    color
                } else {
                    b0[k2]
                }) by {
                    lemma_pix_decomp(side as int, k2);
                }
            }
            px = px + 1;
        }
        proof {
            assert forall|k2: int| 0 <= k2 < b0.len() implies buf@[k2] == (if cell_col(
                side as int,
                k2,
            ) == x && cell_row(side as int, k2) == y && pix_row(side as int, k2) < y0 + py + 1 {
                color
            } else {
                b0[k2]
            }) by {
                lemma_pix_decomp(side as int, k2);
            }
        }
        py = py + 1;
    }
    proof {
        assert forall|k2: int| 0 <= k2 < b0.len() implies buf@[k2] == (if cell_col(side as int, k2)
            == x && cell_row(side as int, k2) == y {
            color
        } else {
            b0[k2]
        }) by {
            lemma_pix_decomp(side as int, k2);
        }
    }
}

/// Renders one grid cell: its pixel block takes the theme colour of the
/// cell's material; every other pixel keeps its value.
pub fn render_cell(buf: &mut Vec<u32>, grid: &Grid, theme: &Theme, x: usize, y: usize)
    requires
        grid.wf(),
        old(buf)@.len() == win_width(grid.spec_side()) * win_width(grid.spec_side()),
        x < grid.spec_side(),
        y < grid.spec_side(),
    ensures
        final(buf)@.len() == old(buf)@.len(),
        forall|k: int|
            0 <= k < old(buf)@.len() ==> final(buf)@[k] == if cell_col(grid.spec_side(), k) == x
                && cell_row(grid.spec_side(), k) == y {
                theme_color(*theme, grid.spec_get(x as int, y as int))
            } else {
                old(buf)@[k]
            },
{
    proof {
        crate::grid::lemma_grid_wf_side(*grid);
    }
    let color = match grid.get(x, y) {
        Material::Empty => theme.0,
        Material::Solid => theme.1,
        Material::Particulate => theme.2,
    };
    fill_cell(buf, grid.side(), x, y, color);
}

/// Marks the emitter: the top-row pixel block at the emitter column is
/// darkened to black, independent of its material colour; every other pixel
/// keeps its value.
pub fn render_emitter(buf: &mut Vec<u32>, side: usize, emitter: usize)
    requires
        1 <= side <= 1024,
        old(buf)@.len() == win_width(side as int) * win_width(side as int),
        emitter < side,
    ensures
        final(buf)@.len() == old(buf)@.len(),
        forall|k: int|
            0 <= k < old(buf)@.len() ==> final(buf)@[k] == if cell_col(side as int, k) == emitter
                && cell_row(side as int, k) == 0 {
                0u32
            } else {
                old(buf)@[k]
            },
{
    fill_cell(buf, side, emitter, 0, 0u32);
}

/// True when some entry of `cells` names the grid cell that buffer index
/// `k` lies in.
pub open spec fn covered_by(cells: Seq<(usize, usize)>, side: int, k: int) -> bool {
    exists|t: int|
        0 <= t < cells.len() && cells[t].0 == cell_col(side, k) && cells[t].1 == cell_row(side, k)
}

/// Full re-render: every pixel takes the theme colour of the material of
/// the grid cell it lies in.
pub fn render_grid(buf: &mut Vec<u32>, grid: &Grid, theme: &Theme)
    requires
        grid.wf(),
        old(buf)@.len() == win_width(grid.spec_side()) * win_width(grid.spec_side()),
    ensures
        final(buf)@.len() == old(buf)@.len(),
        forall|k: int|
            0 <= k < old(buf)@.len() ==> final(buf)@[k] == theme_color(
                *theme,
                grid.spec_get(cell_col(grid.spec_side(), k), cell_row(grid.spec_side(), k)),
            ),
{
    proof {
        crate::grid::lemma_grid_wf_side(*grid);
    }
    let side = grid.side();
    let ghost b0 = buf@;
    let ghost n = grid.spec_side();
    let mut y: usize = 0;
    while y < side
        invariant
            grid.wf(),
            n == grid.spec_side(),
            side == n,
            y <= side,
            buf@.len() == b0.len(),
            b0.len() == win_width(n) * win_width(n),
            forall|k: int|
                0 <= k < b0.len() ==> buf@[k] == if cell_row(n, k) < y {
                    theme_color(*theme, grid.spec_get(cell_col(n, k), cell_row(n, k)))
                } else {
                    b0[k]
                },
        decreases side - y,
    {
        let mut x: usize = 0;
        while x < side
            invariant
                grid.wf(),
                n == grid.spec_side(),
                side == n,
                y < side,
                x <= side,
                buf@.len() == b0.len(),
                b0.len() == win_width(n) * win_width(n),
                forall|k: int|
                    0 <= k < b0.len() ==> buf@[k] == if cell_row(n, k) < y || (cell_row(n, k) == y
                        && cell_col(n, k) < x) {
                        theme_color(*theme, grid.spec_get(cell_col(n, k), cell_row(n, k)))
                    } else {
                        b0[k]
                    },
            decreases side - x,
        {
            render_cell(buf, grid, theme, x, y);
            x = x + 1;
        }
        y = y + 1;
    }
    proof {
        assert forall|k: int| 0 <= k < b0.len() implies cell_row(n, k) < side by {
            lemma_pix_decomp(n, k);
        }
    }
}

/// Incremental re-render: every pixel lying in one of the named cells takes
/// the theme colour of that cell's current material; every other pixel
/// keeps its value. Re-rendering the cells a write touched thus leaves the
/// buffer exactly as a full re-render would.
pub fn render_cells(buf: &mut Vec<u32>, grid: &Grid, theme: &Theme, cells: &Vec<(usize, usize)>)
    requires
        grid.wf(),
        old(buf)@.len() == win_width(grid.spec_side()) * win_width(grid.spec_side()),
        forall|t: int|
            0 <= t < cells@.len() ==> (#[trigger] cells@[t]).0 < grid.spec_side() && cells@[t].1
                < grid.spec_side(),
    ensures
        final(buf)@.len() == old(buf)@.len(),
        forall|k: int|
            0 <= k < old(buf)@.len() ==> final(buf)@[k] == if covered_by(
                cells@,
                grid.spec_side(),
                k,
            ) {
                theme_color(
                    *theme,
                    grid.spec_get(cell_col(grid.spec_side(), k), cell_row(grid.spec_side(), k)),
                )
            } else {
                old(buf)@[k]
            },
{
    let ghost b0 = buf@;
    let ghost n = grid.spec_side();
    let mut t: usize = 0;
    while t < cells.len()
        invariant
            grid.wf(),
            n == grid.spec_side(),
            t <= cells@.len(),
            buf@.len() == b0.len(),
            b0.len() == win_width(n) * win_width(n),
            forall|t2: int|
                0 <= t2 < cells@.len() ==> (#[trigger] cells@[t2]).0 < n && cells@[t2].1 < n,
            forall|k: int|
                0 <= k < b0.len() ==> buf@[k] == if covered_by(cells@.subrange(0, t as int), n, k) {
                    theme_color(*theme, grid.spec_get(cell_col(n, k), cell_row(n, k)))
                } else {
                    b0[k]
                },
        decreases cells@.len() - t,
    {
        let (cx, cy) = cells[t];
        let ghost bpre = buf@;
        render_cell(buf, grid, theme, cx, cy);
        proof {
            let sub1 = cells@.subrange(0, t as int + 1);
            let sub0 = cells@.subrange(0, t as int);
            assert forall|k: int| 0 <= k < b0.len() implies buf@[k] == (if covered_by(sub1, n, k) {
                theme_color(*theme, grid.spec_get(cell_col(n, k), cell_row(n, k)))
            } else {
                b0[k]
            }) by {
                if cell_col(n, k) == cx && cell_row(n, k) == cy {
                    assert(sub1[t as int] == (cx, cy));
                    assert(covered_by(sub1, n, k));
                } else {
                    assert(buf@[k] == bpre[k]);
                    if covered_by(sub0, n, k) {
                        let t2 = choose|t2: int|
                            0 <= t2 < sub0.len() && sub0[t2].0 == cell_col(n, k) && sub0[t2].1
                                == cell_row(n, k);
                        assert(sub1[t2] == sub0[t2]);
                        assert(covered_by(sub1, n, k));
                    } else if covered_by(sub1, n, k) {
                        let t2 = choose|t2: int|
                            0 <= t2 < sub1.len() && sub1[t2].0 == cell_col(n, k) && sub1[t2].1
                                == cell_row(n, k);
                        assert(t2 < sub0.len() ==> sub0[t2] == sub1[t2]);
                        assert(t2 == t as int);
                        assert(false);
                    }
                }
            }
        }
        t = t + 1;
    }
    proof {
        assert(cells@.subrange(0, cells@.len() as int) == cells@);
    }
}

/// A pixel column clamped to the buffer's last column.
pub open spec fn clamped_col(side: int, kx: int) -> int {
    if kx < win_width(side) {
        kx
    } else {
        win_width(side) - 1
    }
}

/// The buffer index a darkening pass writes for pixel row `ky` and
/// (unclamped) pixel column `kx`.
pub open spec fn rect_pix(side: int, ky: int, kx: int) -> int {
    ky * win_width(side) + clamped_col(side, kx)
}

/// True when darkening the pixel rectangle with rows `[r0, r1)` and columns
/// `[c0, c1)` — each column clamped to the buffer — writes buffer index
/// `k`.
pub open spec fn rect_covers(side: int, r0: int, r1: int, c0: int, c1: int, k: int) -> bool {
    exists|ky: int, kx: int| r0 <= ky < r1 && c0 <= kx < c1 && k == #[trigger] rect_pix(side, ky, kx)
}

/// Darkens to black the pixels of the rectangle with rows `[r0, r1)` and
/// columns `[c0, c1)`, clamping each column to the buffer's last column and
/// dropping writes past the end of the buffer; every other pixel keeps its
/// value.
fn darken_rect(buf: &mut Vec<u32>, side: usize, r0: usize, r1: usize, c0: usize, c1: usize)
    requires
        1 <= side <= 1024,
        old(buf)@.len() == win_width(side as int) * win_width(side as int),
        r0 <= r1,
        c0 <= c1,
        r1 <= 0x8000,
        c1 <= 0x8000,
    ensures
        final(buf)@.len() == old(buf)@.len(),
        forall|k: int|
            0 <= k < old(buf)@.len() ==> final(buf)@[k] == if rect_covers(
                side as int,
                r0 as int,
                r1 as int,
                c0 as int,
                c1 as int,
                k,
            ) {
                0u32
            } else {
                old(buf)@[k]
            },
{
    let w = side * CELL_WIDTH;
    let ghost b0 = buf@;
    let ghost n = side as int;
    let mut ky = r0;
    while ky < r1
        invariant
            1 <= side <= 1024,
            w == win_width(n),
            n == side as int,
            r0 <= ky <= r1,
            c0 <= c1,
            r1 <= 0x8000,
            c1 <= 0x8000,
            buf@.len() == b0.len(),
            b0.len() == win_width(n) * win_width(n),
            forall|k: int|
                0 <= k < b0.len() ==> buf@[k] == if rect_covers(
                    n,
                    r0 as int,
                    ky as int,
                    c0 as int,
                    c1 as int,
                    k,
                ) {
                    0u32
                } else {
                    b0[k]
                },
        decreases r1 - ky,
    {
        let mut kx = c0;
        while kx < c1
            invariant
                1 <= side <= 1024,
                w == win_width(n),
                n == side as int,
                r0 <= ky < r1,
                c0 <= kx <= c1,
                r1 <= 0x8000,
                c1 <= 0x8000,
                buf@.len() == b0.len(),
                b0.len() == win_width(n) * win_width(n),
                forall|k: int|
                    0 <= k < b0.len() ==> buf@[k] == if rect_covers(
                        n,
                        r0 as int,
                        ky as int,
                        c0 as int,
                        c1 as int,
                        k,
                    ) || rect_covers(n, ky as int, ky as int + 1, c0 as int, kx as int, k) {
                        0u32
                    } else {
                        b0[k]
                    },
            decreases c1 - kx,
        {
            let col = if kx < w {
                kx
            } else {
                w - 1
            };
            proof {
                assert(ky as int * win_width(n) + col <= 0x8000 * 0x4000 + 0x4000)
                    by (nonlinear_arith)
                    requires
                        0 <= ky as int <= 0x8000,
                        0 <= col < win_width(n) <= 0x4000,
                ;
            }
            let k = ky * w + col;
            let ghost bpre = buf@;
            if k < buf.len() {
                buf[k] = 0;
            }
            proof {
                assert(col == clamped_col(n, kx as int));
                assert(k as int == rect_pix(n, ky as int, kx as int));
                assert forall|k2: int| 0 <= k2 < b0.len() implies buf@[k2] == (if rect_covers(
                    n,
                    r0 as int,
                    ky as int,
                    c0 as int,
                    c1 as int,
                    k2,
                ) || rect_covers(n, ky as int, ky as int + 1, c0 as int, kx as int + 1, k2) {
                    0u32
                } else {
                    b0[k2]
                }) by {
                    if k2 == k as int {
                        assert(rect_covers(n, ky as int, ky as int + 1, c0 as int, kx as int + 1, k2));
                    } else {
                        assert(buf@[k2] == bpre[k2]);
                        if rect_covers(n, ky as int, ky as int + 1, c0 as int, kx as int + 1, k2)
                            && !rect_covers(n, ky as int, ky as int + 1, c0 as int, kx as int, k2)
                            && !rect_covers(n, r0 as int, ky as int, c0 as int, c1 as int, k2) {
                            let (ky2, kx2) = choose|ky2: int, kx2: int|
                                ky as int <= ky2 < ky as int + 1 && c0 as int <= kx2 < kx as int + 1
                                    && k2 == rect_pix(n, ky2, kx2);
                            assert(ky2 == ky as int);
                            assert(kx2 == kx as int);
                            assert(k2 == k as int);
                            assert(false);
                        }
                    }
                }
            }
            kx = kx + 1;
        }
        proof {
            assert forall|k2: int| 0 <= k2 < b0.len() implies (rect_covers(
                n,
                r0 as int,
                ky as int + 1,
                c0 as int,
                c1 as int,
                k2,
            ) <==> (rect_covers(n, r0 as int, ky as int, c0 as int, c1 as int, k2) || rect_covers(
                n,
                ky as int,
                ky as int + 1,
                c0 as int,
                c1 as int,
                k2,
            ))) by {
                if rect_covers(n, r0 as int, ky as int + 1, c0 as int, c1 as int, k2) {
                    let (ky2, kx2) = choose|ky2: int, kx2: int|
                        r0 as int <= ky2 < ky as int + 1 && c0 as int <= kx2 < c1 as int && k2
                            == rect_pix(n, ky2, kx2);
                    if ky2 < ky as int {
                        assert(rect_covers(n, r0 as int, ky as int, c0 as int, c1 as int, k2));
                    } else {
                        assert(rect_covers(n, ky as int, ky as int + 1, c0 as int, c1 as int, k2));
                    }
                }
                if rect_covers(n, r0 as int, ky as int, c0 as int, c1 as int, k2) {
                    let (ky2, kx2) = choose|ky2: int, kx2: int|
                        r0 as int <= ky2 < ky as int && c0 as int <= kx2 < c1 as int && k2
                            == rect_pix(n, ky2, kx2);
                    assert(k2 == rect_pix(n, ky2, kx2));
                    assert(rect_covers(n, r0 as int, ky as int + 1, c0 as int, c1 as int, k2));
                }
                if rect_covers(n, ky as int, ky as int + 1, c0 as int, c1 as int, k2) {
                    let (ky2, kx2) = choose|ky2: int, kx2: int|
                        ky as int <= ky2 < ky as int + 1 && c0 as int <= kx2 < c1 as int && k2
                            == rect_pix(n, ky2, kx2);
                    assert(k2 == rect_pix(n, ky2, kx2));
                    assert(rect_covers(n, r0 as int, ky as int + 1, c0 as int, c1 as int, k2));
                }
            }
        }
        ky = ky + 1;
    }
}

/// True when the cursor outline — a `BORDER`-pixel-thick border around the
/// brush square of side `cs` cells at cell `(cx, cy)` — writes buffer index
/// `k`: the union of its top, bottom, left and right edge rectangles, each
/// clamped as `rect_covers` says.
pub open spec fn cursor_covers(side: int, cx: int, cy: int, cs: int, k: int) -> bool {
    let b = BORDER as int;
    let x0 = cx * 16;
    let x1 = (cx + cs) * 16;
    let y0 = cy * 16;
    let y1 = (cy + cs) * 16;
    ||| rect_covers(side, y0, y0 + b, x0, x1, k)
    ||| rect_covers(side, y1 - b, y1, x0, x1, k)
    ||| rect_covers(side, y0, y1, x0, x0 + b, k)
    ||| rect_covers(side, y0, y1, x1 - b, x1, k)
}

/// Draws the cursor outline: a border-only rectangle, `BORDER` pixels
/// thick, around the brush square at cell `(cx, cy)`, darkened to black.
/// The interior is not filled; out-of-buffer writes are clamped or dropped,
/// and every pixel off the border keeps its value.
pub fn render_cursor(buf: &mut Vec<u32>, side: usize, cx: usize, cy: usize, cs: usize)
    requires
        1 <= side <= 1024,
        old(buf)@.len() == win_width(side as int) * win_width(side as int),
        cx < side,
        cy < side,
        1 <= cs <= 1024,
    ensures
        final(buf)@.len() == old(buf)@.len(),
        forall|k: int|
            0 <= k < old(buf)@.len() ==> final(buf)@[k] == if cursor_covers(
                side as int,
                cx as int,
                cy as int,
                cs as int,
                k,
            ) {
                0u32
            } else {
                old(buf)@[k]
            },
{
    let x0 = cx * CELL_WIDTH;
    let x1 = (cx + cs) * CELL_WIDTH;
    let y0 = cy * CELL_WIDTH;
    let y1 = (cy + cs) * CELL_WIDTH;
    let ghost b0 = buf@;
    darken_rect(buf, side, y0, y0 + BORDER, x0, x1);
    let ghost b1 = buf@;
    darken_rect(buf, side, y1 - BORDER, y1, x0, x1);
    let ghost b2 = buf@;
    darken_rect(buf, side, y0, y1, x0, x0 + BORDER);
    let ghost b3 = buf@;
    darken_rect(buf, side, y0, y1, x1 - BORDER, x1);
    proof {
        assert forall|k: int| 0 <= k < b0.len() implies buf@[k] == (if cursor_covers(
            side as int,
            cx as int,
            cy as int,
            cs as int,
            k,
        ) {
            0u32
        } else {
            b0[k]
        }) by {
            assert(b1[k] == if rect_covers(
                side as int,
                y0 as int,
                y0 as int + BORDER,
                x0 as int,
                x1 as int,
                k,
            ) {
                0u32
            } else {
                b0[k]
            });
        }
    }
}

/// Erases the cursor outline by re-rendering every grid cell the brush
/// square overlaps, clipped to the grid: each such cell's pixel block takes
/// the theme colour of its material, and every other pixel keeps its value.
pub fn unrender_cursor(
    buf: &mut Vec<u32>,
    grid: &Grid,
    theme: &Theme,
    cx: usize,
    cy: usize,
    cs: usize,
)
    requires
        grid.wf(),
        old(buf)@.len() == win_width(grid.spec_side()) * win_width(grid.spec_side()),
    ensures
        final(buf)@.len() == old(buf)@.len(),
        forall|k: int|
            0 <= k < old(buf)@.len() ==> final(buf)@[k] == if crate::grid::in_block(
                cx as int,
                cy as int,
                cs as int,
                cell_col(grid.spec_side(), k),
                cell_row(grid.spec_side(), k),
            ) {
                theme_color(
                    *theme,
                    grid.spec_get(cell_col(grid.spec_side(), k), cell_row(grid.spec_side(), k)),
                )
            } else {
                old(buf)@[k]
            },
{
    proof {
        crate::grid::lemma_grid_wf_side(*grid);
    }
    let side = grid.side();
    let ghost b0 = buf@;
    let ghost n = grid.spec_side();
    if cx >= side || cy >= side || cs == 0 {
        proof {
            assert forall|k: int| 0 <= k < b0.len() implies !crate::grid::in_block(
                cx as int,
                cy as int,
                cs as int,
                cell_col(n, k),
                cell_row(n, k),
            ) by {
                lemma_pix_decomp(n, k);
            }
        }
        return ;
    }
    let xe = if cs < side - cx {
        cx + cs
    } else {
        side
    };
    let ye = if cs < side - cy {
        cy + cs
    } else {
        side
    };
    let mut j = cy;
    while j < ye
        invariant
            grid.wf(),
            n == grid.spec_side(),
            side == n,
            cx < side,
            cy <= j <= ye,
            cx < xe <= side,
            xe == if cx + cs <= side {
                cx + cs as int
            } else {
                side as int
            },
            ye == if cy + cs <= side {
                cy + cs as int
            } else {
                side as int
            },
            buf@.len() == b0.len(),
            b0.len() == win_width(n) * win_width(n),
            forall|k: int|
                0 <= k < b0.len() ==> buf@[k] == if cx <= cell_col(n, k) < xe && cy <= cell_row(
                    n,
                    k,
                ) < j {
                    theme_color(*theme, grid.spec_get(cell_col(n, k), cell_row(n, k)))
                } else {
                    b0[k]
                },
        decreases ye - j,
    {
        let mut i = cx;
        while i < xe
            invariant
                grid.wf(),
                n == grid.spec_side(),
                side == n,
                cy <= j < ye,
                cx <= i <= xe,
                cx < xe <= side,
                ye <= side,
                buf@.len() == b0.len(),
                b0.len() == win_width(n) * win_width(n),
                forall|k: int|
                    0 <= k < b0.len() ==> buf@[k] == if (cx <= cell_col(n, k) < xe && cy
                        <= cell_row(n, k) < j) || (cell_row(n, k) == j && cx <= cell_col(n, k)
                        < i) {
                        theme_color(*theme, grid.spec_get(cell_col(n, k), cell_row(n, k)))
                    } else {
                        b0[k]
                    },
            decreases xe - i,
        {
            render_cell(buf, grid, theme, i, j);
            i = i + 1;
        }
        j = j + 1;
    }
    proof {
        assert forall|k: int| 0 <= k < b0.len() implies buf@[k] == (if crate::grid::in_block(
            cx as int,
            cy as int,
            cs as int,
            cell_col(n, k),
            cell_row(n, k),
        ) {
            theme_color(*theme, grid.spec_get(cell_col(n, k), cell_row(n, k)))
        } else {
            b0[k]
        }) by {
            lemma_pix_decomp(n, k);
        }
    }
}

} // verus!
