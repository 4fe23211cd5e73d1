use vstd::prelude::*;

use crate::material::Material;

verus! {

/// Smallest accepted grid side length. A side of at least two keeps the
/// spawn row strictly above the floor row.
pub const SIDE_MIN: usize = 2;

/// Largest accepted grid side length; keeps every cell and pixel index
/// comfortably inside `usize` on any platform.
pub const SIDE_MAX: usize = 1024;

/// True when `(i, j)` lies in the `size`-by-`size` square whose top-left
/// corner is `(x, y)`.
pub open spec fn in_block(x: int, y: int, size: int, i: int, j: int) -> bool {
    x <= i < x + size && y <= j < y + size
}

/// A cell index `y * side + x` stays inside a `side * side` cell vector.
pub proof fn lemma_cell_index(side: int, x: int, y: int)
    by (nonlinear_arith)
    requires
        0 <= x < side,
        0 <= y < side,
    ensures
        0 <= y * side + x < side * side,
{
}

/// Distinct in-bounds cells map to distinct indices in the cell vector.
pub proof fn lemma_cell_index_injective(side: int, x1: int, y1: int, x2: int, y2: int)
    by (nonlinear_arith)
    requires
        0 <= x1 < side,
        0 <= y1 < side,
        0 <= x2 < side,
        0 <= y2 < side,
    ensures
        y1 * side + x1 == y2 * side + x2 <==> (x1 == x2 && y1 == y2),
{
}

/// The square of a side length bounded by `SIDE_MAX` fits in a `usize`.
pub proof fn lemma_side_square_bound(side: int)
    by (nonlinear_arith)
    requires
        0 <= side <= 1024,
    ensures
        side * side <= 0x100000,
{
}

/// One clipped block write, as a relation between the grid before (`pre`)
/// and after (`post`): cells inside both the square and the grid take `m`,
/// and every other cell keeps its material.
pub open spec fn block_write_rel(
    pre: Grid,
    x: int,
    y: int,
    size: int,
    m: Material,
    post: Grid,
) -> bool {
    &&& post.spec_side() == pre.spec_side()
    &&& forall|i: int, j: int|
        #[trigger] post.spec_get(i, j) == if in_block(x, y, size, i, j) && 0 <= i < pre.spec_side()
            && 0 <= j < pre.spec_side() {
            m
        } else {
            pre.spec_get(i, j)
        }
}

/// A cell never written reads `Empty`: a fresh grid reads `Empty`
/// everywhere, and a block write leaves every cell outside its square
/// unchanged — so a cell that no write's square has covered since
/// construction still reads `Empty`.
pub proof fn lemma_unwritten_cell_empty(
    pre: Grid,
    post: Grid,
    x: int,
    y: int,
    size: int,
    m: Material,
    i: int,
    j: int,
)
    requires
        pre.spec_get(i, j) == Material::Empty,
        !in_block(x, y, size, i, j),
        block_write_rel(pre, x, y, size, m, post),
    ensures
        post.spec_get(i, j) == Material::Empty,
{
}

/// Any grid's side length is a machine word, whether or not the grid is
/// well formed.
pub proof fn lemma_side_fits(g: Grid)
    ensures
        0 <= g.spec_side() <= usize::MAX,
{
}

/// A well-formed grid's side length lies between `SIDE_MIN` and `SIDE_MAX`.
pub proof fn lemma_grid_wf_side(g: Grid)
    requires
        g.wf(),
    ensures
        SIDE_MIN <= g.spec_side() <= SIDE_MAX,
{
}

/// A square grid of materials. Every cell defaults to `Empty`; reads outside
/// the grid return `Empty`, and writes outside are dropped silently.
pub struct Grid {
    side: usize,
    cells: Vec<Material>,
}

impl Grid {
    /// The side length the grid was constructed with.
    pub closed spec fn spec_side(self) -> int {
        self.side as int
    }

    /// The material at `(x, y)`: the stored cell inside the grid, `Empty`
    /// anywhere outside it.
    pub closed spec fn spec_get(self, x: int, y: int) -> Material {
        if 0 <= x < self.side && 0 <= y < self.side {
            self.cells@[y * self.side + x]
        } else {
            Material::Empty
        }
    }

    /// Structural invariant: a bounded side length and one stored cell for
    /// every grid position.
    pub closed spec fn wf(self) -> bool {
        &&& SIDE_MIN <= self.side <= SIDE_MAX
        &&& self.cells@.len() == self.side * self.side
    }

    /// Builds a grid with every cell `Empty`.
    pub fn new(side: usize) -> (g: Grid)
        requires
            SIDE_MIN <= side <= SIDE_MAX,
        ensures
            g.wf(),
            g.spec_side() == side,
            forall|x: int, y: int| g.spec_get(x, y) == Material::Empty,
    {
        proof {
            lemma_side_square_bound(side as int);
        }
        let n = side * side;
        let mut cells: Vec<Material> = Vec::new();
        let mut k: usize = 0;
        while k < n
            invariant
                k <= n,
                cells@.len() == k,
                forall|t: int| 0 <= t < k ==> cells@[t] == Material::Empty,
            decreases n - k,
        {
            cells.push(Material::Empty);
            k = k + 1;
        }
        let g = Grid { side, cells };
        proof {
            assert forall|x: int, y: int| g.spec_get(x, y) == Material::Empty by {
                if 0 <= x < side && 0 <= y < side {
                    lemma_cell_index(side as int, x, y);
                }
            }
        }
        g
    }

    /// The side length.
    pub fn side(&self) -> (s: usize)
        ensures
            s == self.spec_side(),
    {
        self.side
    }

    /// Point query: the material at `(x, y)`, `Empty` outside the grid.
    pub fn get(&self, x: usize, y: usize) -> (m: Material)
        requires
            self.wf(),
        ensures
            m == self.spec_get(x as int, y as int),
    {
        if x < self.side && y < self.side {
            proof {
                lemma_cell_index(self.side as int, x as int, y as int);
                lemma_side_square_bound(self.side as int);
            }
            self.cells[y * self.side + x]
        } else {
            Material::Empty
        }
    }

    /// Writes `m` into the `size`-by-`size` square with top-left corner
    /// `(x, y)`, clipped to the grid; cells outside the square or outside the
    /// grid are unchanged. Returns exactly the coordinates written, for
    /// incremental redraw.
    pub fn set_block(&mut self, x: usize, y: usize, size: usize, m: Material) -> (touched: Vec<
        (usize, usize),
    >)
        requires
            old(self).wf(),
        ensures
            final(self).wf(),
            block_write_rel(*old(self), x as int, y as int, size as int, m, *final(self)),
            forall|p: (usize, usize)|
                #[trigger] touched@.contains(p) <==> in_block(
                    x as int,
                    y as int,
                    size as int,
                    p.0 as int,
                    p.1 as int,
                ) && p.0 < old(self).spec_side() && p.1 < old(self).spec_side(),
    {
        let side = self.side;
        let mut touched: Vec<(usize, usize)> = Vec::new();
        if x >= side || y >= side || size == 0 {
            return touched;
        }
        let xe = if size < side - x {
            x + size
        } else {
            side
        };
        let ye = if size < side - y {
            y + size
        } else {
            side
        };
        let ghost g0 = *self;
        let mut j = y;
        while j < ye
            invariant
                self.wf(),
                self.side == g0.side,
                side == self.side,
                x < side,
                y < side,
                y <= j <= ye,
                x < xe <= side,
                xe == if x + size <= side {
                    x + size as int
                } else {
                    side as int
                },
                ye == if y + size <= side {
                    y + size as int
                } else {
                    side as int
                },
                forall|i2: int, j2: int|
                    #[trigger] self.spec_get(i2, j2) == if x <= i2 < xe && y <= j2 < j {
                        m
                    } else {
                        g0.spec_get(i2, j2)
                    },
                forall|p: (usize, usize)|
                    #[trigger] touched@.contains(p) <==> x <= p.0 < xe && y <= p.1 < j,
            decreases ye - j,
        {
            let mut i = x;
            while i < xe
                invariant
                    self.wf(),
                    self.side == g0.side,
                    side == self.side,
                    y <= j < ye,
                    x <= i <= xe,
                    x < xe <= side,
                    ye <= side,
                    forall|i2: int, j2: int|
                        #[trigger] self.spec_get(i2, j2) == if (x <= i2 < xe && y <= j2 < j) || (
                        j2 == j && x <= i2 < i) {
                            m
                        } else {
                            g0.spec_get(i2, j2)
                        },
                    forall|p: (usize, usize)|
                        #[trigger] touched@.contains(p) <==> (x <= p.0 < xe && y <= p.1 < j) || (
                        p.1 == j && x <= p.0 < i),
                decreases xe - i,
            {
                proof {
                    lemma_cell_index(side as int, i as int, j as int);
                    lemma_side_square_bound(side as int);
                }
                let ghost pre = *self;
                let ghost tpre = touched@;
                self.cells[j * side + i] = m;
                touched.push((i, j));
                proof {
                    assert forall|i2: int, j2: int|
                        #[trigger] self.spec_get(i2, j2) == if (x <= i2 < xe && y <= j2 < j) || (
                        j2 == j && x <= i2 < i + 1) {
                            m
                        } else {
                            g0.spec_get(i2, j2)
                        } by {
                        if 0 <= i2 < side && 0 <= j2 < side {
                            lemma_cell_index(side as int, i2, j2);
                            lemma_cell_index_injective(side as int, i2, j2, i as int, j as int);
                            assert(pre.spec_get(i2, j2) == if (x <= i2 < xe && y <= j2 < j) || (j2
                                == j && x <= i2 < i) {
                                m
                            } else {
                                g0.spec_get(i2, j2)
                            });
                        }
                    }
                    assert forall|p: (usize, usize)| #[trigger]
                        touched@.contains(p) <==> ((x <= p.0 < xe && y <= p.1 < j) || (p.1 == j && x
                        <= p.0 < i + 1)) by {
                        assert(touched@ == tpre.push((i, j)));
                        if touched@.contains(p) {
                            let t = choose|t: int| 0 <= t < touched@.len() && touched@[t] == p;
                            if t < tpre.len() {
                                assert(tpre.contains(p));
                            }
                        }
                        if (x <= p.0 < xe && y <= p.1 < j) || (p.1 == j && x <= p.0 < i + 1) {
                            if p == ((i, j)) {
                                assert(touched@[touched@.len() - 1] == p);
                                assert(touched@.contains(p));
                            } else {
                                assert(tpre.contains(p));
                                let t = choose|t: int| 0 <= t < tpre.len() && tpre[t] == p;
                                assert(touched@[t] == p);
                                assert(touched@.contains(p));
                            }
                        }
                    }
                }
                i = i + 1;
            }
            j = j + 1;
        }
        touched
    }

    /// Replaces every cell whose material equals `target` with `Empty`;
    /// every other cell is unchanged.
    pub fn clear_material(&mut self, target: Material)
        requires
            old(self).wf(),
        ensures
            final(self).wf(),
            final(self).spec_side() == old(self).spec_side(),
            forall|i: int, j: int|
                #[trigger] final(self).spec_get(i, j) == if old(self).spec_get(i, j) == target {
                    Material::Empty
                } else {
                    old(self).spec_get(i, j)
                },
    {
        let side = self.side;
        let ghost g0 = *self;
        let mut j: usize = 0;
        while j < side
            invariant
                self.wf(),
                self.side == g0.side,
                side == self.side,
                j <= side,
                forall|i2: int, j2: int|
                    #[trigger] self.spec_get(i2, j2) == if j2 < j && g0.spec_get(i2, j2) == target {
                        Material::Empty
                    } else {
                        g0.spec_get(i2, j2)
                    },
            decreases side - j,
        {
            let mut i: usize = 0;
            while i < side
                invariant
                    self.wf(),
                    self.side == g0.side,
                    side == self.side,
                    j < side,
                    i <= side,
                    forall|i2: int, j2: int|
                        #[trigger] self.spec_get(i2, j2) == if (j2 < j || (j2 == j && i2 < i))
                            && g0.spec_get(i2, j2) == target {
                            Material::Empty
                        } else {
                            g0.spec_get(i2, j2)
                        },
                decreases side - i,
            {
                proof {
                    lemma_cell_index(side as int, i as int, j as int);
                    lemma_side_square_bound(side as int);
                }
                let ghost pre = *self;
                if self.cells[j * side + i] == target {
                    self.cells[j * side + i] = Material::Empty;
                }
                proof {
                    assert forall|i2: int, j2: int|
                        #[trigger] self.spec_get(i2, j2) == if (j2 < j || (j2 == j && i2 < i + 1))
                            && g0.spec_get(i2, j2) == target {
                            Material::Empty
                        } else {
                            g0.spec_get(i2, j2)
                        } by {
                        if 0 <= i2 < side && 0 <= j2 < side {
                            lemma_cell_index(side as int, i2, j2);
                            lemma_cell_index_injective(side as int, i2, j2, i as int, j as int);
                            assert(pre.spec_get(i2, j2) == if (j2 < j || (j2 == j && i2 < i))
                                && g0.spec_get(i2, j2) == target {
                                Material::Empty
                            } else {
                                g0.spec_get(i2, j2)
                            });
                        }
                    }
                }
                i = i + 1;
            }
            j = j + 1;
        }
    }
}

} // verus!
