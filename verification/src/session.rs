use vstd::prelude::*;

use crate::grid::{Grid, in_block, SIDE_MAX, SIDE_MIN};
use crate::material::Material;

verus! {

/// Smallest brush side length: repeated decrements never go below it.
pub const BRUSH_MIN: usize = 2;

/// One wheel step changes the brush side length by this much.
pub const BRUSH_STEP: usize = 2;

/// Largest brush side length; a larger brush would paint no further cells,
/// since block writes are clipped to the grid.
pub const BRUSH_MAX: usize = 1024;

/// Brush side length of a fresh session.
pub const BRUSH_INIT: usize = 8;

/// The session mode: `Stopped` accepts edits only, `Paused` freezes the
/// falling particle in place, `Playing` advances gravity each iteration.
#[derive(Clone, Copy, PartialEq, Eq, Structural, Debug)]
pub enum SessionState {
    Stopped,
    Paused,
    Playing,
}

/// The grid coordinate of the one particulate unit currently in motion.
#[derive(Clone, Copy, PartialEq, Eq, Structural, Debug)]
pub struct Particle {
    pub x: usize,
    pub y: usize,
}

/// One snapshot of user input, already reduced to plain values: pointer
/// position in buffer pixels, button and key states, and the wheel gesture
/// (`Some(true)` for a step up, `Some(false)` for a step down).
#[derive(Clone, Copy, Debug)]
pub struct Input {
    pub mouse_x: usize,
    pub mouse_y: usize,
    pub left_down: bool,
    pub right_down: bool,
    pub scroll: Option<bool>,
    pub play_released: bool,
    pub pause_released: bool,
    pub stop_released: bool,
    pub left_key_down: bool,
    pub right_key_down: bool,
}

/// The column a particle at `(x, y)` falls to in row `y + 1`: straight down
/// when that cell is empty, else down-left, else down-right, the diagonal
/// candidates collapsing to straight down at the grid's side columns.
/// `None` when every candidate is occupied and the particle settles.
pub open spec fn fall_dest(g: Grid, x: int, y: int) -> Option<int> {
    if g.spec_get(x, y + 1) == Material::Empty {
        Some(x)
    } else if x > 0 && g.spec_get(x - 1, y + 1) == Material::Empty {
        Some(x - 1)
    } else if x + 1 < g.spec_side() && g.spec_get(x + 1, y + 1) == Material::Empty {
        Some(x + 1)
    } else {
        None
    }
}

/// The session mode a snapshot commands, if any: play wins over pause,
/// pause over stop.
pub open spec fn mode_command(inp: Input) -> Option<SessionState> {
    if inp.play_released {
        Some(SessionState::Playing)
    } else if inp.pause_released {
        Some(SessionState::Paused)
    } else if inp.stop_released {
        Some(SessionState::Stopped)
    } else {
        None
    }
}

/// The session mode after one input step.
pub open spec fn state_after(st: SessionState, inp: Input) -> SessionState {
    match mode_command(inp) {
        Some(s) => s,
        None => st,
    }
}

/// The brush side length after one input step: held buttons take precedence
/// over the wheel; a step up is capped at `BRUSH_MAX`, a step down is taken
/// only when it keeps the brush at `BRUSH_MIN` or more.
pub open spec fn brush_after(size: int, inp: Input) -> int {
    if inp.left_down || inp.right_down {
        size
    } else if inp.scroll == Some(true) {
        if size + BRUSH_STEP <= BRUSH_MAX {
            size + BRUSH_STEP
        } else {
            size
        }
    } else if inp.scroll == Some(false) {
        if size - BRUSH_STEP >= BRUSH_MIN {
            size - BRUSH_STEP
        } else {
            size
        }
    } else {
        size
    }
}

/// The emitter column after one input step: a mode command suppresses the
/// directional keys; otherwise the left key moves the column towards zero
/// while it is above zero, else the right key moves it towards the last
/// column while it is below it.
pub open spec fn emitter_after(e: int, side: int, inp: Input) -> int {
    if mode_command(inp) is Some {
        e
    } else if inp.left_key_down && e > 0 {
        e - 1
    } else if inp.right_key_down && e + 1 < side {
        e + 1
    } else {
        e
    }
}

/// The grid cell the pointer pixel coordinate `m` lies over, clamped to the
/// last cell of a grid with the given side length.
pub open spec fn pointer_cell(m: int, side: int) -> int {
    if m / (crate::render::CELL_WIDTH as int) < side {
        m / (crate::render::CELL_WIDTH as int)
    } else {
        side - 1
    }
}

/// The material of cell `(i, j)` after the edit an input snapshot commands:
/// a held left button paints `Solid`, else a held right button paints
/// `Empty`, over the brush square at the pointer's cell, clipped to the
/// grid; all other cells keep their material.
pub open spec fn edited_cell(
    g: Grid,
    inp: Input,
    cx: int,
    cy: int,
    brush: int,
    i: int,
    j: int,
) -> Material {
    if inp.left_down && in_block(cx, cy, brush, i, j) && 0 <= i < g.spec_side() && 0 <= j
        < g.spec_side() {
        Material::Solid
    } else if !inp.left_down && inp.right_down && in_block(cx, cy, brush, i, j) && 0 <= i
        < g.spec_side() && 0 <= j < g.spec_side() {
        Material::Empty
    } else {
        g.spec_get(i, j)
    }
}

/// The material of cell `(i, j)` after one whole input step: the edit above,
/// then — when the snapshot commands a stop — every particulate cell
/// cleared.
pub open spec fn cell_after_input(
    g: Grid,
    inp: Input,
    cx: int,
    cy: int,
    brush: int,
    i: int,
    j: int,
) -> Material {
    let e = edited_cell(g, inp, cx, cy, brush, i, j);
    if mode_command(inp) == Some(SessionState::Stopped) && e == Material::Particulate {
        Material::Empty
    } else {
        e
    }
}

/// An interactive falling-sand session: the grid, the session mode, the one
/// particle in flight, the emitter column, and the cursor (cell position and
/// brush size).
pub struct Session {
    grid: Grid,
    state: SessionState,
    particle: Option<Particle>,
    emitter: usize,
    cursor_x: usize,
    cursor_y: usize,
    cursor_size: usize,
}

impl Session {
    /// The grid owned by the session.
    pub closed spec fn spec_grid(self) -> Grid {
        self.grid
    }

    /// The grid's side length.
    pub open spec fn spec_side(self) -> int {
        self.spec_grid().spec_side()
    }

    /// The session mode.
    pub closed spec fn spec_state(self) -> SessionState {
        self.state
    }

    /// The particle currently in flight, if any.
    pub closed spec fn spec_particle(self) -> Option<Particle> {
        self.particle
    }

    /// The emitter column.
    pub closed spec fn spec_emitter(self) -> usize {
        self.emitter
    }

    /// The cursor's cell column.
    pub closed spec fn spec_cursor_x(self) -> usize {
        self.cursor_x
    }

    /// The cursor's cell row.
    pub closed spec fn spec_cursor_y(self) -> usize {
        self.cursor_y
    }

    /// The brush side length.
    pub closed spec fn spec_brush(self) -> usize {
        self.cursor_size
    }

    /// Session invariant: a well-formed grid, the emitter and the cursor
    /// inside the grid, the brush between its floor and cap, and any
    /// in-flight particle inside the grid and strictly above the floor row.
    pub closed spec fn wf(self) -> bool {
        &&& self.grid.wf()
        &&& self.emitter < self.grid.spec_side()
        &&& self.cursor_x < self.grid.spec_side()
        &&& self.cursor_y < self.grid.spec_side()
        &&& BRUSH_MIN <= self.cursor_size <= BRUSH_MAX
        &&& match self.particle {
            Some(p) => p.x < self.grid.spec_side() && p.y + 1 < self.grid.spec_side(),
            None => true,
        }
    }

    /// The centre column of a grid with the given side length.
    pub fn centre(side: usize) -> (c: usize)
        requires
            1 <= side <= SIDE_MAX,
        ensures
            c == (side + 1) / 2 - 1,
            c < side,
    {
        (side + 1) / 2 - 1
    }

    /// Builds a stopped session over an empty grid: no particle in flight,
    /// the emitter at the centre column, the cursor at the origin with the
    /// initial brush size.
    pub fn new(side: usize) -> (s: Session)
        requires
            SIDE_MIN <= side <= SIDE_MAX,
        ensures
            s.wf(),
            s.spec_side() == side,
            s.spec_state() == SessionState::Stopped,
            s.spec_particle() == Option::<Particle>::None,
            s.spec_emitter() == (side + 1) / 2 - 1,
            s.spec_cursor_x() == 0,
            s.spec_cursor_y() == 0,
            s.spec_brush() == BRUSH_INIT,
            forall|i: int, j: int| s.spec_grid().spec_get(i, j) == Material::Empty,
    {
        let grid = Grid::new(side);
        let emitter = Self::centre(side);
        Session {
            grid,
            state: SessionState::Stopped,
            particle: None,
            emitter,
            cursor_x: 0,
            cursor_y: 0,
            cursor_size: BRUSH_INIT,
        }
    }

    /// Everything one gravity step leaves or changes, as a relation between
    /// the session before (`pre`) and after (`post`):
    /// - with no particle in flight and an empty spawn cell, a particle
    ///   spawns at `(emitter, 0)` and that cell becomes particulate;
    /// - with no particle in flight and an occupied spawn cell, the spawn is
    ///   deferred and nothing changes;
    /// - with a particle at `(x, y)` and an empty candidate below, the
    ///   particle moves to the first empty candidate, the old cell clears,
    ///   the new cell becomes particulate, and a move into the floor row
    ///   lands the particle;
    /// - with every candidate occupied, the particle settles in place and
    ///   only the in-flight marker clears.
    pub open spec fn gravity_rel(pre: Session, post: Session) -> bool {
        &&& post.spec_side() == pre.spec_side()
        &&& post.spec_state() == pre.spec_state()
        &&& post.spec_emitter() == pre.spec_emitter()
        &&& post.spec_cursor_x() == pre.spec_cursor_x()
        &&& post.spec_cursor_y() == pre.spec_cursor_y()
        &&& post.spec_brush() == pre.spec_brush()
        &&& match pre.spec_particle() {
            None => {
                if pre.spec_grid().spec_get(pre.spec_emitter() as int, 0) == Material::Empty {
                    &&& post.spec_particle() == Some(Particle { x: pre.spec_emitter(), y: 0 })
                    &&& forall|i: int, j: int|
                        #[trigger] post.spec_grid().spec_get(i, j) == if i == pre.spec_emitter()
                            && j == 0 {
                            Material::Particulate
                        } else {
                            pre.spec_grid().spec_get(i, j)
                        }
                } else {
                    &&& post.spec_particle() == Option::<Particle>::None
                    &&& forall|i: int, j: int|
                        #[trigger] post.spec_grid().spec_get(i, j) == pre.spec_grid().spec_get(
                            i,
                            j,
                        )
                }
            },
            Some(p) => {
                match fall_dest(pre.spec_grid(), p.x as int, p.y as int) {
                    Some(nx) => {
                        &&& post.spec_particle() == (if p.y + 2 == pre.spec_side() {
                            Option::<Particle>::None
                        } else {
                            Some(Particle { x: nx as usize, y: (p.y + 1) as usize })
                        })
                        &&& forall|i: int, j: int|
                            #[trigger] post.spec_grid().spec_get(i, j) == if i == nx && j == p.y
                                + 1 {
                                Material::Particulate
                            } else if i == p.x && j == p.y {
                                Material::Empty
                            } else {
                                pre.spec_grid().spec_get(i, j)
                            }
                    },
                    None => {
                        &&& post.spec_particle() == Option::<Particle>::None
                        &&& forall|i: int, j: int|
                            #[trigger] post.spec_grid().spec_get(i, j) == pre.spec_grid().spec_get(
                                i,
                                j,
                            )
                    },
                }
            },
        }
    }

    /// Advances the gravity rule by one tick: spawns a particle when none is
    /// in flight, otherwise moves it to the first empty candidate below or
    /// settles it.
    pub fn gravity_step(&mut self)
        requires
            old(self).wf(),
        ensures
            final(self).wf(),
            Self::gravity_rel(*old(self), *final(self)),
    {
        proof {
            crate::grid::lemma_grid_wf_side(old(self).spec_grid());
        }
        match self.particle {
            None => {
                if matches!(self.grid.get(self.emitter, 0), Material::Empty) {
                    let _touched = self.grid.set_block(
                        self.emitter,
                        0,
                        1,
                        Material::Particulate,
                    );
                    self.particle = Some(Particle { x: self.emitter, y: 0 });
                }
            },
            Some(p) => {
                let side = self.grid.side();
                let y2 = p.y + 1;
                let c1 = if p.x > 0 {
                    p.x - 1
                } else {
                    p.x
                };
                let c2 = if p.x + 1 < side {
                    p.x + 1
                } else {
                    p.x
                };
                let nx = if matches!(self.grid.get(p.x, y2), Material::Empty) {
                    Some(p.x)
                } else if matches!(self.grid.get(c1, y2), Material::Empty) {
                    Some(c1)
                } else if matches!(self.grid.get(c2, y2), Material::Empty) {
                    Some(c2)
                } else {
                    None
                };
                match nx {
                    Some(n) => {
                        let _cleared = self.grid.set_block(p.x, p.y, 1, Material::Empty);
                        let _set = self.grid.set_block(n, y2, 1, Material::Particulate);
                        if y2 + 1 == side {
                            self.particle = None;
                        } else {
                            self.particle = Some(Particle { x: n, y: y2 });
                        }
                    },
                    None => {
                        self.particle = None;
                    },
                }
            },
        }
    }

    /// Switches the session to `Playing`; nothing else changes.
    pub fn play(&mut self)
        requires
            old(self).wf(),
        ensures
            final(self).wf(),
            final(self).spec_state() == SessionState::Playing,
            final(self).spec_grid() == old(self).spec_grid(),
            final(self).spec_particle() == old(self).spec_particle(),
            final(self).spec_emitter() == old(self).spec_emitter(),
            final(self).spec_cursor_x() == old(self).spec_cursor_x(),
            final(self).spec_cursor_y() == old(self).spec_cursor_y(),
            final(self).spec_brush() == old(self).spec_brush(),
    {
        self.state = SessionState::Playing;
    }

    /// Switches the session to `Paused`; the falling particle, if any, is
    /// frozen in place and nothing else changes.
    pub fn pause(&mut self)
        requires
            old(self).wf(),
        ensures
            final(self).wf(),
            final(self).spec_state() == SessionState::Paused,
            final(self).spec_grid() == old(self).spec_grid(),
            final(self).spec_particle() == old(self).spec_particle(),
            final(self).spec_emitter() == old(self).spec_emitter(),
            final(self).spec_cursor_x() == old(self).spec_cursor_x(),
            final(self).spec_cursor_y() == old(self).spec_cursor_y(),
            final(self).spec_brush() == old(self).spec_brush(),
    {
        self.state = SessionState::Paused;
    }

    /// Switches the session to `Stopped`: the in-flight particle is cleared
    /// and every particulate cell becomes empty, so no particulate survives
    /// a stop.
    pub fn stop(&mut self)
        requires
            old(self).wf(),
        ensures
            final(self).wf(),
            final(self).spec_state() == SessionState::Stopped,
            final(self).spec_particle() == Option::<Particle>::None,
            final(self).spec_side() == old(self).spec_side(),
            forall|i: int, j: int|
                #[trigger] final(self).spec_grid().spec_get(i, j) == if old(
                    self,
                ).spec_grid().spec_get(i, j) == Material::Particulate {
                    Material::Empty
                } else {
                    old(self).spec_grid().spec_get(i, j)
                },
            forall|i: int, j: int|
                #[trigger] final(self).spec_grid().spec_get(i, j) != Material::Particulate,
            final(self).spec_emitter() == old(self).spec_emitter(),
            final(self).spec_cursor_x() == old(self).spec_cursor_x(),
            final(self).spec_cursor_y() == old(self).spec_cursor_y(),
            final(self).spec_brush() == old(self).spec_brush(),
    {
        self.particle = None;
        self.grid.clear_material(Material::Particulate);
        self.state = SessionState::Stopped;
    }

    /// Everything one input step leaves or changes, as a relation between
    /// the session before (`pre`) and after (`post`): the cursor follows the
    /// pointer, the grid takes the commanded edit (and loses its particulate
    /// on a stop), the brush and the emitter move within their bounds, and a
    /// mode command switches the state (a stop also clearing the in-flight
    /// particle).
    pub open spec fn input_rel(pre: Session, inp: Input, post: Session) -> bool {
        let side = pre.spec_side();
        let cx = pointer_cell(inp.mouse_x as int, side);
        let cy = pointer_cell(inp.mouse_y as int, side);
        &&& post.spec_side() == side
        &&& post.spec_cursor_x() == cx
        &&& post.spec_cursor_y() == cy
        &&& post.spec_brush() == brush_after(pre.spec_brush() as int, inp)
        &&& post.spec_state() == state_after(pre.spec_state(), inp)
        &&& post.spec_particle() == (if mode_command(inp) == Some(SessionState::Stopped) {
            Option::<Particle>::None
        } else {
            pre.spec_particle()
        })
        &&& post.spec_emitter() == emitter_after(pre.spec_emitter() as int, side, inp)
        &&& forall|i: int, j: int|
            #[trigger] post.spec_grid().spec_get(i, j) == cell_after_input(
                pre.spec_grid(),
                inp,
                cx,
                cy,
                pre.spec_brush() as int,
                i,
                j,
            )
    }

    /// Applies one input snapshot: moves the cursor to the pointer's cell,
    /// paints or erases with the brush while a button is held, resizes the
    /// brush on a wheel gesture, switches the mode on a mode command, and
    /// moves the emitter on a held directional key. Returns whether the
    /// snapshot commanded a mode switch (in which case the directional keys
    /// are ignored and the caller skips the gravity tick).
    pub fn handle_input(&mut self, inp: Input) -> (mode_changed: bool)
        requires
            old(self).wf(),
        ensures
            final(self).wf(),
            Self::input_rel(*old(self), inp, *final(self)),
            mode_changed == (mode_command(inp) is Some),
            BRUSH_MIN <= final(self).spec_brush(),
            final(self).spec_emitter() < final(self).spec_side(),
    {
        proof {
            crate::grid::lemma_grid_wf_side(old(self).spec_grid());
        }
        let side = self.grid.side();
        let cx = pointer_cell_exec(inp.mouse_x, side);
        let cy = pointer_cell_exec(inp.mouse_y, side);
        self.cursor_x = cx;
        self.cursor_y = cy;
        if inp.left_down {
            let _touched = self.grid.set_block(cx, cy, self.cursor_size, Material::Solid);
        } else if inp.right_down {
            let _touched = self.grid.set_block(cx, cy, self.cursor_size, Material::Empty);
        } else {
            match inp.scroll {
                Some(up) => {
                    if up {
                        if self.cursor_size + BRUSH_STEP <= BRUSH_MAX {
                            self.cursor_size = self.cursor_size + BRUSH_STEP;
                        }
                    } else {
                        if self.cursor_size >= BRUSH_MIN + BRUSH_STEP {
                            self.cursor_size = self.cursor_size - BRUSH_STEP;
                        }
                    }
                },
                None => {},
            }
        }
        if inp.play_released {
            self.play();
            true
        } else if inp.pause_released {
            self.pause();
            true
        } else if inp.stop_released {
            self.stop();
            true
        } else {
            if inp.left_key_down && self.emitter > 0 {
                self.emitter = self.emitter - 1;
            } else if inp.right_key_down && self.emitter + 1 < side {
                self.emitter = self.emitter + 1;
            }
            false
        }
    }

    /// One whole iteration while the display surface is open: apply the
    /// input snapshot, then — when no mode switch was commanded and the
    /// session is playing — advance gravity by one tick.
    pub fn step(&mut self, inp: Input)
        requires
            old(self).wf(),
        ensures
            final(self).wf(),
            (mode_command(inp) is None && old(self).spec_state() == SessionState::Playing)
                ==> exists|mid: Session|
                #![auto]
                Self::input_rel(*old(self), inp, mid) && Self::gravity_rel(mid, *final(self)),
            !(mode_command(inp) is None && old(self).spec_state() == SessionState::Playing)
                ==> Self::input_rel(*old(self), inp, *final(self)),
    {
        let mode_changed = self.handle_input(inp);
        if !mode_changed && matches!(self.state, SessionState::Playing) {
            let ghost mid = *self;
            self.gravity_step();
            proof {
                assert(Self::input_rel(*old(self), inp, mid));
                assert(Self::gravity_rel(mid, *self));
            }
        }
    }

    /// The session mode.
    pub fn state(&self) -> (st: SessionState)
        ensures
            st == self.spec_state(),
    {
        self.state
    }

    /// The particle currently in flight, if any.
    pub fn particle(&self) -> (p: Option<Particle>)
        ensures
            p == self.spec_particle(),
    {
        self.particle
    }

    /// The emitter column.
    pub fn emitter(&self) -> (e: usize)
        ensures
            e == self.spec_emitter(),
    {
        self.emitter
    }

    /// The cursor's cell position.
    pub fn cursor_pos(&self) -> (pos: (usize, usize))
        ensures
            pos.0 == self.spec_cursor_x(),
            pos.1 == self.spec_cursor_y(),
    {
        (self.cursor_x, self.cursor_y)
    }

    /// The brush side length.
    pub fn brush_size(&self) -> (s: usize)
        ensures
            s == self.spec_brush(),
    {
        self.cursor_size
    }

    /// The grid owned by the session.
    pub fn grid(&self) -> (g: &Grid)
        ensures
            *g == self.spec_grid(),
    {
        &self.grid
    }

    /// Edits the grid directly: writes `m` into the `size`-by-`size` square
    /// with top-left corner `(x, y)`, clipped to the grid, and returns the
    /// touched coordinates for incremental redraw; nothing else changes.
    pub fn set_block(&mut self, x: usize, y: usize, size: usize, m: Material) -> (touched: Vec<
        (usize, usize),
    >)
        requires
            old(self).wf(),
        ensures
            final(self).wf(),
            final(self).spec_side() == old(self).spec_side(),
            final(self).spec_state() == old(self).spec_state(),
            final(self).spec_particle() == old(self).spec_particle(),
            final(self).spec_emitter() == old(self).spec_emitter(),
            final(self).spec_cursor_x() == old(self).spec_cursor_x(),
            final(self).spec_cursor_y() == old(self).spec_cursor_y(),
            final(self).spec_brush() == old(self).spec_brush(),
            crate::grid::block_write_rel(
                old(self).spec_grid(),
                x as int,
                y as int,
                size as int,
                m,
                final(self).spec_grid(),
            ),
            forall|p: (usize, usize)|
                #[trigger] touched@.contains(p) <==> in_block(
                    x as int,
                    y as int,
                    size as int,
                    p.0 as int,
                    p.1 as int,
                ) && p.0 < old(self).spec_side() && p.1 < old(self).spec_side(),
    {
        self.grid.set_block(x, y, size, m)
    }

    /// The material at grid cell `(x, y)`.
    pub fn cell(&self, x: usize, y: usize) -> (m: Material)
        requires
            self.wf(),
        ensures
            m == self.spec_grid().spec_get(x as int, y as int),
    {
        self.grid.get(x, y)
    }
}

/// The grid cell the pointer pixel coordinate `m` lies over, clamped to the
/// grid's last cell.
fn pointer_cell_exec(m: usize, side: usize) -> (c: usize)
    requires
        1 <= side,
    ensures
        c == pointer_cell(m as int, side as int),
        c < side,
{
    let c = m / crate::render::CELL_WIDTH;
    if c < side {
        c
    } else {
        side - 1
    }
}

/// On a grid with nothing beneath it, a particle falls straight down: with
/// every cell empty, the destination of a particle at `(x, y)` is the cell
/// directly below, so its path keeps its column.
pub proof fn lemma_fall_straight_on_empty(g: Grid, x: int, y: int)
    requires
        forall|i: int, j: int| g.spec_get(i, j) == Material::Empty,
    ensures
        fall_dest(g, x, y) == Some(x),
{
    assert(g.spec_get(x, y + 1) == Material::Empty);
}

/// The state the straight-fall law steps through: the particle is in
/// flight at `(c, y)`, its own cell holds the particulate, and every other
/// cell of the grid is empty.
pub open spec fn lone_particle_at(s: Session, c: int, y: int) -> bool {
    &&& s.spec_particle() == Some(Particle { x: c as usize, y: y as usize })
    &&& 0 <= c < s.spec_side()
    &&& 0 <= y
    &&& y + 1 < s.spec_side()
    &&& s.spec_grid().spec_get(c, y) == Material::Particulate
    &&& forall|i: int, j: int|
        !(i == c && j == y) ==> #[trigger] s.spec_grid().spec_get(i, j) == Material::Empty
}

/// On an empty grid a gravity tick spawns the particle at the top row of
/// the emitter column, entering the lone-particle state the straight-fall
/// law descends from.
pub proof fn lemma_spawn_on_empty(pre: Session, post: Session)
    requires
        pre.wf(),
        pre.spec_particle() is None,
        forall|i: int, j: int| pre.spec_grid().spec_get(i, j) == Material::Empty,
        Session::gravity_rel(pre, post),
    ensures
        lone_particle_at(post, pre.spec_emitter() as int, 0),
{
    crate::grid::lemma_grid_wf_side(pre.spec_grid());
    assert(pre.spec_grid().spec_get(pre.spec_emitter() as int, 0) == Material::Empty);
}

/// Over an otherwise empty grid a falling particle keeps its column: each
/// gravity tick moves it straight down one row, still over an otherwise
/// empty grid, and the move into the floor row settles it there — so a
/// particle spawned at column `c` of an empty grid follows the path
/// `(c, 0), (c, 1), ...` down to the last row.
pub proof fn lemma_straight_fall_step(pre: Session, post: Session, c: int, y: int)
    requires
        lone_particle_at(pre, c, y),
        Session::gravity_rel(pre, post),
    ensures
        y + 2 < pre.spec_side() ==> lone_particle_at(post, c, y + 1),
        y + 2 == pre.spec_side() ==> post.spec_particle() is None && post.spec_grid().spec_get(
            c,
            y + 1,
        ) == Material::Particulate,
{
    crate::grid::lemma_side_fits(pre.spec_grid());
    assert((c as usize) as int == c);
    assert((y as usize) as int == y);
    assert(pre.spec_grid().spec_get(c, y + 1) == Material::Empty);
    assert(fall_dest(pre.spec_grid(), c, y) == Some(c));
}

/// Every state along a straight fall is the lone-particle state one row
/// further down: in a chain of gravity ticks that starts from the
/// lone-particle state at `(c, 0)`, state `t` has the particle at `(c, t)`,
/// as long as the floor has not been reached.
pub proof fn lemma_straight_fall_prefix(ss: Seq<Session>, c: int, t: int)
    requires
        ss.len() >= 1,
        lone_particle_at(ss[0], c, 0),
        forall|u: int| 0 <= u < ss.len() - 1 ==> #[trigger] Session::gravity_rel(ss[u], ss[u + 1]),
        0 <= t < ss.len(),
        t + 1 < ss[0].spec_side(),
    ensures
        lone_particle_at(ss[t], c, t),
        ss[t].spec_side() == ss[0].spec_side(),
    decreases t,
{
    if t > 0 {
        lemma_straight_fall_prefix(ss, c, t - 1);
        assert(Session::gravity_rel(ss[t - 1], ss[t - 1 + 1]));
        lemma_straight_fall_step(ss[t - 1], ss[t], c, t - 1);
    }
}

/// A particle spawned over an empty grid falls straight down to the last
/// row: from the lone-particle state at `(c, 0)` on a grid of side `n`, a
/// chain of `n - 1` gravity ticks passes through `(c, 0), (c, 1), ...,
/// (c, n - 2)` and ends settled, with the particulate resting at
/// `(c, n - 1)` and nothing in flight.
pub proof fn lemma_straight_fall_path(ss: Seq<Session>, c: int)
    requires
        ss.len() == ss[0].spec_side(),
        lone_particle_at(ss[0], c, 0),
        forall|u: int| 0 <= u < ss.len() - 1 ==> #[trigger] Session::gravity_rel(ss[u], ss[u + 1]),
    ensures
        forall|t: int| 0 <= t < ss.len() - 1 ==> lone_particle_at(#[trigger] ss[t], c, t),
        ss[ss.len() - 1].spec_particle() is None,
        ss[ss.len() - 1].spec_grid().spec_get(c, ss[0].spec_side() - 1) == Material::Particulate,
{
    let n = ss[0].spec_side();
    assert forall|t: int| 0 <= t < ss.len() - 1 implies lone_particle_at(#[trigger] ss[t], c, t) by {
        lemma_straight_fall_prefix(ss, c, t);
    }
    assert(n >= 2);
    lemma_straight_fall_prefix(ss, c, n - 2);
    assert(Session::gravity_rel(ss[n - 2], ss[n - 2 + 1]));
    lemma_straight_fall_step(ss[n - 2], ss[n - 1], c, n - 2);
}

/// A particle whose straight-down cell is empty moves straight down,
/// whatever lies diagonally below; a move into the floor row settles it.
pub proof fn lemma_gravity_straight_down(pre: Session, post: Session, p: Particle)
    requires
        pre.wf(),
        Session::gravity_rel(pre, post),
        pre.spec_particle() == Some(p),
        pre.spec_grid().spec_get(p.x as int, p.y as int + 1) == Material::Empty,
    ensures
        post.spec_grid().spec_get(p.x as int, p.y as int + 1) == Material::Particulate,
        p.y + 2 < pre.spec_side() ==> post.spec_particle() == Some(
            Particle { x: p.x, y: (p.y + 1) as usize },
        ),
        p.y + 2 == pre.spec_side() ==> post.spec_particle() == Option::<Particle>::None,
{
}

/// Left before right: when the straight-down cell is blocked by a solid but
/// the down-left cell is empty, the particle moves down-left.
pub proof fn lemma_gravity_prefers_left(g: Grid, x: int, y: int)
    requires
        g.spec_get(x, y + 1) == Material::Solid,
        x > 0,
        g.spec_get(x - 1, y + 1) == Material::Empty,
    ensures
        fall_dest(g, x, y) == Some(x - 1),
{
}

/// Settling: with every candidate below occupied, a gravity tick clears the
/// in-flight marker and leaves every grid cell as it was — the particle
/// stays put; and the next tick, finding no particle in flight and an empty
/// spawn cell, spawns a fresh particle at the emitter rather than moving the
/// settled one.
pub proof fn lemma_gravity_settles_then_respawns(s1: Session, s2: Session, s3: Session, p: Particle)
    requires
        s1.wf(),
        s1.spec_particle() == Some(p),
        fall_dest(s1.spec_grid(), p.x as int, p.y as int) is None,
        Session::gravity_rel(s1, s2),
        Session::gravity_rel(s2, s3),
        s2.spec_grid().spec_get(s2.spec_emitter() as int, 0) == Material::Empty,
    ensures
        s2.spec_particle() is None,
        forall|i: int, j: int|
            #[trigger] s2.spec_grid().spec_get(i, j) == s1.spec_grid().spec_get(i, j),
        s3.spec_particle() == Some(Particle { x: s2.spec_emitter(), y: 0 }),
{
}

/// The brush never drops below its floor, however many decrement gestures
/// arrive: one input step started at or above `BRUSH_MIN` ends at or above
/// it.
pub proof fn lemma_brush_floor(size: int, inp: Input)
    requires
        size >= BRUSH_MIN,
    ensures
        brush_after(size, inp) >= BRUSH_MIN,
{
}

/// The emitter never leaves the grid, however many directional commands
/// arrive: one input step started inside `[0, side)` ends inside it.
pub proof fn lemma_emitter_in_bounds(e: int, side: int, inp: Input)
    requires
        0 <= e < side,
    ensures
        0 <= emitter_after(e, side, inp) < side,
{
}

} // verus!
