use sandfall::grid::Grid;
use sandfall::material::Material;
use sandfall::render::{
    render_cell, render_cells, render_cursor, render_emitter, render_grid, unrender_cursor,
};
use sandfall::theme::{Theme, ThemeId};

fn pix(side: usize, row: usize, col: usize) -> usize {
    row * side * 16 + col
}

#[test]
fn theme_lookup_returns_the_sandshell_colours() {
    let t = Theme::get(ThemeId::Sandshell);
    assert_eq!(t.0, 0x6b573d);
    assert_eq!(t.1, 0x7a6e5e);
    assert_eq!(t.2, 0xd8ccbb);
}

#[test]
fn render_grid_expands_each_cell_to_its_theme_colour() {
    let mut g = Grid::new(2);
    g.set_block(0, 1, 1, Material::Solid);
    g.set_block(1, 0, 1, Material::Particulate);
    let t = Theme::get(ThemeId::Sandshell);
    let mut buf = vec![123u32; 32 * 32];
    render_grid(&mut buf, &g, &t);
    // Cell (0, 0) is empty.
    assert_eq!(buf[pix(2, 0, 0)], t.0);
    assert_eq!(buf[pix(2, 15, 15)], t.0);
    // Cell (1, 0) is particulate.
    assert_eq!(buf[pix(2, 0, 16)], t.2);
    assert_eq!(buf[pix(2, 15, 31)], t.2);
    // Cell (0, 1) is solid.
    assert_eq!(buf[pix(2, 16, 0)], t.1);
    assert_eq!(buf[pix(2, 31, 15)], t.1);
    // Cell (1, 1) is empty.
    assert_eq!(buf[pix(2, 31, 31)], t.0);
}

#[test]
fn incremental_render_matches_the_full_render() {
    let mut g = Grid::new(5);
    let t = Theme::get(ThemeId::Sandshell);
    let mut full = vec![0u32; 80 * 80];
    let mut incremental = vec![0u32; 80 * 80];
    render_grid(&mut full, &g, &t);
    render_grid(&mut incremental, &g, &t);
    let touched = g.set_block(1, 2, 2, Material::Solid);
    render_grid(&mut full, &g, &t);
    render_cells(&mut incremental, &g, &t, &touched);
    assert_eq!(full, incremental);
}

#[test]
fn render_cell_touches_only_its_block() {
    let mut g = Grid::new(3);
    g.set_block(1, 1, 1, Material::Solid);
    let t = Theme::get(ThemeId::Sandshell);
    let mut buf = vec![7u32; 48 * 48];
    render_cell(&mut buf, &g, &t, 1, 1);
    assert_eq!(buf[pix(3, 16, 16)], t.1);
    assert_eq!(buf[pix(3, 31, 31)], t.1);
    assert_eq!(buf[pix(3, 15, 16)], 7);
    assert_eq!(buf[pix(3, 16, 15)], 7);
    assert_eq!(buf[pix(3, 32, 16)], 7);
}

#[test]
fn emitter_marker_darkens_the_top_block() {
    let g = Grid::new(2);
    let t = Theme::get(ThemeId::Sandshell);
    let mut buf = vec![0u32; 32 * 32];
    render_grid(&mut buf, &g, &t);
    render_emitter(&mut buf, 2, 1);
    assert_eq!(buf[pix(2, 0, 16)], 0);
    assert_eq!(buf[pix(2, 15, 31)], 0);
    // The neighbouring cell keeps its material colour.
    assert_eq!(buf[pix(2, 0, 0)], t.0);
    assert_eq!(buf[pix(2, 16, 16)], t.0);
}

#[test]
fn cursor_outline_draws_a_border_and_leaves_the_interior() {
    let g = Grid::new(2);
    let t = Theme::get(ThemeId::Sandshell);
    let mut buf = vec![0u32; 32 * 32];
    render_grid(&mut buf, &g, &t);
    render_cursor(&mut buf, 2, 0, 0, 1);
    // Two-pixel border on every edge of the one-cell cursor.
    assert_eq!(buf[pix(2, 0, 0)], 0);
    assert_eq!(buf[pix(2, 1, 8)], 0);
    assert_eq!(buf[pix(2, 8, 0)], 0);
    assert_eq!(buf[pix(2, 8, 14)], 0);
    assert_eq!(buf[pix(2, 14, 8)], 0);
    assert_eq!(buf[pix(2, 15, 15)], 0);
    // The interior is not filled.
    assert_eq!(buf[pix(2, 8, 8)], t.0);
    assert_eq!(buf[pix(2, 2, 2)], t.0);
    assert_eq!(buf[pix(2, 13, 13)], t.0);
    // Pixels outside the cursor keep their colour.
    assert_eq!(buf[pix(2, 0, 16)], t.0);
    assert_eq!(buf[pix(2, 16, 0)], t.0);
}

#[test]
fn cursor_at_the_far_corner_stays_inside_the_buffer() {
    let g = Grid::new(2);
    let t = Theme::get(ThemeId::Sandshell);
    let mut buf = vec![0u32; 32 * 32];
    render_grid(&mut buf, &g, &t);
    // A two-cell brush at the last cell hangs past the grid edge; the
    // clamped writes stay on the last column and dropped rows vanish.
    render_cursor(&mut buf, 2, 1, 1, 2);
    assert_eq!(buf[pix(2, 16, 16)], 0);
    assert_eq!(buf[pix(2, 31, 31)], 0);
    assert_eq!(buf[pix(2, 0, 0)], t.0);
}

#[test]
fn unrender_cursor_restores_the_underlying_cells() {
    let mut g = Grid::new(3);
    g.set_block(2, 2, 1, Material::Solid);
    let t = Theme::get(ThemeId::Sandshell);
    let mut plain = vec![0u32; 48 * 48];
    render_grid(&mut plain, &g, &t);
    let mut buf = plain.clone();
    render_cursor(&mut buf, 3, 1, 1, 2);
    assert_ne!(buf, plain);
    unrender_cursor(&mut buf, &g, &t, 1, 1, 2);
    assert_eq!(buf, plain);
}

#[test]
fn unrender_cursor_at_the_edge_clips_to_the_grid() {
    let g = Grid::new(2);
    let t = Theme::get(ThemeId::Sandshell);
    let mut plain = vec![0u32; 32 * 32];
    render_grid(&mut plain, &g, &t);
    let mut buf = plain.clone();
    render_cursor(&mut buf, 2, 1, 1, 2);
    unrender_cursor(&mut buf, &g, &t, 1, 1, 2);
    assert_eq!(buf, plain);
}
