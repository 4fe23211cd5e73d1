use sandfall::grid::Grid;
use sandfall::material::Material;

#[test]
fn fresh_grid_reads_empty_everywhere() {
    let g = Grid::new(39);
    for y in 0..39 {
        for x in 0..39 {
            assert_eq!(g.get(x, y), Material::Empty);
        }
    }
    // Out-of-bounds reads are open space, not errors.
    assert_eq!(g.get(39, 0), Material::Empty);
    assert_eq!(g.get(0, 39), Material::Empty);
    assert_eq!(g.get(1000, 1000), Material::Empty);
}

#[test]
fn set_block_writes_exactly_the_square() {
    let mut g = Grid::new(10);
    let touched = g.set_block(2, 3, 2, Material::Solid);
    for y in 0..10 {
        for x in 0..10 {
            let inside = (2..4).contains(&x) && (3..5).contains(&y);
            let want = if inside { Material::Solid } else { Material::Empty };
            assert_eq!(g.get(x, y), want);
        }
    }
    assert_eq!(touched.len(), 4);
    for p in [(2, 3), (3, 3), (2, 4), (3, 4)] {
        assert!(touched.contains(&p));
    }
}

#[test]
fn set_block_clips_to_grid_bounds() {
    let mut g = Grid::new(10);
    let touched = g.set_block(8, 8, 5, Material::Solid);
    assert_eq!(touched.len(), 4);
    for p in [(8, 8), (9, 8), (8, 9), (9, 9)] {
        assert!(touched.contains(&p));
    }
    assert_eq!(g.get(9, 9), Material::Solid);
    assert_eq!(g.get(7, 8), Material::Empty);
    assert_eq!(g.get(8, 7), Material::Empty);
}

#[test]
fn set_block_outside_grid_is_a_noop() {
    let mut g = Grid::new(10);
    let touched = g.set_block(10, 0, 3, Material::Solid);
    assert!(touched.is_empty());
    for y in 0..10 {
        for x in 0..10 {
            assert_eq!(g.get(x, y), Material::Empty);
        }
    }
}

#[test]
fn set_block_of_size_zero_touches_nothing() {
    let mut g = Grid::new(10);
    let touched = g.set_block(4, 4, 0, Material::Solid);
    assert!(touched.is_empty());
    assert_eq!(g.get(4, 4), Material::Empty);
}

#[test]
fn largest_grid_reads_and_writes_its_far_corner() {
    let mut g = Grid::new(1024);
    assert_eq!(g.get(1023, 1023), Material::Empty);
    g.set_block(1023, 1023, 3, Material::Solid);
    assert_eq!(g.get(1023, 1023), Material::Solid);
    assert_eq!(g.get(1022, 1023), Material::Empty);
}

#[test]
fn clear_material_replaces_only_the_target() {
    let mut g = Grid::new(10);
    g.set_block(1, 1, 1, Material::Particulate);
    g.set_block(5, 5, 2, Material::Solid);
    g.clear_material(Material::Particulate);
    assert_eq!(g.get(1, 1), Material::Empty);
    assert_eq!(g.get(5, 5), Material::Solid);
    assert_eq!(g.get(6, 6), Material::Solid);
}
