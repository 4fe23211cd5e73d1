use sandfall::material::Material;
use sandfall::session::{Input, Particle, Session, SessionState};

fn idle_input() -> Input {
    Input {
        mouse_x: 0,
        mouse_y: 0,
        left_down: false,
        right_down: false,
        scroll: None,
        play_released: false,
        pause_released: false,
        stop_released: false,
        left_key_down: false,
        right_key_down: false,
    }
}

#[test]
fn fresh_session_starts_stopped_at_centre() {
    let s = Session::new(39);
    assert_eq!(s.state(), SessionState::Stopped);
    assert_eq!(s.emitter(), 19);
    assert_eq!(s.particle(), None);
    assert_eq!(s.brush_size(), 8);
    assert_eq!(s.cursor_pos(), (0, 0));
}

#[test]
fn particle_falls_straight_down_an_empty_grid() {
    let mut s = Session::new(39);
    s.play();
    s.gravity_step();
    assert_eq!(s.particle(), Some(Particle { x: 19, y: 0 }));
    assert_eq!(s.cell(19, 0), Material::Particulate);
    for y in 1..38 {
        s.gravity_step();
        assert_eq!(s.particle(), Some(Particle { x: 19, y }));
        assert_eq!(s.cell(19, y), Material::Particulate);
        assert_eq!(s.cell(19, y - 1), Material::Empty);
    }
}

#[test]
fn centre_column_lands_in_the_floor_row_after_39_steps() {
    let mut s = Session::new(39);
    s.play();
    for _ in 0..39 {
        s.gravity_step();
    }
    assert_eq!(s.particle(), None);
    assert_eq!(s.cell(19, 38), Material::Particulate);
    // The next tick spawns a fresh particle at the emitter.
    s.gravity_step();
    assert_eq!(s.particle(), Some(Particle { x: 19, y: 0 }));
    assert_eq!(s.cell(19, 0), Material::Particulate);
}

#[test]
fn blocked_straight_down_deflects_left_first() {
    let mut s = Session::new(39);
    s.set_block(19, 1, 1, Material::Solid);
    s.play();
    s.gravity_step();
    assert_eq!(s.particle(), Some(Particle { x: 19, y: 0 }));
    s.gravity_step();
    assert_eq!(s.particle(), Some(Particle { x: 18, y: 1 }));
    assert_eq!(s.cell(18, 1), Material::Particulate);
    assert_eq!(s.cell(19, 0), Material::Empty);
}

#[test]
fn blocked_down_and_left_deflects_right() {
    let mut s = Session::new(39);
    s.set_block(18, 1, 2, Material::Solid);
    s.play();
    s.gravity_step();
    s.gravity_step();
    assert_eq!(s.particle(), Some(Particle { x: 20, y: 1 }));
    assert_eq!(s.cell(20, 1), Material::Particulate);
}

#[test]
fn fully_blocked_particle_settles_in_place() {
    let mut s = Session::new(39);
    s.set_block(18, 1, 3, Material::Solid);
    s.play();
    s.gravity_step();
    assert_eq!(s.particle(), Some(Particle { x: 19, y: 0 }));
    s.gravity_step();
    // All three candidates below are solid: the particle stays put and the
    // in-flight marker clears.
    assert_eq!(s.particle(), None);
    assert_eq!(s.cell(19, 0), Material::Particulate);
    // The settled particle now occupies the spawn cell, so the next spawn
    // is deferred rather than moving the settled unit.
    s.gravity_step();
    assert_eq!(s.particle(), None);
    assert_eq!(s.cell(19, 0), Material::Particulate);
    // Once the emitter moves aside, a fresh particle spawns there.
    let mut right = idle_input();
    right.right_key_down = true;
    s.handle_input(right);
    assert_eq!(s.emitter(), 20);
    s.gravity_step();
    assert_eq!(s.particle(), Some(Particle { x: 20, y: 0 }));
}

#[test]
fn moving_into_the_floor_row_lands_unconditionally() {
    let mut s = Session::new(2);
    assert_eq!(s.emitter(), 0);
    s.play();
    s.gravity_step();
    assert_eq!(s.particle(), Some(Particle { x: 0, y: 0 }));
    s.gravity_step();
    assert_eq!(s.particle(), None);
    assert_eq!(s.cell(0, 1), Material::Particulate);
}

#[test]
fn solid_row_on_the_floor_collects_the_particle_on_its_lip() {
    let mut s = Session::new(39);
    s.set_block(18, 38, 3, Material::Solid);
    assert_eq!(s.cell(18, 38), Material::Solid);
    assert_eq!(s.cell(19, 38), Material::Solid);
    assert_eq!(s.cell(20, 38), Material::Solid);
    assert_eq!(s.cell(17, 38), Material::Empty);
    s.play();
    for _ in 0..38 {
        s.gravity_step();
    }
    assert_eq!(s.particle(), Some(Particle { x: 19, y: 37 }));
    s.gravity_step();
    // At (19, 37) every candidate below is solid, so the particle settles
    // there, on top of the solid row.
    assert_eq!(s.particle(), None);
    assert_eq!(s.cell(19, 37), Material::Particulate);
    assert_eq!(s.cell(18, 37), Material::Empty);
    assert_eq!(s.cell(20, 37), Material::Empty);
}

#[test]
fn stop_clears_every_particulate_cell_and_the_flight() {
    let mut s = Session::new(39);
    s.set_block(10, 10, 2, Material::Solid);
    s.play();
    for _ in 0..45 {
        s.gravity_step();
    }
    assert!(s.particle().is_some() || s.cell(19, 38) == Material::Particulate);
    let mut stop = idle_input();
    stop.stop_released = true;
    let mode_changed = s.handle_input(stop);
    assert!(mode_changed);
    assert_eq!(s.state(), SessionState::Stopped);
    assert_eq!(s.particle(), None);
    for y in 0..39 {
        for x in 0..39 {
            assert_ne!(s.cell(x, y), Material::Particulate);
        }
    }
    assert_eq!(s.cell(10, 10), Material::Solid);
}

#[test]
fn pause_freezes_the_falling_particle() {
    let mut s = Session::new(39);
    s.play();
    for _ in 0..3 {
        s.gravity_step();
    }
    assert_eq!(s.particle(), Some(Particle { x: 19, y: 2 }));
    let mut pause = idle_input();
    pause.pause_released = true;
    s.handle_input(pause);
    assert_eq!(s.state(), SessionState::Paused);
    assert_eq!(s.particle(), Some(Particle { x: 19, y: 2 }));
    // A paused step applies input but never advances gravity.
    s.step(idle_input());
    s.step(idle_input());
    assert_eq!(s.particle(), Some(Particle { x: 19, y: 2 }));
}

#[test]
fn playing_step_advances_gravity_once() {
    let mut s = Session::new(39);
    let mut play = idle_input();
    play.play_released = true;
    s.step(play);
    assert_eq!(s.state(), SessionState::Playing);
    // The mode-changing step itself skips the gravity tick.
    assert_eq!(s.particle(), None);
    s.step(idle_input());
    assert_eq!(s.particle(), Some(Particle { x: 19, y: 0 }));
    s.step(idle_input());
    assert_eq!(s.particle(), Some(Particle { x: 19, y: 1 }));
}
