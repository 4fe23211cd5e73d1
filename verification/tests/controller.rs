use sandfall::material::Material;
use sandfall::session::{Input, Session, SessionState};

fn idle_input() -> Input {
    Input {
        mouse_x: 0,
        mouse_y: 0,
        left_down: false,
        right_down: false,
        scroll: None,
        play_released: false,
        pause_released: false,
        stop_released: false,
        left_key_down: false,
        right_key_down: false,
    }
}

#[test]
fn left_button_paints_a_solid_brush_square() {
    let mut s = Session::new(39);
    let mut inp = idle_input();
    inp.mouse_x = 5 * 16;
    inp.mouse_y = 6 * 16;
    inp.left_down = true;
    s.handle_input(inp);
    assert_eq!(s.cursor_pos(), (5, 6));
    // Default brush is 8, so cells [5,13) x [6,14) turn solid.
    assert_eq!(s.cell(5, 6), Material::Solid);
    assert_eq!(s.cell(12, 13), Material::Solid);
    assert_eq!(s.cell(13, 6), Material::Empty);
    assert_eq!(s.cell(5, 14), Material::Empty);
    assert_eq!(s.cell(4, 6), Material::Empty);
}

#[test]
fn right_button_erases_with_the_brush() {
    let mut s = Session::new(39);
    s.set_block(0, 0, 20, Material::Solid);
    let mut inp = idle_input();
    inp.mouse_x = 2 * 16;
    inp.mouse_y = 2 * 16;
    inp.right_down = true;
    s.handle_input(inp);
    assert_eq!(s.cell(2, 2), Material::Empty);
    assert_eq!(s.cell(9, 9), Material::Empty);
    assert_eq!(s.cell(10, 2), Material::Solid);
    assert_eq!(s.cell(1, 1), Material::Solid);
}

#[test]
fn left_button_wins_over_right_button() {
    let mut s = Session::new(39);
    let mut inp = idle_input();
    inp.left_down = true;
    inp.right_down = true;
    s.handle_input(inp);
    assert_eq!(s.cell(0, 0), Material::Solid);
}

#[test]
fn pointer_is_clamped_to_the_last_cell() {
    let mut s = Session::new(39);
    let mut inp = idle_input();
    inp.mouse_x = 100000;
    inp.mouse_y = 39 * 16;
    s.handle_input(inp);
    assert_eq!(s.cursor_pos(), (38, 38));
}

#[test]
fn wheel_up_grows_the_brush_by_one_step() {
    let mut s = Session::new(39);
    let mut inp = idle_input();
    inp.scroll = Some(true);
    s.handle_input(inp);
    assert_eq!(s.brush_size(), 10);
}

#[test]
fn wheel_down_never_takes_the_brush_below_its_floor() {
    let mut s = Session::new(39);
    let mut inp = idle_input();
    inp.scroll = Some(false);
    for _ in 0..10 {
        s.handle_input(inp);
        assert!(s.brush_size() >= 2);
    }
    assert_eq!(s.brush_size(), 2);
}

#[test]
fn a_held_button_suppresses_the_wheel() {
    let mut s = Session::new(39);
    let mut inp = idle_input();
    inp.left_down = true;
    inp.scroll = Some(true);
    s.handle_input(inp);
    assert_eq!(s.brush_size(), 8);
}

#[test]
fn directional_keys_never_push_the_emitter_off_the_grid() {
    let mut s = Session::new(39);
    let mut left = idle_input();
    left.left_key_down = true;
    for _ in 0..50 {
        s.handle_input(left);
        assert!(s.emitter() < 39);
    }
    assert_eq!(s.emitter(), 0);
    let mut right = idle_input();
    right.right_key_down = true;
    for _ in 0..50 {
        s.handle_input(right);
        assert!(s.emitter() < 39);
    }
    assert_eq!(s.emitter(), 38);
}

#[test]
fn left_key_wins_over_right_key_until_the_boundary() {
    let mut s = Session::new(39);
    let mut both = idle_input();
    both.left_key_down = true;
    both.right_key_down = true;
    s.handle_input(both);
    assert_eq!(s.emitter(), 18);
    // At column zero the left key no longer applies, so the right key
    // moves the emitter back up.
    for _ in 0..30 {
        s.handle_input(both);
    }
    assert_eq!(s.emitter(), 0);
    s.handle_input(both);
    assert_eq!(s.emitter(), 1);
}

#[test]
fn mode_keys_win_over_directional_keys() {
    let mut s = Session::new(39);
    let mut inp = idle_input();
    inp.play_released = true;
    inp.left_key_down = true;
    let mode_changed = s.handle_input(inp);
    assert!(mode_changed);
    assert_eq!(s.state(), SessionState::Playing);
    assert_eq!(s.emitter(), 19);
}

#[test]
fn play_pause_stop_sequence_switches_modes() {
    let mut s = Session::new(39);
    let mut play = idle_input();
    play.play_released = true;
    s.handle_input(play);
    assert_eq!(s.state(), SessionState::Playing);
    let mut pause = idle_input();
    pause.pause_released = true;
    s.handle_input(pause);
    assert_eq!(s.state(), SessionState::Paused);
    let mut stop = idle_input();
    stop.stop_released = true;
    s.handle_input(stop);
    assert_eq!(s.state(), SessionState::Stopped);
}

#[test]
fn play_wins_when_several_mode_keys_release_together() {
    let mut s = Session::new(39);
    let mut inp = idle_input();
    inp.play_released = true;
    inp.pause_released = true;
    inp.stop_released = true;
    s.handle_input(inp);
    assert_eq!(s.state(), SessionState::Playing);
}
