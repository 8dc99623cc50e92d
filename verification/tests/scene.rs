use asset_baker::animation::{find_frame_count, BakedTag};
use asset_baker::scene::{
    background_tile, Actions, Buttons, Overlay, Scene, BORDER_TILE, DEFAULT_FRAME_COUNT,
    MAP_HEIGHT, MAP_WIDTH, MISSING_TILE, SCREEN_HEIGHT, SCREEN_WIDTH, SPRITE_SIZE,
    TICKS_PER_FRAME,
};

const IDLE: Buttons =
    Buttons { right: false, left: false, up: false, down: false, start: false, a: false };

fn scene(frame_count: usize) -> Scene {
    Scene::new(frame_count).expect("the animation has frames")
}

fn entry(name: &str, frame_count: u128) -> BakedTag {
    BakedTag { name: name.to_string(), frame_count }
}

#[test]
fn the_constants_are_those_of_the_console() {
    assert_eq!(SCREEN_WIDTH, 240);
    assert_eq!(SCREEN_HEIGHT, 160);
    assert_eq!(SPRITE_SIZE, 16);
    assert_eq!(MAP_WIDTH, 30);
    assert_eq!(MAP_HEIGHT, 20);
    assert_eq!(BORDER_TILE, 7);
    assert_eq!(MISSING_TILE, 1);
    assert_eq!(TICKS_PER_FRAME, 16);
    assert_eq!(DEFAULT_FRAME_COUNT, 1);
}

#[test]
fn the_scene_starts_in_the_middle_of_the_screen() {
    let start = scene(4);
    assert_eq!(start.x(), 112);
    assert_eq!(start.y(), 72);
    assert!(!start.flipped());
    assert!(!start.overlay_shown());
}

#[test]
fn an_animation_without_frames_has_no_scene() {
    assert!(Scene::new(0).is_none());
    assert!(Scene::new(usize::MAX).is_none());
    assert!(Scene::new(usize::MAX / 16 + 1).is_none());
    assert!(Scene::new(usize::MAX / 16).is_some());
    assert!(Scene::new(1).is_some());
}

#[test]
fn an_idle_frame_moves_nothing_but_the_animation() {
    let mut now = scene(4);
    let actions = now.step(IDLE);
    assert_eq!(actions, Actions { frame: 0, overlay: Overlay::Keep, play_sound: false });
    assert_eq!((now.x(), now.y()), (112, 72));
    assert!(!now.flipped());
    assert!(!now.overlay_shown());
}

#[test]
fn a_held_direction_moves_the_sprite_by_one_pixel() {
    let mut now = scene(1);
    now.step(Buttons { right: true, ..IDLE });
    assert_eq!((now.x(), now.y()), (113, 72));
    now.step(Buttons { down: true, ..IDLE });
    assert_eq!((now.x(), now.y()), (113, 73));
    now.step(Buttons { left: true, ..IDLE });
    assert_eq!((now.x(), now.y()), (112, 73));
    now.step(Buttons { up: true, ..IDLE });
    assert_eq!((now.x(), now.y()), (112, 72));
    now.step(Buttons { right: true, up: true, ..IDLE });
    assert_eq!((now.x(), now.y()), (113, 71));
}

#[test]
fn the_sprite_stays_on_the_screen() {
    let mut now = scene(1);
    for _ in 0..300 {
        now.step(Buttons { right: true, down: true, ..IDLE });
    }
    assert_eq!((now.x(), now.y()), (224, 144));
    for _ in 0..300 {
        now.step(Buttons { left: true, up: true, ..IDLE });
    }
    assert_eq!((now.x(), now.y()), (0, 0));
}

#[test]
fn opposite_directions_cancel_away_from_the_edges() {
    let mut now = scene(1);
    now.step(Buttons { right: true, left: true, up: true, down: true, ..IDLE });
    assert_eq!((now.x(), now.y()), (112, 72));
    assert!(now.flipped());
}

#[test]
fn opposite_directions_at_an_edge() {
    let mut now = scene(1);
    for _ in 0..300 {
        now.step(Buttons { right: true, down: true, ..IDLE });
    }
    now.step(Buttons { right: true, left: true, up: true, down: true, ..IDLE });
    assert_eq!((now.x(), now.y()), (223, 144));
    for _ in 0..300 {
        now.step(Buttons { left: true, up: true, ..IDLE });
    }
    now.step(Buttons { right: true, left: true, up: true, down: true, ..IDLE });
    assert_eq!((now.x(), now.y()), (0, 1));
}

#[test]
fn the_sprite_faces_the_way_of_its_last_step_to_the_side() {
    let mut now = scene(1);
    now.step(Buttons { left: true, ..IDLE });
    assert!(now.flipped());
    now.step(Buttons { up: true, ..IDLE });
    assert!(now.flipped());
    now.step(Buttons { right: true, ..IDLE });
    assert!(!now.flipped());
    for _ in 0..300 {
        now.step(Buttons { left: true, ..IDLE });
    }
    assert!(now.flipped());
    assert_eq!(now.x(), 0);
    now.step(Buttons { right: true, ..IDLE });
    assert!(!now.flipped());
    for _ in 0..300 {
        now.step(Buttons { right: true, ..IDLE });
    }
    now.step(Buttons { left: true, ..IDLE });
    assert!(now.flipped());
    now.step(Buttons { right: true, ..IDLE });
    assert!(!now.flipped());
    now.step(Buttons { right: true, ..IDLE });
    assert_eq!(now.x(), 224);
    assert!(!now.flipped());
}

#[test]
fn a_step_that_has_no_room_does_not_turn_the_sprite() {
    let mut now = scene(1);
    for _ in 0..300 {
        now.step(Buttons { left: true, ..IDLE });
    }
    now.step(Buttons { right: true, ..IDLE });
    now.step(Buttons { left: true, ..IDLE });
    assert_eq!(now.x(), 0);
    assert!(now.flipped());
    now.step(Buttons { right: true, ..IDLE });
    now.step(Buttons { left: true, ..IDLE });
    now.step(Buttons { right: true, ..IDLE });
    assert!(!now.flipped());
    now.step(Buttons { left: true, ..IDLE });
    assert_eq!(now.x(), 0);
    now.step(Buttons { left: true, ..IDLE });
    assert!(now.flipped());
}

#[test]
fn each_frame_of_the_animation_stays_for_sixteen_ticks() {
    let mut now = scene(3);
    let mut shown = Vec::new();
    for _ in 0..48 {
        shown.push(now.step(IDLE).frame);
    }
    let mut expected = vec![0; 15];
    expected.extend(vec![1; 16]);
    expected.extend(vec![2; 16]);
    expected.push(0);
    assert_eq!(shown, expected);
    assert_eq!(now.step(IDLE).frame, 0);
}

#[test]
fn an_animation_of_one_frame_always_shows_it() {
    let mut now = scene(1);
    for _ in 0..40 {
        assert_eq!(now.step(IDLE).frame, 0);
    }
}

#[test]
fn start_turns_the_overlay_on_and_off() {
    let mut now = scene(1);
    assert_eq!(now.step(Buttons { start: true, ..IDLE }).overlay, Overlay::Show);
    assert!(now.overlay_shown());
    assert_eq!(now.step(IDLE).overlay, Overlay::Keep);
    assert!(now.overlay_shown());
    assert_eq!(now.step(Buttons { start: true, ..IDLE }).overlay, Overlay::Hide);
    assert!(!now.overlay_shown());
    assert_eq!(now.step(Buttons { start: true, ..IDLE }).overlay, Overlay::Show);
}

#[test]
fn a_plays_the_sound() {
    let mut now = scene(1);
    assert!(now.step(Buttons { a: true, ..IDLE }).play_sound);
    assert!(!now.step(IDLE).play_sound);
    assert!(!now.step(Buttons { start: true, right: true, ..IDLE }).play_sound);
}

#[test]
fn the_background_shows_the_table_inside_the_map() {
    let table: Vec<u16> = (0..600).map(|i| 1000 + i as u16).collect();
    assert_eq!(background_tile(&table, 0, 0), 1000);
    assert_eq!(background_tile(&table, 29, 0), 1029);
    assert_eq!(background_tile(&table, 0, 1), 1030);
    assert_eq!(background_tile(&table, 7, 3), 1097);
    assert_eq!(background_tile(&table, 29, 19), 1599);
}

#[test]
fn the_background_shows_the_border_outside_the_map() {
    let table: Vec<u16> = vec![3; 600];
    assert_eq!(background_tile(&table, -1, 0), 7);
    assert_eq!(background_tile(&table, 0, -1), 7);
    assert_eq!(background_tile(&table, 30, 0), 7);
    assert_eq!(background_tile(&table, 0, 20), 7);
    assert_eq!(background_tile(&table, i32::MAX, i32::MAX), 7);
    assert_eq!(background_tile(&table, i32::MIN, i32::MIN), 7);
    assert_eq!(background_tile(&table, 5, i32::MAX), 7);
}

#[test]
fn the_background_shows_the_missing_tile_where_the_table_ends() {
    let table: Vec<u16> = vec![3, 4, 5];
    assert_eq!(background_tile(&table, 2, 0), 5);
    assert_eq!(background_tile(&table, 3, 0), 1);
    assert_eq!(background_tile(&table, 0, 1), 1);
    assert_eq!(background_tile(&vec![], 0, 0), 1);
    assert_eq!(background_tile(&vec![], 30, 0), 7);
}

#[test]
fn the_first_entry_with_the_name_gives_the_frame_count() {
    let table = vec![entry("Idle", 1), entry("Run", 2), entry("Run", 4), entry("Sprite1", 6)];
    assert_eq!(find_frame_count(&table, "Run"), Some(2));
    assert_eq!(find_frame_count(&table, "Idle"), Some(1));
    assert_eq!(find_frame_count(&table, "Sprite1"), Some(6));
}

#[test]
fn a_name_that_no_entry_has_gives_no_frame_count() {
    let table = vec![entry("Idle", 1), entry("Run", 2)];
    assert_eq!(find_frame_count(&table, "Jump"), None);
    assert_eq!(find_frame_count(&table, "run"), None);
    assert_eq!(find_frame_count(&table, ""), None);
    assert_eq!(find_frame_count(&vec![], "Run"), None);
}

#[test]
fn a_scene_takes_the_length_of_its_animation_from_the_table() {
    let table = vec![entry("Idle", 1), entry("Sprite1", 2), entry("Sprite1", 5)];
    assert_eq!(Scene::for_animation(&table, "Sprite1"), Scene::new(2));
    assert_eq!(Scene::for_animation(&table, "Idle"), Scene::new(1));
    let mut now = Scene::for_animation(&table, "Sprite1").expect("Sprite1 has two frames");
    let mut shown = Vec::new();
    for _ in 0..32 {
        shown.push(now.step(IDLE).frame);
    }
    let mut expected = vec![0; 15];
    expected.extend(vec![1; 16]);
    expected.push(0);
    assert_eq!(shown, expected);
}

#[test]
fn an_animation_that_the_table_does_not_list_has_one_frame() {
    let table = vec![entry("Idle", 3)];
    assert_eq!(Scene::for_animation(&table, "Sprite1"), Scene::new(1));
    assert_eq!(Scene::for_animation(&vec![], "Sprite1"), Scene::new(1));
    let mut now = Scene::for_animation(&table, "Sprite1").expect("one frame");
    for _ in 0..40 {
        assert_eq!(now.step(IDLE).frame, 0);
    }
}

#[test]
fn an_animation_too_long_to_run_has_no_scene() {
    let endless = vec![entry("Sprite1", u128::MAX), entry("Sprite1", 2)];
    assert_eq!(Scene::for_animation(&endless, "Sprite1"), None);
    let wide = vec![entry("Sprite1", 18_446_744_073_709_551_616)];
    assert_eq!(Scene::for_animation(&wide, "Sprite1"), None);
    let long = vec![entry("Sprite1", usize::MAX as u128)];
    assert_eq!(Scene::for_animation(&long, "Sprite1"), None);
    let empty = vec![entry("Sprite1", 0)];
    assert_eq!(Scene::for_animation(&empty, "Sprite1"), None);
}
