use comfy_core::audio::{
    play_music, play_random_sound, play_sound, play_sound_ex, play_sound_id, play_voice,
    random_sound_name, stop_sound, stop_sound_id, PlaySoundParams, Sound,
};
use comfy_core::assets::{simple_hash, sound_id, SoundIds, TextureHandle};
use comfy_core::global_state::{
    assets_loaded, assets_queued_total, get_fps, get_frame, inc_assets_loaded, inc_assets_queued,
    inc_frame_num, AssetCounters, GlobalState,
};
use comfy_core::input::{
    is_key_down, is_key_pressed, is_key_released, is_mouse_button_down, is_mouse_button_pressed,
    is_mouse_button_released, set_cursor_hidden, set_mouse_locked, KeyCode, MouseButton,
};
use comfy_core::random::{srand, Rng};

#[test]
fn key_down_and_up() {
    let mut s = GlobalState::default();
    assert!(!is_key_down(&s, KeyCode::A));
    s.key_down(KeyCode::A);
    assert!(is_key_down(&s, KeyCode::A));
    assert!(is_key_pressed(&s, KeyCode::A));
    assert!(!is_key_down(&s, KeyCode::B));
    s.key_down(KeyCode::A);
    s.key_up(KeyCode::A);
    assert!(!is_key_down(&s, KeyCode::A));
    assert!(!is_key_pressed(&s, KeyCode::A));
    assert!(!is_key_released(&s, KeyCode::A));
}

#[test]
fn mouse_buttons() {
    let mut s = GlobalState::default();
    s.mouse_button_down(MouseButton::Other(4));
    assert!(is_mouse_button_down(&s, MouseButton::Other(4)));
    assert!(!is_mouse_button_down(&s, MouseButton::Other(5)));
    assert!(is_mouse_button_pressed(&s, MouseButton::Other(4)));
    s.mouse_button_up(MouseButton::Other(4));
    assert!(!is_mouse_button_down(&s, MouseButton::Other(4)));
    assert!(!is_mouse_button_pressed(&s, MouseButton::Other(4)));
    assert!(is_mouse_button_released(&s, MouseButton::Other(4)));
    assert!(!is_mouse_button_released(&s, MouseButton::Left));
}

#[test]
fn cursor_and_lock_flags() {
    let mut s = GlobalState::default();
    set_cursor_hidden(&mut s, true);
    set_mouse_locked(&mut s, true);
    assert!(s.cursor_hidden && s.mouse_locked);
    set_mouse_locked(&mut s, false);
    assert!(s.cursor_hidden && !s.mouse_locked);
}

#[test]
fn frame_counter() {
    let mut s = GlobalState::default();
    assert_eq!(get_frame(&s), 0);
    inc_frame_num(&mut s);
    inc_frame_num(&mut s);
    assert_eq!(get_frame(&s), 2);
    s.fps = 60;
    assert_eq!(get_fps(&s), 60);
}

#[test]
fn asset_counters_wrap() {
    let mut c = AssetCounters::new();
    inc_assets_queued(&mut c, 5);
    inc_assets_loaded(&mut c, 2);
    assert_eq!(assets_queued_total(&c), 5);
    assert_eq!(assets_loaded(&c), 2);
    inc_assets_loaded(&mut c, usize::MAX);
    assert_eq!(assets_loaded(&c), 1);
}

#[test]
fn sound_handles_come_from_the_name_hash() {
    let a = Sound::from_path("boom");
    assert_eq!(a.id, simple_hash("boom"));
    assert_eq!(a, Sound::from_path("boom"));
    assert_ne!(simple_hash("boom"), simple_hash("bang"));
    assert_eq!(TextureHandle::from_path("1px"), TextureHandle::Path(simple_hash("1px")));
    assert_eq!(TextureHandle::key_unchecked("1px"), TextureHandle::from_path("1px"));
}

#[test]
fn sound_lookup_falls_back_to_error() {
    let mut ids = SoundIds::new();
    let boom = ids.register("boom");
    let error = ids.register("error");
    assert_eq!(sound_id(&ids, "boom"), boom);
    assert_eq!(sound_id(&ids, "missing"), error);
}

#[test]
fn play_and_stop_queues() {
    let mut s = GlobalState::default();
    let mut ids = SoundIds::new();
    let boom = ids.register("boom");
    let error = ids.register("error");
    play_sound(&mut s, &ids, "boom");
    play_voice(&mut s, &ids, "nope");
    play_music(&mut s, &ids, "boom");
    play_sound_ex(&mut s, &ids, "boom", PlaySoundParams { looped: true });
    play_sound_id(&mut s, Sound { id: 7 });
    stop_sound(&mut s, &ids, "boom");
    stop_sound_id(&mut s, Sound { id: 8 });
    assert_eq!(s.play_sound_queue, vec![boom, error, boom, boom, Sound { id: 7 }]);
    assert_eq!(s.stop_sound_queue, vec![boom, Sound { id: 8 }]);
}

#[test]
fn random_sound_names() {
    let mut rng = Rng::new();
    srand(&mut rng, 7);
    let mut again = Rng::new();
    srand(&mut again, 7);
    let name = random_sound_name(&mut rng, "hit", 4);
    assert_eq!(name, "hit-2");
    let mut neg = Rng::new();
    srand(&mut neg, 7);
    assert_eq!(random_sound_name(&mut neg, "x", -10), "x--1");
    let mut ids = SoundIds::new();
    let expected = ids.register(&name);
    ids.register("error");
    let mut s = GlobalState::default();
    play_random_sound(&mut s, &ids, &mut again, "hit", 4);
    assert_eq!(s.play_sound_queue, vec![expected]);
}
