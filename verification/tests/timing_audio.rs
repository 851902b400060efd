use comfy_core::assets::SoundIds;
use comfy_core::audio::{play_random_sound_ex, play_sound_id, stop_sound_id, Sound};
use comfy_core::global_state::GlobalState;
use comfy_core::random::{srand, Rng};
use comfy_core::shaders::{gen_render_target, RenderTargetId, RenderTargetIds};
use comfy_core::sound_handles::{
    record_playing, take_handle, take_play_queue, take_stopped_handles, SoundHandles,
};
use comfy_core::task_timer::{
    finish_task, get_duration, start_task, TaskTimer, MAX_DURATION_NANOS,
};

#[test]
fn task_durations_accumulate() {
    let mut timer = TaskTimer::new();
    assert_eq!(get_duration(&timer, "load"), None);
    let g = start_task("load");
    finish_task(&mut timer, g, 1_500);
    assert_eq!(get_duration(&timer, "load"), Some(1_500));
    let g = start_task("load");
    finish_task(&mut timer, g, 250);
    assert_eq!(get_duration(&timer, "load"), Some(1_750));
    assert_eq!(get_duration(&timer, "draw"), None);
    assert_eq!(timer.get_duration("load"), Some(1_750));
}

#[test]
fn task_total_can_reach_the_longest_duration() {
    let mut timer = TaskTimer::new();
    timer.add_elapsed("t", MAX_DURATION_NANOS - 1);
    timer.add_elapsed("t", 1);
    assert_eq!(get_duration(&timer, "t"), Some(MAX_DURATION_NANOS));
    assert_eq!(
        std::time::Duration::MAX.as_nanos(),
        MAX_DURATION_NANOS
    );
}

#[test]
fn render_target_ids_start_after_the_screen() {
    let mut ids = RenderTargetIds::new();
    assert_eq!(gen_render_target(&mut ids, Some("first")), RenderTargetId(1));
    assert_eq!(gen_render_target(&mut ids, None), RenderTargetId(2));
    ids.next = u32::MAX;
    assert_eq!(gen_render_target(&mut ids, None), RenderTargetId(u32::MAX));
    assert_eq!(gen_render_target(&mut ids, None), RenderTargetId(0));
}

#[test]
fn random_sound_ex_gives_the_drawn_variant() {
    let mut rng = Rng::new();
    srand(&mut rng, 7);
    let mut ids = SoundIds::new();
    let expected = ids.register("hit-2");
    ids.register("error");
    assert_eq!(play_random_sound_ex(&ids, &mut rng, "hit", 4), expected);
}

#[test]
fn stopping_takes_the_handles_of_playing_sounds() {
    let mut state = GlobalState::default();
    let mut handles: SoundHandles<&str> = SoundHandles::new();
    let a = Sound { id: 1 };
    let b = Sound { id: 2 };
    let c = Sound { id: 3 };
    assert_eq!(record_playing(&mut handles, a, "a1"), None);
    assert_eq!(record_playing(&mut handles, b, "b1"), None);
    assert_eq!(record_playing(&mut handles, a, "a2"), Some("a1"));
    stop_sound_id(&mut state, c);
    stop_sound_id(&mut state, a);
    stop_sound_id(&mut state, a);
    play_sound_id(&mut state, b);
    let stopped = take_stopped_handles(&mut state, &mut handles);
    assert_eq!(stopped, vec!["a2"]);
    assert!(state.stop_sound_queue.is_empty());
    assert_eq!(state.play_sound_queue, vec![b]);
    assert_eq!(take_play_queue(&mut state), vec![b]);
    assert!(state.play_sound_queue.is_empty());
    assert_eq!(take_handle(&mut handles, b), Some("b1"));
    assert_eq!(take_handle(&mut handles, b), None);
}

#[test]
fn render_target_labels_are_recorded() {
    let mut ids = RenderTargetIds::new();
    let a = gen_render_target(&mut ids, Some("lights"));
    let b = gen_render_target(&mut ids, None);
    assert_eq!(comfy_core::shaders::render_target_label(&ids, a), Some("lights".to_string()));
    assert_eq!(comfy_core::shaders::render_target_label(&ids, b), None);
    assert_eq!(ids.labels.len(), 1);
}

#[test]
fn queueing_sounds_leaves_the_rest_of_the_state() {
    let mut state = GlobalState::default();
    state.cursor_hidden = true;
    state.frame = 42;
    play_sound_id(&mut state, Sound { id: 5 });
    stop_sound_id(&mut state, Sound { id: 6 });
    assert!(state.cursor_hidden);
    assert_eq!(state.frame, 42);
    assert_eq!(state.play_sound_queue, vec![Sound { id: 5 }]);
    assert_eq!(state.stop_sound_queue, vec![Sound { id: 6 }]);
}

#[test]
fn generated_ids_increase() {
    let mut targets = RenderTargetIds::new();
    let ids: Vec<RenderTargetId> = (0..5).map(|_| gen_render_target(&mut targets, None)).collect();
    assert!(ids.windows(2).all(|w| w[0].0 < w[1].0));
    assert!(ids.iter().all(|id| id.0 != 0));
    let mut shaders = comfy_core::shaders::ShaderIds { next: 7 };
    let a = comfy_core::shaders::gen_shader_id(&mut shaders);
    let b = comfy_core::shaders::gen_shader_id(&mut shaders);
    assert!(a.0 < b.0);
    let mut fonts = comfy_core::text::FontHandles { next: 0 };
    let f = comfy_core::text::gen_font_handle(&mut fonts);
    let g = comfy_core::text::gen_font_handle(&mut fonts);
    assert!(f.0 < g.0);
}
