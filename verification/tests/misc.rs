use comfy_core::canvas::{blit_source_pixel, block_coord, blood_block_world_size, circle_offsets};
use comfy_core::config::{DevConfig, RecordingMode, ResolutionConfig};
use comfy_core::errors::{clear_error, report_error, Errors};
use comfy_core::fmt::SemanticVer;
use comfy_core::geometry::{isplat, usplat, IRect, IVec2, Spritesheet, UVec2};
use comfy_core::params::GlobalParams;
use comfy_core::perf_counters::{
    get_perf_counter, perf_counter, perf_counter_inc, perf_counters_new_frame, reset_perf_counters,
    PerfCounters,
};
use comfy_core::screenshot::{bgra_to_rgba, record_screenshot, ScreenshotParams};
use comfy_core::text::{gen_font_handle, simple_styled_text, FontHandle, FontHandles};
use std::collections::VecDeque;

#[test]
fn resolution_accessors() {
    let r = ResolutionConfig::Physical(1920, 1080);
    assert_eq!((r.width(), r.height()), (1920, 1080));
    let l = ResolutionConfig::Logical(3, 4);
    assert_eq!((l.width(), l.height()), (3, 4));
}

#[test]
fn resolution_zero_sides_become_one() {
    let mut r = ResolutionConfig::Logical(0, 720);
    let out = r.ensure_non_zero();
    assert!(matches!(out, ResolutionConfig::Logical(1, 1)));
    assert!(matches!(r, ResolutionConfig::Logical(1, 1)));
    let mut p = ResolutionConfig::Physical(800, 600);
    assert!(matches!(p.ensure_non_zero(), ResolutionConfig::Physical(800, 600)));
}

#[test]
fn dev_config_defaults() {
    let d = DevConfig::default();
    assert!(d.orig_props);
    assert!(!d.show_fps && !d.show_debug && !d.draw_colliders);
    assert_eq!(d.recording_mode, RecordingMode::Landscape);
}

#[test]
fn errors_report_and_clear() {
    let mut e = Errors::new();
    report_error(&mut e, "net", "disconnected");
    report_error(&mut e, "net", "timeout");
    report_error(&mut e, "disk", "full");
    assert_eq!(e.data.get(&"net".to_string()), Some(&"timeout".to_string()));
    clear_error(&mut e, "net");
    assert_eq!(e.data.get(&"net".to_string()), None);
    assert_eq!(e.data.get(&"disk".to_string()), Some(&"full".to_string()));
    clear_error(&mut e, "never-reported");
    assert!(e.data.contains_key(&"disk".to_string()));
}

#[test]
fn perf_counters_count() {
    let mut p = PerfCounters::new();
    assert_eq!(get_perf_counter(&p, "draws"), 0);
    perf_counter(&mut p, "draws", 5);
    perf_counter_inc(&mut p, "draws", 3);
    perf_counter_inc(&mut p, "meshes", 1);
    assert_eq!(get_perf_counter(&p, "draws"), 8);
    assert_eq!(get_perf_counter(&p, "meshes"), 1);
    perf_counters_new_frame(&mut p);
    assert_eq!(get_perf_counter(&p, "draws"), 0);
    assert!(p.counters.contains_key(&"draws".to_string()));
    reset_perf_counters(&mut p);
    assert!(!p.counters.contains_key(&"draws".to_string()));
}

#[test]
fn global_params_ints_and_flags() {
    let mut g = GlobalParams::new();
    assert_eq!(g.get_int("physics_substeps"), 8);
    assert_eq!(g.get_int("nope"), 0);
    g.set_int("bloom_alg", 2);
    g.set_int("nope", 5);
    assert_eq!(g.get_int("bloom_alg"), 2);
    assert_eq!(g.get_int("nope"), 0);
    assert!(g.flag("additive-blending"));
    assert!(!g.flag("wireframe"));
    g.toggle_flag("wireframe");
    g.toggle_flag("additive-blending");
    assert!(g.flag("wireframe"));
    assert!(!g.flag("additive-blending"));
    g.flag_set("wireframe", false);
    assert!(!g.flag("wireframe"));
}

#[test]
fn semantic_version_text() {
    let v = SemanticVer { major: 0, minor: 12, patch: 305 };
    assert_eq!(v.to_string(), "v0.12.305");
}

#[test]
fn splats() {
    assert_eq!(isplat(-3), IVec2 { x: -3, y: -3 });
    assert_eq!(usplat(7), UVec2 { x: 7, y: 7 });
}

#[test]
fn spritesheet_frames() {
    let sheet = Spritesheet { rows: 2, columns: 3 };
    assert_eq!(sheet.next_frame(4, true), (5, false));
    assert_eq!(sheet.next_frame(5, true), (0, true));
    assert_eq!(sheet.next_frame(5, false), (0, false));
    let r = sheet.frame_rect(UVec2 { x: 90, y: 40 }, 4);
    assert_eq!(r, IRect::new(IVec2 { x: 30, y: 20 }, IVec2 { x: 30, y: 20 }));
    let past_the_end = sheet.frame_rect(UVec2 { x: 90, y: 40 }, 7);
    assert_eq!(past_the_end, IRect::new(IVec2 { x: 30, y: 40 }, IVec2 { x: 30, y: 20 }));
}

#[test]
fn canvas_blocks() {
    assert_eq!(blood_block_world_size(), 64);
    assert_eq!(block_coord(0), (0, 0));
    assert_eq!(block_coord(1500), (1, 476));
    assert_eq!(block_coord(-1), (-1, 1023));
    assert_eq!(block_coord(-1024), (-1, 0));
    assert_eq!(block_coord(-1025), (-2, 1023));
}

#[test]
fn circle_pixels() {
    assert_eq!(circle_offsets(0), vec![]);
    assert_eq!(circle_offsets(1), vec![(0, 0)]);
    assert_eq!(circle_offsets(2).len(), 9);
}

#[test]
fn blit_reads_flipped_pixels() {
    let rect = IRect::new(IVec2 { x: 10, y: 20 }, IVec2 { x: 4, y: 3 });
    assert_eq!(blit_source_pixel(rect, 0, 0, false, true), (10, 20));
    assert_eq!(blit_source_pixel(rect, 0, 0, true, true), (13, 20));
    assert_eq!(blit_source_pixel(rect, 1, 0, false, false), (11, 22));
}

#[test]
fn screenshot_history_keeps_every_nth() {
    let mut p = ScreenshotParams::default();
    p.screenshot_interval_n = 2;
    p.history_length = 2;
    let mut h: VecDeque<u32> = VecDeque::new();
    for frame in 0..7u32 {
        record_screenshot(&mut p, &mut h, frame);
    }
    assert_eq!(h, VecDeque::from(vec![4, 6]));
    assert_eq!(p.counter, 7);
}

#[test]
fn bgra_swizzle() {
    assert_eq!(bgra_to_rgba(&[1, 2, 3, 4, 5, 6, 7, 8, 9]), vec![3, 2, 1, 4, 7, 6, 5, 8]);
}

#[test]
fn styled_text_markup() {
    let r = simple_styled_text("a*bc*");
    assert_eq!(r.clean_text, "abc");
    let styles: Vec<(char, bool, bool)> = r.styled_glyphs.iter().map(|g| (g.char, g.wiggle, g.highlight)).collect();
    assert_eq!(styles, vec![('a', false, false), ('b', true, true), ('c', false, false)]);
    let r2 = simple_styled_text("**");
    assert_eq!(r2.clean_text, "*");
    assert!(r2.styled_glyphs[0].wiggle);
}

#[test]
fn font_handles_count_up() {
    let mut h = FontHandles { next: 0 };
    assert_eq!(gen_font_handle(&mut h), FontHandle(0));
    assert_eq!(gen_font_handle(&mut h), FontHandle(1));
}

#[test]
fn zero_length_history_still_keeps_the_newest() {
    let mut p = ScreenshotParams::default();
    p.history_length = 0;
    let mut h: VecDeque<u32> = VecDeque::new();
    record_screenshot(&mut p, &mut h, 1);
    record_screenshot(&mut p, &mut h, 2);
    assert_eq!(h, VecDeque::from(vec![1, 2]));
}

#[test]
fn line_strip_indices() {
    let mut v = vec![99];
    comfy_core::geometry::push_line_strip_indices(&mut v, 4, 2);
    assert_eq!(v, vec![99, 4, 5, 6, 6, 5, 7, 8, 9, 10, 10, 9, 11]);
    let mut w = Vec::new();
    comfy_core::geometry::push_line_strip_indices(&mut w, u32::MAX - 3, 1);
    assert_eq!(w, vec![u32::MAX - 3, u32::MAX - 2, u32::MAX - 1, u32::MAX - 1, u32::MAX - 2, u32::MAX]);
}

#[test]
fn fan_and_ring_indices() {
    assert_eq!(comfy_core::geometry::fan_triangle_indices(3), vec![0, 1, 2, 0, 2, 3, 0, 3, 4]);
    assert!(comfy_core::geometry::fan_triangle_indices(0).is_empty());
    assert_eq!(
        comfy_core::geometry::ring_quad_indices(2),
        vec![0, 1, 2, 1, 2, 3, 4, 5, 6, 5, 6, 7]
    );
}

#[test]
fn texture_source_rects_count_rows_from_the_bottom() {
    let whole = comfy_core::geometry::texture_source_rect(None, 64, 32);
    assert_eq!(whole, IRect::new(IVec2 { x: 0, y: 0 }, IVec2 { x: 64, y: 32 }));
    let part = comfy_core::geometry::texture_source_rect(Some(IRect::new(IVec2 { x: 8, y: 4 }, IVec2 { x: 16, y: 10 })), 64, 32);
    assert_eq!(part, IRect::new(IVec2 { x: 8, y: 18 }, IVec2 { x: 16, y: 10 }));
}
