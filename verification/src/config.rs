//! Window resolution settings and developer switches.

use vstd::prelude::*;

verus! {

/// The window resolution, in physical or logical pixels.
#[derive(Copy, Clone, Debug)]
pub enum ResolutionConfig {
    Physical(u32, u32),
    Logical(u32, u32),
}

/// The width of a resolution.
pub open spec fn res_width(r: ResolutionConfig) -> u32 {
    match r {
        ResolutionConfig::Physical(w, _) => w,
        ResolutionConfig::Logical(w, _) => w,
    }
}

/// The height of a resolution.
pub open spec fn res_height(r: ResolutionConfig) -> u32 {
    match r {
        ResolutionConfig::Physical(_, h) => h,
        ResolutionConfig::Logical(_, h) => h,
    }
}

/// A resolution with both sides set to 1 when either is 0.
pub open spec fn non_zero(r: ResolutionConfig) -> ResolutionConfig {
    match r {
        ResolutionConfig::Physical(w, h) => if w == 0 || h == 0 {
            ResolutionConfig::Physical(1, 1)
        } else {
            r
        },
        ResolutionConfig::Logical(w, h) => if w == 0 || h == 0 {
            ResolutionConfig::Logical(1, 1)
        } else {
            r
        },
    }
}

impl ResolutionConfig {
    pub fn width(&self) -> (w: u32)
        ensures
            w == res_width(*self),
    {
        match self {
            Self::Physical(w, _) => *w,
            Self::Logical(w, _) => *w,
        }
    }

    pub fn height(&self) -> (h: u32)
        ensures
            h == res_height(*self),
    {
        match self {
            Self::Physical(_, h) => *h,
            Self::Logical(_, h) => *h,
        }
    }

    /// Replaces a resolution with a zero side by the minimum window size 1x1
    /// (keeping the kind), and returns the result.
    pub fn ensure_non_zero(&mut self) -> (r: ResolutionConfig)
        ensures
            *final(self) == non_zero(*old(self)),
            r == non_zero(*old(self)),
    {
        let min_window_size: u32 = 1;
        match self {
            ResolutionConfig::Physical(w, h) => {
                if *w == 0 || *h == 0 {
                    *w = min_window_size;
                    *h = min_window_size;
                }
            },
            ResolutionConfig::Logical(w, h) => {
                if *w == 0 || *h == 0 {
                    *w = min_window_size;
                    *h = min_window_size;
                }
            },
        }
        *self
    }
}

/// How the game is being recorded.
#[derive(Copy, Clone, Debug, PartialEq, Eq, Structural)]
pub enum RecordingMode {
    /// Not recording.
    Off,
    Tiktok,
    Landscape,
}

/// Developer switches.
#[derive(Copy, Clone, Debug)]
pub struct DevConfig {
    pub show_lighting_config: bool,
    pub show_buffers: bool,
    pub show_fps: bool,
    pub show_editor: bool,
    pub show_tiktok_overlay: bool,
    pub log_collisions: bool,
    pub show_ai_target: bool,
    pub show_linear_acc_target: bool,
    pub show_angular_acc_target: bool,
    pub draw_colliders: bool,
    pub draw_collision_marks: bool,
    pub show_debug_bullets: bool,
    pub orig_props: bool,
    pub collider_outlines: bool,
    pub show_debug: bool,
    pub recording_mode: RecordingMode,
}

impl Default for DevConfig {
    /// Everything off but `orig_props`, recording in landscape.
    fn default() -> (c: DevConfig)
        ensures
            c == (DevConfig {
                show_lighting_config: false,
                show_buffers: false,
                show_fps: false,
                show_editor: false,
                show_tiktok_overlay: false,
                log_collisions: false,
                show_ai_target: false,
                show_linear_acc_target: false,
                show_angular_acc_target: false,
                draw_colliders: false,
                draw_collision_marks: false,
                show_debug_bullets: false,
                orig_props: true,
                collider_outlines: false,
                show_debug: false,
                recording_mode: RecordingMode::Landscape,
            }),
    {
        DevConfig {
            show_lighting_config: false,
            show_buffers: false,
            show_editor: false,
            log_collisions: false,
            show_ai_target: false,
            show_linear_acc_target: false,
            show_angular_acc_target: false,
            show_tiktok_overlay: false,
            show_debug_bullets: false,
            show_fps: false,
            draw_colliders: false,
            draw_collision_marks: false,
            collider_outlines: false,
            orig_props: true,
            show_debug: false,
            recording_mode: RecordingMode::Landscape,
        }
    }
}

/// After `ensure_non_zero` both sides are at least 1, the kind of resolution
/// is kept, and a second call changes nothing.
pub proof fn law_ensure_non_zero(r: ResolutionConfig)
    ensures
        res_width(non_zero(r)) >= 1,
        res_height(non_zero(r)) >= 1,
        non_zero(non_zero(r)) == non_zero(r),
        (r is Physical) == (non_zero(r) is Physical),
        res_width(r) >= 1 && res_height(r) >= 1 ==> non_zero(r) == r,
{
}

} // verus!
