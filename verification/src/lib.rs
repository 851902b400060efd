//! Core logic of a small 2D game engine: its pseudo-random number
//! generator, input state, shader and render-target bookkeeping, render
//! queues, sound queues and playback handles, asset load queues, the blood
//! canvas, named counters and task timers, and the integer helpers the
//! renderer uses.

use vstd::prelude::*;

pub mod random;
pub mod vec_ext;
pub mod input;
pub mod global_state;
pub mod audio;
pub mod str_map;
pub mod fmt;
pub mod assets;
pub mod shaders;
pub mod config;
pub mod text;
pub mod errors;
pub mod perf_counters;
pub mod params;
pub mod geometry;
pub mod canvas;
pub mod screenshot;
pub mod strings;
pub mod shader_map;
pub mod render_queues;
pub mod task_timer;
pub mod sound_handles;
pub mod blood_canvas;
pub mod asset_queues;

verus! {

} // verus!
