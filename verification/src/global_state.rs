//! The engine state shared by the engine's parts: input sets, the
//! frame counter, the sound queues and the asset counters.

use vstd::prelude::*;
use crate::input::{KeySet, ButtonSet};
use crate::audio::Sound;

verus! {

/// Input, frame and sound-queue state of the engine.
pub struct GlobalState {
    pub mouse_locked: bool,
    pub cursor_hidden: bool,
    pub frame: u32,
    pub fps: i32,
    pub pressed: KeySet,
    pub just_pressed: KeySet,
    pub just_released: KeySet,
    pub mouse_pressed: ButtonSet,
    pub mouse_just_pressed: ButtonSet,
    pub mouse_just_released: ButtonSet,
    pub play_sound_queue: Vec<Sound>,
    pub stop_sound_queue: Vec<Sound>,
}

impl Default for GlobalState {
    fn default() -> (s: GlobalState)
        ensures
            !s.mouse_locked,
            !s.cursor_hidden,
            s.frame == 0,
            s.fps == 0,
            s.pressed@.is_empty(),
            s.just_pressed@.is_empty(),
            s.just_released@.is_empty(),
            s.mouse_pressed@.is_empty(),
            s.mouse_just_pressed@.is_empty(),
            s.mouse_just_released@.is_empty(),
            s.play_sound_queue@.len() == 0,
            s.stop_sound_queue@.len() == 0,
    {
        GlobalState {
            mouse_locked: false,
            cursor_hidden: false,
            frame: 0,
            fps: 0,
            pressed: KeySet::new(),
            just_pressed: KeySet::new(),
            just_released: KeySet::new(),
            mouse_pressed: ButtonSet::new(),
            mouse_just_pressed: ButtonSet::new(),
            mouse_just_released: ButtonSet::new(),
            play_sound_queue: Vec::new(),
            stop_sound_queue: Vec::new(),
        }
    }
}

/// The frames per second last measured.
pub fn get_fps(state: &GlobalState) -> (fps: i32)
    ensures
        fps == state.fps,
{
    state.fps
}

/// The number of the current frame.
pub fn get_frame(state: &GlobalState) -> (frame: u32)
    ensures
        frame == state.frame,
{
    state.frame
}

/// Advances the frame counter by one.
pub fn inc_frame_num(state: &mut GlobalState)
    requires
        old(state).frame < u32::MAX,
    ensures
        *final(state) == (GlobalState { frame: (old(state).frame + 1) as u32, ..*old(state) }),
{
    state.frame = state.frame + 1;
}

/// Counters of the parallel asset loader.
pub struct AssetCounters {
    pub queued: usize,
    pub loaded: usize,
}

impl AssetCounters {
    /// Both counters at zero.
    pub fn new() -> (c: AssetCounters)
        ensures
            c.queued == 0,
            c.loaded == 0,
    {
        AssetCounters { queued: 0, loaded: 0 }
    }
}

/// Returns the total number of assets queued for loading by the parallel asset
/// loader: not the number in the queue, but the total that were ever pushed into it.
pub fn assets_queued_total(counters: &AssetCounters) -> (n: usize)
    ensures
        n == counters.queued,
{
    counters.queued
}

/// Adds `inc_amount` to the number of queued assets (wrapping, as an atomic add does).
pub fn inc_assets_queued(counters: &mut AssetCounters, inc_amount: usize)
    ensures
        final(counters).queued == old(counters).queued.wrapping_add(inc_amount),
        final(counters).loaded == old(counters).loaded,
{
    counters.queued = counters.queued.wrapping_add(inc_amount);
}

/// Returns the total number of assets loaded by the parallel asset loader.
pub fn assets_loaded(counters: &AssetCounters) -> (n: usize)
    ensures
        n == counters.loaded,
{
    counters.loaded
}

/// Adds `newly_loaded_count` to the number of loaded assets (wrapping, as an atomic add does).
pub fn inc_assets_loaded(counters: &mut AssetCounters, newly_loaded_count: usize)
    ensures
        final(counters).loaded == old(counters).loaded.wrapping_add(newly_loaded_count),
        final(counters).queued == old(counters).queued,
{
    counters.loaded = counters.loaded.wrapping_add(newly_loaded_count);
}

} // verus!
