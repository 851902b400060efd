//! The playback handles of the sounds that are playing, and the bookkeeping
//! done with them when the queues of sounds to stop and to start are
//! processed. The handles themselves come from the audio backend and are
//! carried through unread.

use vstd::prelude::*;
use std::collections::HashMap;
use crate::audio::Sound;
use crate::global_state::GlobalState;

verus! {

broadcast use vstd::std_specs::hash::group_hash_axioms;

/// The live playback handle of each playing sound, by sound id.
pub struct SoundHandles<H> {
    pub handles: HashMap<u64, H>,
}

impl<H> SoundHandles<H> {
    /// No sound is playing.
    pub fn new() -> (s: SoundHandles<H>)
        ensures
            s.handles@ == Map::<u64, H>::empty(),
    {
        SoundHandles { handles: HashMap::new() }
    }
}

/// What stopping the sounds `queue`, in order, does to the handles `m`: the
/// handles left, and the handles taken out (to be stopped), in order. A sound
/// without a handle is passed over.
pub open spec fn stop_run<H>(m: Map<u64, H>, queue: Seq<Sound>) -> (Map<u64, H>, Seq<H>)
    decreases queue.len(),
{
    if queue.len() == 0 {
        (m, Seq::empty())
    } else {
        let (m1, out) = stop_run(m, queue.drop_last());
        let id = queue.last().id;
        if m1.dom().contains(id) {
            (m1.remove(id), out.push(m1[id]))
        } else {
            (m1, out)
        }
    }
}

/// Takes the sound out of the handles, giving back its handle, which is to
/// be stopped; `None` when the sound is not playing.
pub fn take_handle<H>(handles: &mut SoundHandles<H>, sound: Sound) -> (h: Option<H>)
    ensures
        final(handles).handles@ == old(handles).handles@.remove(sound.id),
        old(handles).handles@.dom().contains(sound.id) ==> h == Some(old(handles).handles@[sound.id]),
        !old(handles).handles@.dom().contains(sound.id) ==> h is None,
{
    handles.handles.remove(&sound.id)
}

/// Records that `sound` now plays under `handle`, giving back the handle it
/// had before, if any, which is to be stopped.
pub fn record_playing<H>(handles: &mut SoundHandles<H>, sound: Sound, handle: H) -> (old_handle: Option<H>)
    ensures
        final(handles).handles@ == old(handles).handles@.insert(sound.id, handle),
        old(handles).handles@.dom().contains(sound.id) ==> old_handle == Some(old(handles).handles@[sound.id]),
        !old(handles).handles@.dom().contains(sound.id) ==> old_handle is None,
{
    handles.handles.insert(sound.id, handle)
}

/// Empties the queue of sounds to stop and takes the handles of those sounds
/// that are playing; gives back those handles in queue order, to be stopped.
pub fn take_stopped_handles<H>(state: &mut GlobalState, handles: &mut SoundHandles<H>) -> (stopped: Vec<H>)
    ensures
        final(state).stop_sound_queue@ == Seq::<Sound>::empty(),
        final(state).play_sound_queue@ == old(state).play_sound_queue@,
        *final(state) == (GlobalState { stop_sound_queue: final(state).stop_sound_queue, ..*old(state) }),
        (final(handles).handles@, stopped@) == stop_run(old(handles).handles@, old(state).stop_sound_queue@),
{
    let mut queue: Vec<Sound> = Vec::new();
    std::mem::swap(&mut queue, &mut state.stop_sound_queue);
    let ghost m0 = handles.handles@;
    let mut stopped: Vec<H> = Vec::new();
    let mut i: usize = 0;
    while i < queue.len()
        invariant
            i <= queue@.len(),
            (handles.handles@, stopped@) == stop_run(m0, queue@.take(i as int)),
        decreases queue@.len() - i,
    {
        let sound = queue[i];
        assert(queue@.take(i as int + 1).drop_last() =~= queue@.take(i as int));
        match take_handle(handles, sound) {
            Some(h) => {
                stopped.push(h);
            },
            None => {},
        }
        i = i + 1;
    }
    assert(queue@.take(i as int) =~= queue@);
    stopped
}

/// Empties the queue of sounds to start, giving back its sounds in order.
pub fn take_play_queue(state: &mut GlobalState) -> (queue: Vec<Sound>)
    ensures
        queue@ == old(state).play_sound_queue@,
        final(state).play_sound_queue@ == Seq::<Sound>::empty(),
        final(state).stop_sound_queue@ == old(state).stop_sound_queue@,
        *final(state) == (GlobalState { play_sound_queue: final(state).play_sound_queue, ..*old(state) }),
{
    let mut queue: Vec<Sound> = Vec::new();
    std::mem::swap(&mut queue, &mut state.play_sound_queue);
    queue
}

/// After the stop queue is processed, no sound on it has a handle left, and
/// every handle taken out was the handle of a sound on it.
pub proof fn law_stopped_sounds_have_no_handle<H>(m: Map<u64, H>, queue: Seq<Sound>)
    ensures
        forall|i: int| 0 <= i < queue.len() ==> !(#[trigger] stop_run(m, queue).0.dom().contains(queue[i].id)),
        stop_run(m, queue).0.dom().subset_of(m.dom()),
        forall|k: u64| #[trigger] stop_run(m, queue).0.dom().contains(k) ==> stop_run(m, queue).0[k] == m[k],
        stop_run(m, queue).0.dom().len() + stop_run(m, queue).1.len() == m.dom().len() || !m.dom().finite(),
    decreases queue.len(),
{
    if queue.len() > 0 {
        let q0 = queue.drop_last();
        law_stopped_sounds_have_no_handle(m, q0);
        let (m1, out) = stop_run(m, q0);
        let id = queue.last().id;
        assert forall|i: int| 0 <= i < queue.len() implies !(#[trigger] stop_run(m, queue).0.dom().contains(queue[i].id)) by {
            if i < queue.len() - 1 {
                assert(queue[i] == q0[i]);
                assert(!m1.dom().contains(q0[i].id));
            }
        }
        if m.dom().finite() && m1.dom().contains(id) {
            vstd::set_lib::lemma_set_subset_finite(m.dom(), m1.dom());
            assert(m1.remove(id).dom() =~= m1.dom().remove(id));
        }
    }
}

} // verus!
