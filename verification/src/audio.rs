//! Sounds: the queues of sounds to start and stop, and the functions that
//! put sounds on them by handle or by name.

use vstd::prelude::*;
use crate::global_state::GlobalState;
use crate::assets::{SoundIds, sound_id, sound_for};
use crate::random::{Rng, gen_range, scaled, pcg_output, pcg_step};
use crate::fmt::{push_signed_decimal, signed_decimal, string_push};

verus! {

broadcast use vstd::string::group_string_axioms;

/// Handle of a loaded sound.
#[derive(Copy, Clone, Debug, Eq, PartialEq, Hash, Structural)]
pub struct Sound {
    pub id: u64,
}

/// Options for playing a sound.
#[derive(Copy, Clone, Debug, Default)]
pub struct PlaySoundParams {
    pub looped: bool,
}

/// The mixer track a sound is sent to.
pub enum AudioTrack {
    /// The main output, without the filter.
    Main,
    Filter,
}

/// Queues `sound` to start playing.
pub fn play_sound_id(state: &mut GlobalState, sound: Sound)
    ensures
        final(state).play_sound_queue@ == old(state).play_sound_queue@.push(sound),
        final(state).stop_sound_queue@ == old(state).stop_sound_queue@,
        *final(state) == (GlobalState { play_sound_queue: final(state).play_sound_queue, ..*old(state) }),
{
    state.play_sound_queue.push(sound);
}

/// Queues `sound` to stop playing.
pub fn stop_sound_id(state: &mut GlobalState, sound: Sound)
    ensures
        final(state).stop_sound_queue@ == old(state).stop_sound_queue@.push(sound),
        final(state).play_sound_queue@ == old(state).play_sound_queue@,
        *final(state) == (GlobalState { stop_sound_queue: final(state).stop_sound_queue, ..*old(state) }),
{
    state.stop_sound_queue.push(sound);
}

/// Queues `sound` to start playing; the parameters are not used yet.
pub fn play_sound_id_ex(state: &mut GlobalState, sound: Sound, _params: PlaySoundParams)
    ensures
        final(state).play_sound_queue@ == old(state).play_sound_queue@.push(sound),
        final(state).stop_sound_queue@ == old(state).stop_sound_queue@,
        *final(state) == (GlobalState { play_sound_queue: final(state).play_sound_queue, ..*old(state) }),
{
    play_sound_id(state, sound);
}

/// Queues the music `sound` to start playing; looping is not supported yet.
pub fn play_music_id_ex(state: &mut GlobalState, sound: Sound, _params: PlaySoundParams)
    ensures
        final(state).play_sound_queue@ == old(state).play_sound_queue@.push(sound),
        final(state).stop_sound_queue@ == old(state).stop_sound_queue@,
        *final(state) == (GlobalState { play_sound_queue: final(state).play_sound_queue, ..*old(state) }),
{
    play_sound_id(state, sound);
}

/// Queues the sound named `id` (or the `error` sound when there is none) to start playing.
pub fn play_sound(state: &mut GlobalState, ids: &SoundIds, id: &str)
    requires
        ids.ids@.dom().contains(id@) || ids.ids@.dom().contains("error"@),
    ensures
        final(state).play_sound_queue@ == old(state).play_sound_queue@.push(sound_for(ids.ids@, id@)),
        final(state).stop_sound_queue@ == old(state).stop_sound_queue@,
        *final(state) == (GlobalState { play_sound_queue: final(state).play_sound_queue, ..*old(state) }),
{
    play_sound_id(state, sound_id(ids, id));
}

/// Queues the sound named `id` to start playing; the parameters are not used yet.
pub fn play_sound_ex(state: &mut GlobalState, ids: &SoundIds, id: &str, params: PlaySoundParams)
    requires
        ids.ids@.dom().contains(id@) || ids.ids@.dom().contains("error"@),
    ensures
        final(state).play_sound_queue@ == old(state).play_sound_queue@.push(sound_for(ids.ids@, id@)),
        final(state).stop_sound_queue@ == old(state).stop_sound_queue@,
        *final(state) == (GlobalState { play_sound_queue: final(state).play_sound_queue, ..*old(state) }),
{
    play_sound_id_ex(state, sound_id(ids, id), params);
}

/// Queues the voice line named `id` to start playing.
pub fn play_voice(state: &mut GlobalState, ids: &SoundIds, id: &str)
    requires
        ids.ids@.dom().contains(id@) || ids.ids@.dom().contains("error"@),
    ensures
        final(state).play_sound_queue@ == old(state).play_sound_queue@.push(sound_for(ids.ids@, id@)),
        final(state).stop_sound_queue@ == old(state).stop_sound_queue@,
        *final(state) == (GlobalState { play_sound_queue: final(state).play_sound_queue, ..*old(state) }),
{
    play_sound_id(state, sound_id(ids, id));
}

/// Queues the music named `id` to start playing.
pub fn play_music(state: &mut GlobalState, ids: &SoundIds, id: &str)
    requires
        ids.ids@.dom().contains(id@) || ids.ids@.dom().contains("error"@),
    ensures
        final(state).play_sound_queue@ == old(state).play_sound_queue@.push(sound_for(ids.ids@, id@)),
        final(state).stop_sound_queue@ == old(state).stop_sound_queue@,
        *final(state) == (GlobalState { play_sound_queue: final(state).play_sound_queue, ..*old(state) }),
{
    play_sound_id(state, sound_id(ids, id));
}

/// Queues the sound named `sound` (or the `error` sound when there is none) to stop.
pub fn stop_sound(state: &mut GlobalState, ids: &SoundIds, sound: &str)
    requires
        ids.ids@.dom().contains(sound@) || ids.ids@.dom().contains("error"@),
    ensures
        final(state).stop_sound_queue@ == old(state).stop_sound_queue@.push(sound_for(ids.ids@, sound@)),
        final(state).play_sound_queue@ == old(state).play_sound_queue@,
        *final(state) == (GlobalState { stop_sound_queue: final(state).stop_sound_queue, ..*old(state) }),
{
    stop_sound_id(state, sound_id(ids, sound));
}

/// The name `base-k` of variant `k` of a sound.
pub open spec fn variant_name(base: Seq<char>, k: int) -> Seq<char> {
    base + seq!['-'] + signed_decimal(k)
}

/// The variant number drawn for `amount` variants from state `st`.
pub open spec fn variant_drawn(amount: int, st: u64) -> int {
    scaled(1, amount + 1, pcg_output(st) as int)
}

/// The name of a randomly drawn variant `base_id-k` with `1 <= k <= amount`
/// (for `amount >= 1`), as `play_random_sound` builds it.
pub fn random_sound_name(rng: &mut Rng, base_id: &str, amount: i32) -> (name: String)
    requires
        amount < i32::MAX,
    ensures
        name@ == variant_name(base_id@, variant_drawn(amount as int, old(rng).state)),
        final(rng).state == pcg_step(old(rng).state),
        amount >= 1 ==> 1 <= variant_drawn(amount as int, old(rng).state) <= amount,
{
    let k: i32 = gen_range(rng, 1i32, amount + 1);
    let mut name = base_id.to_string();
    string_push(&mut name, '-');
    push_signed_decimal(&mut name, k as i64);
    proof {
        assert(name@ =~= variant_name(base_id@, k as int));
    }
    name
}

/// Queues a randomly drawn variant `base_id-k` of a sound, `1 <= k <= amount`, to start playing.
pub fn play_random_sound(state: &mut GlobalState, ids: &SoundIds, rng: &mut Rng, base_id: &str, amount: i32)
    requires
        amount < i32::MAX,
        ids.ids@.dom().contains(variant_name(base_id@, variant_drawn(amount as int, old(rng).state)))
            || ids.ids@.dom().contains("error"@),
    ensures
        final(state).play_sound_queue@ == old(state).play_sound_queue@.push(
            sound_for(ids.ids@, variant_name(base_id@, variant_drawn(amount as int, old(rng).state))),
        ),
        final(state).stop_sound_queue@ == old(state).stop_sound_queue@,
        *final(state) == (GlobalState { play_sound_queue: final(state).play_sound_queue, ..*old(state) }),
        final(rng).state == pcg_step(old(rng).state),
{
    let name = random_sound_name(rng, base_id, amount);
    play_sound_id(state, sound_id(ids, name.as_str()));
}

/// Draws a variant `base_id-k`, `1 <= k <= amount`, of a sound and gives the
/// sound that is to start playing with the caller's own settings on the main
/// track.
pub fn play_random_sound_ex(ids: &SoundIds, rng: &mut Rng, base_id: &str, amount: i32) -> (s: Sound)
    requires
        amount < i32::MAX,
        ids.ids@.dom().contains(variant_name(base_id@, variant_drawn(amount as int, old(rng).state)))
            || ids.ids@.dom().contains("error"@),
    ensures
        s == sound_for(ids.ids@, variant_name(base_id@, variant_drawn(amount as int, old(rng).state))),
        final(rng).state == pcg_step(old(rng).state),
{
    let name = random_sound_name(rng, base_id, amount);
    sound_id(ids, name.as_str())
}

} // verus!
