//! The queues of textures and sounds waiting to be loaded, and the choice,
//! when they are processed, of which entries still need loading. Reading
//! the files and decoding them is left to the caller.

use vstd::prelude::*;
use crate::assets::{SoundIds, TextureHandle, name_hash};
use crate::audio::Sound;
use crate::global_state::AssetCounters;
use crate::str_map::StrMap;

verus! {

broadcast use vstd::string::group_string_axioms;

/// Assets waiting to be loaded, as `(name, relative path)` pairs, and the
/// names of the textures ever queued.
pub struct AssetQueues {
    pub texture_load_queue: Vec<(String, String)>,
    pub sound_load_queue: Vec<(String, String)>,
    pub pending_textures: StrMap<()>,
}

/// A queue of `(name, path)` pairs as character sequences.
pub open spec fn pair_views(q: Seq<(String, String)>) -> Seq<(Seq<char>, Seq<char>)> {
    q.map_values(|e: (String, String)| (e.0@, e.1@))
}

/// The loads that processing `queue` starts, given the textures already
/// loaded: every entry whose texture is not loaded yet is registered under
/// its name and loaded from its path, in order.
pub open spec fn texture_run(
    textures: Map<Seq<char>, TextureHandle>,
    loaded: Seq<TextureHandle>,
    queue: Seq<(Seq<char>, Seq<char>)>,
) -> (Map<Seq<char>, TextureHandle>, Seq<(TextureHandle, Seq<char>)>)
    decreases queue.len(),
{
    if queue.len() == 0 {
        (textures, Seq::empty())
    } else {
        let (m, out) = texture_run(textures, loaded, queue.drop_last());
        let (name, path) = queue.last();
        let h = TextureHandle::Path(name_hash(name));
        if loaded.contains(h) {
            (m, out)
        } else {
            (m.insert(name, h), out.push((h, path)))
        }
    }
}

/// The loads that processing `queue` starts, given the sounds already
/// loaded: every entry whose sound is not loaded yet is registered under its
/// name and loaded from its path, in order.
pub open spec fn sound_run(
    ids: Map<Seq<char>, Sound>,
    loaded: Seq<Sound>,
    queue: Seq<(Seq<char>, Seq<char>)>,
) -> (Map<Seq<char>, Sound>, Seq<(Sound, Seq<char>)>)
    decreases queue.len(),
{
    if queue.len() == 0 {
        (ids, Seq::empty())
    } else {
        let (m, out) = sound_run(ids, loaded, queue.drop_last());
        let (name, path) = queue.last();
        let h = Sound { id: name_hash(name) };
        if loaded.contains(h) {
            (m, out)
        } else {
            (m.insert(name, h), out.push((h, path)))
        }
    }
}

/// Handles paired with paths, the paths as character sequences.
pub open spec fn load_views<H>(v: Seq<(H, String)>) -> Seq<(H, Seq<char>)> {
    v.map_values(|e: (H, String)| (e.0, e.1@))
}

/// The names of the first `n` pairs of `t`.
pub open spec fn names_upto(t: Seq<(String, String)>, n: int) -> Set<Seq<char>> {
    Set::new(|k: Seq<char>| exists|j: int| 0 <= j < n && #[trigger] t[j].0@ == k)
}

proof fn lemma_names_step(t: Seq<(String, String)>, i: int)
    requires
        0 <= i < t.len(),
    ensures
        names_upto(t, i + 1) == names_upto(t, i).insert(t[i].0@),
{
    assert forall|k: Seq<char>| #[trigger] names_upto(t, i + 1).contains(k) <==> names_upto(t, i).insert(t[i].0@).contains(k) by {
        if names_upto(t, i + 1).contains(k) {
            let j = choose|j: int| 0 <= j < i + 1 && #[trigger] t[j].0@ == k;
            if j < i {
                assert(names_upto(t, i).contains(k));
            }
        }
        if names_upto(t, i).contains(k) {
            let j = choose|j: int| 0 <= j < i && #[trigger] t[j].0@ == k;
            assert(0 <= j < i + 1 && t[j].0@ == k);
        }
        if k == t[i].0@ {
            assert(0 <= i < i + 1 && t[i].0@ == k);
        }
    }
    assert(names_upto(t, i + 1) =~= names_upto(t, i).insert(t[i].0@));
}

impl AssetQueues {
    /// Nothing queued.
    pub fn new() -> (q: AssetQueues)
        ensures
            q.texture_load_queue@.len() == 0,
            q.sound_load_queue@.len() == 0,
            q.pending_textures@ == Map::<Seq<char>, ()>::empty(),
    {
        AssetQueues { texture_load_queue: Vec::new(), sound_load_queue: Vec::new(), pending_textures: StrMap::new() }
    }

    /// Queues sounds to load, counting them as queued.
    pub fn queue_load_sounds(&mut self, counters: &mut AssetCounters, sounds: Vec<(String, String)>)
        ensures
            final(self).sound_load_queue@ == old(self).sound_load_queue@ + sounds@,
            final(self).texture_load_queue@ == old(self).texture_load_queue@,
            final(self).pending_textures@ == old(self).pending_textures@,
            final(counters).queued == old(counters).queued.wrapping_add(sounds@.len() as usize),
            final(counters).loaded == old(counters).loaded,
    {
        counters.queued = counters.queued.wrapping_add(sounds.len());
        let mut sounds = sounds;
        self.sound_load_queue.append(&mut sounds);
    }

    /// Queues textures to load, counting them as queued and noting their
    /// names as pending.
    pub fn queue_load_textures(&mut self, counters: &mut AssetCounters, textures: Vec<(String, String)>)
        ensures
            final(self).texture_load_queue@ == old(self).texture_load_queue@ + textures@,
            final(self).sound_load_queue@ == old(self).sound_load_queue@,
            final(self).pending_textures@.dom() == old(self).pending_textures@.dom() + names_upto(textures@, textures@.len() as int),
            final(counters).queued == old(counters).queued.wrapping_add(textures@.len() as usize),
            final(counters).loaded == old(counters).loaded,
    {
        counters.queued = counters.queued.wrapping_add(textures.len());
        let ghost d0 = self.pending_textures@.dom();
        assert(d0 + names_upto(textures@, 0) =~= d0);
        let mut i: usize = 0;
        while i < textures.len()
            invariant
                i <= textures@.len(),
                self.pending_textures@.dom() == d0 + names_upto(textures@, i as int),
                self.texture_load_queue@ == old(self).texture_load_queue@,
                self.sound_load_queue@ == old(self).sound_load_queue@,
            decreases textures@.len() - i,
        {
            self.pending_textures.insert(textures[i].0.clone(), ());
            proof {
                lemma_names_step(textures@, i as int);
                assert(self.pending_textures@.dom() =~= d0 + names_upto(textures@, i as int + 1));
            }
            i = i + 1;
        }
        let mut textures = textures;
        self.texture_load_queue.append(&mut textures);
    }

    /// Empties the texture queue, registers under its name each queued
    /// texture not among `loaded`, and gives back those textures with their
    /// paths, in queue order, to be read and decoded.
    pub fn take_textures_to_load(&mut self, loaded: &Vec<TextureHandle>, textures: &mut StrMap<TextureHandle>)
        -> (to_load: Vec<(TextureHandle, String)>)
        ensures
            final(self).texture_load_queue@.len() == 0,
            final(self).sound_load_queue@ == old(self).sound_load_queue@,
            final(self).pending_textures@ == old(self).pending_textures@,
            (final(textures)@, load_views(to_load@))
                == texture_run(old(textures)@, loaded@, pair_views(old(self).texture_load_queue@)),
    {
        let mut queue: Vec<(String, String)> = Vec::new();
        std::mem::swap(&mut queue, &mut self.texture_load_queue);
        let ghost m0 = textures@;
        let ghost q = pair_views(queue@);
        let mut out: Vec<(TextureHandle, String)> = Vec::new();
        let mut i: usize = 0;
        while i < queue.len()
            invariant
                i <= queue@.len(),
                q == pair_views(queue@),
                (textures@, load_views(out@)) == texture_run(m0, loaded@, q.take(i as int)),
            decreases queue@.len() - i,
        {
            assert(q.take(i as int + 1).drop_last() =~= q.take(i as int));
            let handle = TextureHandle::Path(crate::assets::simple_hash(queue[i].0.as_str()));
            if !contains_texture(loaded, handle) {
                textures.insert(queue[i].0.clone(), handle);
                out.push((handle, queue[i].1.clone()));
                assert(load_views(out@) =~= texture_run(m0, loaded@, q.take(i as int)).1.push((handle, queue@[i as int].1@)));
            }
            i = i + 1;
        }
        assert(q.take(i as int) =~= q);
        out
    }

    /// Empties the sound queue, registers under its name each queued sound
    /// not among `loaded`, and gives back those sounds with their paths, in
    /// queue order, to be read and decoded.
    pub fn take_sounds_to_load(&mut self, loaded: &Vec<Sound>, ids: &mut SoundIds) -> (to_load: Vec<(Sound, String)>)
        ensures
            final(self).sound_load_queue@.len() == 0,
            final(self).texture_load_queue@ == old(self).texture_load_queue@,
            final(self).pending_textures@ == old(self).pending_textures@,
            (final(ids).ids@, load_views(to_load@)) == sound_run(old(ids).ids@, loaded@, pair_views(old(self).sound_load_queue@)),
    {
        let mut queue: Vec<(String, String)> = Vec::new();
        std::mem::swap(&mut queue, &mut self.sound_load_queue);
        let ghost m0 = ids.ids@;
        let ghost q = pair_views(queue@);
        let mut out: Vec<(Sound, String)> = Vec::new();
        let mut i: usize = 0;
        while i < queue.len()
            invariant
                i <= queue@.len(),
                q == pair_views(queue@),
                (ids.ids@, load_views(out@)) == sound_run(m0, loaded@, q.take(i as int)),
            decreases queue@.len() - i,
        {
            assert(q.take(i as int + 1).drop_last() =~= q.take(i as int));
            let handle = Sound::from_path(queue[i].0.as_str());
            if !contains_sound(loaded, handle) {
                ids.ids.insert(queue[i].0.clone(), handle);
                out.push((handle, queue[i].1.clone()));
                assert(load_views(out@) =~= sound_run(m0, loaded@, q.take(i as int)).1.push((handle, queue@[i as int].1@)));
            }
            i = i + 1;
        }
        assert(q.take(i as int) =~= q);
        out
    }
}

/// Queues sounds to load, as `(name, relative path)` pairs.
pub fn load_multiple_sounds(queues: &mut AssetQueues, counters: &mut AssetCounters, pairs: Vec<(String, String)>)
    ensures
        final(queues).sound_load_queue@ == old(queues).sound_load_queue@ + pairs@,
        final(queues).texture_load_queue@ == old(queues).texture_load_queue@,
        final(queues).pending_textures@ == old(queues).pending_textures@,
        final(counters).queued == old(counters).queued.wrapping_add(pairs@.len() as usize),
        final(counters).loaded == old(counters).loaded,
{
    queues.queue_load_sounds(counters, pairs);
}

/// Queues textures to load, as `(name, relative path)` pairs.
pub fn load_multiple_textures(queues: &mut AssetQueues, counters: &mut AssetCounters, pairs: Vec<(String, String)>)
    ensures
        final(queues).texture_load_queue@ == old(queues).texture_load_queue@ + pairs@,
        final(queues).sound_load_queue@ == old(queues).sound_load_queue@,
        final(queues).pending_textures@.dom() == old(queues).pending_textures@.dom() + names_upto(pairs@, pairs@.len() as int),
        final(counters).queued == old(counters).queued.wrapping_add(pairs@.len() as usize),
        final(counters).loaded == old(counters).loaded,
{
    queues.queue_load_textures(counters, pairs);
}

/// Processing the texture queue registers every queued texture that was not
/// loaded yet under its name, keeps every other registration, and loads no
/// texture that was loaded already.
pub proof fn law_queued_textures_get_registered(
    textures: Map<Seq<char>, TextureHandle>,
    loaded: Seq<TextureHandle>,
    queue: Seq<(Seq<char>, Seq<char>)>,
)
    ensures
        forall|i: int|
            0 <= i < queue.len() && !loaded.contains(TextureHandle::Path(name_hash(#[trigger] queue[i].0))) ==> {
                &&& texture_run(textures, loaded, queue).0.dom().contains(queue[i].0)
                &&& texture_run(textures, loaded, queue).0[queue[i].0] == TextureHandle::Path(name_hash(queue[i].0))
            },
        forall|k: Seq<char>| #[trigger] textures.dom().contains(k) ==> texture_run(textures, loaded, queue).0.dom().contains(k),
        forall|j: int| 0 <= j < texture_run(textures, loaded, queue).1.len() ==> !loaded.contains(#[trigger] texture_run(textures, loaded, queue).1[j].0),
    decreases queue.len(),
{
    if queue.len() > 0 {
        let q0 = queue.drop_last();
        law_queued_textures_get_registered(textures, loaded, q0);
        let (m, out) = texture_run(textures, loaded, q0);
        let name = queue.last().0;
        let h = TextureHandle::Path(name_hash(name));
        assert forall|i: int|
            0 <= i < queue.len() && !loaded.contains(TextureHandle::Path(name_hash(#[trigger] queue[i].0))) implies {
                &&& texture_run(textures, loaded, queue).0.dom().contains(queue[i].0)
                &&& texture_run(textures, loaded, queue).0[queue[i].0] == TextureHandle::Path(name_hash(queue[i].0))
            } by {
            if i < queue.len() - 1 {
                assert(queue[i] == q0[i]);
            }
        }
        assert forall|j: int| 0 <= j < texture_run(textures, loaded, queue).1.len() implies !loaded.contains(#[trigger] texture_run(textures, loaded, queue).1[j].0) by {
            if j < out.len() {
                assert(texture_run(textures, loaded, queue).1[j] == out[j]);
            }
        }
    }
}

fn contains_texture(v: &Vec<TextureHandle>, h: TextureHandle) -> (b: bool)
    ensures
        b == v@.contains(h),
{
    let mut i: usize = 0;
    while i < v.len()
        invariant
            i <= v@.len(),
            forall|j: int| 0 <= j < i ==> v@[j] != h,
        decreases v@.len() - i,
    {
        if v[i] == h {
            return true;
        }
        i = i + 1;
    }
    false
}

fn contains_sound(v: &Vec<Sound>, s: Sound) -> (b: bool)
    ensures
        b == v@.contains(s),
{
    let mut i: usize = 0;
    while i < v.len()
        invariant
            i <= v@.len(),
            forall|j: int| 0 <= j < i ==> v@[j] != s,
        decreases v@.len() - i,
    {
        if v[i] == s {
            return true;
        }
        i = i + 1;
    }
    false
}

} // verus!
