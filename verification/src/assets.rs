//! Handles of textures and sounds derived from their names, and the registry
//! that maps loaded sound names to their handles.

use vstd::prelude::*;
use crate::shaders::RenderTargetId;
use crate::audio::Sound;
use crate::str_map::StrMap;

verus! {

broadcast use vstd::string::group_string_axioms;

/// The hash that `simple_hash` gives a string: ahash with the fixed seeds
/// `1, 2, 3, 4`. ahash picks its algorithm from the target features fixed
/// at compile time and reads no randomness when given seeds, so within one
/// build the hash depends on the string alone; other builds may differ.
pub uninterp spec fn name_hash(s: Seq<char>) -> u64;

/// Hashes a string with `ahash::RandomState::with_seeds(1, 2, 3, 4).hash_one`.
/// ahash documents that states built from the same seeds produce identical
/// hashers; which number a string gets is not stated.
#[verifier::external_body]
pub fn simple_hash(value: &str) -> (h: u64)
    ensures
        h == name_hash(value@),
{
    ahash::RandomState::with_seeds(1, 2, 3, 4).hash_one(value)
}

/// Handle of a texture.
#[derive(Copy, Clone, Debug, PartialEq, Eq, Hash, PartialOrd, Ord, Structural)]
pub enum TextureHandle {
    Path(u64),
    Raw(u64),
    RenderTarget(RenderTargetId),
}

impl TextureHandle {
    /// The handle of the texture loaded under `path`.
    pub fn from_path(path: &str) -> (h: TextureHandle)
        ensures
            h == TextureHandle::Path(name_hash(path@)),
    {
        TextureHandle::Path(simple_hash(path))
    }

    /// The handle of the texture registered under `key`, whether or not it exists.
    pub fn key_unchecked(key: &str) -> (h: TextureHandle)
        ensures
            h == TextureHandle::Path(name_hash(key@)),
    {
        TextureHandle::Path(simple_hash(key))
    }
}

impl Sound {
    /// The handle of the sound loaded from `path`.
    pub fn from_path(path: &str) -> (s: Sound)
        ensures
            s == (Sound { id: name_hash(path@) }),
    {
        Sound { id: simple_hash(path) }
    }
}

/// The names of loaded sounds and their handles.
pub struct SoundIds {
    pub ids: StrMap<Sound>,
}

/// The handle `sound_id` returns for `id`: the registered one, else that of `error`.
pub open spec fn sound_for(ids: Map<Seq<char>, Sound>, id: Seq<char>) -> Sound {
    if ids.dom().contains(id) {
        ids[id]
    } else {
        ids["error"@]
    }
}

impl SoundIds {
    /// No sound registered.
    pub fn new() -> (s: SoundIds)
        ensures
            s.ids@ == Map::<Seq<char>, Sound>::empty(),
    {
        SoundIds { ids: StrMap::new() }
    }

    /// Registers the sound `name`, loaded under the same name, and returns its handle.
    pub fn register(&mut self, name: &str) -> (s: Sound)
        ensures
            s == Sound::from_path_spec(name@),
            final(self).ids@ == old(self).ids@.insert(name@, s),
    {
        let handle = Sound::from_path(name);
        self.ids.insert(name.to_string(), handle);
        handle
    }
}

impl Sound {
    /// The handle `from_path` gives a path.
    pub open spec fn from_path_spec(path: Seq<char>) -> Sound {
        Sound { id: name_hash(path) }
    }
}

/// Looks up the handle of the sound `id`; a missing sound falls back to the
/// one named `error`, which must then be registered.
pub fn sound_id(ids: &SoundIds, id: &str) -> (s: Sound)
    requires
        ids.ids@.dom().contains(id@) || ids.ids@.dom().contains("error"@),
    ensures
        s == sound_for(ids.ids@, id@),
{
    let key = id.to_string();
    match ids.ids.get(&key) {
        Some(s) => *s,
        None => {
            let error_key = "error".to_string();
            proof {
                reveal_strlit("error");
            }
            match ids.ids.get(&error_key) {
                Some(s) => *s,
                None => {
                    proof {
                        assert(false);
                    }
                    Sound { id: 0 }
                },
            }
        },
    }
}

/// Whether a texture is loaded under `id`.
pub fn is_texture_loaded(textures: &StrMap<TextureHandle>, id: &str) -> (b: bool)
    ensures
        b == textures@.dom().contains(id@),
{
    textures.contains_key(&id.to_string())
}

/// The handle of the texture loaded under `id`, if any.
pub fn texture_id_safe(textures: &StrMap<TextureHandle>, id: &str) -> (h: Option<TextureHandle>)
    ensures
        textures@.dom().contains(id@) ==> h == Some(textures@[id@]),
        !textures@.dom().contains(id@) ==> h is None,
{
    match textures.get(&id.to_string()) {
        Some(h) => Some(*h),
        None => None,
    }
}

/// The handle a texture named `id` has, whether or not it is loaded.
pub fn texture_id_unchecked(id: &str) -> (h: TextureHandle)
    ensures
        h == TextureHandle::Path(name_hash(id@)),
{
    TextureHandle::key_unchecked(id)
}

/// The handle `texture_id` returns for `id`: the loaded one, else that of
/// `error`.
pub open spec fn texture_for(textures: Map<Seq<char>, TextureHandle>, id: Seq<char>) -> TextureHandle {
    if textures.dom().contains(id) {
        textures[id]
    } else {
        textures["error"@]
    }
}

/// The handle of the texture loaded under `id`; a missing texture falls back
/// to the one named `error`. The white pixel `1px` itself has no fallback.
pub fn texture_id(textures: &StrMap<TextureHandle>, id: &str) -> (h: TextureHandle)
    requires
        textures@.dom().contains(id@) || textures@.dom().contains("error"@),
        id@ == "1px"@ ==> textures@.dom().contains("1px"@),
    ensures
        h == texture_for(textures@, id@),
{
    match texture_id_safe(textures, id) {
        Some(h) => h,
        None => {
            proof {
                reveal_strlit("error");
            }
            match texture_id_safe(textures, "error") {
                Some(h) => h,
                None => {
                    proof {
                        assert(false);
                    }
                    TextureHandle::Raw(0)
                },
            }
        },
    }
}

/// A name under which `handle` is loaded, if any; when several names share
/// the handle, which one comes back is not fixed.
pub fn handle_name(textures: &StrMap<TextureHandle>, handle: TextureHandle) -> (name: Option<String>)
    ensures
        name is None <==> !(exists|k: Seq<char>| #[trigger] textures@.dom().contains(k) && textures@[k] == handle),
        name matches Some(n) ==> textures@.dom().contains(n@) && textures@[n@] == handle,
{
    let keys = textures.keys();
    let mut i: usize = 0;
    while i < keys.len()
        invariant
            i <= keys@.len(),
            forall|j: int| 0 <= j < keys@.len() ==> textures@.dom().contains(#[trigger] keys@[j]@),
            forall|k: Seq<char>| textures@.dom().contains(k) ==> exists|j: int| 0 <= j < keys@.len() && #[trigger] keys@[j]@ == k,
            forall|j: int| 0 <= j < i ==> textures@[#[trigger] keys@[j]@] != handle,
        decreases keys@.len() - i,
    {
        match textures.get(&keys[i]) {
            Some(h) => {
                if *h == handle {
                    return Some(keys[i].clone());
                }
            },
            None => {},
        }
        i = i + 1;
    }
    proof {
        assert forall|k: Seq<char>| #[trigger] textures@.dom().contains(k) implies textures@[k] != handle by {
            let j = choose|j: int| 0 <= j < keys@.len() && #[trigger] keys@[j]@ == k;
            assert(textures@[keys@[j]@] != handle);
        }
    }
    None
}

/// Registers the texture `handle` under `name`.
pub fn insert_handle(textures: &mut StrMap<TextureHandle>, name: &str, handle: TextureHandle)
    ensures
        final(textures)@ == old(textures)@.insert(name@, handle),
{
    textures.insert(name.to_string(), handle);
}

/// The handle of the texture loaded under `key`, which must be loaded.
pub fn get_texture(textures: &StrMap<TextureHandle>, key: &str) -> (h: TextureHandle)
    requires
        textures@.dom().contains(key@),
    ensures
        h == textures@[key@],
{
    match textures.get(&key.to_string()) {
        Some(h) => *h,
        None => {
            proof {
                assert(false);
            }
            TextureHandle::Raw(0)
        },
    }
}

} // verus!
