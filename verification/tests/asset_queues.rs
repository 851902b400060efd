use comfy_core::asset_queues::{load_multiple_sounds, load_multiple_textures, AssetQueues};
use comfy_core::assets::{texture_id_safe, SoundIds, TextureHandle};
use comfy_core::audio::Sound;
use comfy_core::global_state::{assets_queued_total, AssetCounters};
use comfy_core::str_map::StrMap;

fn pairs(items: &[(&str, &str)]) -> Vec<(String, String)> {
    items.iter().map(|(a, b)| (a.to_string(), b.to_string())).collect()
}

#[test]
fn queueing_counts_assets() {
    let mut q = AssetQueues::new();
    let mut c = AssetCounters::new();
    load_multiple_textures(&mut q, &mut c, pairs(&[("a", "a.png"), ("b", "b.png")]));
    load_multiple_sounds(&mut q, &mut c, pairs(&[("boom", "boom.ogg")]));
    assert_eq!(assets_queued_total(&c), 3);
    assert_eq!(q.texture_load_queue.len(), 2);
    assert_eq!(q.sound_load_queue, pairs(&[("boom", "boom.ogg")]));
    assert!(q.pending_textures.contains_key(&"b".to_string()));
    assert!(!q.pending_textures.contains_key(&"boom".to_string()));
}

#[test]
fn textures_already_loaded_are_skipped() {
    let mut q = AssetQueues::new();
    let mut c = AssetCounters::new();
    load_multiple_textures(&mut q, &mut c, pairs(&[("a", "a.png"), ("b", "b.png"), ("c", "c.png")]));
    let mut textures: StrMap<TextureHandle> = StrMap::new();
    let loaded = vec![TextureHandle::from_path("b")];
    let to_load = q.take_textures_to_load(&loaded, &mut textures);
    assert_eq!(
        to_load,
        vec![(TextureHandle::from_path("a"), "a.png".to_string()), (TextureHandle::from_path("c"), "c.png".to_string())]
    );
    assert!(q.texture_load_queue.is_empty());
    assert_eq!(texture_id_safe(&textures, "a"), Some(TextureHandle::from_path("a")));
    assert_eq!(texture_id_safe(&textures, "b"), None);
    assert!(q.take_textures_to_load(&loaded, &mut textures).is_empty());
}

#[test]
fn sounds_already_loaded_are_skipped() {
    let mut q = AssetQueues::new();
    let mut c = AssetCounters::new();
    load_multiple_sounds(&mut q, &mut c, pairs(&[("x", "x.ogg"), ("y", "y.ogg")]));
    let mut ids = SoundIds::new();
    let loaded = vec![Sound::from_path("x")];
    let to_load = q.take_sounds_to_load(&loaded, &mut ids);
    assert_eq!(to_load, vec![(Sound::from_path("y"), "y.ogg".to_string())]);
    assert!(ids.ids.contains_key(&"y".to_string()));
    assert!(!ids.ids.contains_key(&"x".to_string()));
    assert!(q.sound_load_queue.is_empty());
}
