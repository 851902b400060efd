use comfy_core::assets::{
    get_texture, handle_name, insert_handle, is_texture_loaded, texture_id, texture_id_safe,
    texture_id_unchecked, TextureHandle,
};
use comfy_core::str_map::StrMap;

fn textures() -> StrMap<TextureHandle> {
    let mut t = StrMap::new();
    insert_handle(&mut t, "error", TextureHandle::Raw(0));
    insert_handle(&mut t, "1px", TextureHandle::Raw(1));
    insert_handle(&mut t, "player", TextureHandle::from_path("player"));
    t
}

#[test]
fn lookups_by_name() {
    let t = textures();
    assert_eq!(texture_id_safe(&t, "player"), Some(TextureHandle::from_path("player")));
    assert_eq!(texture_id_safe(&t, "enemy"), None);
    assert!(is_texture_loaded(&t, "1px"));
    assert!(!is_texture_loaded(&t, "enemy"));
    assert_eq!(get_texture(&t, "1px"), TextureHandle::Raw(1));
}

#[test]
fn missing_textures_fall_back_to_error() {
    let t = textures();
    assert_eq!(texture_id(&t, "player"), TextureHandle::from_path("player"));
    assert_eq!(texture_id(&t, "enemy"), TextureHandle::Raw(0));
    assert_eq!(texture_id(&t, "1px"), TextureHandle::Raw(1));
}

#[test]
fn unchecked_handles_come_from_the_name() {
    assert_eq!(texture_id_unchecked("x"), TextureHandle::from_path("x"));
    assert_ne!(texture_id_unchecked("x"), texture_id_unchecked("y"));
}

#[test]
fn names_of_handles() {
    let mut t = textures();
    assert_eq!(handle_name(&t, TextureHandle::Raw(1)), Some("1px".to_string()));
    assert_eq!(handle_name(&t, TextureHandle::Raw(7)), None);
    insert_handle(&mut t, "white", TextureHandle::Raw(1));
    let n = handle_name(&t, TextureHandle::Raw(1)).unwrap();
    assert!(n == "1px" || n == "white");
}
