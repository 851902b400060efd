use comfy_core::assets::TextureHandle;
use comfy_core::blood_canvas::{
    block_name, blood_canvas_reset, key_of, pixel_block, BloodCanvas, BLOCK_PIXEL_COUNT,
};

fn canvas_with_blocks(blocks: &[(i32, i32)]) -> BloodCanvas {
    let mut c = BloodCanvas::new();
    for (i, (bx, by)) in blocks.iter().enumerate() {
        c.insert_block(*bx, *by, TextureHandle::Raw(i as u64));
    }
    c
}

#[test]
fn block_names() {
    assert_eq!(block_name(0, 0), "blood-canvas-0-0");
    assert_eq!(block_name(-1, 12), "blood-canvas--1-12");
    assert_eq!(block_name(i32::MIN, i32::MAX), "blood-canvas--2147483648-2147483647");
}

#[test]
fn pixels_fall_in_floor_blocks() {
    assert_eq!(pixel_block(0, 0), (0, 0));
    assert_eq!(pixel_block(1023, 1024), (0, 1));
    assert_eq!(pixel_block(-1, -1024), (-1, -1));
    assert_eq!(pixel_block(-1025, i32::MIN), (-2, -2097152));
}

#[test]
fn block_keys_are_distinct() {
    assert_ne!(key_of(0, 1), key_of(1, 0));
    assert_ne!(key_of(-1, 0), key_of(0, -1));
    assert_eq!(key_of(i32::MIN, i32::MIN), 0);
    assert_eq!(key_of(i32::MAX, i32::MAX), u64::MAX);
}

#[test]
fn a_pixel_reads_back_what_was_written() {
    let mut c = canvas_with_blocks(&[(0, 0), (-1, -1)]);
    assert!(c.has_block(-1, -1));
    assert!(!c.has_block(1, 0));
    assert_eq!(c.get_pixel_internal(5, 7), [0, 0, 0, 0]);
    c.set_pixel_internal(5, 7, [200, 10, 20, 255]);
    c.set_pixel_internal(-3, -1024, [1, 2, 3, 4]);
    assert_eq!(c.get_pixel_internal(5, 7), [200, 10, 20, 255]);
    assert_eq!(c.get_pixel_internal(7, 5), [0, 0, 0, 0]);
    assert_eq!(c.get_pixel_internal(-3, -1024), [1, 2, 3, 4]);
    assert_eq!(c.get_pixel_internal(-3, -1), [0, 0, 0, 0]);
    let block = &c.blocks[&key_of(-1, -1)];
    assert_eq!(block.pixels.len(), BLOCK_PIXEL_COUNT);
    assert_eq!(block.pixels[1021], [1, 2, 3, 4]);
    assert!(block.modified);
}

#[test]
fn writes_mark_blocks_and_uploads_clear_them() {
    let mut c = canvas_with_blocks(&[(0, 0), (1, 0)]);
    assert!(!c.blocks[&key_of(0, 0)].modified);
    c.set_pixel_internal(1030, 2, [9, 9, 9, 9]);
    assert!(c.blocks[&key_of(1, 0)].modified);
    assert!(!c.blocks[&key_of(0, 0)].modified);
    c.mark_uploaded(key_of(1, 0));
    assert!(!c.blocks[&key_of(1, 0)].modified);
    assert_eq!(c.blocks[&key_of(1, 0)].handle, TextureHandle::Raw(1));
    assert_eq!(c.get_pixel_internal(1030, 2), [9, 9, 9, 9]);
    assert!(c.blocks[&key_of(1, 0)].modified);
}

#[test]
fn reset_removes_every_block() {
    let mut c = canvas_with_blocks(&[(0, 0), (3, -2)]);
    blood_canvas_reset(&mut c);
    assert!(c.blocks.is_empty());
    assert!(!c.has_block(3, -2));
}
