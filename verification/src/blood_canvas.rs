//! The blood canvas: an unbounded pixel surface made of square blocks of
//! `CANVAS_BLOCK_SIZE` pixels, created on first use, each with the texture
//! it is shown through and a flag telling whether it changed since it was
//! last uploaded.

use vstd::prelude::*;
use std::collections::HashMap;
use crate::assets::TextureHandle;
use crate::canvas::{CANVAS_BLOCK_SIZE, block_coord};
use crate::fmt::{push_signed_decimal, signed_decimal, string_push};

verus! {

broadcast use {vstd::std_specs::hash::group_hash_axioms, vstd::string::group_string_axioms};

/// Pixels in a block.
pub const BLOCK_PIXEL_COUNT: usize = 1048576;

/// A block of the canvas: its pixels, row by row, as RGBA bytes; the texture
/// showing it; whether it changed since its last upload.
pub struct CanvasBlock {
    pub pixels: Vec<[u8; 4]>,
    pub handle: TextureHandle,
    pub modified: bool,
}

/// The blocks of the canvas, by `block_key` of their block coordinates.
pub struct BloodCanvas {
    pub blocks: HashMap<u64, CanvasBlock>,
}

/// The number under which the block `(bx, by)` is kept; distinct blocks of
/// 32-bit coordinates get distinct numbers.
pub open spec fn block_key(bx: int, by: int) -> int {
    (bx + 2147483648) * 4294967296 + (by + 2147483648)
}

/// The block that the pixel coordinate `x` lies in.
pub open spec fn block_of(x: int) -> int {
    x / (CANVAS_BLOCK_SIZE as int)
}

/// The position, within its block's pixels, of the pixel `(x, y)`.
pub open spec fn pixel_index(x: int, y: int) -> int {
    (y % (CANVAS_BLOCK_SIZE as int)) * (CANVAS_BLOCK_SIZE as int) + x % (CANVAS_BLOCK_SIZE as int)
}

/// The key of the block holding the pixel `(x, y)`.
pub open spec fn pixel_block_key(x: int, y: int) -> int {
    block_key(block_of(x), block_of(y))
}

/// The name of the texture of the block `(bx, by)`.
pub open spec fn block_name_spec(bx: int, by: int) -> Seq<char> {
    "blood-canvas-"@ + signed_decimal(bx) + seq!['-'] + signed_decimal(by)
}

impl BloodCanvas {
    /// Every block has its full set of pixels.
    pub open spec fn well_formed(&self) -> bool {
        forall|k: u64| #[trigger] self.blocks@.dom().contains(k) ==> self.blocks@[k].pixels@.len() == BLOCK_PIXEL_COUNT
    }

    /// Whether the block of the pixel `(x, y)` exists.
    pub open spec fn has_pixel(&self, x: int, y: int) -> bool {
        self.blocks@.dom().contains(pixel_block_key(x, y) as u64)
    }

    /// The pixel `(x, y)`, in a canvas where its block exists.
    pub open spec fn pixel_at(&self, x: int, y: int) -> [u8; 4] {
        self.blocks@[pixel_block_key(x, y) as u64].pixels@[pixel_index(x, y)]
    }

    /// An empty canvas.
    pub fn new() -> (c: BloodCanvas)
        ensures
            c.blocks@ == Map::<u64, CanvasBlock>::empty(),
            c.well_formed(),
    {
        BloodCanvas { blocks: HashMap::new() }
    }

    /// Whether the block `(bx, by)` exists.
    pub fn has_block(&self, bx: i32, by: i32) -> (b: bool)
        ensures
            b == self.blocks@.dom().contains(block_key(bx as int, by as int) as u64),
    {
        self.blocks.contains_key(&key_of(bx, by))
    }

    /// Creates the block `(bx, by)`, transparent black, shown through `handle`.
    pub fn insert_block(&mut self, bx: i32, by: i32, handle: TextureHandle)
        requires
            old(self).well_formed(),
        ensures
            final(self).well_formed(),
            final(self).blocks@.dom() == old(self).blocks@.dom().insert(block_key(bx as int, by as int) as u64),
            forall|k: u64| k != block_key(bx as int, by as int) as u64 && #[trigger] old(self).blocks@.dom().contains(k)
                ==> final(self).blocks@[k] == old(self).blocks@[k],
            final(self).blocks@[block_key(bx as int, by as int) as u64].pixels@ == Seq::new(BLOCK_PIXEL_COUNT as nat, |i: int| [0u8, 0u8, 0u8, 0u8]),
            final(self).blocks@[block_key(bx as int, by as int) as u64].handle == handle,
            !final(self).blocks@[block_key(bx as int, by as int) as u64].modified,
    {
        let pixels = blank_pixels();
        self.blocks.insert(key_of(bx, by), CanvasBlock { pixels, handle, modified: false });
    }

    /// Writes the pixel `(x, y)`, whose block must exist, and marks its
    /// block modified.
    pub fn set_pixel_internal(&mut self, x: i32, y: i32, px: [u8; 4])
        requires
            old(self).well_formed(),
            old(self).has_pixel(x as int, y as int),
        ensures
            final(self).well_formed(),
            final(self).blocks@.dom() == old(self).blocks@.dom(),
            final(self).pixel_at(x as int, y as int) == px,
            forall|x2: int, y2: int|
                #![trigger final(self).pixel_at(x2, y2)]
                i32::MIN <= x2 <= i32::MAX && i32::MIN <= y2 <= i32::MAX && old(self).has_pixel(x2, y2)
                    && (x2 != x || y2 != y) ==> final(self).pixel_at(x2, y2) == old(self).pixel_at(x2, y2),
            final(self).blocks@[pixel_block_key(x as int, y as int) as u64].modified,
            final(self).blocks@[pixel_block_key(x as int, y as int) as u64].handle
                == old(self).blocks@[pixel_block_key(x as int, y as int) as u64].handle,
            forall|k: u64| k != pixel_block_key(x as int, y as int) as u64 && #[trigger] old(self).blocks@.dom().contains(k)
                ==> final(self).blocks@[k] == old(self).blocks@[k],
    {
        let (bx, lx) = block_coord(x);
        let (by, ly) = block_coord(y);
        let key = key_of(bx, by);
        let idx = local_index(lx, ly);
        proof {
            lemma_pixel_position(x as int, y as int);
        }
        match self.blocks.remove(&key) {
            Some(mut block) => {
                block.pixels.set(idx, px);
                block.modified = true;
                self.blocks.insert(key, block);
                proof {
                    assert forall|x2: int, y2: int|
                        i32::MIN <= x2 <= i32::MAX && i32::MIN <= y2 <= i32::MAX && old(self).has_pixel(x2, y2)
                            && (x2 != x || y2 != y) implies #[trigger] self.pixel_at(x2, y2) == old(self).pixel_at(x2, y2) by {
                        lemma_pixel_position(x2, y2);
                        lemma_pixel_distinct(x as int, y as int, x2, y2);
                    }
                }
            },
            None => {
                proof {
                    assert(false);
                }
            },
        }
    }

    /// Reads the pixel `(x, y)`, whose block must exist; the block is marked
    /// modified all the same.
    pub fn get_pixel_internal(&mut self, x: i32, y: i32) -> (px: [u8; 4])
        requires
            old(self).well_formed(),
            old(self).has_pixel(x as int, y as int),
        ensures
            px == old(self).pixel_at(x as int, y as int),
            final(self).well_formed(),
            final(self).blocks@.dom() == old(self).blocks@.dom(),
            final(self).blocks@[pixel_block_key(x as int, y as int) as u64].pixels@
                == old(self).blocks@[pixel_block_key(x as int, y as int) as u64].pixels@,
            final(self).blocks@[pixel_block_key(x as int, y as int) as u64].handle
                == old(self).blocks@[pixel_block_key(x as int, y as int) as u64].handle,
            final(self).blocks@[pixel_block_key(x as int, y as int) as u64].modified,
            forall|k: u64| k != pixel_block_key(x as int, y as int) as u64 && #[trigger] old(self).blocks@.dom().contains(k)
                ==> final(self).blocks@[k] == old(self).blocks@[k],
    {
        let (bx, lx) = block_coord(x);
        let (by, ly) = block_coord(y);
        let key = key_of(bx, by);
        let idx = local_index(lx, ly);
        proof {
            lemma_pixel_position(x as int, y as int);
        }
        match self.blocks.remove(&key) {
            Some(mut block) => {
                let px = block.pixels[idx];
                block.modified = true;
                self.blocks.insert(key, block);
                px
            },
            None => {
                proof {
                    assert(false);
                }
                [0u8, 0u8, 0u8, 0u8]
            },
        }
    }

    /// Marks the block under `key` as uploaded (unmodified).
    pub fn mark_uploaded(&mut self, key: u64)
        requires
            old(self).well_formed(),
        ensures
            final(self).well_formed(),
            final(self).blocks@.dom() == old(self).blocks@.dom(),
            old(self).blocks@.dom().contains(key) ==> {
                &&& final(self).blocks@[key].pixels@ == old(self).blocks@[key].pixels@
                &&& final(self).blocks@[key].handle == old(self).blocks@[key].handle
                &&& !final(self).blocks@[key].modified
            },
            forall|k: u64| k != key && #[trigger] old(self).blocks@.dom().contains(k)
                ==> final(self).blocks@[k] == old(self).blocks@[k],
    {
        match self.blocks.remove(&key) {
            Some(mut block) => {
                block.modified = false;
                self.blocks.insert(key, block);
            },
            None => {
                assert(self.blocks@ =~= old(self).blocks@);
            },
        }
    }
}

/// The number under which the block `(bx, by)` is kept.
pub fn key_of(bx: i32, by: i32) -> (k: u64)
    ensures
        k == block_key(bx as int, by as int),
{
    let hi: u64 = (bx as i64 + 2147483648i64) as u64;
    let lo: u64 = (by as i64 + 2147483648i64) as u64;
    assert(hi * 4294967296 <= 4294967295 * 4294967296) by (nonlinear_arith)
        requires
            hi <= 4294967295,
    ;
    hi * 4294967296 + lo
}

/// The position within a block of its pixel `(lx, ly)`.
fn local_index(lx: i32, ly: i32) -> (i: usize)
    requires
        0 <= lx < CANVAS_BLOCK_SIZE,
        0 <= ly < CANVAS_BLOCK_SIZE,
    ensures
        i == ly * CANVAS_BLOCK_SIZE + lx,
        i < BLOCK_PIXEL_COUNT,
{
    assert(ly * 1024 + lx < 1048576) by (nonlinear_arith)
        requires
            0 <= lx < 1024,
            0 <= ly < 1024,
    ;
    (ly as usize) * 1024 + (lx as usize)
}

/// The pixels of a fresh block: all transparent black.
fn blank_pixels() -> (v: Vec<[u8; 4]>)
    ensures
        v@ == Seq::new(BLOCK_PIXEL_COUNT as nat, |i: int| [0u8, 0u8, 0u8, 0u8]),
{
    let mut v: Vec<[u8; 4]> = Vec::new();
    let mut i: usize = 0;
    while i < BLOCK_PIXEL_COUNT
        invariant
            i <= BLOCK_PIXEL_COUNT,
            v@ == Seq::new(i as nat, |j: int| [0u8, 0u8, 0u8, 0u8]),
        decreases BLOCK_PIXEL_COUNT - i,
    {
        v.push([0u8, 0u8, 0u8, 0u8]);
        i = i + 1;
        assert(v@ =~= Seq::new(i as nat, |j: int| [0u8, 0u8, 0u8, 0u8]));
    }
    v
}

/// The block of a 32-bit pixel has 32-bit coordinates, and its key and the
/// pixel's index are in range.
proof fn lemma_pixel_position(x: int, y: int)
    requires
        i32::MIN <= x <= i32::MAX,
        i32::MIN <= y <= i32::MAX,
    ensures
        i32::MIN <= block_of(x) <= i32::MAX,
        i32::MIN <= block_of(y) <= i32::MAX,
        0 <= pixel_block_key(x, y) <= u64::MAX,
        0 <= x % 1024 < 1024,
        0 <= y % 1024 < 1024,
        0 <= pixel_index(x, y) < BLOCK_PIXEL_COUNT,
        x == block_of(x) * 1024 + x % 1024,
        y == block_of(y) * 1024 + y % 1024,
{
    vstd::arithmetic::div_mod::lemma_fundamental_div_mod(x, 1024);
    vstd::arithmetic::div_mod::lemma_fundamental_div_mod(y, 1024);
    let bx = block_of(x);
    let by = block_of(y);
    assert(-2097152 <= bx < 2097152) by (nonlinear_arith)
        requires
            x == bx * 1024 + x % 1024,
            0 <= x % 1024 < 1024,
            i32::MIN <= x <= i32::MAX,
    ;
    assert(-2097152 <= by < 2097152) by (nonlinear_arith)
        requires
            y == by * 1024 + y % 1024,
            0 <= y % 1024 < 1024,
            i32::MIN <= y <= i32::MAX,
    ;
    assert(0 <= (bx + 2147483648) * 4294967296 <= 4294967295 * 4294967296) by (nonlinear_arith)
        requires
            -2097152 <= bx < 2097152,
    ;
    assert(0 <= (y % 1024) * 1024 + x % 1024 < 1048576) by (nonlinear_arith)
        requires
            0 <= x % 1024 < 1024,
            0 <= y % 1024 < 1024,
    ;
}

/// Two distinct pixels differ in their block or in their index within it.
proof fn lemma_pixel_distinct(x: int, y: int, x2: int, y2: int)
    requires
        i32::MIN <= x <= i32::MAX,
        i32::MIN <= y <= i32::MAX,
        i32::MIN <= x2 <= i32::MAX,
        i32::MIN <= y2 <= i32::MAX,
        x != x2 || y != y2,
    ensures
        pixel_block_key(x, y) != pixel_block_key(x2, y2) || pixel_index(x, y) != pixel_index(x2, y2),
{
    lemma_pixel_position(x, y);
    lemma_pixel_position(x2, y2);
    if pixel_block_key(x, y) == pixel_block_key(x2, y2) {
        lemma_block_key_injective(block_of(x), block_of(y), block_of(x2), block_of(y2));
        if pixel_index(x, y) == pixel_index(x2, y2) {
            let (a, b, c, d) = (x % 1024, y % 1024, x2 % 1024, y2 % 1024);
            assert(a == c && b == d) by (nonlinear_arith)
                requires
                    b * 1024 + a == d * 1024 + c,
                    0 <= a < 1024,
                    0 <= b < 1024,
                    0 <= c < 1024,
                    0 <= d < 1024,
            ;
        }
    }
}

/// Distinct blocks of 32-bit coordinates have distinct keys.
proof fn lemma_block_key_injective(a: int, b: int, c: int, d: int)
    requires
        i32::MIN <= a <= i32::MAX,
        i32::MIN <= b <= i32::MAX,
        i32::MIN <= c <= i32::MAX,
        i32::MIN <= d <= i32::MAX,
        block_key(a, b) == block_key(c, d),
    ensures
        a == c,
        b == d,
{
    assert(a == c && b == d) by (nonlinear_arith)
        requires
            (a + 2147483648) * 4294967296 + (b + 2147483648) == (c + 2147483648) * 4294967296 + (d + 2147483648),
            0 <= b + 2147483648 < 4294967296,
            0 <= d + 2147483648 < 4294967296,
    ;
}

/// The block holding the pixel `(x, y)`.
pub fn pixel_block(x: i32, y: i32) -> (b: (i32, i32))
    ensures
        b.0 == block_of(x as int),
        b.1 == block_of(y as int),
{
    (block_coord(x).0, block_coord(y).0)
}

/// The name of the texture of the block `(bx, by)`: `blood-canvas-{bx}-{by}`.
pub fn block_name(bx: i32, by: i32) -> (s: String)
    ensures
        s@ == block_name_spec(bx as int, by as int),
{
    proof {
        reveal_strlit("blood-canvas-");
    }
    let mut s = "blood-canvas-".to_string();
    push_signed_decimal(&mut s, bx as i64);
    string_push(&mut s, '-');
    push_signed_decimal(&mut s, by as i64);
    assert(s@ =~= block_name_spec(bx as int, by as int));
    s
}

/// Removes every block.
pub fn blood_canvas_reset(canvas: &mut BloodCanvas)
    ensures
        final(canvas).blocks@ == Map::<u64, CanvasBlock>::empty(),
        final(canvas).well_formed(),
{
    canvas.blocks = HashMap::new();
}

/// A pixel reads back as it was last written, and writing it changes no
/// other pixel.
pub proof fn law_read_after_write(before: BloodCanvas, after: BloodCanvas, x: i32, y: i32, px: [u8; 4], x2: i32, y2: i32)
    requires
        before.has_pixel(x as int, y as int),
        before.has_pixel(x2 as int, y2 as int),
        after.pixel_at(x as int, y as int) == px,
        forall|x3: int, y3: int|
            #![trigger after.pixel_at(x3, y3)]
            i32::MIN <= x3 <= i32::MAX && i32::MIN <= y3 <= i32::MAX && before.has_pixel(x3, y3)
                && (x3 != x || y3 != y) ==> after.pixel_at(x3, y3) == before.pixel_at(x3, y3),
    ensures
        after.pixel_at(x2 as int, y2 as int) == (if x2 == x && y2 == y { px } else { before.pixel_at(x2 as int, y2 as int) }),
{
    if x2 != x || y2 != y {
        assert(after.pixel_at(x2 as int, y2 as int) == before.pixel_at(x2 as int, y2 as int));
    }
}

} // verus!
