//! Integer vectors and rectangles, and the frame arithmetic of sprite sheets.

use vstd::prelude::*;

verus! {

/// A vector of two `i32`s.
#[derive(Copy, Clone, Debug, PartialEq, Eq, Hash, Structural)]
pub struct IVec2 {
    pub x: i32,
    pub y: i32,
}

/// A vector of two `u32`s.
#[derive(Copy, Clone, Debug, PartialEq, Eq, Hash, Structural)]
pub struct UVec2 {
    pub x: u32,
    pub y: u32,
}

/// A vector with both coordinates `v`.
pub fn isplat(v: i32) -> (r: IVec2)
    ensures
        r == (IVec2 { x: v, y: v }),
{
    IVec2 { x: v, y: v }
}

/// A vector with both coordinates `v`.
pub fn usplat(v: u32) -> (r: UVec2)
    ensures
        r == (UVec2 { x: v, y: v }),
{
    UVec2 { x: v, y: v }
}

/// A rectangle of pixels given by its offset and size.
#[derive(Copy, Clone, Debug, PartialEq, Eq, Structural)]
pub struct IRect {
    pub offset: IVec2,
    pub size: IVec2,
}

impl IRect {
    pub fn new(offset: IVec2, size: IVec2) -> (r: IRect)
        ensures
            r == (IRect { offset, size }),
    {
        Self { offset, size }
    }
}

/// A texture divided into equally sized frames, `columns` per row.
#[derive(Copy, Clone, Debug)]
pub struct Spritesheet {
    pub rows: usize,
    pub columns: usize,
}

/// The frame after `frame` in an animation over `sheet`, wrapping to 0 after
/// the last one, and whether it wrapped in an animation that plays once
/// (which ends the particle's life).
pub open spec fn next_frame_spec(sheet: Spritesheet, frame: int, play_once: bool) -> (int, bool) {
    if frame + 1 >= sheet.rows * sheet.columns {
        (0, play_once)
    } else {
        (frame + 1, false)
    }
}

/// The frame reached after advancing `k` times from `frame`.
pub open spec fn advanced(sheet: Spritesheet, frame: int, k: nat) -> int
    decreases k,
{
    if k == 0 {
        frame
    } else {
        next_frame_spec(sheet, advanced(sheet, frame, (k - 1) as nat), false).0
    }
}

/// An animation shows every frame of the sheet in turn: advancing `k` times
/// from frame 0 reaches frame `k` for every `k` below `rows * columns`,
/// without ending a play-once animation before the last frame, and one more
/// advance from the last frame comes back to 0 (ending a play-once animation).
pub proof fn law_animation_visits_every_frame(sheet: Spritesheet, k: nat)
    requires
        k <= sheet.rows * sheet.columns,
        sheet.rows * sheet.columns > 0,
    ensures
        k < sheet.rows * sheet.columns ==> advanced(sheet, 0, k) == k,
        k == sheet.rows * sheet.columns ==> advanced(sheet, 0, k) == 0,
        k + 1 < sheet.rows * sheet.columns ==> next_frame_spec(sheet, k as int, true) == ((k + 1) as int, false),
        k + 1 == sheet.rows * sheet.columns ==> next_frame_spec(sheet, k as int, true) == (0int, true),
    decreases k,
{
    if k > 0 {
        law_animation_visits_every_frame(sheet, (k - 1) as nat);
    }
}

/// The rectangle of frame `frame` in a texture of size `size`:
/// frames are `size.x / columns` wide and `size.y / rows` high, laid out row by row.
pub open spec fn frame_rect_spec(size: UVec2, sheet: Spritesheet, frame: int) -> IRect {
    let w = size.x as int / sheet.columns as int;
    let h = size.y as int / sheet.rows as int;
    IRect {
        offset: IVec2 { x: (frame % sheet.columns as int * w) as i32, y: (frame / sheet.columns as int * h) as i32 },
        size: IVec2 { x: w as i32, y: h as i32 },
    }
}

impl Spritesheet {
    /// Advances an animation frame (see `next_frame_spec`).
    pub fn next_frame(&self, frame: usize, play_once: bool) -> (r: (usize, bool))
        requires
            self.rows * self.columns <= usize::MAX,
            frame < usize::MAX,
        ensures
            (r.0 as int, r.1) == next_frame_spec(*self, frame as int, play_once),
            frame + 1 < self.rows * self.columns ==> r.0 == frame + 1 && !r.1,
            frame + 1 >= self.rows * self.columns ==> r.0 == 0 && r.1 == play_once,
    {
        let frame_count = self.rows * self.columns;
        let next = frame + 1;
        if next >= frame_count {
            (0, play_once)
        } else {
            (next, false)
        }
    }

    /// The source rectangle of a frame (see `frame_rect_spec`).
    pub fn frame_rect(&self, size: UVec2, frame: usize) -> (r: IRect)
        requires
            0 < self.rows <= i32::MAX,
            0 < self.columns <= i32::MAX,
            size.x <= i32::MAX,
            size.y <= i32::MAX,
            (frame as int / self.columns as int) * (size.y as int / self.rows as int) <= i32::MAX,
        ensures
            r == frame_rect_spec(size, *self, frame as int),
    {
        let sprite_width: i32 = size.x as i32 / self.columns as i32;
        let sprite_height: i32 = size.y as i32 / self.rows as i32;
        let col = frame % self.columns;
        let row = frame / self.columns;
        proof {
            let w = sprite_width as int;
            let h = sprite_height as int;
            let c = self.columns as int;
            let rr = self.rows as int;
            vstd::arithmetic::div_mod::lemma_fundamental_div_mod(size.x as int, c);
            vstd::arithmetic::div_mod::lemma_fundamental_div_mod(size.y as int, rr);
            vstd::arithmetic::div_mod::lemma_mod_pos_bound(size.x as int, c);
            vstd::arithmetic::div_mod::lemma_mod_pos_bound(size.y as int, rr);
            vstd::arithmetic::div_mod::lemma_div_pos_is_pos(size.x as int, c);
            vstd::arithmetic::div_mod::lemma_div_pos_is_pos(size.y as int, rr);
            vstd::arithmetic::div_mod::lemma_mod_pos_bound(frame as int, c);
            vstd::arithmetic::div_mod::lemma_div_pos_is_pos(frame as int, c);
            assert(col * w <= size.x) by (nonlinear_arith)
                requires
                    0 <= col < c,
                    0 <= w,
                    size.x == c * w + (size.x as int) % c,
                    0 <= (size.x as int) % c,
            ;
            assert(0 <= col * w) by (nonlinear_arith)
                requires 0 <= col, 0 <= w;
            assert(0 <= row * h) by (nonlinear_arith)
                requires 0 <= row, 0 <= h;
            assert(h == 0 ==> row * h == 0) by (nonlinear_arith);
            assert(h > 0 ==> row <= i32::MAX) by (nonlinear_arith)
                requires
                    0 <= row,
                    row * h <= i32::MAX,
            ;
        }
        let x: i32 = (col as i32) * sprite_width;
        let y: i32 = if sprite_height == 0 { 0 } else { (row as i32) * sprite_height };
        IRect::new(IVec2 { x, y }, IVec2 { x: sprite_width, y: sprite_height })
    }
}

/// The corners of a quad `a b c d` (vertices `0 1 2 3`) named by the six
/// indices of its two triangles: a line strip's quad is cut as `0 1 2`,
/// `2 1 3`; a ring's as `0 1 2`, `1 2 3`.
pub open spec fn quad_corner(ring: bool, k: int) -> int {
    if ring {
        if k < 3 { k } else { k - 2 }
    } else {
        if k == 0 {
            0
        } else if k == 1 || k == 4 {
            1
        } else if k == 2 || k == 3 {
            2
        } else {
            3
        }
    }
}

/// The triangle indices of `quads` quads whose vertices start at `offset`,
/// four per quad.
pub open spec fn quad_indices(ring: bool, offset: int, quads: int) -> Seq<u32> {
    Seq::new((6 * quads) as nat, |k: int| (offset + (k / 6) * 4 + quad_corner(ring, k % 6)) as u32)
}

/// The indices of a line strip of `segments` quads whose vertices start at
/// `offset`.
pub open spec fn strip_indices(offset: int, segments: int) -> Seq<u32> {
    quad_indices(false, offset, segments)
}

/// The indices of a ring of `quads` quads whose vertices start at 0.
pub open spec fn ring_indices(quads: int) -> Seq<u32> {
    quad_indices(true, 0, quads)
}

fn push_quad_indices(indices: &mut Vec<u32>, offset: u32, quads: usize, ring: bool)
    requires
        offset + 4 * quads <= u32::MAX + 1,
        old(indices)@.len() + 6 * quads <= usize::MAX,
    ensures
        final(indices)@ == old(indices)@ + quad_indices(ring, offset as int, quads as int),
{
    let mut i: usize = 0;
    while i < quads
        invariant
            i <= quads,
            offset + 4 * quads <= u32::MAX + 1,
            old(indices)@.len() + 6 * quads <= usize::MAX,
            indices@ == old(indices)@ + quad_indices(ring, offset as int, i as int),
        decreases quads - i,
    {
        assert(offset + 4 * i + 3 <= u32::MAX) by (nonlinear_arith)
            requires
                i < quads,
                offset + 4 * quads <= u32::MAX + 1,
        ;
        let base: u32 = offset + (i as u32) * 4;
        let ghost before = indices@;
        indices.push(base);
        indices.push(base + 1);
        indices.push(base + 2);
        if ring {
            indices.push(base + 1);
            indices.push(base + 2);
        } else {
            indices.push(base + 2);
            indices.push(base + 1);
        }
        indices.push(base + 3);
        proof {
            let next = quad_indices(ring, offset as int, i as int + 1);
            assert forall|k: int| 0 <= k < next.len() implies #[trigger] next[k] == indices@[old(indices)@.len() + k] by {
                if k >= 6 * i {
                    assert(k / 6 == i) by (nonlinear_arith)
                        requires
                            6 * i <= k < 6 * i + 6,
                    ;
                    assert(k % 6 == k - 6 * i) by (nonlinear_arith)
                        requires
                            6 * i <= k < 6 * i + 6,
                    ;
                }
            }
            assert(indices@ =~= old(indices)@ + next);
        }
        i = i + 1;
    }
}

/// Appends the triangle indices of a line strip of `segments` quads whose
/// vertices start at `offset`.
pub fn push_line_strip_indices(indices: &mut Vec<u32>, offset: u32, segments: usize)
    requires
        offset + 4 * segments <= u32::MAX + 1,
        old(indices)@.len() + 6 * segments <= usize::MAX,
    ensures
        final(indices)@ == old(indices)@ + strip_indices(offset as int, segments as int),
{
    push_quad_indices(indices, offset, segments, false);
}

/// The triangle indices of a ring (an outline of a circle or an arc) made
/// of `quads` quads, four vertices each.
pub fn ring_quad_indices(quads: usize) -> (indices: Vec<u32>)
    requires
        4 * quads <= u32::MAX + 1,
        6 * quads <= usize::MAX,
    ensures
        indices@ == ring_indices(quads as int),
{
    let mut indices: Vec<u32> = Vec::new();
    push_quad_indices(&mut indices, 0, quads, true);
    assert(indices@ =~= ring_indices(quads as int));
    indices
}

/// The triangle indices of a fan of `triangles` triangles around vertex 0:
/// triangle `i` is `0, i + 1, i + 2`.
pub open spec fn fan_indices(triangles: int) -> Seq<u32> {
    Seq::new((3 * triangles) as nat, |k: int| (if k % 3 == 0 { 0 } else { k / 3 + k % 3 }) as u32)
}

/// The triangle indices of a fan (a filled polygon or arc) of `triangles`
/// triangles around vertex 0.
pub fn fan_triangle_indices(triangles: u32) -> (indices: Vec<u32>)
    requires
        triangles + 1 <= u32::MAX,
        3 * triangles <= usize::MAX,
    ensures
        indices@ == fan_indices(triangles as int),
{
    let mut indices: Vec<u32> = Vec::new();
    let mut i: u32 = 0;
    while i < triangles
        invariant
            i <= triangles,
            triangles + 1 <= u32::MAX,
            3 * triangles <= usize::MAX,
            indices@ == fan_indices(i as int),
        decreases triangles - i,
    {
        indices.push(0);
        indices.push(i + 1);
        indices.push(i + 2);
        proof {
            let next = fan_indices(i as int + 1);
            assert forall|k: int| 0 <= k < next.len() implies #[trigger] next[k] == indices@[k] by {
                if k >= 3 * i {
                    assert(k / 3 == i) by (nonlinear_arith)
                        requires
                            3 * i <= k < 3 * i + 3,
                    ;
                    assert(k % 3 == k - 3 * i) by (nonlinear_arith)
                        requires
                            3 * i <= k < 3 * i + 3,
                    ;
                }
            }
            assert(indices@ =~= next);
        }
        i = i + 1;
    }
    indices
}

/// The part of a texture of `tex_width` by `tex_height` pixels that a quad
/// shows, with rows counted from the bottom: the given rectangle mirrored
/// vertically (its offset becomes `tex_height - offset.y - size.y`), or the
/// whole texture.
pub fn texture_source_rect(source: Option<IRect>, tex_width: i32, tex_height: i32) -> (r: IRect)
    requires
        source matches Some(rect) ==> i32::MIN <= tex_height - rect.offset.y <= i32::MAX
            && i32::MIN <= tex_height - rect.offset.y - rect.size.y <= i32::MAX,
    ensures
        source matches Some(rect) ==> r == (IRect {
            offset: IVec2 { x: rect.offset.x, y: (tex_height - rect.offset.y - rect.size.y) as i32 },
            size: rect.size,
        }),
        source is None ==> r == (IRect { offset: IVec2 { x: 0, y: 0 }, size: IVec2 { x: tex_width, y: tex_height } }),
{
    match source {
        Some(rect) => IRect {
            size: rect.size,
            offset: IVec2 { x: rect.offset.x, y: tex_height - rect.offset.y - rect.size.y },
        },
        None => IRect::new(IVec2 { x: 0, y: 0 }, IVec2 { x: tex_width, y: tex_height }),
    }
}

} // verus!
