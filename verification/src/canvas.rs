//! Integer arithmetic of the blood canvas: a world split into square blocks
//! of pixels, circles of pixels, and the pixel a blit reads.

use vstd::prelude::*;
use crate::geometry::IRect;

verus! {

/// Side of a canvas block, in pixels.
pub const CANVAS_BLOCK_SIZE: i32 = 1024;

/// Pixels per world unit.
pub const PIXELS_PER_WORLD_UNIT: i32 = 16;

/// Side of a canvas block, in world units.
pub fn blood_block_world_size() -> (s: i32)
    ensures
        s == CANVAS_BLOCK_SIZE / PIXELS_PER_WORLD_UNIT,
        s == 64,
{
    CANVAS_BLOCK_SIZE / PIXELS_PER_WORLD_UNIT
}

/// The block that the pixel coordinate `x` lies in, and its coordinate within
/// the block: `x == block * CANVAS_BLOCK_SIZE + local` with `0 <= local < CANVAS_BLOCK_SIZE`.
pub fn block_coord(x: i32) -> (r: (i32, i32))
    ensures
        r.0 == (x as int) / (CANVAS_BLOCK_SIZE as int),
        r.1 == (x as int) % (CANVAS_BLOCK_SIZE as int),
        x == r.0 * CANVAS_BLOCK_SIZE + r.1,
        0 <= r.1 < CANVAS_BLOCK_SIZE,
{
    let local: i32 = if x >= 0 {
        x % CANVAS_BLOCK_SIZE
    } else {
        let m: i32 = (-(x as i64) % 1024) as i32;
        if m == 0 {
            0
        } else {
            CANVAS_BLOCK_SIZE - m
        }
    };
    proof {
        if x >= 0 {
            vstd::arithmetic::div_mod::lemma_fundamental_div_mod(x as int, 1024);
            vstd::arithmetic::div_mod::lemma_mod_pos_bound(x as int, 1024);
        } else {
            vstd::arithmetic::div_mod::lemma_fundamental_div_mod(-(x as int), 1024);
            vstd::arithmetic::div_mod::lemma_mod_pos_bound(-(x as int), 1024);
            let q = (-(x as int)) / 1024;
            let r = (-(x as int)) % 1024;
            if r == 0 {
                assert(x == 1024 * (-q));
                vstd::arithmetic::div_mod::lemma_fundamental_div_mod_converse(x as int, 1024, -q, 0);
            } else {
                assert(x == 1024 * (-q - 1) + (1024 - r));
                vstd::arithmetic::div_mod::lemma_fundamental_div_mod_converse(x as int, 1024, -q - 1, 1024 - r);
            }
        }
    }
    let block: i32 = (x - local) / CANVAS_BLOCK_SIZE;
    proof {
        assert(x - local == 1024 * ((x as int) / 1024));
        vstd::arithmetic::div_mod::lemma_div_multiples_vanish((x as int) / 1024, 1024);
    }
    (block, local)
}

/// The offsets `(dx, dy)` with `-radius <= dx, dy < radius` and
/// `dx * dx + dy * dy < radius * radius`, in the order the canvas visits them
/// (by `dx`, then by `dy`).
pub open spec fn circle_offsets_spec(radius: int) -> Seq<(i32, i32)> {
    circle_rows(radius, 2 * radius)
}

/// The offsets of the first `n` values of `dx`.
pub open spec fn circle_rows(radius: int, n: int) -> Seq<(i32, i32)>
    decreases n,
{
    if n <= 0 {
        Seq::empty()
    } else {
        circle_rows(radius, n - 1) + circle_cells(radius, -radius + n - 1, 2 * radius)
    }
}

/// The offsets with the given `dx` among the first `n` values of `dy`.
pub open spec fn circle_cells(radius: int, dx: int, n: int) -> Seq<(i32, i32)>
    decreases n,
{
    if n <= 0 {
        Seq::empty()
    } else {
        let dy = -radius + n - 1;
        let prev = circle_cells(radius, dx, n - 1);
        if dx * dx + dy * dy < radius * radius {
            prev.push((dx as i32, dy as i32))
        } else {
            prev
        }
    }
}

proof fn lemma_circle_cells(radius: int, dx: int, n: int)
    requires
        0 <= radius <= 32767,
        -radius <= dx < radius,
        0 <= n <= 2 * radius,
    ensures
        forall|i: int| 0 <= i < circle_cells(radius, dx, n).len() ==> {
            let o = #[trigger] circle_cells(radius, dx, n)[i];
            &&& o.0 == dx
            &&& -radius <= o.1 < -radius + n
            &&& dx * dx + o.1 * o.1 < radius * radius
        },
        forall|dy: int| -radius <= dy < -radius + n && dx * dx + dy * dy < radius * radius
            ==> #[trigger] circle_cells(radius, dx, n).contains((dx as i32, dy as i32)),
    decreases n,
{
    if n > 0 {
        lemma_circle_cells(radius, dx, n - 1);
        let prev = circle_cells(radius, dx, n - 1);
        let dy0 = -radius + n - 1;
        let cur = circle_cells(radius, dx, n);
        if dx * dx + dy0 * dy0 < radius * radius {
            assert(cur == prev.push((dx as i32, dy0 as i32)));
            assert forall|dy: int| -radius <= dy < -radius + n && dx * dx + dy * dy < radius * radius
                implies #[trigger] cur.contains((dx as i32, dy as i32)) by {
                if dy < dy0 {
                    assert(prev.contains((dx as i32, dy as i32)));
                    let j = choose|j: int| 0 <= j < prev.len() && prev[j] == (dx as i32, dy as i32);
                    assert(cur[j] == prev[j]);
                } else {
                    assert(cur[prev.len() as int] == (dx as i32, dy as i32));
                }
            }
            assert forall|i: int| 0 <= i < cur.len() implies {
                let o = #[trigger] cur[i];
                &&& o.0 == dx
                &&& -radius <= o.1 < -radius + n
                &&& dx * dx + o.1 * o.1 < radius * radius
            } by {
                if i < prev.len() {
                    assert(cur[i] == prev[i]);
                }
            }
        } else {
            assert forall|dy: int| -radius <= dy < -radius + n && dx * dx + dy * dy < radius * radius
                implies #[trigger] cur.contains((dx as i32, dy as i32)) by {
                assert(dy != dy0);
                assert(prev.contains((dx as i32, dy as i32)));
            }
        }
    }
}

proof fn lemma_circle_rows(radius: int, n: int)
    requires
        0 <= radius <= 32767,
        0 <= n <= 2 * radius,
    ensures
        forall|i: int| 0 <= i < circle_rows(radius, n).len() ==> {
            let o = #[trigger] circle_rows(radius, n)[i];
            &&& -radius <= o.0 < -radius + n
            &&& -radius <= o.1 < radius
            &&& o.0 * o.0 + o.1 * o.1 < radius * radius
        },
        forall|dx: int, dy: int| -radius <= dx < -radius + n && -radius <= dy < radius && dx * dx + dy * dy < radius * radius
            ==> #[trigger] circle_rows(radius, n).contains((dx as i32, dy as i32)),
    decreases n,
{
    if n > 0 {
        lemma_circle_rows(radius, n - 1);
        let dx0 = -radius + n - 1;
        lemma_circle_cells(radius, dx0, 2 * radius);
        let prev = circle_rows(radius, n - 1);
        let cells = circle_cells(radius, dx0, 2 * radius);
        let cur = circle_rows(radius, n);
        assert(cur == prev + cells);
        assert forall|i: int| 0 <= i < cur.len() implies {
            let o = #[trigger] cur[i];
            &&& -radius <= o.0 < -radius + n
            &&& -radius <= o.1 < radius
            &&& o.0 * o.0 + o.1 * o.1 < radius * radius
        } by {
            if i < prev.len() {
                assert(cur[i] == prev[i]);
            } else {
                assert(cur[i] == cells[i - prev.len()]);
            }
        }
        assert forall|dx: int, dy: int| -radius <= dx < -radius + n && -radius <= dy < radius && dx * dx + dy * dy < radius * radius
            implies #[trigger] cur.contains((dx as i32, dy as i32)) by {
            if dx < dx0 {
                assert(prev.contains((dx as i32, dy as i32)));
                let j = choose|j: int| 0 <= j < prev.len() && prev[j] == (dx as i32, dy as i32);
                assert(cur[j] == prev[j]);
            } else {
                assert(cells.contains((dx as i32, dy as i32)));
                let j = choose|j: int| 0 <= j < cells.len() && cells[j] == (dx as i32, dy as i32);
                assert(cur[prev.len() + j] == cells[j]);
            }
        }
    }
}

/// The offsets of a circle are exactly the open disc: each offset `(dx, dy)`
/// lies in the square `-radius <= dx, dy < radius` with
/// `dx * dx + dy * dy < radius * radius`, and every such offset is there.
pub proof fn law_circle_offsets_are_the_disc(radius: int)
    requires
        -32767 <= radius <= 32767,
    ensures
        forall|i: int| 0 <= i < circle_offsets_spec(radius).len() ==> {
            let o = #[trigger] circle_offsets_spec(radius)[i];
            &&& -radius <= o.0 < radius
            &&& -radius <= o.1 < radius
            &&& o.0 * o.0 + o.1 * o.1 < radius * radius
        },
        forall|dx: int, dy: int| -radius <= dx < radius && -radius <= dy < radius && dx * dx + dy * dy < radius * radius
            ==> #[trigger] circle_offsets_spec(radius).contains((dx as i32, dy as i32)),
{
    if radius >= 0 {
        lemma_circle_rows(radius, 2 * radius);
    } else {
        assert(circle_offsets_spec(radius) == Seq::<(i32, i32)>::empty());
    }
}

/// The pixel offsets of a circle of the given radius (see `circle_offsets_spec`).
pub fn circle_offsets(radius: i32) -> (r: Vec<(i32, i32)>)
    requires
        -32767 <= radius <= 32767,
    ensures
        r@ == circle_offsets_spec(radius as int),
        forall|i: int| 0 <= i < r@.len() ==> {
            let o = #[trigger] r@[i];
            &&& -radius <= o.0 < radius
            &&& -radius <= o.1 < radius
            &&& o.0 * o.0 + o.1 * o.1 < radius * radius
        },
        forall|dx: int, dy: int| -radius <= dx < radius && -radius <= dy < radius && dx * dx + dy * dy < radius * radius
            ==> #[trigger] r@.contains((dx as i32, dy as i32)),
{
    proof {
        law_circle_offsets_are_the_disc(radius as int);
    }
    let mut r: Vec<(i32, i32)> = Vec::new();
    let mut dx: i32 = -radius;
    while dx < radius
        invariant
            -32767 <= radius <= 32767,
            -radius <= dx,
            radius >= 0 ==> dx <= radius,
            radius < 0 ==> dx == -radius,
            r@ == circle_rows(radius as int, dx + radius),
        decreases radius - dx,
    {
        let mut dy: i32 = -radius;
        let ghost row_start = r@;
        while dy < radius
            invariant
                -32767 <= radius <= 32767,
                -radius <= dx < radius,
                -radius <= dy <= radius,
                r@ == row_start + circle_cells(radius as int, dx as int, dy + radius),
            decreases radius - dy,
        {
            assert(0 <= dx * dx <= 32767 * 32767) by (nonlinear_arith)
                requires -32767 <= dx <= 32767;
            assert(0 <= dy * dy <= 32767 * 32767) by (nonlinear_arith)
                requires -32767 <= dy <= 32767;
            assert(0 <= radius * radius <= 32767 * 32767) by (nonlinear_arith)
                requires -32767 <= radius <= 32767;
            if dx * dx + dy * dy < radius * radius {
                r.push((dx, dy));
            }
            dy = dy + 1;
            proof {
                assert(r@ =~= row_start + circle_cells(radius as int, dx as int, dy + radius));
            }
        }
        proof {
            assert(dy == radius);
            assert(circle_rows(radius as int, dx + radius + 1) == circle_rows(radius as int, dx + radius)
                + circle_cells(radius as int, dx as int, 2 * radius));
        }
        dx = dx + 1;
    }
    r
}

/// The pixel of the source rectangle that a blit draws at `(x, y)` of its
/// output: columns run backwards when `flip_x`, rows run backwards unless `flip_y`.
pub fn blit_source_pixel(rect: IRect, x: i32, y: i32, flip_x: bool, flip_y: bool) -> (r: (i32, i32))
    requires
        0 <= x < rect.size.x,
        0 <= y < rect.size.y,
        rect.offset.x >= 0,
        rect.offset.y >= 0,
        rect.offset.x + rect.size.x <= i32::MAX,
        rect.offset.y + rect.size.y <= i32::MAX,
    ensures
        r.0 == (if flip_x { rect.offset.x + rect.size.x - x - 1 } else { x + rect.offset.x }),
        r.1 == (if !flip_y { rect.offset.y + rect.size.y - y - 1 } else { y + rect.offset.y }),
        rect.offset.x <= r.0 < rect.offset.x + rect.size.x,
        rect.offset.y <= r.1 < rect.offset.y + rect.size.y,
{
    let mut read_x = x + rect.offset.x;
    let mut read_y = y + rect.offset.y;
    if flip_x {
        read_x = rect.offset.x + rect.size.x - x - 1;
    }
    if !flip_y {
        read_y = rect.offset.y + rect.size.y - y - 1;
    }
    (read_x, read_y)
}

} // verus!
