//! Row flipping of two-dimensional buffers stored as vectors, and the
//! element exchange that it and the shuffles use.

use vstd::prelude::*;
use vstd::arithmetic::div_mod::{lemma_fundamental_div_mod, lemma_div_pos_is_pos, lemma_mod_pos_bound};

verus! {

/// `s` with the elements at `i` and `j` exchanged.
pub open spec fn swapped<T>(s: Seq<T>, i: int, j: int) -> Seq<T> {
    s.update(i, s[j]).update(j, s[i])
}

/// Exchanges two elements of a vector; this is `slice::swap` of std, whose
/// documentation states that the elements at `i` and `j` trade places.
#[verifier::external_body]
pub(crate) fn vec_swap<T>(v: &mut Vec<T>, i: usize, j: usize)
    requires
        i < old(v).len(),
        j < old(v).len(),
    ensures
        final(v)@ == swapped(old(v)@, i as int, j as int),
{
    v.swap(i, j);
}

/// Exchanging two elements keeps the multiset of elements.
pub proof fn lemma_swapped_multiset<T>(s: Seq<T>, i: int, j: int)
    requires
        0 <= i < s.len(),
        0 <= j < s.len(),
    ensures
        swapped(s, i, j).to_multiset() == s.to_multiset(),
        swapped(s, i, j).len() == s.len(),
{
    broadcast use vstd::seq_lib::to_multiset_update;
    broadcast use vstd::multiset::group_multiset_axioms;
    broadcast use vstd::multiset::group_multiset_properties;
    broadcast use vstd::seq_lib::to_multiset_contains;

    if i == j {
        assert(swapped(s, i, j) =~= s);
    } else {
        let s1 = s.update(i, s[j]);
        assert(s1[j] == s[j]);
        assert(s1.to_multiset() == s.to_multiset().insert(s[j]).remove(s[i]));
        assert(s1.update(j, s[i]).to_multiset() == s1.to_multiset().insert(s[i]).remove(s[j]));
        let m = s.to_multiset();
        assert(s.contains(s[i]));
        assert(m.count(s[i]) > 0);
        assert(m.insert(s[j]).remove(s[i]).insert(s[i]).remove(s[j]) =~= m);
    }
}


/// The rows of `s` (each `width` long) in reverse order: the element at
/// row `r`, column `c` of the result is the one at row `height - 1 - r`, column `c`.
pub open spec fn flipped_rows<T>(s: Seq<T>, width: int) -> Seq<T> {
    let height = s.len() as int / width;
    Seq::new(s.len(), |k: int| s[(height - 1 - k / width) * width + k % width])
}

proof fn lemma_cell_bounds(r: int, c: int, w: int, h: int)
    requires
        0 <= r < h,
        0 <= c < w,
    ensures
        0 <= r * w + c < h * w,
{
    assert(0 <= r * w + c < h * w) by (nonlinear_arith)
        requires 0 <= r < h, 0 <= c < w;
}

proof fn lemma_cell_injective(r1: int, c1: int, r2: int, c2: int, w: int)
    requires
        0 <= c1 < w,
        0 <= c2 < w,
        0 <= r1,
        0 <= r2,
        r1 * w + c1 == r2 * w + c2,
    ensures
        r1 == r2,
        c1 == c2,
{
    if r1 < r2 {
        assert(r1 * w + c1 < r2 * w + c2) by (nonlinear_arith)
            requires r1 < r2, 0 <= c1 < w, 0 <= c2;
    } else if r2 < r1 {
        assert(r2 * w + c2 < r1 * w + c1) by (nonlinear_arith)
            requires r2 < r1, 0 <= c2 < w, 0 <= c1;
    }
}

proof fn lemma_flipped_rows_cells<T>(old_s: Seq<T>, new_s: Seq<T>, w: int)
    requires
        w > 0,
        old_s.len() as int % w == 0,
        new_s.len() == old_s.len(),
        forall|r: int, c: int|
            0 <= r < old_s.len() as int / w && 0 <= c < w ==> #[trigger] new_s[r * w + c] == old_s[(old_s.len() as int / w - 1 - r) * w + c],
    ensures
        new_s == flipped_rows(old_s, w),
{
    let h = old_s.len() as int / w;
    assert forall|k: int| 0 <= k < new_s.len() implies new_s[k] == flipped_rows(old_s, w)[k] by {
        lemma_fundamental_div_mod(k, w);
        lemma_div_pos_is_pos(k, w);
        lemma_mod_pos_bound(k, w);
        lemma_fundamental_div_mod(old_s.len() as int, w);
        let r = k / w;
        let c = k % w;
        assert(k == r * w + c) by (nonlinear_arith)
            requires k == w * (k / w) + k % w, r == k / w, c == k % w;
        assert(r < h) by (nonlinear_arith)
            requires k == r * w + c, 0 <= c, k < old_s.len(), old_s.len() == w * h, w > 0;
        assert(new_s[r * w + c] == old_s[(h - 1 - r) * w + c]);
    }
    assert(new_s =~= flipped_rows(old_s, w));
}

/// Flipping the rows twice gives back the grid it started from.
pub proof fn law_flip_rows_involution<T>(s: Seq<T>, width: int)
    requires
        width > 0,
        s.len() as int % width == 0,
    ensures
        flipped_rows(flipped_rows(s, width), width) == s,
{
    let f = flipped_rows(s, width);
    let h = s.len() as int / width;
    assert forall|r: int, c: int| 0 <= r < h && 0 <= c < width implies #[trigger] s[r * width + c] == f[(h - 1 - r) * width + c] by {
        let k = (h - 1 - r) * width + c;
        lemma_cell_bounds(h - 1 - r, c, width, h);
        lemma_fundamental_div_mod(s.len() as int, width);
        assert(h * width == s.len()) by (nonlinear_arith)
            requires s.len() == width * h;
        lemma_fundamental_div_mod(k, width);
        lemma_mod_pos_bound(k, width);
        lemma_div_pos_is_pos(k, width);
        lemma_cell_injective(k / width, k % width, h - 1 - r, c, width);
        assert(k == width * (k / width) + k % width);
        assert(k / width * width == width * (k / width)) by (nonlinear_arith);
    }
    lemma_flipped_rows_cells(f, s, width);
}

/// Operations on vectors that hold a two-dimensional grid row by row.
pub trait VecExtensions: Sized {
    /// The number of cells of the grid.
    spec fn grid_len(&self) -> nat;

    /// A copy with the rows in reverse order.
    fn flip(&self, width: usize) -> (res: Self)
        requires
            width > 0,
            self.grid_len() % (width as nat) == 0,
        ensures
            res.grid_len() == self.grid_len(),
    ;

    /// Reverses the order of the rows in place.
    fn flip_inplace(&mut self, width: usize)
        requires
            width > 0,
            old(self).grid_len() % (width as nat) == 0,
        ensures
            final(self).grid_len() == old(self).grid_len(),
    ;
}

impl<T: Clone> VecExtensions for Vec<T> {
    open spec fn grid_len(&self) -> nat {
        self@.len()
    }

    /// Each cell of the copy is a clone of the cell in the mirrored row.
    fn flip(&self, width: usize) -> (res: Vec<T>)
        ensures
            forall|k: int|
                0 <= k < self@.len() ==> cloned::<T>(
                    #[trigger] flipped_rows(self@, width as int)[k],
                    res@[k],
                ),
    {
        let mut res = self.clone();
        let ghost cl = res@;
        res.flip_inplace(width);
        proof {
            assert forall|k: int| 0 <= k < self@.len() implies cloned::<T>(
                #[trigger] flipped_rows(self@, width as int)[k],
                res@[k],
            ) by {
                let h = self@.len() as int / width as int;
                let j = (h - 1 - k / width as int) * width as int + k % width as int;
                assert(res@[k] == flipped_rows(cl, width as int)[k]);
                lemma_flip_index_in_range(k, width as int, self@.len() as int);
                assert(cloned::<T>(self@[j], cl[j]));
            }
        }
        res
    }

    fn flip_inplace(&mut self, width: usize)
        ensures
            final(self)@ == flipped_rows(old(self)@, width as int),
    {
        let ghost s0 = self@;
        let n = self.len();
        let w = width;
        let h = n / w;
        proof {
            lemma_fundamental_div_mod(n as int, w as int);
            assert(n == w * h);
        }
        let mut y: usize = 0;
        while y < h / 2
            invariant
                w > 0,
                n == self@.len(),
                n == s0.len(),
                n == w * h,
                h == s0.len() as int / (w as int),
                y <= h / 2,
                forall|r: int, c: int|
                    0 <= r < h && 0 <= c < w ==> #[trigger] self@[r * w + c] == (if r < y || r > h - 1 - y {
                        s0[(h - 1 - r) * w + c]
                    } else {
                        s0[r * w + c]
                    }),
            decreases h / 2 - y,
        {
            let mut x: usize = 0;
            let y2: usize = h - y - 1;
            while x < w
                invariant
                    w > 0,
                    n == self@.len(),
                    n == w * h,
                    y < h / 2,
                    y2 == h - y - 1,
                    x <= w,
                    forall|r: int, c: int|
                        0 <= r < h && 0 <= c < w ==> #[trigger] self@[r * w + c] == (if r < y || r > h - 1 - y
                            || ((r == y || r == y2) && c < x) {
                            s0[(h - 1 - r) * w + c]
                        } else {
                            s0[r * w + c]
                        }),
                decreases w - x,
            {
                proof {
                    lemma_cell_bounds(y as int, x as int, w as int, h as int);
                    lemma_cell_bounds(y2 as int, x as int, w as int, h as int);
                }
                let a = y * w + x;
                let b = y2 * w + x;
                let ghost before = self@;
                vec_swap(self, a, b);
                proof {
                    assert forall|r: int, c: int| 0 <= r < h && 0 <= c < w implies #[trigger] self@[r * w + c] == (if r < y || r > h - 1 - y
                            || ((r == y || r == y2) && c < x + 1) {
                            s0[(h - 1 - r) * w + c]
                        } else {
                            s0[r * w + c]
                        }) by {
                        lemma_cell_bounds(r, c, w as int, h as int);
                        if r * w + c == a {
                            lemma_cell_injective(r, c, y as int, x as int, w as int);
                            assert(before[b as int] == s0[(h - 1 - r) * w + c]);
                        } else if r * w + c == b {
                            lemma_cell_injective(r, c, y2 as int, x as int, w as int);
                            assert(before[a as int] == s0[(h - 1 - r) * w + c]);
                        } else {
                            if r == y && c == x {
                                assert(false);
                            }
                            if r == y2 && c == x {
                                assert(false);
                            }
                        }
                    }
                }
                x = x + 1;
            }
            y = y + 1;
        }
        proof {
            assert forall|r: int, c: int| 0 <= r < h && 0 <= c < w implies #[trigger] self@[r * w + c] == s0[(h - 1 - r) * w + c] by {
                if !(r < y || r > h - 1 - y) {
                    assert(r == h - 1 - r);
                }
            }
            lemma_flipped_rows_cells(s0, self@, w as int);
        }
    }
}

proof fn lemma_flip_index_in_range(k: int, w: int, n: int)
    requires
        w > 0,
        n % w == 0,
        0 <= k < n,
    ensures
        0 <= (n / w - 1 - k / w) * w + k % w < n,
{
    lemma_fundamental_div_mod(k, w);
    lemma_fundamental_div_mod(n, w);
    lemma_div_pos_is_pos(k, w);
    lemma_mod_pos_bound(k, w);
    let h = n / w;
    let r = k / w;
    let c = k % w;
    assert(k == r * w + c) by (nonlinear_arith)
        requires k == w * (k / w) + k % w, r == k / w, c == k % w;
    assert(r < h) by (nonlinear_arith)
        requires k == r * w + c, 0 <= c, k < n, n == w * h, w > 0;
    lemma_cell_bounds(h - 1 - r, c, w, h);
    assert(h * w == n) by (nonlinear_arith)
        requires n == w * h;
}

} // verus!
