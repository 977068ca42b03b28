use vstd::prelude::*;

use vstd::arithmetic::div_mod::{lemma_fundamental_div_mod, lemma_fundamental_div_mod_converse};

verus! {

/// Column and row of index `i` in a grid of `w` columns and `h` rows.
pub proof fn lemma_grid_pos(i: int, w: int, h: int)
    requires
        0 <= i < w * h,
        0 <= w,
        0 <= h,
    ensures
        w > 0,
        0 <= i % w < w,
        0 <= i / w < h,
        i == (i / w) * w + i % w,
{
    if w <= 0 {
        assert(w * h == 0) by (nonlinear_arith)
            requires
                w == 0,
        ;
    }
    lemma_fundamental_div_mod(i, w);
    assert(i == (i / w) * w + i % w) by (nonlinear_arith)
        requires
            i == w * (i / w) + i % w,
    ;
    assert(0 <= i % w < w) by (nonlinear_arith)
        requires
            w > 0,
            i >= 0,
    {
        vstd::arithmetic::div_mod::lemma_mod_bound(i, w);
    }
    assert(0 <= i / w < h) by (nonlinear_arith)
        requires
            w > 0,
            i >= 0,
            i < w * h,
            i == (i / w) * w + i % w,
            0 <= i % w < w,
    ;
}

/// Moving one column to the right stays in the row.
pub proof fn lemma_step_right(i: int, w: int, h: int)
    requires
        0 <= i < w * h,
        0 <= w,
        0 <= h,
        i % w + 1 < w,
    ensures
        i + 1 < w * h,
        (i + 1) % w == i % w + 1,
        (i + 1) / w == i / w,
{
    lemma_grid_pos(i, w, h);
    lemma_fundamental_div_mod_converse(i + 1, w, i / w, i % w + 1);
    assert(i + 1 < w * h) by (nonlinear_arith)
        requires
            i + 1 == (i / w) * w + i % w + 1,
            i % w + 1 < w,
            i / w < h,
            0 <= i / w,
    ;
}

/// Moving one column to the left stays in the row.
pub proof fn lemma_step_left(i: int, w: int, h: int)
    requires
        0 <= i < w * h,
        0 <= w,
        0 <= h,
        i % w > 0,
    ensures
        (i - 1) % w == i % w - 1,
        (i - 1) / w == i / w,
{
    lemma_grid_pos(i, w, h);
    lemma_fundamental_div_mod_converse(i - 1, w, i / w, i % w - 1);
}

/// Moving one row down keeps the column.
pub proof fn lemma_step_down(i: int, w: int, h: int)
    requires
        0 <= i,
        i + w < w * h,
        0 <= w,
        0 <= h,
    ensures
        (i + w) % w == i % w,
        (i + w) / w == i / w + 1,
{
    lemma_grid_pos(i, w, h);
    assert(i + w == (i / w + 1) * w + i % w) by (nonlinear_arith)
        requires
            i == (i / w) * w + i % w,
    ;
    lemma_fundamental_div_mod_converse(i + w, w, i / w + 1, i % w);
}

/// Moving one row up keeps the column.
pub proof fn lemma_step_up(i: int, w: int, h: int)
    requires
        w <= i < w * h,
        0 <= w,
        0 <= h,
    ensures
        i - w >= 0,
        (i - w) % w == i % w,
        (i - w) / w == i / w - 1,
{
    lemma_grid_pos(i, w, h);
    assert(i - w == (i / w - 1) * w + i % w) by (nonlinear_arith)
        requires
            i == (i / w) * w + i % w,
    ;
    lemma_fundamental_div_mod_converse(i - w, w, i / w - 1, i % w);
    assert(i / w >= 1) by (nonlinear_arith)
        requires
            i == (i / w) * w + i % w,
            i >= w,
            i % w < w,
            w > 0,
    ;
}

/// The cell below index `i` exists when `i` is not in the last row.
pub proof fn lemma_down_exists(i: int, w: int, h: int)
    requires
        0 <= i < w * h,
        0 <= w,
        0 <= h,
        i / w + 1 < h,
    ensures
        i + w < w * h,
{
    lemma_grid_pos(i, w, h);
    assert(i + w < w * h) by (nonlinear_arith)
        requires
            i == (i / w) * w + i % w,
            i % w < w,
            i / w + 1 < h,
            w > 0,
    ;
}

} // verus!
