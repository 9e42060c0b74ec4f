//! Properties of the automaton, proved over the specifications of `sim`.

use vstd::prelude::*;
use crate::grid::{
    Cells, PixelState, blank, cell_at, in_bounds, lemma_write_shape, n_columns, n_rows, occupied,
    spawned_state, well_shaped, with_cell,
};
use crate::sim::{
    BRUSH_REACH, brush, brush_cell, coin_at, draws_coin, erase_result, fall_row, first_blocker,
    land, mark, pass_column, pass_columns, place, settle_target, spawn_result, step_result, vacant,
    visit,
};

verus! {

/// Every cell of `n` that is occupied is occupied in `m` too.
pub open spec fn keeps_occupied(n: Cells, m: Cells) -> bool {
    forall|x: int, y: int| #[trigger] occupied(n, x, y) ==> occupied(m, x, y)
}

/// `m` has the shape of `g`.
pub open spec fn same_shape(g: Cells, m: Cells) -> bool {
    well_shaped(m) && n_columns(m) == n_columns(g) && n_rows(m) == n_rows(g)
}

proof fn lemma_write_keeps(n: Cells, c: int, r: int, s: PixelState)
    requires
        well_shaped(n),
        s.enabled,
    ensures
        same_shape(n, with_cell(n, c, r, s)),
        keeps_occupied(n, with_cell(n, c, r, s)),
        in_bounds(n, c, r) ==> occupied(with_cell(n, c, r, s), c, r),
{
    lemma_write_shape(n, c, r, s);
    let m = with_cell(n, c, r, s);
    assert forall|x: int, y: int| #[trigger] occupied(n, x, y) implies occupied(m, x, y) by {
        if in_bounds(n, c, r) && x == c {
            assert(m[x] == n[x].update(r, s));
        }
    }
}

proof fn lemma_place_keeps(g: Cells, n: Cells, c: int, r: int, coin: bool)
    requires
        well_shaped(n),
    ensures
        same_shape(n, place(g, n, c, r, coin)),
        keeps_occupied(n, place(g, n, c, r, coin)),
{
    if !in_bounds(g, c, r + 1) {
        if in_bounds(n, c, r) {
            lemma_write_keeps(n, c, r, PixelState { enabled: true, ..n[c][r] });
        }
    } else if g[c][r + 1].enabled {
        let t = settle_target(g, c, r, coin);
        if in_bounds(n, t.0, t.1) {
            lemma_write_keeps(n, t.0, t.1, PixelState { enabled: true, ..n[t.0][t.1] });
        }
    } else {
        let f = fall_row(g, c, r);
        if in_bounds(n, c, f.0) {
            lemma_write_keeps(
                n,
                c,
                f.0,
                PixelState { enabled: true, velocity: (f.1 + 1) as i32, ..n[c][f.0] },
            );
        }
    }
}

proof fn lemma_pass_column_keeps(g: Cells, coins: Seq<bool>, st: (Cells, nat), c: int, r: nat)
    requires
        well_shaped(st.0),
    ensures
        same_shape(st.0, pass_column(g, coins, st, c, r).0),
        keeps_occupied(st.0, pass_column(g, coins, st, c, r).0),
    decreases r,
{
    if r > 0 {
        let prev = pass_column(g, coins, st, c, (r - 1) as nat);
        lemma_pass_column_keeps(g, coins, st, c, (r - 1) as nat);
        if occupied(g, c, r - 1) {
            let coin = if draws_coin(g, c, r - 1) {
                coin_at(coins, prev.1)
            } else {
                false
            };
            lemma_place_keeps(g, prev.0, c, r - 1, coin);
        }
    }
}

proof fn lemma_blank_shape(g: Cells)
    requires
        well_shaped(g),
    ensures
        same_shape(g, blank(n_columns(g) as nat, n_rows(g) as nat)),
{
}

proof fn lemma_pass_columns_shape(g: Cells, coins: Seq<bool>, c: nat)
    requires
        well_shaped(g),
    ensures
        same_shape(g, pass_columns(g, coins, c).0),
    decreases c,
{
    if c == 0 {
        lemma_blank_shape(g);
    } else {
        lemma_pass_columns_shape(g, coins, (c - 1) as nat);
        lemma_pass_column_keeps(
            g,
            coins,
            pass_columns(g, coins, (c - 1) as nat),
            c - 1,
            n_rows(g) as nat,
        );
    }
}

proof fn lemma_pass_columns_keeps(g: Cells, coins: Seq<bool>, lo: nat, hi: nat)
    requires
        well_shaped(g),
        lo <= hi,
    ensures
        keeps_occupied(pass_columns(g, coins, lo).0, pass_columns(g, coins, hi).0),
    decreases hi - lo,
{
    if lo < hi {
        lemma_pass_columns_keeps(g, coins, lo, (hi - 1) as nat);
        lemma_pass_columns_shape(g, coins, (hi - 1) as nat);
        lemma_pass_column_keeps(
            g,
            coins,
            pass_columns(g, coins, (hi - 1) as nat),
            hi - 1,
            n_rows(g) as nat,
        );
    }
}

/// A particle on the last row stays where it is: whatever coins the pass
/// draws, the same cell is occupied in the next frame.
pub proof fn lemma_last_row_stays(g: Cells, coins: Seq<bool>, c: int)
    requires
        well_shaped(g),
        occupied(g, c, n_rows(g) - 1),
    ensures
        occupied(step_result(g, coins), c, n_rows(g) - 1),
{
    let last = n_rows(g) - 1;
    let rows = n_rows(g) as nat;
    let before = pass_columns(g, coins, c as nat);
    lemma_pass_columns_shape(g, coins, c as nat);
    let mid = pass_column(g, coins, before, c, last as nat);
    lemma_pass_column_keeps(g, coins, before, c, last as nat);
    assert(pass_column(g, coins, before, c, rows) == visit(g, coins, mid, c, last));
    assert(!in_bounds(g, c, last + 1));
    lemma_write_keeps(mid.0, c, last, PixelState { enabled: true, ..mid.0[c][last] });
    assert(occupied(pass_columns(g, coins, (c + 1) as nat).0, c, last));
    lemma_pass_columns_keeps(g, coins, (c + 1) as nat, n_columns(g) as nat);
}

proof fn lemma_no_blocker(g: Cells, c: int, lo: int, hi: int)
    requires
        forall|y: int| lo <= y <= hi ==> !#[trigger] occupied(g, c, y),
    ensures
        first_blocker(g, c, lo, hi) is None,
    decreases hi + 1 - lo,
{
    if lo <= hi {
        lemma_no_blocker(g, c, lo + 1, hi);
    }
}

proof fn lemma_pass_column_skips_empty(
    g: Cells,
    coins: Seq<bool>,
    st: (Cells, nat),
    c: int,
    lo: nat,
    r: nat,
)
    requires
        lo <= r,
        forall|y: int| lo <= y < r ==> !#[trigger] occupied(g, c, y),
    ensures
        pass_column(g, coins, st, c, r) == pass_column(g, coins, st, c, lo),
    decreases r - lo,
{
    if lo < r {
        lemma_pass_column_skips_empty(g, coins, st, c, lo, (r - 1) as nat);
    }
}

proof fn lemma_pass_columns_skip_empty(g: Cells, coins: Seq<bool>, lo: nat, hi: nat)
    requires
        lo <= hi,
        forall|x: int, y: int| lo <= x < hi ==> !#[trigger] occupied(g, x, y),
    ensures
        pass_columns(g, coins, hi) == pass_columns(g, coins, lo),
    decreases hi - lo,
{
    if lo < hi {
        lemma_pass_columns_skip_empty(g, coins, lo, (hi - 1) as nat);
        lemma_pass_column_skips_empty(
            g,
            coins,
            pass_columns(g, coins, (hi - 1) as nat),
            hi - 1,
            0,
            n_rows(g) as nat,
        );
    }
}

/// A lone particle whose velocity is at least one and that has room below to
/// fall that far leaves its cell and lands exactly `velocity` rows lower, one
/// unit of velocity faster; no other cell of the next frame is occupied.
pub proof fn lemma_lone_particle_falls(g: Cells, coins: Seq<bool>, c: int, r: int)
    requires
        well_shaped(g),
        occupied(g, c, r),
        forall|x: int, y: int| #[trigger] occupied(g, x, y) ==> x == c && y == r,
        1 <= g[c][r].velocity,
        r + g[c][r].velocity < n_rows(g),
    ensures
        !occupied(step_result(g, coins), c, r),
        occupied(step_result(g, coins), c, r + g[c][r].velocity),
        step_result(g, coins)[c][r + g[c][r].velocity].velocity == g[c][r].velocity + 1,
        forall|x: int, y: int| #[trigger]
            occupied(step_result(g, coins), x, y) ==> x == c && y == r + g[c][r].velocity,
{
    let v = g[c][r].velocity as int;
    let rows = n_rows(g) as nat;
    let cols = n_columns(g) as nat;
    let b = blank(cols, rows);
    lemma_blank_shape(g);
    lemma_pass_columns_skip_empty(g, coins, (c + 1) as nat, cols);
    lemma_pass_columns_skip_empty(g, coins, 0, c as nat);
    let st0 = pass_columns(g, coins, 0);
    assert(st0 == (b, 0nat));
    lemma_pass_column_skips_empty(g, coins, st0, c, (r + 1) as nat, rows);
    lemma_pass_column_skips_empty(g, coins, st0, c, 0, r as nat);
    assert(pass_column(g, coins, st0, c, (r + 1) as nat) == visit(g, coins, st0, c, r));
    assert(!occupied(g, c, r + 1));
    lemma_no_blocker(g, c, r + 1, r + v);
    assert(fall_row(g, c, r) == (r + v, v));
    let n = step_result(g, coins);
    assert(n == land(b, c, r + v, (v + 1) as i32));
    let s = PixelState { enabled: true, velocity: (v + 1) as i32, ..b[c][r + v] };
    assert(n == b.update(c, b[c].update(r + v, s)));
    assert forall|x: int, y: int| #[trigger] occupied(n, x, y) implies x == c && y == r + v by {
        if x != c {
            assert(n[x] == b[x]);
        } else if y != r + v {
            assert(n[x][y] == b[x][y]);
        }
    }
}

/// A falling particle that moves at least two rows a frame, with its own
/// row below free and a particle two rows below, stops on the row just above
/// that particle; its velocity is zeroed there, then raised by one by gravity.
pub proof fn lemma_fall_stops_above_blocker(g: Cells, n: Cells, c: int, r: int, coin: bool)
    requires
        well_shaped(g),
        occupied(g, c, r),
        vacant(g, c, r + 1),
        occupied(g, c, r + 2),
        g[c][r].velocity >= 2,
    ensures
        fall_row(g, c, r) == (r + 1, 0int),
        place(g, n, c, r, coin) == land(n, c, r + 1, 1),
{
    let v = g[c][r].velocity as int;
    let last = n_rows(g) - 1;
    let a = if r + v > last {
        last
    } else {
        r + v
    };
    assert(first_blocker(g, c, r + 2, a) == Some(r + 2));
    assert(first_blocker(g, c, r + 1, a) == Some(r + 2));
}

/// A particle blocked directly below, with only its left diagonal free,
/// settles into that diagonal whichever way the coin falls.
pub proof fn lemma_settles_left(g: Cells, n: Cells, c: int, r: int, coin: bool)
    requires
        well_shaped(g),
        occupied(g, c, r),
        occupied(g, c, r + 1),
        vacant(g, c - 1, r + 1),
        !vacant(g, c + 1, r + 1),
    ensures
        settle_target(g, c, r, coin) == (c - 1, r + 1),
        place(g, n, c, r, coin) == mark(n, c - 1, r + 1),
{
}

proof fn lemma_brush_shape(g: Cells, c: int, r: int, coins: Seq<bool>, k: nat)
    requires
        well_shaped(g),
    ensures
        same_shape(g, brush(g, c, r, coins, k)),
    decreases k,
{
    if k > 0 {
        lemma_brush_shape(g, c, r, coins, (k - 1) as nat);
        let prev = brush(g, c, r, coins, (k - 1) as nat);
        let t = brush_cell(
            c,
            r,
            k - 1 - BRUSH_REACH,
            coin_at(coins, (k - 1) as nat),
        );
        lemma_write_keeps(prev, t.0, t.1, spawned_state());
    }
}

/// A spawn inside the grid always leaves its centre occupied, whatever the
/// brush's coins; a spawn outside the grid changes nothing.
pub proof fn lemma_spawn_fills_centre(g: Cells, c: int, r: int, coins: Seq<bool>)
    requires
        well_shaped(g),
    ensures
        in_bounds(g, c, r) ==> occupied(spawn_result(g, c, r, coins), c, r),
        !in_bounds(g, c, r) ==> spawn_result(g, c, r, coins) == g,
{
    if in_bounds(g, c, r) {
        let k = (2 * BRUSH_REACH) as nat;
        lemma_brush_shape(g, c, r, coins, k);
        lemma_write_keeps(brush(g, c, r, coins, k), c, r, spawned_state());
    }
}

/// An erase empties its cell and leaves every other cell as it was; on a
/// cell that is empty or outside the grid it changes nothing.
pub proof fn lemma_erase_is_local(g: Cells, c: int, r: int)
    requires
        well_shaped(g),
    ensures
        !occupied(erase_result(g, c, r), c, r),
        forall|x: int, y: int|
            !(x == c && y == r) ==> #[trigger] cell_at(erase_result(g, c, r), x, y) == cell_at(
                g,
                x,
                y,
            ),
        !occupied(g, c, r) ==> erase_result(g, c, r) == g,
{
    let e = erase_result(g, c, r);
    if in_bounds(g, c, r) {
        let s = PixelState { enabled: false, ..g[c][r] };
        lemma_write_shape(g, c, r, s);
        assert forall|x: int, y: int| !(x == c && y == r) implies #[trigger] cell_at(e, x, y)
            == cell_at(g, x, y) by {
            if x == c && in_bounds(g, x, y) {
                assert(e[x][y] == g[x][y]);
            }
        }
        if !g[c][r].enabled {
            assert(s == g[c][r]);
            assert(e[c] =~= g[c]);
            assert(e =~= g);
        }
    }
}

/// The grid after one frame per coin sequence of `frames`, in order.
pub open spec fn run(g: Cells, frames: Seq<Seq<bool>>) -> Cells
    decreases frames.len(),
{
    if frames.len() == 0 {
        g
    } else {
        run(step_result(g, frames[0]), frames.drop_first())
    }
}

/// A particle on the last row stays there across any number of frames.
pub proof fn lemma_last_row_stays_forever(g: Cells, frames: Seq<Seq<bool>>, c: int)
    requires
        well_shaped(g),
        occupied(g, c, n_rows(g) - 1),
    ensures
        occupied(run(g, frames), c, n_rows(g) - 1),
    decreases frames.len(),
{
    if frames.len() > 0 {
        lemma_last_row_stays(g, frames[0], c);
        lemma_pass_columns_shape(g, frames[0], n_columns(g) as nat);
        lemma_last_row_stays_forever(step_result(g, frames[0]), frames.drop_first(), c);
    }
}

} // verus!
