//! The per-frame physics pass, and the spawn and erase edits that user input
//! applies to the current grid before it.

use rand::rngs::StdRng;
use vstd::prelude::*;
use crate::coin::flip_coin;
use crate::grid::{
    Cells, PixelGrid, PixelState, blank, cell_at, in_bounds, lemma_write_shape, n_columns, n_rows,
    occupied, spawned_state, well_shaped, with_cell,
};

verus! {

/// The grid with the cell at `(c, r)` marked occupied, its other fields kept.
pub open spec fn mark(n: Cells, c: int, r: int) -> Cells {
    match cell_at(n, c, r) {
        Some(s) => with_cell(n, c, r, PixelState { enabled: true, ..s }),
        None => n,
    }
}

/// The grid with a particle landed at `(c, r)` carrying velocity `v`.
pub open spec fn land(n: Cells, c: int, r: int, v: i32) -> Cells {
    match cell_at(n, c, r) {
        Some(s) => with_cell(n, c, r, PixelState { enabled: true, velocity: v, ..s }),
        None => n,
    }
}

/// Whether `(c, r)` lies in the grid and is empty.
pub open spec fn vacant(g: Cells, c: int, r: int) -> bool {
    in_bounds(g, c, r) && !g[c][r].enabled
}

/// Where a particle at `(c, r)` that is blocked directly below comes to rest:
/// a free diagonal below it, chosen by `coin` (true: right) when both are free;
/// its own cell when neither is.
pub open spec fn settle_target(g: Cells, c: int, r: int, coin: bool) -> (int, int) {
    let left = vacant(g, c - 1, r + 1);
    let right = vacant(g, c + 1, r + 1);
    let dir: int = if coin { 1 } else { -1 };
    if left && right {
        (c + dir, r + 1)
    } else if left {
        (c - 1, r + 1)
    } else if right {
        (c + 1, r + 1)
    } else {
        (c, r)
    }
}

/// The first occupied row of column `c` within `[lo, hi]`.
pub open spec fn first_blocker(g: Cells, c: int, lo: int, hi: int) -> Option<int>
    decreases hi + 1 - lo,
{
    if lo > hi {
        None
    } else if occupied(g, c, lo) {
        Some(lo)
    } else {
        first_blocker(g, c, lo + 1, hi)
    }
}

/// The row a freely falling particle at `(c, r)` lands on, and its velocity
/// before gravity adds one: it tries to cross `velocity` rows, stops at the
/// last row (velocity zero) or just above the first particle in its way
/// (velocity zero); a landing row above its own row becomes the row below.
pub open spec fn fall_row(g: Cells, c: int, r: int) -> (int, int) {
    let v = g[c][r].velocity as int;
    let last = n_rows(g) - 1;
    let (a, va) = if r + v > last {
        (last, 0int)
    } else {
        (r + v, v)
    };
    let (b, vb) = match first_blocker(g, c, r + 1, a) {
        Some(k) => (k - 1, 0int),
        None => (a, va),
    };
    if b < r {
        (r + 1, vb)
    } else {
        (b, vb)
    }
}

/// Whether the particle at `(c, r)` is blocked directly below, and so draws
/// a coin to choose a diagonal.
pub open spec fn draws_coin(g: Cells, c: int, r: int) -> bool {
    occupied(g, c, r) && occupied(g, c, r + 1)
}

/// The next grid `n` after the particle at `(c, r)` of the current grid `g`
/// has been written into it.
pub open spec fn place(g: Cells, n: Cells, c: int, r: int, coin: bool) -> Cells {
    if !in_bounds(g, c, r + 1) {
        mark(n, c, r)
    } else if g[c][r + 1].enabled {
        let t = settle_target(g, c, r, coin);
        mark(n, t.0, t.1)
    } else {
        let f = fall_row(g, c, r);
        land(n, c, f.0, (f.1 + 1) as i32)
    }
}

fn mark_cell(n: &mut PixelGrid, c: i64, r: i64)
    requires
        well_shaped(old(n)@),
        i32::MIN <= c <= i32::MAX,
        i32::MIN <= r <= i32::MAX,
    ensures
        final(n)@ == mark(old(n)@, c as int, r as int),
        well_shaped(final(n)@),
        n_columns(final(n)@) == n_columns(old(n)@),
        n_rows(final(n)@) == n_rows(old(n)@),
{
    proof {
        lemma_write_shape(n@, c as int, r as int, PixelState { enabled: true, ..n@[c as int][r as int] });
    }
    if let Some(s) = n.get_state_mut(c as i32, r as i32) {
        s.enabled = true;
    }
}

fn land_cell(n: &mut PixelGrid, c: i64, r: i64, v: i32)
    requires
        well_shaped(old(n)@),
        i32::MIN <= c <= i32::MAX,
        i32::MIN <= r <= i32::MAX,
    ensures
        final(n)@ == land(old(n)@, c as int, r as int, v),
        well_shaped(final(n)@),
        n_columns(final(n)@) == n_columns(old(n)@),
        n_rows(final(n)@) == n_rows(old(n)@),
{
    proof {
        lemma_write_shape(
            n@,
            c as int,
            r as int,
            PixelState { enabled: true, velocity: v, ..n@[c as int][r as int] },
        );
    }
    if let Some(s) = n.get_state_mut(c as i32, r as i32) {
        s.enabled = true;
        s.velocity = v;
    }
}

fn is_occupied(g: &PixelGrid, c: i64, r: i64) -> (b: bool)
    requires
        well_shaped(g@),
    ensures
        b == occupied(g@, c as int, r as int),
{
    match g.at(c, r) {
        Some(s) => s.enabled,
        None => false,
    }
}

fn is_vacant(g: &PixelGrid, c: i64, r: i64) -> (b: bool)
    requires
        well_shaped(g@),
    ensures
        b == vacant(g@, c as int, r as int),
{
    match g.at(c, r) {
        Some(s) => !s.enabled,
        None => false,
    }
}

/// The landing row of the freely falling particle at `(c, r)`, and the
/// velocity it carries there.
fn fall(g: &PixelGrid, c: i64, r: i64) -> (res: (i64, i32))
    requires
        well_shaped(g@),
        in_bounds(g@, c as int, r as int),
    ensures
        res.0 == fall_row(g@, c as int, r as int).0,
        res.1 == fall_row(g@, c as int, r as int).1 + 1,
        0 <= res.0 <= i32::MAX,
{
    let ghost gg = g@;
    let v: i64 = match g.at(c, r) {
        Some(s) => s.velocity as i64,
        None => 1,
    };
    let last: i64 = g.rows() as i64 - 1;
    let a: i64;
    let va: i64;
    if r + v > last {
        a = last;
        va = 0;
    } else {
        a = r + v;
        va = v;
    }
    let mut hit: Option<i64> = None;
    let mut b: i64 = r + 1;
    while b <= a
        invariant
            well_shaped(g@),
            gg == g@,
            in_bounds(gg, c as int, r as int),
            last == n_rows(gg) - 1,
            r + 1 <= b,
            a <= last,
            last < i32::MAX,
            hit is None ==> first_blocker(gg, c as int, r + 1, a as int) == first_blocker(
                gg,
                c as int,
                b as int,
                a as int,
            ),
            hit is Some ==> first_blocker(gg, c as int, r + 1, a as int) == Some(
                hit.unwrap() as int,
            ) && r + 1 <= hit.unwrap() <= a,
        decreases a + 1 - b,
    {
        if hit.is_none() && is_occupied(g, c, b) {
            hit = Some(b);
            b = a + 1;
        } else {
            b = b + 1;
        }
    }
    let (row, vel): (i64, i64) = match hit {
        Some(k) => (k - 1, 0),
        None => (a, va),
    };
    if row < r {
        (r + 1, (vel + 1) as i32)
    } else {
        (row, (vel + 1) as i32)
    }
}

/// Writes the particle at `(c, r)` of the current grid `g` into the next grid.
fn place_particle(g: &PixelGrid, n: &mut PixelGrid, c: i64, r: i64, coin: bool)
    requires
        well_shaped(g@),
        well_shaped(old(n)@),
        occupied(g@, c as int, r as int),
    ensures
        final(n)@ == place(g@, old(n)@, c as int, r as int, coin),
        well_shaped(final(n)@),
        n_columns(final(n)@) == n_columns(old(n)@),
        n_rows(final(n)@) == n_rows(old(n)@),
{
    match g.at(c, r + 1) {
        None => mark_cell(n, c, r),
        Some(below) => {
            if below.enabled {
                let left = is_vacant(g, c - 1, r + 1);
                let right = is_vacant(g, c + 1, r + 1);
                let dir: i64 = if coin {
                    1
                } else {
                    -1
                };
                if left && right {
                    mark_cell(n, c + dir, r + 1);
                } else if left {
                    mark_cell(n, c - 1, r + 1);
                } else if right {
                    mark_cell(n, c + 1, r + 1);
                } else {
                    mark_cell(n, c, r);
                }
            } else {
                let (row, vel) = fall(g, c, r);
                land_cell(n, c, row, vel);
            }
        },
    }
}

/// The `k`-th coin of a sequence; a coin past its end reads as false (left).
pub open spec fn coin_at(coins: Seq<bool>, k: nat) -> bool {
    if k < coins.len() {
        coins[k as int]
    } else {
        false
    }
}

/// One visit of the physics pass: the next grid so far and the number of
/// coins drawn so far, after the cell `(c, r)` of `g` has been processed.
pub open spec fn visit(g: Cells, coins: Seq<bool>, st: (Cells, nat), c: int, r: int) -> (Cells, nat) {
    if !occupied(g, c, r) {
        st
    } else if draws_coin(g, c, r) {
        (place(g, st.0, c, r, coin_at(coins, st.1)), st.1 + 1)
    } else {
        (place(g, st.0, c, r, false), st.1)
    }
}

/// The pass state after visiting rows `0 .. r` of column `c`, from `st`.
pub open spec fn pass_column(g: Cells, coins: Seq<bool>, st: (Cells, nat), c: int, r: nat) -> (
    Cells,
    nat,
)
    decreases r,
{
    if r == 0 {
        st
    } else {
        visit(g, coins, pass_column(g, coins, st, c, (r - 1) as nat), c, r - 1)
    }
}

/// The pass state after visiting columns `0 .. c` in full, column by column,
/// each from its top row down, starting from a blank next grid.
pub open spec fn pass_columns(g: Cells, coins: Seq<bool>, c: nat) -> (Cells, nat)
    decreases c,
{
    if c == 0 {
        (blank(n_columns(g) as nat, n_rows(g) as nat), 0)
    } else {
        pass_column(g, coins, pass_columns(g, coins, (c - 1) as nat), c - 1, n_rows(g) as nat)
    }
}

/// The next frame of `g` when the blocked particles draw `coins` in turn.
pub open spec fn step_result(g: Cells, coins: Seq<bool>) -> Cells {
    pass_columns(g, coins, n_columns(g) as nat).0
}

/// Computes the next frame of `cur` into a fresh grid; the `k`-th particle
/// found blocked directly below settles by the `k`-th coin.
pub fn step_with_coins(cur: &PixelGrid, coins: &Vec<bool>) -> (next: PixelGrid)
    requires
        well_shaped(cur@),
    ensures
        next@ == step_result(cur@, coins@),
        well_shaped(next@),
        n_columns(next@) == n_columns(cur@),
        n_rows(next@) == n_rows(cur@),
{
    let ghost g = cur@;
    let cols = cur.columns();
    let rows = cur.rows();
    let mut next = PixelGrid::new(cols, rows);
    let mut k: usize = 0;
    let mut c: usize = 0;
    while c < cols
        invariant
            g == cur@,
            well_shaped(g),
            cols == n_columns(g),
            rows == n_rows(g),
            c <= cols,
            well_shaped(next@),
            n_columns(next@) == cols,
            n_rows(next@) == rows,
            next@ == pass_columns(g, coins@, c as nat).0,
            k <= coins@.len(),
            k < coins@.len() ==> k == pass_columns(g, coins@, c as nat).1,
            k == coins@.len() ==> pass_columns(g, coins@, c as nat).1 >= coins@.len(),
        decreases cols - c,
    {
        let ghost start = pass_columns(g, coins@, c as nat);
        let mut r: usize = 0;
        while r < rows
            invariant
                g == cur@,
                well_shaped(g),
                cols == n_columns(g),
                rows == n_rows(g),
                c < cols,
                r <= rows,
                start == pass_columns(g, coins@, c as nat),
                well_shaped(next@),
                n_columns(next@) == cols,
                n_rows(next@) == rows,
                next@ == pass_column(g, coins@, start, c as int, r as nat).0,
                k <= coins@.len(),
                k < coins@.len() ==> k == pass_column(g, coins@, start, c as int, r as nat).1,
                k == coins@.len() ==> pass_column(g, coins@, start, c as int, r as nat).1
                    >= coins@.len(),
            decreases rows - r,
        {
            if is_occupied(cur, c as i64, r as i64) {
                let blocked = is_occupied(cur, c as i64, r as i64 + 1);
                let coin = if blocked && k < coins.len() {
                    let b = coins[k];
                    k = k + 1;
                    b
                } else {
                    false
                };
                place_particle(cur, &mut next, c as i64, r as i64, coin);
            }
            r = r + 1;
        }
        c = c + 1;
    }
    next
}

/// Counts the particles of rows `0 .. r` of column `c` that are blocked
/// directly below.
pub open spec fn blocked_in_column(g: Cells, c: int, r: nat) -> nat
    decreases r,
{
    if r == 0 {
        0
    } else {
        blocked_in_column(g, c, (r - 1) as nat) + if draws_coin(g, c, r - 1) {
            1nat
        } else {
            0nat
        }
    }
}

/// Counts the blocked particles of columns `0 .. c`.
pub open spec fn blocked_before(g: Cells, c: nat) -> nat
    decreases c,
{
    if c == 0 {
        0
    } else {
        blocked_before(g, (c - 1) as nat) + blocked_in_column(g, c - 1, n_rows(g) as nat)
    }
}

/// The number of coins one physics pass over `g` draws: one for each
/// particle blocked directly below.
pub open spec fn coins_needed(g: Cells) -> nat {
    blocked_before(g, n_columns(g) as nat)
}

/// Draws one coin from `rng` for each blocked particle of `cur`.
fn draw_pass_coins(cur: &PixelGrid, rng: &mut StdRng) -> (coins: Vec<bool>)
    requires
        well_shaped(cur@),
    ensures
        coins@.len() == coins_needed(cur@),
{
    let ghost g = cur@;
    let cols = cur.columns();
    let rows = cur.rows();
    let mut coins: Vec<bool> = Vec::new();
    let mut c: usize = 0;
    while c < cols
        invariant
            g == cur@,
            well_shaped(g),
            cols == n_columns(g),
            rows == n_rows(g),
            c <= cols,
            coins@.len() == blocked_before(g, c as nat),
        decreases cols - c,
    {
        let mut r: usize = 0;
        while r < rows
            invariant
                g == cur@,
                well_shaped(g),
                cols == n_columns(g),
                rows == n_rows(g),
                c < cols,
                r <= rows,
                coins@.len() == blocked_before(g, c as nat) + blocked_in_column(g, c as int, r as nat),
            decreases rows - r,
        {
            if is_occupied(cur, c as i64, r as i64) && is_occupied(cur, c as i64, r as i64 + 1) {
                let b = flip_coin(rng);
                coins.push(b);
            }
            r = r + 1;
        }
        c = c + 1;
    }
    coins
}

/// Computes the next frame of `cur`, drawing from `rng` one coin for each
/// particle blocked directly below, in visiting order.
pub fn step(cur: &PixelGrid, rng: &mut StdRng) -> (next: PixelGrid)
    requires
        well_shaped(cur@),
    ensures
        exists|coins: Seq<bool>|
            coins.len() == coins_needed(cur@) && next@ == step_result(cur@, coins),
        well_shaped(next@),
        n_columns(next@) == n_columns(cur@),
        n_rows(next@) == n_rows(cur@),
{
    let coins = draw_pass_coins(cur, rng);
    step_with_coins(cur, &coins)
}

/// How far the spawn brush reaches: it covers the offsets `-BRUSH_REACH ..
/// BRUSH_REACH` around the centre.
pub const BRUSH_REACH: i64 = 3;

/// The cell that the brush offset `i` picks around `(c, r)`: along the row
/// when `coin` is true, along the column otherwise.
pub open spec fn brush_cell(c: int, r: int, i: int, coin: bool) -> (int, int) {
    if coin {
        (c + i, r)
    } else {
        (c, r + i)
    }
}

/// The grid after the first `n` brush offsets around `(c, r)`, the `j`-th
/// offset placing a fresh particle by the `j`-th coin.
pub open spec fn brush(g: Cells, c: int, r: int, coins: Seq<bool>, n: nat) -> Cells
    decreases n,
{
    if n == 0 {
        g
    } else {
        let t = brush_cell(c, r, n - 1 - BRUSH_REACH, coin_at(coins, (n - 1) as nat));
        with_cell(brush(g, c, r, coins, (n - 1) as nat), t.0, t.1, spawned_state())
    }
}

/// The grid after a spawn at `(c, r)`: nothing changes outside the grid;
/// inside, the brush places its particles and then the centre gets one.
pub open spec fn spawn_result(g: Cells, c: int, r: int, coins: Seq<bool>) -> Cells {
    if in_bounds(g, c, r) {
        with_cell(brush(g, c, r, coins, (2 * BRUSH_REACH) as nat), c, r, spawned_state())
    } else {
        g
    }
}

/// Spawns at `(col, row)`, the brush offsets choosing by `coins` in turn (a
/// coin past the end of `coins` reads as false).
pub fn spawn_with_coins(grid: &mut PixelGrid, col: i32, row: i32, coins: &Vec<bool>)
    requires
        well_shaped(old(grid)@),
    ensures
        final(grid)@ == spawn_result(old(grid)@, col as int, row as int, coins@),
        well_shaped(final(grid)@),
        n_columns(final(grid)@) == n_columns(old(grid)@),
        n_rows(final(grid)@) == n_rows(old(grid)@),
{
    let ghost g = grid@;
    if grid.at(col as i64, row as i64).is_none() {
        return;
    }
    let mut i: i64 = -BRUSH_REACH;
    while i < BRUSH_REACH
        invariant
            -BRUSH_REACH <= i <= BRUSH_REACH,
            well_shaped(grid@),
            n_columns(grid@) == n_columns(g),
            n_rows(grid@) == n_rows(g),
            grid@ == brush(g, col as int, row as int, coins@, (i + BRUSH_REACH) as nat),
        decreases BRUSH_REACH - i,
    {
        let j = (i + BRUSH_REACH) as usize;
        let coin = if j < coins.len() {
            coins[j]
        } else {
            false
        };
        if coin {
            grid.set(col as i64 + i, row as i64, PixelState::spawned());
        } else {
            grid.set(col as i64, row as i64 + i, PixelState::spawned());
        }
        i = i + 1;
    }
    grid.set(col as i64, row as i64, PixelState::spawned());
}

/// Spawns at `(col, row)` with the brush offsets choosing by coins drawn from
/// `rng`; a spawn outside the grid draws nothing and changes nothing.
pub fn spawn(grid: &mut PixelGrid, col: i32, row: i32, rng: &mut StdRng)
    requires
        well_shaped(old(grid)@),
    ensures
        exists|coins: Seq<bool>|
            coins.len() == (if in_bounds(old(grid)@, col as int, row as int) {
                2 * BRUSH_REACH
            } else {
                0
            }) && final(grid)@ == spawn_result(old(grid)@, col as int, row as int, coins),
        well_shaped(final(grid)@),
        n_columns(final(grid)@) == n_columns(old(grid)@),
        n_rows(final(grid)@) == n_rows(old(grid)@),
{
    let mut coins: Vec<bool> = Vec::new();
    if grid.at(col as i64, row as i64).is_none() {
        assert(coins@.len() == 0 && spawn_result(grid@, col as int, row as int, coins@) == grid@);
        return;
    }
    let mut j: i64 = 0;
    while j < 2 * BRUSH_REACH
        invariant
            0 <= j <= 2 * BRUSH_REACH,
            coins@.len() == j,
        decreases 2 * BRUSH_REACH - j,
    {
        let b = flip_coin(rng);
        coins.push(b);
        j = j + 1;
    }
    spawn_with_coins(grid, col, row, &coins);
}

/// The grid after an erase at `(c, r)`: that one cell emptied, its other
/// fields kept; nothing changes outside the grid.
pub open spec fn erase_result(g: Cells, c: int, r: int) -> Cells {
    match cell_at(g, c, r) {
        Some(s) => with_cell(g, c, r, PixelState { enabled: false, ..s }),
        None => g,
    }
}

/// Empties the cell at `(col, row)`, if it lies in the grid.
pub fn erase(grid: &mut PixelGrid, col: i32, row: i32)
    requires
        well_shaped(old(grid)@),
    ensures
        final(grid)@ == erase_result(old(grid)@, col as int, row as int),
        well_shaped(final(grid)@),
        n_columns(final(grid)@) == n_columns(old(grid)@),
        n_rows(final(grid)@) == n_rows(old(grid)@),
{
    proof {
        let s = grid@[col as int][row as int];
        lemma_write_shape(grid@, col as int, row as int, PixelState { enabled: false, ..s });
        if in_bounds(grid@, col as int, row as int) && !s.enabled {
            assert(PixelState { enabled: false, ..s } == s);
        }
    }
    if let Some(s) = grid.get_state_mut(col, row) {
        if s.enabled {
            s.toggle();
        }
    }
}

/// Applies one frame's input to the current grid: a spawn when placing is
/// active, else an erase when removing is active, else nothing.
pub fn apply_input(
    grid: &mut PixelGrid,
    place_active: bool,
    erase_active: bool,
    col: i32,
    row: i32,
    rng: &mut StdRng,
)
    requires
        well_shaped(old(grid)@),
    ensures
        place_active ==> exists|coins: Seq<bool>|
            final(grid)@ == spawn_result(old(grid)@, col as int, row as int, coins),
        !place_active && erase_active ==> final(grid)@ == erase_result(
            old(grid)@,
            col as int,
            row as int,
        ),
        !place_active && !erase_active ==> final(grid)@ == old(grid)@,
        well_shaped(final(grid)@),
        n_columns(final(grid)@) == n_columns(old(grid)@),
        n_rows(final(grid)@) == n_rows(old(grid)@),
{
    if place_active {
        spawn(grid, col, row, rng);
    } else if erase_active {
        erase(grid, col, row);
    }
}

} // verus!
