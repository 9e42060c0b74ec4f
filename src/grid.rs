//! Cells, material kinds and the bounds-checked grid that holds them.

use vstd::prelude::*;

verus! {

/// A colour as red, green, blue and alpha channels.
#[derive(Debug, Clone, Copy, PartialEq, Eq, Structural)]
pub struct PixelColor {
    pub r: u8,
    pub g: u8,
    pub b: u8,
    pub a: u8,
}

/// The material a cell holds.
#[derive(Debug, Clone, Copy, PartialEq, Eq, Structural)]
pub enum PixelKind {
    Sand,
}

/// The display colour of a material, as a function of its tag alone.
pub open spec fn kind_color(k: PixelKind) -> PixelColor {
    match k {
        PixelKind::Sand => PixelColor { r: 194, g: 178, b: 128, a: 255 },
    }
}

/// The display name of a material.
pub open spec fn kind_name(k: PixelKind) -> Seq<char> {
    match k {
        PixelKind::Sand => seq!['S', 'a', 'n', 'd'],
    }
}

impl PixelKind {
    pub fn color(&self) -> (c: PixelColor)
        ensures
            c == kind_color(*self),
    {
        match self {
            PixelKind::Sand => PixelColor { r: 194, g: 178, b: 128, a: 255 },
        }
    }

    pub fn name(&self) -> (s: &'static str)
        ensures
            s@ == kind_name(*self),
    {
        match self {
            PixelKind::Sand => {
                proof {
                    reveal_strlit("Sand");
                }
                "Sand"
            },
        }
    }
}

/// The state of one cell: whether a particle occupies it, its material, and
/// the number of rows it will try to cross on its next free fall.
#[derive(Debug, Clone, Copy, PartialEq, Eq, Structural)]
pub struct PixelState {
    pub enabled: bool,
    pub kind: PixelKind,
    pub velocity: i32,
}

/// The state of a fresh cell: empty, sand, velocity one.
pub open spec fn default_state() -> PixelState {
    PixelState { enabled: false, kind: PixelKind::Sand, velocity: 1 }
}

/// The state of a freshly placed particle.
pub open spec fn spawned_state() -> PixelState {
    PixelState { enabled: true, kind: PixelKind::Sand, velocity: 1 }
}

impl PixelState {
    /// Restores the cell to its default state.
    pub fn reset(&mut self)
        ensures
            *final(self) == default_state(),
    {
        self.enabled = false;
        self.velocity = 1;
        self.kind = PixelKind::Sand;
    }

    /// Flips whether the cell is occupied, keeping the other fields.
    pub fn toggle(&mut self)
        ensures
            *final(self) == (PixelState { enabled: !old(self).enabled, ..*old(self) }),
    {
        self.enabled = !self.enabled;
    }
}

impl PixelState {
    /// A freshly placed sand particle: a reset cell, then occupied.
    pub fn spawned() -> (s: Self)
        ensures
            s == spawned_state(),
    {
        let mut s = PixelState::default();
        s.reset();
        s.enabled = true;
        s.kind = PixelKind::Sand;
        s
    }
}

impl Default for PixelState {
    fn default() -> (s: Self)
        ensures
            s == default_state(),
    {
        PixelState { enabled: false, kind: PixelKind::Sand, velocity: 1 }
    }
}

/// A grid as columns of cells: `g[c][r]` is the cell at column `c`, row `r`.
pub type Cells = Seq<Seq<PixelState>>;

pub open spec fn n_columns(g: Cells) -> int {
    g.len() as int
}

pub open spec fn n_rows(g: Cells) -> int {
    if g.len() > 0 {
        g[0].len() as int
    } else {
        0
    }
}

/// At least one column and one row, every column of the same height, and
/// both extents addressable by `i32` coordinates.
pub open spec fn well_shaped(g: Cells) -> bool {
    &&& 0 < g.len() <= i32::MAX
    &&& 0 < g[0].len() <= i32::MAX
    &&& forall|c: int| 0 <= c < g.len() ==> (#[trigger] g[c]).len() == g[0].len()
}

pub open spec fn in_bounds(g: Cells, c: int, r: int) -> bool {
    0 <= c < n_columns(g) && 0 <= r < n_rows(g)
}

/// The cell at `(c, r)`, or nothing when the coordinate lies outside.
pub open spec fn cell_at(g: Cells, c: int, r: int) -> Option<PixelState> {
    if in_bounds(g, c, r) {
        Some(g[c][r])
    } else {
        None
    }
}

/// Whether a particle occupies `(c, r)`; outside cells are never occupied.
pub open spec fn occupied(g: Cells, c: int, r: int) -> bool {
    in_bounds(g, c, r) && g[c][r].enabled
}

/// The grid with the cell at `(c, r)` replaced; unchanged when outside.
pub open spec fn with_cell(g: Cells, c: int, r: int, s: PixelState) -> Cells {
    if in_bounds(g, c, r) {
        g.update(c, g[c].update(r, s))
    } else {
        g
    }
}

/// A grid of the given extents with every cell in its default state.
pub open spec fn blank(columns: nat, rows: nat) -> Cells {
    Seq::new(columns, |c: int| Seq::new(rows, |r: int| default_state()))
}

pub proof fn lemma_write_shape(g: Cells, c: int, r: int, s: PixelState)
    requires
        well_shaped(g),
    ensures
        well_shaped(with_cell(g, c, r, s)),
        n_columns(with_cell(g, c, r, s)) == n_columns(g),
        n_rows(with_cell(g, c, r, s)) == n_rows(g),
{
    let w = with_cell(g, c, r, s);
    if in_bounds(g, c, r) {
        assert forall|i: int| 0 <= i < w.len() implies (#[trigger] w[i]).len() == w[0].len() by {
            assert(g[i].len() == g[0].len());
        }
    }
}

/// A fixed-size grid of cells addressed by `(column, row)`.
pub struct PixelGrid {
    states: Vec<Vec<PixelState>>,
}

impl View for PixelGrid {
    type V = Cells;

    closed spec fn view(&self) -> Cells {
        self.states@.map_values(|v: Vec<PixelState>| v@)
    }
}

impl PixelGrid {
    /// A grid of `columns` by `rows` cells, all in their default state.
    pub fn new(columns: usize, rows: usize) -> (g: Self)
        requires
            0 < columns <= i32::MAX,
            0 < rows <= i32::MAX,
        ensures
            g@ == blank(columns as nat, rows as nat),
            well_shaped(g@),
    {
        let mut states: Vec<Vec<PixelState>> = Vec::with_capacity(columns);
        let mut i: usize = 0;
        while i < columns
            invariant
                i <= columns,
                states@.len() == i,
                forall|c: int|
                    0 <= c < i ==> (#[trigger] states@[c])@ == Seq::new(
                        rows as nat,
                        |r: int| default_state(),
                    ),
            decreases columns - i,
        {
            let mut column: Vec<PixelState> = Vec::with_capacity(rows);
            let mut j: usize = 0;
            while j < rows
                invariant
                    j <= rows,
                    column@ == Seq::new(j as nat, |r: int| default_state()),
                decreases rows - j,
            {
                column.push(PixelState::default());
                j = j + 1;
                assert(column@ =~= Seq::new(j as nat, |r: int| default_state()));
            }
            states.push(column);
            i = i + 1;
        }
        let g = PixelGrid { states };
        assert(g@ =~= blank(columns as nat, rows as nat));
        g
    }

    pub fn columns(&self) -> (n: usize)
        ensures
            n == n_columns(self@),
    {
        self.states.len()
    }

    pub fn rows(&self) -> (n: usize)
        requires
            well_shaped(self@),
        ensures
            n == n_rows(self@),
    {
        self.states[0].len()
    }

    /// The cell at `(col, row)`, given wide coordinates so that callers may
    /// probe neighbours without overflow.
    pub fn at(&self, col: i64, row: i64) -> (s: Option<PixelState>)
        requires
            well_shaped(self@),
        ensures
            s == cell_at(self@, col as int, row as int),
    {
        if col < 0 || row < 0 || col >= self.states.len() as i64 {
            return None;
        }
        let column = &self.states[col as usize];
        assert(column@ == self@[col as int]);
        assert(column@.len() == self@[0].len());
        if row >= column.len() as i64 {
            return None;
        }
        Some(column[row as usize])
    }

    /// Replaces the cell at `(col, row)`; outside coordinates change nothing.
    pub fn set(&mut self, col: i64, row: i64, s: PixelState)
        requires
            well_shaped(old(self)@),
        ensures
            final(self)@ == with_cell(old(self)@, col as int, row as int, s),
            well_shaped(final(self)@),
            n_columns(final(self)@) == n_columns(old(self)@),
            n_rows(final(self)@) == n_rows(old(self)@),
    {
        proof {
            lemma_write_shape(self@, col as int, row as int, s);
        }
        if col < 0 || row < 0 || col >= self.states.len() as i64 {
            return;
        }
        let ghost g = self@;
        let c = col as usize;
        assert(self.states@[c as int]@ == g[c as int]);
        assert(g[c as int].len() == g[0].len());
        if row >= self.states[c].len() as i64 {
            return;
        }
        self.states[c][row as usize] = s;
        assert(self.states@[c as int]@ == g[c as int].update(row as int, s));
        assert(self@ =~= with_cell(g, col as int, row as int, s));
    }

    /// The cell at `(col, row)`; nothing for any coordinate outside the grid,
    /// negative ones included.
    pub fn get_state(&self, col: i32, row: i32) -> (s: Option<&PixelState>)
        requires
            well_shaped(self@),
        ensures
            s.is_some() == in_bounds(self@, col as int, row as int),
            s.is_some() ==> *s.unwrap() == self@[col as int][row as int],
    {
        if col < 0 || row < 0 || col as i64 >= self.states.len() as i64 {
            return None;
        }
        let column = &self.states[col as usize];
        assert(column@ == self@[col as int]);
        assert(column@.len() == self@[0].len());
        if row as i64 >= column.len() as i64 {
            return None;
        }
        Some(&column[row as usize])
    }

    /// A mutable borrow of the cell at `(col, row)`; nothing outside the grid.
    /// Whatever the caller leaves in the cell becomes the grid's cell there.
    pub fn get_state_mut(&mut self, col: i32, row: i32) -> (s: Option<&mut PixelState>)
        requires
            well_shaped(old(self)@),
        ensures
            s.is_some() == in_bounds(old(self)@, col as int, row as int),
            s.is_none() ==> final(self)@ == old(self)@,
            s.is_some() ==> *s.unwrap() == old(self)@[col as int][row as int],
            s.is_some() ==> final(self)@ == with_cell(old(self)@, col as int, row as int, *final(s.unwrap())),
    {
        if col < 0 || row < 0 || col as i64 >= self.states.len() as i64 {
            return None;
        }
        let c = col as usize;
        assert(self.states@[c as int]@ == self@[c as int]);
        assert(self@[c as int].len() == self@[0].len());
        if row as i64 >= self.states[c].len() as i64 {
            return None;
        }
        Some(&mut self.states[c][row as usize])
    }

    /// Whether a particle occupies `(col, row)`; false outside the grid.
    pub fn is_enabled(&self, col: i32, row: i32) -> (b: bool)
        requires
            well_shaped(self@),
        ensures
            b == occupied(self@, col as int, row as int),
    {
        match self.get_state(col, row) {
            Some(s) => s.enabled,
            None => false,
        }
    }

    /// The display colour of the particle at `(col, row)`; nothing for an
    /// empty cell or one outside the grid.
    pub fn color_at(&self, col: i32, row: i32) -> (c: Option<PixelColor>)
        requires
            well_shaped(self@),
        ensures
            c == (if occupied(self@, col as int, row as int) {
                Some(kind_color(self@[col as int][row as int].kind))
            } else {
                None
            }),
    {
        match self.get_state(col, row) {
            Some(s) => if s.enabled {
                Some(s.kind.color())
            } else {
                None
            },
            None => None,
        }
    }

    /// Applies `transform` to the cell at `(col, row)`, replacing it by the
    /// result; outside coordinates change nothing and call nothing.
    pub fn update_state<F: Fn(PixelState) -> PixelState>(&mut self, col: i32, row: i32, transform: F)
        requires
            well_shaped(old(self)@),
            in_bounds(old(self)@, col as int, row as int) ==> transform.requires(
                (old(self)@[col as int][row as int],),
            ),
        ensures
            well_shaped(final(self)@),
            !in_bounds(old(self)@, col as int, row as int) ==> final(self)@ == old(self)@,
            in_bounds(old(self)@, col as int, row as int) ==> exists|t: PixelState|
                transform.ensures((old(self)@[col as int][row as int],), t) && final(self)@
                    == with_cell(old(self)@, col as int, row as int, t),
    {
        if let Some(s) = self.at(col as i64, row as i64) {
            let t = transform(s);
            self.set(col as i64, row as i64, t);
        }
    }
}

} // verus!
