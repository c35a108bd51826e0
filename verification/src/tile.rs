//! Tiles and the geometry of their neighbourhoods.

use vstd::prelude::*;

verus! {

/// What the player currently sees of a tile.
#[derive(Clone, Copy, Debug, PartialEq, Eq, Structural)]
pub enum TileVisibility {
    Visible,
    Marked,
    Hidden,
}

/// What a tile holds; fixed when the board is made.
#[derive(Clone, Copy, Debug, PartialEq, Eq, Structural)]
pub enum TileType {
    Safe,
    Mine,
}

/// One cell of the grid.
#[derive(Clone, Copy, Debug, PartialEq, Eq, Structural)]
pub struct Tile {
    pub x: usize,
    pub y: usize,
    pub tile_type: TileType,
    pub tile_visibility: TileVisibility,
    pub mine_count: u8,
}

/// What a tile shows to the player: nothing of its content while it is
/// hidden or marked, its kind and count once it is visible.
#[derive(Clone, Copy, Debug, PartialEq, Eq, Structural)]
pub enum Face {
    Hidden,
    Marked,
    Mine,
    Count(u8),
}

/// The cell `(x, y)` lies inside a grid of the given size.
pub open spec fn in_grid(x: int, y: int, width: int, height: int) -> bool {
    0 <= x < width && 0 <= y < height
}

/// Two distinct cells touch, by a side or by a corner.
pub open spec fn adjacent(x1: int, y1: int, x2: int, y2: int) -> bool {
    x1 - 1 <= x2 <= x1 + 1 && y1 - 1 <= y2 <= y1 + 1 && !(x1 == x2 && y1 == y2)
}

/// The eight compass steps in the order in which neighbours are listed:
/// left, up, right, down, then the four diagonals.
pub open spec fn step(k: int) -> (int, int) {
    if k == 0 {
        (-1, 0)
    } else if k == 1 {
        (0, -1)
    } else if k == 2 {
        (1, 0)
    } else if k == 3 {
        (0, 1)
    } else if k == 4 {
        (-1, -1)
    } else if k == 5 {
        (-1, 1)
    } else if k == 6 {
        (1, -1)
    } else {
        (1, 1)
    }
}

/// The place of a compass step in the listing order; the inverse of `step`.
pub open spec fn step_index(dx: int, dy: int) -> int {
    if dx == -1 && dy == 0 {
        0
    } else if dx == 0 && dy == -1 {
        1
    } else if dx == 1 && dy == 0 {
        2
    } else if dx == 0 && dy == 1 {
        3
    } else if dx == -1 && dy == -1 {
        4
    } else if dx == -1 && dy == 1 {
        5
    } else if dx == 1 && dy == -1 {
        6
    } else {
        7
    }
}

/// The neighbours of `(x, y)` reached by the first `k` compass steps that stay
/// inside the grid.
pub open spec fn neighbors_upto(x: usize, y: usize, width: usize, height: usize, k: int) -> Seq<
    (usize, usize),
>
    decreases k,
{
    if k <= 0 {
        Seq::empty()
    } else {
        let rest = neighbors_upto(x, y, width, height, k - 1);
        let d = step(k - 1);
        if in_grid(x + d.0, y + d.1, width as int, height as int) {
            rest.push(((x + d.0) as usize, (y + d.1) as usize))
        } else {
            rest
        }
    }
}

/// The neighbour list of `(x, y)`: every compass step that stays inside the grid.
pub open spec fn neighbor_seq(x: usize, y: usize, width: usize, height: usize) -> Seq<
    (usize, usize),
> {
    neighbors_upto(x, y, width, height, 8)
}

/// The cell one compass step away from `(x, y)`, if the grid has it.
pub fn neighbor_toward(x: usize, y: usize, width: usize, height: usize, k: usize) -> (r: Option<
    (usize, usize),
>)
    requires
        x < width,
        y < height,
        k < 8,
    ensures
        r == (if in_grid(
            x + step(k as int).0,
            y + step(k as int).1,
            width as int,
            height as int,
        ) {
            Some(((x + step(k as int).0) as usize, (y + step(k as int).1) as usize))
        } else {
            None
        }),
{
    let left = x > 0;
    let up = y > 0;
    let right = x < width - 1;
    let down = y < height - 1;
    if k == 0 {
        if left { Some((x - 1, y)) } else { None }
    } else if k == 1 {
        if up { Some((x, y - 1)) } else { None }
    } else if k == 2 {
        if right { Some((x + 1, y)) } else { None }
    } else if k == 3 {
        if down { Some((x, y + 1)) } else { None }
    } else if k == 4 {
        if left && up { Some((x - 1, y - 1)) } else { None }
    } else if k == 5 {
        if left && down { Some((x - 1, y + 1)) } else { None }
    } else if k == 6 {
        if right && up { Some((x + 1, y - 1)) } else { None }
    } else {
        if right && down { Some((x + 1, y + 1)) } else { None }
    }
}

impl TileType {
    /// The kind that a draw from ten equal outcomes stands for: the outcomes
    /// nought to eight are safe, the remaining one is a mine.
    pub open spec fn of_draw(draw: int) -> TileType {
        if 0 <= draw <= 8 {
            TileType::Safe
        } else {
            TileType::Mine
        }
    }

    /// The kind that a draw stands for.
    pub fn from_draw(draw: i32) -> (kind: TileType)
        ensures
            kind == TileType::of_draw(draw as int),
    {
        if 0 <= draw && draw <= 8 {
            TileType::Safe
        } else {
            TileType::Mine
        }
    }
}

impl Tile {
    /// The tile with the same content, turned face up.
    pub open spec fn revealed(self) -> Tile {
        Tile { tile_visibility: TileVisibility::Visible, ..self }
    }

    /// The tile after one toggle of its mark: a hidden tile becomes marked, a
    /// marked tile hidden, a visible tile stays as it is.
    pub open spec fn toggled(self) -> Tile {
        match self.tile_visibility {
            TileVisibility::Hidden => Tile { tile_visibility: TileVisibility::Marked, ..self },
            TileVisibility::Marked => Tile { tile_visibility: TileVisibility::Hidden, ..self },
            TileVisibility::Visible => self,
        }
    }

    /// A hidden safe tile: the only kind that a flood spreads into, and the
    /// only kind that stands between the player and a win.
    pub open spec fn is_hidden_safe(self) -> bool {
        self.tile_visibility == TileVisibility::Hidden && self.tile_type == TileType::Safe
    }

    /// What this tile shows to the player.
    pub open spec fn shown(self) -> Face {
        match self.tile_visibility {
            TileVisibility::Hidden => Face::Hidden,
            TileVisibility::Marked => Face::Marked,
            TileVisibility::Visible => match self.tile_type {
                TileType::Mine => Face::Mine,
                TileType::Safe => Face::Count(self.mine_count),
            },
        }
    }

    /// What this tile shows to the player: the kind and the count of a tile
    /// are given out only once it is visible.
    pub fn face(&self) -> (face: Face)
        ensures
            face == self.shown(),
    {
        match self.tile_visibility {
            TileVisibility::Hidden => Face::Hidden,
            TileVisibility::Marked => Face::Marked,
            TileVisibility::Visible => match self.tile_type {
                TileType::Mine => Face::Mine,
                TileType::Safe => Face::Count(self.mine_count),
            },
        }
    }

    /// The in-grid cells that touch this tile, in listing order.
    pub fn neighbors(&self, width: usize, height: usize) -> (r: Vec<(usize, usize)>)
        requires
            self.x < width,
            self.y < height,
        ensures
            r@ == neighbor_seq(self.x, self.y, width, height),
    {
        let mut neighbors: Vec<(usize, usize)> = Vec::new();
        let mut k: usize = 0;
        while k < 8
            invariant
                k <= 8,
                self.x < width,
                self.y < height,
                neighbors@ == neighbors_upto(self.x, self.y, width, height, k as int),
            decreases 8 - k,
        {
            match neighbor_toward(self.x, self.y, width, height, k) {
                Some(p) => {
                    neighbors.push(p);
                },
                None => {},
            }
            k += 1;
        }
        neighbors
    }
}

/// What holds of the first `k` compass steps' neighbours.
proof fn lemma_neighbors_upto(x: usize, y: usize, width: usize, height: usize, k: int)
    requires
        x < width,
        y < height,
        0 <= k <= 8,
    ensures
        neighbors_upto(x, y, width, height, k).len() <= k,
        forall|i: int|
            0 <= i < neighbors_upto(x, y, width, height, k).len() ==> {
                let p = #[trigger] neighbors_upto(x, y, width, height, k)[i];
                &&& in_grid(p.0 as int, p.1 as int, width as int, height as int)
                &&& adjacent(x as int, y as int, p.0 as int, p.1 as int)
                &&& step_index(p.0 - x, p.1 - y) < k
            },
        forall|j: int|
            0 <= j < k && in_grid(
                x + (#[trigger] step(j)).0,
                y + step(j).1,
                width as int,
                height as int,
            ) ==> neighbors_upto(x, y, width, height, k).contains(
                ((x + step(j).0) as usize, (y + step(j).1) as usize),
            ),
        neighbors_upto(x, y, width, height, k).no_duplicates(),
    decreases k,
{
    if k > 0 {
        lemma_neighbors_upto(x, y, width, height, k - 1);
        let rest = neighbors_upto(x, y, width, height, k - 1);
        let all = neighbors_upto(x, y, width, height, k);
        let d = step(k - 1);
        if in_grid(x + d.0, y + d.1, width as int, height as int) {
            let p = ((x + d.0) as usize, (y + d.1) as usize);
            assert(all == rest.push(p));
            assert(all[rest.len() as int] == p);
            assert(step_index(p.0 - x, p.1 - y) == k - 1);
            assert forall|j: int|
                0 <= j < k && in_grid(
                    x + (#[trigger] step(j)).0,
                    y + step(j).1,
                    width as int,
                    height as int,
                ) implies all.contains(((x + step(j).0) as usize, (y + step(j).1) as usize)) by {
                let q = ((x + step(j).0) as usize, (y + step(j).1) as usize);
                if j < k - 1 {
                    let i = choose|i: int| 0 <= i < rest.len() && rest[i] == q;
                    assert(all[i] == q);
                } else {
                    assert(all[rest.len() as int] == q);
                }
            }
        } else {
            assert(all == rest);
        }
    }
}

/// The neighbour list of a cell holds exactly the cells of the grid that touch
/// it, each once.
pub proof fn neighbors_are_the_touching_cells(x: usize, y: usize, width: usize, height: usize)
    requires
        x < width,
        y < height,
    ensures
        neighbor_seq(x, y, width, height).no_duplicates(),
        neighbor_seq(x, y, width, height).len() <= 8,
        forall|i: int|
            0 <= i < neighbor_seq(x, y, width, height).len() ==> {
                let p = #[trigger] neighbor_seq(x, y, width, height)[i];
                &&& in_grid(p.0 as int, p.1 as int, width as int, height as int)
                &&& adjacent(x as int, y as int, p.0 as int, p.1 as int)
            },
        forall|a: usize, b: usize|
            in_grid(a as int, b as int, width as int, height as int) && adjacent(
                x as int,
                y as int,
                a as int,
                b as int,
            ) ==> #[trigger] neighbor_seq(x, y, width, height).contains((a, b)),
{
    lemma_neighbors_upto(x, y, width, height, 8);
    assert forall|a: usize, b: usize|
        in_grid(a as int, b as int, width as int, height as int) && adjacent(
            x as int,
            y as int,
            a as int,
            b as int,
        ) implies #[trigger] neighbor_seq(x, y, width, height).contains((a, b)) by {
        let j = step_index(a - x, b - y);
        assert(step(j) == (a - x, b - y));
        assert(((x + step(j).0) as usize, (y + step(j).1) as usize) == (a, b));
    }
}

/// How many neighbours a cell has, by its position: eight in the interior;
/// on a grid at least two cells wide and high, five on an edge and three in a
/// corner; none on the grid of a single cell.
pub proof fn neighbor_count_by_position(x: usize, y: usize, width: usize, height: usize)
    requires
        x < width,
        y < height,
    ensures
        0 < x < width - 1 && 0 < y < height - 1 ==> neighbor_seq(x, y, width, height).len() == 8,
        width >= 2 && height >= 2 && (x == 0 || x == width - 1) && (y == 0 || y == height - 1)
            ==> neighbor_seq(x, y, width, height).len() == 3,
        width >= 2 && height >= 2 && ((x == 0 || x == width - 1) != (y == 0 || y == height - 1))
            ==> neighbor_seq(x, y, width, height).len() == 5,
        width == 1 && height == 1 ==> neighbor_seq(x, y, width, height).len() == 0,
{
    reveal_with_fuel(neighbors_upto, 9);
}

} // verus!
