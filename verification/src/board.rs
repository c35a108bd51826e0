//! The board: its layout, its generation and the player's commands.

use crate::flood::flood_revealed;
use crate::random::{draw_between, thread_generator};
use crate::tile::{
    in_grid, neighbor_seq, neighbors_are_the_touching_cells, Tile, TileType, TileVisibility,
};
use vstd::prelude::*;

verus! {

/// Why a board could not be made.
#[derive(Clone, Copy, Debug, PartialEq, Eq, Structural)]
pub enum ConfigError {
    /// The width or the height is zero.
    EmptyGrid,
    /// The number of tiles does not fit the machine's index type.
    TooLarge,
    /// The tile kinds handed in are not one per cell.
    WrongTileCount,
}

/// What a reveal or a mark tells the caller about the session.
#[derive(Clone, Copy, Debug, PartialEq, Eq, Structural)]
pub struct Outcome {
    /// A mine was revealed.
    pub lost: bool,
    /// No hidden safe tile is left.
    pub won: bool,
}

/// The full state of one session.
#[derive(Debug)]
pub struct Game {
    pub width: usize,
    pub height: usize,
    pub tiles: Vec<Tile>,
    pub selected: (usize, usize),
}

/// The kind of each tile, in board order.
pub open spec fn kinds_of(tiles: Seq<Tile>) -> Seq<TileType> {
    Seq::new(tiles.len(), |i: int| tiles[i].tile_type)
}

/// How many of the listed cells hold a mine.
pub open spec fn mines_among(kinds: Seq<TileType>, width: usize, cells: Seq<(usize, usize)>) -> nat
    decreases cells.len(),
{
    if cells.len() == 0 {
        0
    } else {
        let p = cells.last();
        let here: nat = if kinds[p.0 + p.1 * width] == TileType::Mine {
            1
        } else {
            0
        };
        mines_among(kinds, width, cells.drop_last()) + here
    }
}

/// How many mines touch the cell `(x, y)`.
pub open spec fn adjacent_mines(
    kinds: Seq<TileType>,
    width: usize,
    height: usize,
    x: usize,
    y: usize,
) -> nat {
    mines_among(kinds, width, neighbor_seq(x, y, width, height))
}

/// The tiles fill the grid row by row: the tile of cell `(x, y)` stands at
/// index `x + y * width` and knows its own coordinates.
pub open spec fn laid_out(tiles: Seq<Tile>, width: usize, height: usize) -> bool {
    &&& tiles.len() == width * height
    &&& forall|i: int|
        0 <= i < tiles.len() ==> {
            let t = #[trigger] tiles[i];
            t.x < width && t.y < height && i == t.x + t.y * width
        }
}

/// Every tile's count is the number of mines that touch it.
pub open spec fn counts_accurate(tiles: Seq<Tile>, width: usize, height: usize) -> bool {
    forall|i: int|
        0 <= i < tiles.len() ==> {
            let t = #[trigger] tiles[i];
            t.mine_count == adjacent_mines(kinds_of(tiles), width, height, t.x, t.y)
        }
}

/// No hidden safe tile is left.
pub open spec fn has_won(tiles: Seq<Tile>) -> bool {
    forall|i: int| 0 <= i < tiles.len() ==> !(#[trigger] tiles[i]).is_hidden_safe()
}

/// The tiles after the mark of the tile at `at` was toggled.
pub open spec fn toggle_at(tiles: Seq<Tile>, at: int) -> Seq<Tile> {
    tiles.update(at, tiles[at].toggled())
}

/// The tiles after a reveal of the tile at `at`: a marked tile blocks it, a
/// mine is turned face up alone, a safe tile starts a flood.
pub open spec fn clicked(tiles: Seq<Tile>, at: int) -> Seq<Tile> {
    if tiles[at].tile_visibility == TileVisibility::Marked {
        tiles
    } else if tiles[at].tile_type == TileType::Mine {
        tiles.update(at, tiles[at].revealed())
    } else {
        flood_revealed(tiles, at)
    }
}

/// What a reveal of the tile at `at` tells the caller.
pub open spec fn click_outcome(tiles: Seq<Tile>, at: int) -> Outcome {
    if tiles[at].tile_visibility == TileVisibility::Marked {
        Outcome { lost: false, won: false }
    } else {
        Outcome { lost: tiles[at].tile_type == TileType::Mine, won: has_won(clicked(tiles, at)) }
    }
}

/// Why no board of this size can be made from `count` tile kinds, if so.
pub open spec fn config_fault(width: usize, height: usize, count: nat) -> Option<ConfigError> {
    if width == 0 || height == 0 {
        Some(ConfigError::EmptyGrid)
    } else if width * height > usize::MAX {
        Some(ConfigError::TooLarge)
    } else if count != width * height {
        Some(ConfigError::WrongTileCount)
    } else {
        None
    }
}

/// A cell of the grid has its index inside the tile list.
pub proof fn lemma_cell_index(x: int, y: int, width: int, height: int)
    requires
        in_grid(x, y, width, height),
    ensures
        0 <= y * width,
        0 <= x + y * width < width * height,
{
    assert(0 <= y * width && x + y * width < width * height) by (nonlinear_arith)
        requires
            0 <= x < width,
            0 <= y < height,
    {
        assert((y + 1) * width <= height * width);
    }
}

/// Two cells with one index are one cell.
pub proof fn lemma_cell_unique(x1: int, y1: int, x2: int, y2: int, width: int)
    requires
        0 <= x1 < width,
        0 <= x2 < width,
        x1 + y1 * width == x2 + y2 * width,
    ensures
        x1 == x2,
        y1 == y2,
{
    assert(y1 == y2) by (nonlinear_arith)
        requires
            0 <= x1 < width,
            0 <= x2 < width,
            x1 + y1 * width == x2 + y2 * width,
    {
        if y1 < y2 {
            assert((y2 - y1) * width >= width);
        } else if y2 < y1 {
            assert((y1 - y2) * width >= width);
        }
    }
}

/// A tile list laid out on the grid is in row-major order: the tile at index
/// `i` has `x = i % width` and `y = i / width`.
pub proof fn layout_is_row_major(tiles: Seq<Tile>, width: usize, height: usize)
    requires
        laid_out(tiles, width, height),
    ensures
        forall|i: int|
            0 <= i < tiles.len() ==> {
                let t = #[trigger] tiles[i];
                t.x == i % (width as int) && t.y == i / (width as int)
            },
{
    assert forall|i: int| 0 <= i < tiles.len() implies {
        let t = #[trigger] tiles[i];
        t.x == i % (width as int) && t.y == i / (width as int)
    } by {
        let t = tiles[i];
        vstd::arithmetic::div_mod::lemma_fundamental_div_mod_converse(
            i,
            width as int,
            t.y as int,
            t.x as int,
        );
    }
}

/// A change that touches nothing but visibilities keeps the layout and the
/// counts.
pub proof fn lemma_same_board(before: Seq<Tile>, after: Seq<Tile>, width: usize, height: usize)
    requires
        laid_out(before, width, height),
        counts_accurate(before, width, height),
        after.len() == before.len(),
        forall|i: int|
            0 <= i < before.len() ==> {
                let t = #[trigger] after[i];
                t.x == before[i].x && t.y == before[i].y && t.tile_type == before[i].tile_type
                    && t.mine_count == before[i].mine_count
            },
    ensures
        laid_out(after, width, height),
        counts_accurate(after, width, height),
{
    assert(kinds_of(after) =~= kinds_of(before));
    assert forall|i: int| 0 <= i < after.len() implies {
        let t = #[trigger] after[i];
        t.mine_count == adjacent_mines(kinds_of(after), width, height, t.x, t.y)
    } by {
        let b = before[i];
        assert(b.mine_count == adjacent_mines(kinds_of(before), width, height, b.x, b.y));
    }
}

/// Toggling a mark twice gives the tiles back as they were.
pub proof fn toggle_twice_restores(tiles: Seq<Tile>, at: int)
    requires
        0 <= at < tiles.len(),
    ensures
        toggle_at(toggle_at(tiles, at), at) == tiles,
{
    assert(toggle_at(toggle_at(tiles, at), at) =~= tiles);
}

/// A mark blocks the reveal: once a hidden tile is marked, a reveal of it
/// changes no tile and signals neither a loss nor a win.
pub proof fn marked_tile_blocks_reveal(tiles: Seq<Tile>, at: int)
    requires
        0 <= at < tiles.len(),
        tiles[at].tile_visibility == TileVisibility::Hidden,
    ensures
        toggle_at(tiles, at)[at].tile_visibility == TileVisibility::Marked,
        clicked(toggle_at(tiles, at), at) == toggle_at(tiles, at),
        click_outcome(toggle_at(tiles, at), at) == (Outcome { lost: false, won: false }),
{
}

/// The reveal of a mine that bears no mark turns that tile face up, signals
/// a loss and changes no other tile.
pub proof fn revealed_mine_loses(tiles: Seq<Tile>, at: int)
    requires
        0 <= at < tiles.len(),
        tiles[at].tile_type == TileType::Mine,
        tiles[at].tile_visibility != TileVisibility::Marked,
    ensures
        clicked(tiles, at)[at].tile_visibility == TileVisibility::Visible,
        forall|i: int| 0 <= i < tiles.len() && i != at ==> clicked(tiles, at)[i] == tiles[i],
        click_outcome(tiles, at).lost,
{
}

/// Only the reveal of a mine signals a loss.
pub proof fn loss_needs_a_mine(tiles: Seq<Tile>, at: int)
    ensures
        click_outcome(tiles, at).lost ==> tiles[at].tile_type == TileType::Mine,
{
}

/// The number of tiles with a mine among the cells that touch a tile is at
/// most eight.
pub proof fn adjacent_mines_at_most_eight(
    kinds: Seq<TileType>,
    width: usize,
    height: usize,
    x: usize,
    y: usize,
)
    requires
        x < width,
        y < height,
    ensures
        adjacent_mines(kinds, width, height, x, y) <= 8,
{
    neighbors_are_the_touching_cells(x, y, width, height);
    lemma_mines_among_bound(kinds, width, neighbor_seq(x, y, width, height));
}

/// No more mines are among the listed cells than there are cells.
proof fn lemma_mines_among_bound(kinds: Seq<TileType>, width: usize, cells: Seq<(usize, usize)>)
    ensures
        mines_among(kinds, width, cells) <= cells.len(),
    decreases cells.len(),
{
    if cells.len() > 0 {
        lemma_mines_among_bound(kinds, width, cells.drop_last());
    }
}

/// The number of mines among the cells that touch the tile at index `i`.
fn count_adjacent_mines(tiles: &Vec<Tile>, width: usize, height: usize, i: usize) -> (count: u8)
    requires
        laid_out(tiles@, width, height),
        i < tiles.len(),
    ensures
        count == adjacent_mines(kinds_of(tiles@), width, height, tiles[i as int].x, tiles[i as int].y),
{
    let tile = &tiles[i];
    let around = tile.neighbors(width, height);
    proof {
        neighbors_are_the_touching_cells(tile.x, tile.y, width, height);
    }
    let mut mine_count: u8 = 0;
    let mut k: usize = 0;
    while k < around.len()
        invariant
            k <= around.len() <= 8,
            laid_out(tiles@, width, height),
            around@ == neighbor_seq(tile.x, tile.y, width, height),
            forall|j: int|
                0 <= j < around.len() ==> in_grid(
                    (#[trigger] around[j]).0 as int,
                    around[j].1 as int,
                    width as int,
                    height as int,
                ),
            mine_count == mines_among(kinds_of(tiles@), width, around@.take(k as int)),
            mine_count <= k,
        decreases around.len() - k,
    {
        let (x, y) = around[k];
        proof {
            lemma_cell_index(x as int, y as int, width as int, height as int);
            assert(tiles@.len() == tiles.len());
            assert(around@.take(k + 1).drop_last() == around@.take(k as int));
            assert(around@.take(k + 1).last() == around[k as int]);
        }
        let neighbor_tile = &tiles[x + y * width];
        match neighbor_tile.tile_type {
            TileType::Mine => {
                mine_count += 1;
            },
            TileType::Safe => {},
        }
        k += 1;
    }
    proof {
        assert(around@.take(around.len() as int) == around@);
    }
    mine_count
}

impl Game {
    /// The index of the selected tile in the tile list.
    pub open spec fn selected_index(&self) -> int {
        self.selected.0 + self.selected.1 * self.width
    }

    /// The board is sound: a grid of at least one cell, laid out row by row,
    /// with accurate counts and the selection inside it.
    pub open spec fn wf(&self) -> bool {
        &&& self.width > 0
        &&& self.height > 0
        &&& laid_out(self.tiles@, self.width, self.height)
        &&& counts_accurate(self.tiles@, self.width, self.height)
        &&& self.selected.0 < self.width
        &&& self.selected.1 < self.height
    }

    /// The index of the cell `(x, y)`, where its tile stands.
    pub fn index_of(&self, x: usize, y: usize) -> (i: usize)
        requires
            laid_out(self.tiles@, self.width, self.height),
            x < self.width,
            y < self.height,
        ensures
            i == x + y * self.width,
            i < self.tiles.len(),
            self.tiles[i as int].x == x,
            self.tiles[i as int].y == y,
    {
        proof {
            lemma_cell_index(x as int, y as int, self.width as int, self.height as int);
            assert(self.tiles@.len() == self.tiles.len());
            let t = self.tiles[x + y * self.width];
            lemma_cell_unique(t.x as int, t.y as int, x as int, y as int, self.width as int);
        }
        x + y * self.width
    }

    /// A board of the given size with the given tile kinds, one per cell in
    /// row-major order; every tile hidden, the selection in the first cell.
    pub fn from_types(width: usize, height: usize, kinds: Vec<TileType>) -> (r: Result<
        Game,
        ConfigError,
    >)
        ensures
            config_fault(width, height, kinds@.len()) == (match r {
                Ok(_) => None,
                Err(e) => Some(e),
            }),
            match r {
                Ok(g) => {
                    &&& g.wf()
                    &&& g.width == width
                    &&& g.height == height
                    &&& g.selected == (0usize, 0usize)
                    &&& kinds_of(g.tiles@) == kinds@
                    &&& forall|i: int|
                        0 <= i < g.tiles@.len() ==> (#[trigger] g.tiles@[i]).tile_visibility
                            == TileVisibility::Hidden
                },
                Err(_) => true,
            },
    {
        if width == 0 || height == 0 {
            return Err(ConfigError::EmptyGrid);
        }
        let total = match width.checked_mul(height) {
            Some(total) => total,
            None => {
                return Err(ConfigError::TooLarge);
            },
        };
        if kinds.len() != total {
            return Err(ConfigError::WrongTileCount);
        }
        let mut tiles: Vec<Tile> = Vec::new();
        let mut i: usize = 0;
        while i < total
            invariant
                width > 0,
                i <= total,
                total == width * height,
                kinds@.len() == total,
                tiles@.len() == i,
                forall|j: int|
                    0 <= j < i ==> {
                        let t = #[trigger] tiles@[j];
                        &&& t.x < width
                        &&& t.y < height
                        &&& j == t.x + t.y * width
                        &&& t.tile_type == kinds@[j]
                        &&& t.tile_visibility == TileVisibility::Hidden
                    },
            decreases total - i,
        {
            proof {
                vstd::arithmetic::div_mod::lemma_fundamental_div_mod(i as int, width as int);
                vstd::arithmetic::div_mod::lemma_mod_bound(i as int, width as int);
                let q = i as int / width as int;
                let m = i as int % width as int;
                assert(q < height && 0 <= q && width * q == q * width) by (nonlinear_arith)
                    requires
                        i == width * q + m,
                        0 <= m < width,
                        0 <= i < width * height,
                ;
            }
            tiles.push(
                Tile {
                    x: i % width,
                    y: i / width,
                    tile_type: kinds[i],
                    tile_visibility: TileVisibility::Hidden,
                    mine_count: 0,
                },
            );
            i += 1;
        }
        assert(kinds_of(tiles@) =~= kinds@);
        let mut i: usize = 0;
        while i < total
            invariant
                i <= total,
                tiles@.len() == total,
                laid_out(tiles@, width, height),
                kinds_of(tiles@) == kinds@,
                forall|j: int|
                    0 <= j < total ==> (#[trigger] tiles@[j]).tile_visibility
                        == TileVisibility::Hidden,
                forall|j: int|
                    0 <= j < i ==> {
                        let t = #[trigger] tiles@[j];
                        t.mine_count == adjacent_mines(kinds@, width, height, t.x, t.y)
                    },
            decreases total - i,
        {
            let mine_count = count_adjacent_mines(&tiles, width, height, i);
            let tile = tiles[i];
            let ghost before = tiles@;
            tiles.set(i, Tile { mine_count, ..tile });
            proof {
                assert(kinds_of(tiles@) =~= kinds_of(before));
            }
            i += 1;
        }
        Ok(Game { width, height, tiles, selected: (0, 0) })
    }

    /// A new board of the given size. Each tile's kind is drawn on its own,
    /// nine chances in ten for a safe tile and one for a mine.
    pub fn new(width: usize, height: usize) -> (r: Result<Game, ConfigError>)
        ensures
            config_fault(width, height, (width * height) as nat) == (match r {
                Ok(_) => None,
                Err(e) => Some(e),
            }),
            match r {
                Ok(g) => {
                    &&& g.wf()
                    &&& g.width == width
                    &&& g.height == height
                    &&& g.selected == (0usize, 0usize)
                    &&& forall|i: int|
                        0 <= i < g.tiles@.len() ==> (#[trigger] g.tiles@[i]).tile_visibility
                            == TileVisibility::Hidden
                },
                Err(_) => true,
            },
    {
        if width == 0 || height == 0 {
            return Err(ConfigError::EmptyGrid);
        }
        let total = match width.checked_mul(height) {
            Some(total) => total,
            None => {
                return Err(ConfigError::TooLarge);
            },
        };
        let mut rng = thread_generator();
        let mut kinds: Vec<TileType> = Vec::new();
        let mut i: usize = 0;
        while i < total
            invariant
                i <= total,
                kinds@.len() == i,
            decreases total - i,
        {
            let draw = draw_between(&mut rng, 0, 9);
            kinds.push(TileType::from_draw(draw));
            i += 1;
        }
        Game::from_types(width, height, kinds)
    }

    /// Whether the session is won: no tile is both hidden and safe.
    pub fn check_game_won(&self) -> (won: bool)
        ensures
            won == has_won(self.tiles@),
    {
        let mut i: usize = 0;
        while i < self.tiles.len()
            invariant
                i <= self.tiles.len(),
                forall|j: int| 0 <= j < i ==> !(#[trigger] self.tiles@[j]).is_hidden_safe(),
            decreases self.tiles.len() - i,
        {
            let tile = &self.tiles[i];
            match (tile.tile_visibility, tile.tile_type) {
                (TileVisibility::Hidden, TileType::Safe) => {
                    return false;
                },
                _ => {},
            }
            i += 1;
        }
        true
    }

    /// Toggles the mark of the selected tile, then tells whether the session
    /// is won.
    pub fn toggle_mark(&mut self) -> (won: bool)
        requires
            old(self).wf(),
        ensures
            final(self).wf(),
            final(self).width == old(self).width,
            final(self).height == old(self).height,
            final(self).selected == old(self).selected,
            final(self).tiles@ == toggle_at(old(self).tiles@, old(self).selected_index()),
            won == has_won(final(self).tiles@),
    {
        let (x, y) = self.selected;
        let at = self.index_of(x, y);
        let tile = self.tiles[at];
        let ghost before = self.tiles@;
        let tile_visibility = match tile.tile_visibility {
            TileVisibility::Hidden => TileVisibility::Marked,
            TileVisibility::Marked => TileVisibility::Hidden,
            TileVisibility::Visible => TileVisibility::Visible,
        };
        self.tiles.set(at, Tile { tile_visibility, ..tile });
        proof {
            lemma_same_board(before, self.tiles@, self.width, self.height);
        }
        self.check_game_won()
    }

    /// Reveals the selected tile, unless it is marked, and tells whether that
    /// lost or won the session.
    pub fn click_tile(&mut self) -> (outcome: Outcome)
        requires
            old(self).wf(),
        ensures
            final(self).wf(),
            final(self).width == old(self).width,
            final(self).height == old(self).height,
            final(self).selected == old(self).selected,
            final(self).tiles@ == clicked(old(self).tiles@, old(self).selected_index()),
            outcome == click_outcome(old(self).tiles@, old(self).selected_index()),
    {
        let (x, y) = self.selected;
        let at = self.index_of(x, y);
        let tile = self.tiles[at];
        let ghost before = self.tiles@;
        match tile.tile_visibility {
            TileVisibility::Marked => {
                return Outcome { lost: false, won: false };
            },
            _ => {},
        }
        let lost = match tile.tile_type {
            TileType::Mine => {
                self.tiles.set(at, Tile { tile_visibility: TileVisibility::Visible, ..tile });
                proof {
                    lemma_same_board(before, self.tiles@, self.width, self.height);
                }
                true
            },
            TileType::Safe => {
                self.flood_reveal(x, y);
                false
            },
        };
        let won = self.check_game_won();
        Outcome { lost, won }
    }

    /// Moves the selection to `pos` if that is a cell of the grid; any other
    /// position is ignored.
    pub fn set_selected(&mut self, pos: (i32, i32))
        ensures
            final(self).width == old(self).width,
            final(self).height == old(self).height,
            final(self).tiles == old(self).tiles,
            final(self).selected == (if in_grid(
                pos.0 as int,
                pos.1 as int,
                old(self).width as int,
                old(self).height as int,
            ) {
                (pos.0 as usize, pos.1 as usize)
            } else {
                old(self).selected
            }),
            old(self).wf() ==> final(self).wf(),
    {
        let (x, y) = pos;
        if x >= 0 && y >= 0 {
            let (x, y) = (x as usize, y as usize);
            if x < self.width && y < self.height {
                self.selected = (x, y);
            }
        }
    }
}

} // verus!
