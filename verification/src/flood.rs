//! Flood reveal: the cascade that opens a region of tiles with no mine nearby.

use crate::board::{laid_out, lemma_same_board, Game};
use crate::tile::{
    adjacent, in_grid, neighbors_are_the_touching_cells, Tile, TileType, TileVisibility,
};
use vstd::prelude::*;
use vstd::set_lib::{lemma_int_range, set_int_range};

verus! {

/// Two tiles touch, by a side or by a corner.
pub open spec fn touching(a: Tile, b: Tile) -> bool {
    adjacent(a.x as int, a.y as int, b.x as int, b.y as int)
}

/// The flood from `start` reaches `target` in at most `n` steps. A step goes
/// from a reached tile with no mine nearby to a hidden safe tile that touches
/// it.
pub open spec fn spreads_within(tiles: Seq<Tile>, start: int, target: int, n: nat) -> bool
    decreases n,
{
    if n == 0 {
        target == start
    } else {
        ||| spreads_within(tiles, start, target, (n - 1) as nat)
        ||| {
            &&& 0 <= target < tiles.len()
            &&& tiles[target].is_hidden_safe()
            &&& exists|via: int|
                {
                    &&& 0 <= via < tiles.len()
                    &&& (#[trigger] tiles[via]).mine_count == 0
                    &&& touching(tiles[via], tiles[target])
                    &&& spreads_within(tiles, start, via, (n - 1) as nat)
                }
        }
    }
}

/// The flood from `start` reaches `target`.
pub open spec fn flooded(tiles: Seq<Tile>, start: int, target: int) -> bool {
    exists|n: nat| spreads_within(tiles, start, target, n)
}

/// The region holds every hidden safe tile that touches one of its own tiles
/// with no mine nearby.
pub open spec fn closed_under_steps(tiles: Seq<Tile>, region: Set<int>) -> bool {
    forall|via: int, next: int|
        #![trigger region.contains(via), tiles[next]]
        region.contains(via) && 0 <= via < tiles.len() && 0 <= next < tiles.len()
            && tiles[via].mine_count == 0 && touching(tiles[via], tiles[next])
            && tiles[next].is_hidden_safe() ==> region.contains(next)
}

/// The tiles after a flood from `start`: what it reaches is visible, the
/// rest is as before.
pub open spec fn flood_revealed(tiles: Seq<Tile>, start: int) -> Seq<Tile> {
    Seq::new(
        tiles.len(),
        |i: int|
            if flooded(tiles, start, i) {
                tiles[i].revealed()
            } else {
                tiles[i]
            },
    )
}

/// The tile at `i` is the start of the flood or was turned face up by it.
spec fn marked(before: Seq<Tile>, now: Seq<Tile>, start: int, i: int) -> bool {
    i == start || (before[i].is_hidden_safe() && now[i].tile_visibility
        == TileVisibility::Visible)
}

/// The index `i` waits on the work list.
spec fn on_stack(stack: Seq<usize>, i: int) -> bool {
    exists|k: int| 0 <= k < stack.len() && #[trigger] stack[k] == i
}

/// What a flood in progress has done so far: only reached tiles were turned
/// face up, and the work list holds such tiles only.
spec fn flood_state(before: Seq<Tile>, now: Seq<Tile>, start: int, stack: Seq<usize>) -> bool {
    &&& now.len() == before.len()
    &&& 0 <= start < before.len()
    &&& forall|i: int|
        0 <= i < before.len() ==> #[trigger] now[i] == (if marked(before, now, start, i) {
            before[i].revealed()
        } else {
            before[i]
        })
    &&& forall|i: int|
        0 <= i < before.len() && marked(before, now, start, i) ==> #[trigger] flooded(
            before,
            start,
            i,
        )
    &&& forall|k: int|
        0 <= k < stack.len() ==> (#[trigger] stack[k]) < before.len() && marked(
            before,
            now,
            start,
            stack[k] as int,
        )
}

/// Every hidden safe tile that touched the tile at `i` is visible now.
spec fn spread_done(before: Seq<Tile>, now: Seq<Tile>, i: int) -> bool {
    forall|j: int|
        0 <= j < before.len() && touching(before[i], #[trigger] before[j])
            && before[j].is_hidden_safe() ==> now[j].tile_visibility == TileVisibility::Visible
}

/// The flood has spread from every turned tile with no mine nearby, but for
/// those that wait on the work list and the one in hand.
spec fn closed_off(
    before: Seq<Tile>,
    now: Seq<Tile>,
    start: int,
    stack: Seq<usize>,
    in_hand: int,
) -> bool {
    forall|i: int|
        0 <= i < before.len() && (#[trigger] before[i]).mine_count == 0 && marked(
            before,
            now,
            start,
            i,
        ) && !on_stack(stack, i) && i != in_hand ==> spread_done(before, now, i)
}

/// The first `k` of the listed cells, where hidden and safe before, are
/// visible now.
spec fn spread_partly(before: Seq<Tile>, now: Seq<Tile>, around: Seq<(usize, usize)>, k: int) -> bool {
    forall|m: int, j: int|
        #![trigger around[m], before[j]]
        0 <= m < k && 0 <= j < before.len() && around[m].0 == before[j].x && around[m].1
            == before[j].y && before[j].is_hidden_safe() ==> now[j].tile_visibility
            == TileVisibility::Visible
}

/// One more step of a flood: from a reached tile with no mine nearby to a
/// hidden safe tile that touches it.
pub proof fn lemma_flood_step(tiles: Seq<Tile>, start: int, via: int, target: int)
    requires
        0 <= via < tiles.len(),
        0 <= target < tiles.len(),
        flooded(tiles, start, via),
        tiles[via].mine_count == 0,
        touching(tiles[via], tiles[target]),
        tiles[target].is_hidden_safe(),
    ensures
        flooded(tiles, start, target),
{
    let n = choose|n: nat| spreads_within(tiles, start, via, n);
    assert(spreads_within(tiles, start, target, n + 1));
}

/// Once the flood has spread from every turned tile, it has turned every tile
/// that it reaches.
proof fn lemma_closed_covers(before: Seq<Tile>, now: Seq<Tile>, start: int, target: int, n: nat)
    requires
        now.len() == before.len(),
        0 <= start < before.len(),
        closed_off(before, now, start, Seq::empty(), -1),
        spreads_within(before, start, target, n),
    ensures
        0 <= target < before.len(),
        marked(before, now, start, target),
    decreases n,
{
    if n > 0 {
        if spreads_within(before, start, target, (n - 1) as nat) {
            lemma_closed_covers(before, now, start, target, (n - 1) as nat);
        } else {
            let via = choose|via: int|
                {
                    &&& 0 <= via < before.len()
                    &&& (#[trigger] before[via]).mine_count == 0
                    &&& touching(before[via], before[target])
                    &&& spreads_within(before, start, via, (n - 1) as nat)
                };
            lemma_closed_covers(before, now, start, via, (n - 1) as nat);
            assert(!on_stack(Seq::empty(), via));
            assert(spread_done(before, now, via));
        }
    }
}

/// A flood always reaches the tile it starts from.
pub proof fn flood_reaches_start(tiles: Seq<Tile>, start: int)
    ensures
        flooded(tiles, start, start),
{
    assert(spreads_within(tiles, start, start, 0));
}

/// How a flood spreads: it reaches its start, and beyond that exactly the
/// hidden safe tiles that touch a reached tile with no mine nearby.
pub proof fn flood_spreads_by_steps(tiles: Seq<Tile>, start: int, target: int)
    ensures
        flooded(tiles, start, target) <==> (target == start || {
            &&& 0 <= target < tiles.len()
            &&& tiles[target].is_hidden_safe()
            &&& exists|via: int|
                {
                    &&& 0 <= via < tiles.len()
                    &&& (#[trigger] tiles[via]).mine_count == 0
                    &&& touching(tiles[via], tiles[target])
                    &&& flooded(tiles, start, via)
                }
        }),
{
    flood_reaches_start(tiles, start);
    if flooded(tiles, start, target) && target != start {
        let n = choose|n: nat| spreads_within(tiles, start, target, n);
        lemma_last_step(tiles, start, target, n);
    }
    if 0 <= target < tiles.len() && tiles[target].is_hidden_safe() {
        if exists|via: int|
            {
                &&& 0 <= via < tiles.len()
                &&& (#[trigger] tiles[via]).mine_count == 0
                &&& touching(tiles[via], tiles[target])
                &&& flooded(tiles, start, via)
            } {
            let via = choose|via: int|
                {
                    &&& 0 <= via < tiles.len()
                    &&& (#[trigger] tiles[via]).mine_count == 0
                    &&& touching(tiles[via], tiles[target])
                    &&& flooded(tiles, start, via)
                };
            lemma_flood_step(tiles, start, via, target);
        }
    }
}

/// A tile other than the start that is reached within `n` steps was entered
/// from a reached tile with no mine nearby.
proof fn lemma_last_step(tiles: Seq<Tile>, start: int, target: int, n: nat)
    requires
        spreads_within(tiles, start, target, n),
        target != start,
    ensures
        0 <= target < tiles.len(),
        tiles[target].is_hidden_safe(),
        exists|via: int|
            {
                &&& 0 <= via < tiles.len()
                &&& (#[trigger] tiles[via]).mine_count == 0
                &&& touching(tiles[via], tiles[target])
                &&& flooded(tiles, start, via)
            },
    decreases n,
{
    if n > 0 {
        if spreads_within(tiles, start, target, (n - 1) as nat) {
            lemma_last_step(tiles, start, target, (n - 1) as nat);
        } else {
            let via = choose|via: int|
                {
                    &&& 0 <= via < tiles.len()
                    &&& (#[trigger] tiles[via]).mine_count == 0
                    &&& touching(tiles[via], tiles[target])
                    &&& spreads_within(tiles, start, via, (n - 1) as nat)
                };
            assert(flooded(tiles, start, via));
        }
    }
}

/// Within `n` steps a flood that starts on a tile with a mine nearby reaches
/// that tile alone.
proof fn lemma_counted_start_stays(tiles: Seq<Tile>, start: int, target: int, n: nat)
    requires
        0 <= start < tiles.len(),
        tiles[start].mine_count > 0,
        spreads_within(tiles, start, target, n),
    ensures
        target == start,
    decreases n,
{
    if n > 0 {
        if spreads_within(tiles, start, target, (n - 1) as nat) {
            lemma_counted_start_stays(tiles, start, target, (n - 1) as nat);
        } else {
            let via = choose|via: int|
                {
                    &&& 0 <= via < tiles.len()
                    &&& (#[trigger] tiles[via]).mine_count == 0
                    &&& touching(tiles[via], tiles[target])
                    &&& spreads_within(tiles, start, via, (n - 1) as nat)
                };
            lemma_counted_start_stays(tiles, start, via, (n - 1) as nat);
        }
    }
}

/// Within `n` steps a flood does not leave a region that is closed under its
/// steps.
proof fn lemma_stays_in_region(
    tiles: Seq<Tile>,
    start: int,
    region: Set<int>,
    target: int,
    n: nat,
)
    requires
        region.contains(start),
        closed_under_steps(tiles, region),
        spreads_within(tiles, start, target, n),
    ensures
        region.contains(target),
    decreases n,
{
    if n > 0 {
        if spreads_within(tiles, start, target, (n - 1) as nat) {
            lemma_stays_in_region(tiles, start, region, target, (n - 1) as nat);
        } else {
            let via = choose|via: int|
                {
                    &&& 0 <= via < tiles.len()
                    &&& (#[trigger] tiles[via]).mine_count == 0
                    &&& touching(tiles[via], tiles[target])
                    &&& spreads_within(tiles, start, via, (n - 1) as nat)
                };
            lemma_stays_in_region(tiles, start, region, via, (n - 1) as nat);
            assert(region.contains(via) && tiles[target].is_hidden_safe());
        }
    }
}

/// A flood reaches no more than it must: it stays inside every region that
/// holds its start and is closed under its steps. With
/// `flood_spreads_by_steps`, the reached tiles are exactly the closure of the
/// start under those steps.
pub proof fn flood_stays_in_closed_region(
    tiles: Seq<Tile>,
    start: int,
    region: Set<int>,
    target: int,
)
    requires
        region.contains(start),
        closed_under_steps(tiles, region),
        flooded(tiles, start, target),
    ensures
        region.contains(target),
{
    let n = choose|n: nat| spreads_within(tiles, start, target, n);
    lemma_stays_in_region(tiles, start, region, target, n);
}

/// A flood halts at a tile with a mine nearby: started there, it turns that
/// tile and no other.
pub proof fn flood_halts_at_counted_tile(tiles: Seq<Tile>, start: int)
    requires
        0 <= start < tiles.len(),
        tiles[start].mine_count > 0,
    ensures
        flood_revealed(tiles, start) == tiles.update(start, tiles[start].revealed()),
{
    flood_reaches_start(tiles, start);
    assert forall|c: int| 0 <= c < tiles.len() && c != start implies !flooded(tiles, start, c) by {
        if flooded(tiles, start, c) {
            let n = choose|n: nat| spreads_within(tiles, start, c, n);
            lemma_counted_start_stays(tiles, start, c, n);
        }
    }
    assert(flood_revealed(tiles, start) =~= tiles.update(start, tiles[start].revealed()));
}

/// A flood turns no marked tile, no mine and no tile that is already
/// visible, the start apart; and it changes nothing but visibility.
pub proof fn flood_spares_marks_and_mines(tiles: Seq<Tile>, start: int, i: int)
    requires
        0 <= i < tiles.len(),
    ensures
        i != start && !tiles[i].is_hidden_safe() ==> flood_revealed(tiles, start)[i] == tiles[i],
        flood_revealed(tiles, start)[i] == tiles[i] || flood_revealed(tiles, start)[i]
            == tiles[i].revealed(),
{
    flood_spreads_by_steps(tiles, start, i);
}

impl Game {
    /// Turns the tile of cell `(x, y)` face up and lets the reveal spread: from
    /// each turned tile with no mine nearby to the hidden safe tiles that
    /// touch it. Marked tiles and mines are never turned by it.
    pub fn flood_reveal(&mut self, x: usize, y: usize)
        requires
            old(self).wf(),
            x < old(self).width,
            y < old(self).height,
        ensures
            final(self).wf(),
            final(self).width == old(self).width,
            final(self).height == old(self).height,
            final(self).selected == old(self).selected,
            final(self).tiles@ == flood_revealed(old(self).tiles@, x + y * old(self).width),
    {
        let ghost before = self.tiles@;
        let width = self.width;
        let height = self.height;
        let start = self.index_of(x, y);
        let first = self.tiles[start];
        self.tiles.set(start, Tile { tile_visibility: TileVisibility::Visible, ..first });
        let mut stack: Vec<usize> = Vec::new();
        stack.push(start);
        let ghost mut pending: Set<int> = set_int_range(0, before.len() as int);
        proof {
            lemma_int_range(0, before.len() as int);
            assert(spreads_within(before, start as int, start as int, 0));
            assert(stack@[0] == start);
        }
        while stack.len() > 0
            invariant
                self.width == width,
                self.height == height,
                self.selected == old(self).selected,
                laid_out(before, width, height),
                laid_out(self.tiles@, width, height),
                flood_state(before, self.tiles@, start as int, stack@),
                closed_off(before, self.tiles@, start as int, stack@, -1),
                pending.finite(),
                forall|c: int|
                    0 <= c < before.len() && (#[trigger] self.tiles@[c]).tile_visibility
                        == TileVisibility::Hidden ==> pending.contains(c),
            decreases 2 * pending.len() + stack.len(),
        {
            let ghost stack_before = stack@;
            let i = stack.pop().unwrap();
            let tile = self.tiles[i];
            proof {
                assert(stack_before[stack_before.len() - 1] == i);
                assert forall|c: int| on_stack(stack_before, c) && c != i implies on_stack(
                    stack@,
                    c,
                ) by {
                    let k = choose|k: int| 0 <= k < stack_before.len() && stack_before[k] == c;
                    assert(stack@[k] == c);
                }
            }
            if tile.mine_count == 0 {
                let around = tile.neighbors(width, height);
                proof {
                    neighbors_are_the_touching_cells(tile.x, tile.y, width, height);
                }
                let ghost bound = 2 * pending.len() + stack.len();
                let mut k: usize = 0;
                while k < around.len()
                    invariant
                        self.width == width,
                        self.height == height,
                        self.selected == old(self).selected,
                        laid_out(before, width, height),
                        laid_out(self.tiles@, width, height),
                        k <= around.len(),
                        i < before.len(),
                        tile.x == before[i as int].x,
                        tile.y == before[i as int].y,
                        before[i as int].mine_count == 0,
                        marked(before, self.tiles@, start as int, i as int),
                        forall|m: int|
                            0 <= m < around.len() ==> {
                                let p = #[trigger] around@[m];
                                &&& in_grid(p.0 as int, p.1 as int, width as int, height as int)
                                &&& adjacent(tile.x as int, tile.y as int, p.0 as int, p.1 as int)
                            },
                        flood_state(before, self.tiles@, start as int, stack@),
                        closed_off(before, self.tiles@, start as int, stack@, i as int),
                        spread_partly(before, self.tiles@, around@, k as int),
                        pending.finite(),
                        forall|c: int|
                            0 <= c < before.len() && (#[trigger] self.tiles@[c]).tile_visibility
                                == TileVisibility::Hidden ==> pending.contains(c),
                        2 * pending.len() + stack.len() <= bound,
                    decreases around.len() - k,
                {
                    let (nx, ny) = around[k];
                    let j = self.index_of(nx, ny);
                    let neighbor_tile = self.tiles[j];
                    let ghost stack_mid = stack@;
                    let open = match (neighbor_tile.tile_visibility, neighbor_tile.tile_type) {
                        (TileVisibility::Hidden, TileType::Safe) => true,
                        _ => false,
                    };
                    if open {
                        self.tiles.set(
                            j,
                            Tile { tile_visibility: TileVisibility::Visible, ..neighbor_tile },
                        );
                        stack.push(j);
                        proof {
                            pending = pending.remove(j as int);
                            lemma_flood_step(before, start as int, i as int, j as int);
                            assert(stack@[stack_mid.len() as int] == j);
                            assert forall|c: int| on_stack(stack_mid, c) implies on_stack(
                                stack@,
                                c,
                            ) by {
                                let k = choose|k: int| 0 <= k < stack_mid.len() && stack_mid[k] == c;
                                assert(stack@[k] == c);
                            }
                        }
                    }
                    k += 1;
                }
                proof {
                    let now = self.tiles@;
                    assert forall|j: int|
                        0 <= j < before.len() && touching(before[i as int], #[trigger] before[j])
                            && before[j].is_hidden_safe() implies now[j].tile_visibility
                        == TileVisibility::Visible by {
                        assert(around@.contains((before[j].x, before[j].y)));
                        let m = choose|m: int|
                            0 <= m < around@.len() && around@[m] == (before[j].x, before[j].y);
                        assert(around@[m].0 == before[j].x);
                    }
                    assert(spread_done(before, now, i as int));
                }
            }
        }
        proof {
            let now = self.tiles@;
            assert(stack@ =~= Seq::empty());
            assert forall|c: int| 0 <= c < before.len() implies #[trigger] now[c] == flood_revealed(
                before,
                start as int,
            )[c] by {
                if flooded(before, start as int, c) {
                    let n = choose|n: nat| spreads_within(before, start as int, c, n);
                    lemma_closed_covers(before, now, start as int, c, n);
                }
            }
            assert(now =~= flood_revealed(before, start as int));
            lemma_same_board(before, now, width, height);
        }
    }
}

} // verus!
