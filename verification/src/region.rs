//! Revealing a tile, and with it the region that opens up around a tile with
//! no mine near it.

use vstd::prelude::*;
use crate::field::Tile;
use crate::field::TileContent;
use crate::grid::{
    adjacent, grid_view, hidden, inside, lemma_board_sets, listed_from, lists_neighbors, neighbors,
    rectangular, tile_at, tile_mut,
};

verus! {

/// A tile with no mine on it and none around it.
pub open spec fn zero(t: Tile) -> bool {
    t.content == TileContent::Empty(0)
}

/// A hidden tile without a flag: one that a reveal may spread onto.
pub open spec fn coverable(t: Tile) -> bool {
    !t.revealed && !t.flagged
}

/// A way along which a reveal spreads over `g`: it starts anywhere on the
/// board, each step goes from a tile with no mine around it to a tile that
/// touches it, and each tile stepped onto is hidden and has no flag.
pub open spec fn chain(g: Seq<Seq<Tile>>, path: Seq<(int, int)>) -> bool {
    &&& path.len() >= 1
    &&& forall|i: int| 0 <= i < path.len() ==> inside(g, (#[trigger] path[i]).0, path[i].1)
    &&& forall|i: int, j: int|
        0 <= i && j == i + 1 && j < path.len() ==> {
            &&& adjacent((#[trigger] path[i]).0, path[i].1, (#[trigger] path[j]).0, path[j].1)
            &&& zero(g[path[i].0][path[i].1])
            &&& coverable(g[path[j].0][path[j].1])
        }
}

/// A reveal of `(ox, oy)` on `g` spreads to `(x, y)`.
pub open spec fn reached(g: Seq<Seq<Tile>>, ox: int, oy: int, x: int, y: int) -> bool {
    exists|path: Seq<(int, int)>| #[trigger]
        chain(g, path) && path[0] == (ox, oy) && path.last() == (x, y)
}

/// `g` after a reveal of `(ox, oy)`: the tiles that the reveal spreads to are
/// revealed, and nothing else has changed.
pub open spec fn opened(g: Seq<Seq<Tile>>, ox: int, oy: int) -> Seq<Seq<Tile>> {
    Seq::new(
        g.len(),
        |x: int|
            Seq::new(
                g[x].len(),
                |y: int|
                    if reached(g, ox, oy, x, y) {
                        Tile { content: g[x][y].content, revealed: true, flagged: g[x][y].flagged }
                    } else {
                        g[x][y]
                    },
            ),
    )
}

/// A reveal reaches the tile it starts on.
pub proof fn lemma_reached_origin(g: Seq<Seq<Tile>>, ox: int, oy: int)
    requires
        inside(g, ox, oy),
    ensures
        reached(g, ox, oy, ox, oy),
{
    let path = seq![(ox, oy)];
    assert(chain(g, path) && path[0] == (ox, oy) && path.last() == (ox, oy));
}

/// From a tile that a reveal has reached and that has no mine around it, the
/// reveal goes on to every tile that touches it, is hidden and has no flag.
pub proof fn lemma_reached_step(g: Seq<Seq<Tile>>, ox: int, oy: int, cx: int, cy: int, x: int, y: int)
    requires
        reached(g, ox, oy, cx, cy),
        zero(g[cx][cy]),
        inside(g, x, y),
        adjacent(cx, cy, x, y),
        coverable(g[x][y]),
    ensures
        reached(g, ox, oy, x, y),
{
    let path = choose|path: Seq<(int, int)>| #[trigger]
        chain(g, path) && path[0] == (ox, oy) && path.last() == (cx, cy);
    let longer = path.push((x, y));
    assert(chain(g, longer) && longer[0] == (ox, oy) && longer.last() == (x, y));
}

/// A reveal that starts on a mine or on a tile with a mine around it goes no
/// further than that tile.
pub proof fn lemma_reached_from_nonzero(g: Seq<Seq<Tile>>, ox: int, oy: int, x: int, y: int)
    requires
        !zero(g[ox][oy]),
    ensures
        reached(g, ox, oy, x, y) <==> inside(g, ox, oy) && x == ox && y == oy,
{
    if reached(g, ox, oy, x, y) {
        let path = choose|path: Seq<(int, int)>| #[trigger]
            chain(g, path) && path[0] == (ox, oy) && path.last() == (x, y);
        if path.len() > 1 {
            assert(adjacent(path[0].0, path[0].1, path[1].0, path[1].1));
        }
    }
    if inside(g, ox, oy) {
        lemma_reached_origin(g, ox, oy);
    }
}

/// Only hidden tiles without a flag are reached, but for the tile that the
/// reveal starts on.
pub proof fn lemma_reached_coverable(g: Seq<Seq<Tile>>, ox: int, oy: int, x: int, y: int)
    requires
        reached(g, ox, oy, x, y),
    ensures
        inside(g, x, y),
        (x == ox && y == oy) || coverable(g[x][y]),
{
    let path = choose|path: Seq<(int, int)>| #[trigger]
        chain(g, path) && path[0] == (ox, oy) && path.last() == (x, y);
    let n = path.len() - 1;
    if n > 0 {
        assert(adjacent(path[n - 1].0, path[n - 1].1, path[n].0, path[n].1));
    }
}

/// Whether the tile has no mine on it and none around it.
pub fn is_zero(tile: &Tile) -> (b: bool)
    ensures
        b == zero(*tile),
{
    match tile.content {
        TileContent::Empty(n) => n == 0,
        TileContent::Bomb => false,
    }
}

/// `g` is `g0` with more tiles revealed, perhaps.
pub open spec fn more_revealed(g0: Seq<Seq<Tile>>, g: Seq<Seq<Tile>>) -> bool {
    &&& g.len() == g0.len()
    &&& forall|x: int| 0 <= x < g.len() ==> (#[trigger] g[x]).len() == g0[x].len()
    &&& forall|x: int, y: int|
        inside(g0, x, y) ==> {
            &&& (#[trigger] g[x][y]).content == g0[x][y].content
            &&& g[x][y].flagged == g0[x][y].flagged
            &&& g0[x][y].revealed ==> g[x][y].revealed
        }
}

/// Revealed in `g` and hidden in `g0`.
pub open spec fn fresh(g0: Seq<Seq<Tile>>, g: Seq<Seq<Tile>>, x: int, y: int) -> bool {
    g[x][y].revealed && !g0[x][y].revealed
}

/// The reveal has spread from `(x, y)` as far as one step takes it: every
/// tile that touches `(x, y)` is revealed in `g`, unless it has a flag.
pub open spec fn settled(g0: Seq<Seq<Tile>>, g: Seq<Seq<Tile>>, x: int, y: int) -> bool {
    forall|a: int, b: int|
        inside(g0, a, b) && adjacent(x, y, a, b) && !g0[a][b].flagged ==> (#[trigger] g[a][b]).revealed
}

/// What holds while a reveal of `(ox, oy)` on `g0` is under way, `g` being
/// the board so far, `work` the tiles still to spread from, and `busy` the
/// one being spread from at the moment.
pub open spec fn spreading(
    g0: Seq<Seq<Tile>>,
    g: Seq<Seq<Tile>>,
    ox: int,
    oy: int,
    work: Seq<(usize, usize)>,
    busy: Option<(int, int)>,
) -> bool {
    &&& more_revealed(g0, g)
    &&& inside(g0, ox, oy)
    &&& g[ox][oy].revealed
    &&& forall|x: int, y: int|
        inside(g0, x, y) && #[trigger] fresh(g0, g, x, y) ==> reached(g0, ox, oy, x, y)
    &&& forall|i: int|
        0 <= i < work.len() ==> {
            &&& inside(g0, (#[trigger] work[i]).0 as int, work[i].1 as int)
            &&& g[work[i].0 as int][work[i].1 as int].revealed
            &&& zero(g0[work[i].0 as int][work[i].1 as int])
            &&& reached(g0, ox, oy, work[i].0 as int, work[i].1 as int)
        }
    &&& forall|x: int, y: int|
        inside(g0, x, y) && ((x == ox && y == oy) || fresh(g0, g, x, y)) && zero(g0[x][y])
            && !listed_from(work, 0, x, y) && busy != Some((x, y)) ==> #[trigger] settled(
            g0,
            g,
            x,
            y,
        )
}

/// A way of two tiles or more is still one without its last step.
pub proof fn lemma_chain_prefix(g: Seq<Seq<Tile>>, path: Seq<(int, int)>)
    requires
        chain(g, path),
        path.len() >= 2,
    ensures
        chain(g, path.drop_last()),
        path.drop_last()[0] == path[0],
        path.drop_last().last() == path[path.len() - 2],
{
}

/// Once nothing is left to spread from, every tile that the reveal reaches
/// along `path` is revealed.
pub proof fn lemma_spread_covers(
    g0: Seq<Seq<Tile>>,
    g: Seq<Seq<Tile>>,
    ox: int,
    oy: int,
    path: Seq<(int, int)>,
)
    requires
        spreading(g0, g, ox, oy, Seq::empty(), None),
        chain(g0, path),
        path[0] == (ox, oy),
    ensures
        g[path.last().0][path.last().1].revealed,
    decreases path.len(),
{
    let n = path.len() - 1;
    if n > 0 {
        // The last tile but one is revealed, by induction. It is the tile
        // that the reveal started on or one that was hidden before, and it
        // has no mine around it: so the reveal has spread from it to the last.
        lemma_chain_prefix(g0, path);
        lemma_spread_covers(g0, g, ox, oy, path.drop_last());
        if n - 1 > 0 {
            assert(adjacent(path[n - 2].0, path[n - 2].1, path[n - 1].0, path[n - 1].1));
        }
        assert(settled(g0, g, path[n - 1].0, path[n - 1].1));
    }
}

/// Spreads the reveal one step from `(cx, cy)`: every tile around it that is
/// hidden and has no flag is revealed, and is put on the work list if it has
/// no mine around it either.
fn reveal_around(
    field: &mut Vec<Vec<Tile>>,
    cx: usize,
    cy: usize,
    w: usize,
    h: usize,
    work: &mut Vec<(usize, usize)>,
    Ghost(g0): Ghost<Seq<Seq<Tile>>>,
    Ghost(origin): Ghost<(int, int)>,
)
    requires
        rectangular(g0, w as int, h as int),
        cx < w,
        cy < h,
        spreading(g0, grid_view(old(field)), origin.0, origin.1, old(work)@, Some((cx as int, cy as int))),
        zero(g0[cx as int][cy as int]),
        reached(g0, origin.0, origin.1, cx as int, cy as int),
    ensures
        spreading(g0, grid_view(final(field)), origin.0, origin.1, final(work)@, None),
        hidden(grid_view(final(field))).len() + final(work).len() <= hidden(grid_view(old(field))).len()
            + old(work).len(),
{
    let ns = neighbors(cx, cy, w, h);
    let mut i: usize = 0;
    while i < ns.len()
        invariant
            i <= ns.len(),
            rectangular(g0, w as int, h as int),
            cx < w,
            cy < h,
            zero(g0[cx as int][cy as int]),
            reached(g0, origin.0, origin.1, cx as int, cy as int),
            spreading(g0, grid_view(field), origin.0, origin.1, work@, Some((cx as int, cy as int))),
            hidden(grid_view(field)).len() + work.len() <= hidden(grid_view(old(field))).len() + old(
                work,
            ).len(),
            lists_neighbors(ns@, cx as int, cy as int, w as int, h as int),
            forall|k: int|
                0 <= k < i && !g0[(#[trigger] ns[k]).0 as int][ns[k].1 as int].flagged ==> grid_view(
                    field,
                )[ns[k].0 as int][ns[k].1 as int].revealed,
        decreases ns.len() - i,
    {
        let (nx, ny) = ns[i];
        let ghost g = grid_view(field);
        let ghost before = work@;
        proof {
            lemma_board_sets(g, w as int, h as int);
        }
        let tile = *tile_at(field, nx, ny);
        if !tile.revealed && !tile.flagged {
            tile_mut(field, nx, ny).revealed = true;
            if is_zero(&tile) {
                work.push((nx, ny));
            }
            proof {
                let g2 = grid_view(field);
                // One tile fewer is hidden, which pays for the tile put on the list.
                lemma_board_sets(g2, w as int, h as int);
                assert(hidden(g2) =~= hidden(g).remove((nx as int, ny as int)));
                // The reveal has reached the tile, by one step from `(cx, cy)`.
                lemma_reached_step(g0, origin.0, origin.1, cx as int, cy as int, nx as int, ny as int);
                assert forall|x: int, y: int| inside(g0, x, y) && #[trigger] fresh(g0, g2, x, y) implies reached(
                    g0,
                    origin.0,
                    origin.1,
                    x,
                    y,
                ) by {
                    if !(x == nx && y == ny) {
                        assert(fresh(g0, g, x, y));
                    }
                }
                // What was spread from before still is; the tile just
                // revealed is on the list if it is to be spread from.
                assert forall|x: int, y: int|
                    inside(g0, x, y) && ((x == origin.0 && y == origin.1) || fresh(g0, g2, x, y)) && zero(
                        g0[x][y],
                    ) && !listed_from(work@, 0, x, y) && Some((cx as int, cy as int)) != Some(
                        (x, y),
                    ) implies #[trigger] settled(g0, g2, x, y) by {
                    if x == nx && y == ny {
                        assert(work@[work@.len() - 1].0 == x && work@[work@.len() - 1].1 == y);
                    } else {
                        if listed_from(before, 0, x, y) {
                            let j = choose|j: int|
                                0 <= j < before.len() && (#[trigger] before[j]).0 == x && before[j].1 == y;
                            assert(work@[j] == before[j]);
                        }
                        assert(settled(g0, g, x, y));
                    }
                }
            }
        }
        i += 1;
    }
    proof {
        // Every tile that touches `(cx, cy)` was on the list and so has been
        // looked at.
        let g = grid_view(field);
        assert forall|a: int, b: int|
            inside(g0, a, b) && adjacent(cx as int, cy as int, a, b) && !g0[a][b].flagged implies (
        #[trigger] g[a][b]).revealed by {
            assert(listed_from(ns@, 0, a, b));
        }
    }
}

/// Reveals `(x, y)`. If the tile has no mine on it and none around it, the
/// reveal spreads: to every hidden tile without a flag that touches it, and on
/// from each of those that has no mine around it either.
pub fn reveal_from(field: &mut Vec<Vec<Tile>>, x: usize, y: usize, w: usize, h: usize)
    requires
        rectangular(grid_view(old(field)), w as int, h as int),
        x < w,
        y < h,
    ensures
        grid_view(final(field)) == opened(grid_view(old(field)), x as int, y as int),
{
    let ghost g0 = grid_view(field);
    tile_mut(field, x, y).revealed = true;
    let mut work: Vec<(usize, usize)> = Vec::new();
    if is_zero(tile_at(field, x, y)) {
        work.push((x, y));
    }
    proof {
        let g = grid_view(field);
        lemma_reached_origin(g0, x as int, y as int);
        assert forall|a: int, b: int|
            inside(g0, a, b) && ((a == x && b == y) || fresh(g0, g, a, b)) && zero(g0[a][b])
                && !listed_from(work@, 0, a, b) implies #[trigger] settled(g0, g, a, b) by {
            assert(work@[0].0 == a && work@[0].1 == b);
        }
    }
    while work.len() > 0
        invariant
            rectangular(g0, w as int, h as int),
            x < w,
            y < h,
            spreading(g0, grid_view(field), x as int, y as int, work@, None),
        decreases hidden(grid_view(field)).len() + work.len(),
    {
        let ghost before = work@;
        let ghost g = grid_view(field);
        let (cx, cy) = work.pop().unwrap();
        proof {
            // A tile that is neither `(cx, cy)` nor on the shorter list was
            // not on the list before.
            assert forall|a: int, b: int|
                inside(g0, a, b) && ((a == x && b == y) || fresh(g0, g, a, b)) && zero(g0[a][b])
                    && !listed_from(work@, 0, a, b) && Some((cx as int, cy as int)) != Some(
                    (a, b),
                ) implies #[trigger] settled(g0, g, a, b) by {
                if listed_from(before, 0, a, b) {
                    let j = choose|j: int|
                        0 <= j < before.len() && (#[trigger] before[j]).0 == a && before[j].1 == b;
                    assert(work@[j] == before[j]);
                }
            }
        }
        reveal_around(field, cx, cy, w, h, &mut work, Ghost(g0), Ghost((x as int, y as int)));
    }
    proof {
        let g = grid_view(field);
        assert forall|a: int, b: int| inside(g0, a, b) implies #[trigger] g[a][b] == opened(
            g0,
            x as int,
            y as int,
        )[a][b] by {
            if reached(g0, x as int, y as int, a, b) {
                let path = choose|path: Seq<(int, int)>| #[trigger]
                    chain(g0, path) && path[0] == (x as int, y as int) && path.last() == (a, b);
                lemma_spread_covers(g0, g, x as int, y as int, path);
            } else {
                if g[a][b].revealed && !g0[a][b].revealed {
                    assert(fresh(g0, g, a, b));
                }
            }
        }
        assert(g =~~= opened(g0, x as int, y as int));
    }
}

} // verus!
