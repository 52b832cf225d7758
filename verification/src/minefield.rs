//! Laying out a board: an empty grid, one mine at a time, and the counts
//! around each mine.

use vstd::prelude::*;
use crate::field::Tile;
use crate::field::TileContent;
use crate::dice::draw_below;
use crate::grid::{
    adjacent, ascending, bombs, bombs_around, cells, counts_exact, grid_view, inside,
    lemma_cells_len, lemma_counts_follow_mines, lemma_on_board_len, lemma_one_more_mine,
    listed_from, lists_neighbors, neighbors, precedes, rectangular, same_mines_but, tile_at,
    tile_mut,
};

verus! {

/// A hidden tile without a flag and with no mine around it.
pub open spec fn blank() -> Tile {
    Tile { content: TileContent::Empty(0), revealed: false, flagged: false }
}

/// A board of `w` columns and `h` rows on which every tile is blank.
pub fn blank_field(w: usize, h: usize) -> (field: Vec<Vec<Tile>>)
    ensures
        rectangular(grid_view(&field), w as int, h as int),
        forall|x: int, y: int|
            0 <= x < w && 0 <= y < h ==> #[trigger] grid_view(&field)[x][y] == blank(),
{
    let mut field: Vec<Vec<Tile>> = Vec::new();
    let mut x: usize = 0;
    while x < w
        invariant
            x <= w,
            rectangular(grid_view(&field), x as int, h as int),
            forall|a: int, b: int|
                0 <= a < x && 0 <= b < h ==> #[trigger] grid_view(&field)[a][b] == blank(),
        decreases w - x,
    {
        let mut row: Vec<Tile> = Vec::new();
        let mut y: usize = 0;
        while y < h
            invariant
                y <= h,
                row.len() == y,
                forall|b: int| 0 <= b < y ==> #[trigger] row[b] == blank(),
            decreases h - y,
        {
            row.push(Tile { content: TileContent::Empty(0), revealed: false, flagged: false });
            y += 1;
        }
        let ghost before = grid_view(&field);
        field.push(row);
        assert(forall|a: int| 0 <= a < x ==> #[trigger] grid_view(&field)[a] == before[a]);
        x += 1;
    }
    field
}

/// Adds `add` to the count of a tile that holds no mine; a mine is left as it is.
pub fn add_empty(tile: &mut Tile, add: i32)
    requires
        old(tile).content matches TileContent::Empty(n) ==> 0 <= n + add <= 8,
    ensures
        final(tile).revealed == old(tile).revealed,
        final(tile).flagged == old(tile).flagged,
        final(tile).content == match old(tile).content {
            TileContent::Empty(n) => TileContent::Empty((n + add) as i32),
            TileContent::Bomb => TileContent::Bomb,
        },
{
    match tile.content {
        TileContent::Empty(n) => {
            tile.content = TileContent::Empty(n + add);
        },
        TileContent::Bomb => {},
    }
}

/// 1 if `(a, b)` is one of `ns[i..]`, else 0.
pub open spec fn pending(ns: Seq<(usize, usize)>, i: int, a: int, b: int) -> int {
    if listed_from(ns, i, a, b) {
        1
    } else {
        0
    }
}

/// Whether `(a, b)` is one of `ns[i..]` comes down to `ns[i]` and `ns[i + 1..]`,
/// and on a list in column-major order at most one of the two holds.
pub proof fn lemma_listed_step(ns: Seq<(usize, usize)>, i: int, a: int, b: int)
    requires
        0 <= i < ns.len(),
        ascending(ns),
    ensures
        listed_from(ns, i, a, b) == ((ns[i].0 == a && ns[i].1 == b) || listed_from(ns, i + 1, a, b)),
        !((ns[i].0 == a && ns[i].1 == b) && listed_from(ns, i + 1, a, b)),
{
}

/// On a board without mines no tile has a mine around it.
pub proof fn lemma_no_mines_around(g: Seq<Seq<Tile>>, x: int, y: int)
    requires
        forall|a: int, b: int| inside(g, a, b) ==> !(#[trigger] g[a][b].content is Bomb),
    ensures
        bombs_around(g, x, y) == 0,
{
}

/// Puts a mine on `(x, y)` and raises the count of every tile around it that
/// holds none.
pub fn place_mine(field: &mut Vec<Vec<Tile>>, x: usize, y: usize, w: usize, h: usize)
    requires
        rectangular(grid_view(old(field)), w as int, h as int),
        counts_exact(grid_view(old(field))),
        x < w,
        y < h,
        !(grid_view(old(field))[x as int][y as int].content is Bomb),
    ensures
        rectangular(grid_view(final(field)), w as int, h as int),
        counts_exact(grid_view(final(field))),
        bombs(grid_view(final(field))) == bombs(grid_view(old(field))).insert((x as int, y as int)),
        forall|a: int, b: int|
            0 <= a < w && 0 <= b < h ==> {
                &&& (#[trigger] grid_view(final(field))[a][b]).revealed == grid_view(old(field))[a][b].revealed
                &&& grid_view(final(field))[a][b].flagged == grid_view(old(field))[a][b].flagged
            },
{
    let ghost g0 = grid_view(field);
    tile_mut(field, x, y).content = TileContent::Bomb;
    let ghost g1 = grid_view(field);
    let ns = neighbors(x, y, w, h);
    proof {
        assert forall|a: int, b: int|
            0 <= a < w && 0 <= b < h && !(#[trigger] g1[a][b].content is Bomb) implies g1[a][b].content
            == TileContent::Empty((bombs_around(g1, a, b) - pending(ns@, 0, a, b)) as i32) by {
            lemma_one_more_mine(g0, g1, x as int, y as int, a, b);
        }
    }
    let mut i: usize = 0;
    while i < ns.len()
        invariant
            i <= ns.len(),
            rectangular(g1, w as int, h as int),
            rectangular(grid_view(field), w as int, h as int),
            lists_neighbors(ns@, x as int, y as int, w as int, h as int),
            forall|a: int, b: int|
                0 <= a < w && 0 <= b < h ==> {
                    &&& (#[trigger] grid_view(field)[a][b]).revealed == g1[a][b].revealed
                    &&& grid_view(field)[a][b].flagged == g1[a][b].flagged
                    &&& (grid_view(field)[a][b].content is Bomb) == (g1[a][b].content is Bomb)
                },
            forall|a: int, b: int|
                0 <= a < w && 0 <= b < h && !(#[trigger] grid_view(field)[a][b].content is Bomb)
                    ==> grid_view(field)[a][b].content == TileContent::Empty(
                    (bombs_around(g1, a, b) - pending(ns@, i as int, a, b)) as i32,
                ),
        decreases ns.len() - i,
    {
        let (nx, ny) = ns[i];
        let ghost g = grid_view(field);
        proof {
            assert(listed_from(ns@, i as int, nx as int, ny as int));
        }
        add_empty(tile_mut(field, nx, ny), 1);
        proof {
            let g2 = grid_view(field);
            assert forall|a: int, b: int|
                0 <= a < w && 0 <= b < h && !(#[trigger] g2[a][b].content is Bomb) implies g2[a][b].content
                == TileContent::Empty((bombs_around(g1, a, b) - pending(ns@, i + 1, a, b)) as i32) by {
                lemma_listed_step(ns@, i as int, a, b);
                assert(g[a][b].content == TileContent::Empty(
                    (bombs_around(g1, a, b) - pending(ns@, i as int, a, b)) as i32,
                ));
            }
        }
        i += 1;
    }
    proof {
        let g2 = grid_view(field);
        assert forall|a: int, b: int| inside(g2, a, b) && !(#[trigger] g2[a][b].content is Bomb) implies
            g2[a][b].content == TileContent::Empty(bombs_around(g2, a, b) as i32) by {
            lemma_counts_follow_mines(g1, g2, a, b);
        }
    }
}

/// Whether the tile holds a mine.
pub fn has_mine(tile: &Tile) -> (b: bool)
    ensures
        b == (tile.content is Bomb),
{
    match tile.content {
        TileContent::Bomb => true,
        TileContent::Empty(_) => false,
    }
}

/// The positions without a mine.
pub open spec fn free(g: Seq<Seq<Tile>>) -> Set<(int, int)> {
    Set::new(|p: (int, int)| inside(g, p.0, p.1) && !(g[p.0][p.1].content is Bomb))
}

/// The positions without a mine that come before `(x, y)` in column-major order.
pub open spec fn free_before(g: Seq<Seq<Tile>>, x: int, y: int) -> Set<(int, int)> {
    Set::new(
        |p: (int, int)|
            inside(g, p.0, p.1) && !(g[p.0][p.1].content is Bomb) && precedes(p.0, p.1, x, y),
    )
}

/// A board's tiles are those with a mine and those without.
pub proof fn lemma_free_len(g: Seq<Seq<Tile>>, w: int, h: int)
    requires
        rectangular(g, w, h),
        0 <= h,
    ensures
        free(g).finite(),
        free(g).len() == w * h - bombs(g).len(),
{
    lemma_cells_len(w, h);
    lemma_on_board_len(free(g), w, h);
    lemma_on_board_len(bombs(g), w, h);
    assert(free(g) + bombs(g) =~= cells(w, h));
    vstd::set_lib::lemma_set_disjoint_lens(free(g), bombs(g));
}

/// The position without a mine that has exactly `k` such positions before it,
/// in column-major order.
pub fn nth_free(field: &Vec<Vec<Tile>>, k: usize, w: usize, h: usize) -> (pos: (usize, usize))
    requires
        rectangular(grid_view(field), w as int, h as int),
        k < w * h - bombs(grid_view(field)).len(),
    ensures
        pos.0 < w,
        pos.1 < h,
        !(grid_view(field)[pos.0 as int][pos.1 as int].content is Bomb),
        free_before(grid_view(field), pos.0 as int, pos.1 as int).len() == k,
{
    let ghost g = grid_view(field);
    proof {
        lemma_on_board_len(bombs(g), w as int, h as int);
        if w == 0 || h == 0 {
            assert(w * h == 0) by (nonlinear_arith)
                requires
                    w == 0 || h == 0,
            ;
        }
        assert(free_before(g, 0, 0) =~= Set::empty());
    }
    let mut x: usize = 0;
    let mut y: usize = 0;
    let mut seen: usize = 0;
    loop
        invariant
            g == grid_view(field),
            rectangular(g, w as int, h as int),
            k < w * h - bombs(g).len(),
            x < w,
            y < h,
            seen <= k,
            seen == free_before(g, x as int, y as int).len(),
        decreases w - x, h - y,
    {
        let ghost here = free_before(g, x as int, y as int);
        proof {
            lemma_on_board_len(here, w as int, h as int);
        }
        if !has_mine(tile_at(field, x, y)) {
            if seen == k {
                return (x, y);
            }
            seen += 1;
            proof {
                assert(free_before(g, x as int, y + 1) =~= here.insert((x as int, y as int)));
            }
        } else {
            proof {
                assert(free_before(g, x as int, y + 1) =~= here);
            }
        }
        if y + 1 < h {
            y += 1;
        } else {
            proof {
                assert(free_before(g, x + 1, 0) =~= free_before(g, x as int, y + 1));
                if x + 1 == w {
                    // This was not the last tile: else every free tile would
                    // have been passed, and there are more than `k` of them.
                    assert(free_before(g, x + 1, 0) =~= free(g));
                    lemma_free_len(g, w as int, h as int);
                }
            }
            y = 0;
            x += 1;
        }
    }
}

/// How many times in a row a mine may be drawn onto a tile that holds one
/// already, before it is sent to a free tile directly.
pub const REDRAW_LIMIT: usize = 64;

/// A board of `w` columns and `h` rows with `mine_count` mines on random
/// tiles and the counts around them, everything hidden and nothing flagged.
///
/// Each mine is drawn as a position of the board, and drawn again while the
/// position holds a mine. Redrawing has no bound of its own, so after
/// `REDRAW_LIMIT` misses in a row the mine goes to a free tile picked by one
/// draw among the free tiles. Either way each free tile is as likely as any
/// other.
pub fn generate_field(w: usize, h: usize, mine_count: i32) -> (field: Vec<Vec<Tile>>)
    requires
        0 <= mine_count < w * h <= i32::MAX,
    ensures
        rectangular(grid_view(&field), w as int, h as int),
        counts_exact(grid_view(&field)),
        bombs(grid_view(&field)).finite(),
        bombs(grid_view(&field)).len() == mine_count,
        forall|x: int, y: int|
            0 <= x < w && 0 <= y < h ==> {
                &&& !(#[trigger] grid_view(&field)[x][y]).revealed
                &&& !grid_view(&field)[x][y].flagged
            },
{
    let mut field = blank_field(w, h);
    proof {
        let g = grid_view(&field);
        assert(bombs(g) =~= Set::empty());
        assert forall|x: int, y: int| inside(g, x, y) implies #[trigger] g[x][y].content
            == TileContent::Empty(bombs_around(g, x, y) as i32) by {
            lemma_no_mines_around(g, x, y);
        }
    }
    let area: usize = w * h;
    let mut rng = rand::thread_rng();
    let mut placed: i32 = 0;
    let mut misses: usize = 0;
    while placed < mine_count
        invariant
            0 <= placed <= mine_count < w * h <= i32::MAX,
            area == w * h,
            misses <= REDRAW_LIMIT,
            rectangular(grid_view(&field), w as int, h as int),
            counts_exact(grid_view(&field)),
            bombs(grid_view(&field)).finite(),
            bombs(grid_view(&field)).len() == placed,
            forall|x: int, y: int|
                0 <= x < w && 0 <= y < h ==> {
                    &&& !(#[trigger] grid_view(&field)[x][y]).revealed
                    &&& !grid_view(&field)[x][y].flagged
                },
        decreases mine_count - placed, REDRAW_LIMIT - misses,
    {
        proof {
            if w == 0 || h == 0 {
                assert(w * h == 0) by (nonlinear_arith)
                    requires
                        w == 0 || h == 0,
                ;
            }
        }
        let x = draw_below(&mut rng, w);
        let y = draw_below(&mut rng, h);
        if !has_mine(tile_at(&field, x, y)) {
            place_mine(&mut field, x, y, w, h);
            placed += 1;
            misses = 0;
        } else if misses < REDRAW_LIMIT {
            misses += 1;
        } else {
            let k = draw_below(&mut rng, area - placed as usize);
            let (fx, fy) = nth_free(&field, k, w, h);
            place_mine(&mut field, fx, fy, w, h);
            placed += 1;
            misses = 0;
        }
    }
    field
}

/// No position is listed twice.
pub open spec fn distinct(mines: Seq<(usize, usize)>) -> bool {
    forall|i: int, j: int| 0 <= i < j < mines.len() ==> mines[i] != mines[j]
}

/// Every position is one of a board of `w` columns and `h` rows.
pub open spec fn on_board(mines: Seq<(usize, usize)>, w: int, h: int) -> bool {
    forall|i: int| 0 <= i < mines.len() ==> (#[trigger] mines[i]).0 < w && mines[i].1 < h
}

/// The listed positions, as a set.
pub open spec fn listed(mines: Seq<(usize, usize)>) -> Set<(int, int)> {
    Set::new(|p: (int, int)| listed_from(mines, 0, p.0, p.1))
}

/// A board of `w` columns and `h` rows with a mine on each listed tile and
/// the counts around them, everything hidden and nothing flagged; or `None`
/// if a position is off the board or listed twice.
pub fn field_with_mines(w: usize, h: usize, mines: &Vec<(usize, usize)>) -> (made: Option<Vec<Vec<Tile>>>)
    ensures
        made.is_some() <==> on_board(mines@, w as int, h as int) && distinct(mines@),
        made matches Some(field) ==> {
            &&& rectangular(grid_view(&field), w as int, h as int)
            &&& counts_exact(grid_view(&field))
            &&& bombs(grid_view(&field)) == listed(mines@)
            &&& bombs(grid_view(&field)).finite()
            &&& bombs(grid_view(&field)).len() == mines.len()
            &&& forall|x: int, y: int|
                0 <= x < w && 0 <= y < h ==> {
                    &&& !(#[trigger] grid_view(&field)[x][y]).revealed
                    &&& !grid_view(&field)[x][y].flagged
                }
        },
{
    let mut field = blank_field(w, h);
    proof {
        let g = grid_view(&field);
        assert(bombs(g) =~= Set::empty());
        assert forall|x: int, y: int| inside(g, x, y) implies #[trigger] g[x][y].content
            == TileContent::Empty(bombs_around(g, x, y) as i32) by {
            lemma_no_mines_around(g, x, y);
        }
    }
    let mut i: usize = 0;
    while i < mines.len()
        invariant
            i <= mines.len(),
            rectangular(grid_view(&field), w as int, h as int),
            counts_exact(grid_view(&field)),
            on_board(mines@.take(i as int), w as int, h as int),
            distinct(mines@.take(i as int)),
            bombs(grid_view(&field)) =~= listed(mines@.take(i as int)),
            bombs(grid_view(&field)).finite(),
            bombs(grid_view(&field)).len() == i,
            forall|x: int, y: int|
                0 <= x < w && 0 <= y < h ==> {
                    &&& !(#[trigger] grid_view(&field)[x][y]).revealed
                    &&& !grid_view(&field)[x][y].flagged
                },
        decreases mines.len() - i,
    {
        let (x, y) = mines[i];
        let ghost done = mines@.take(i as int);
        let ghost next = mines@.take(i + 1);
        if x >= w || y >= h {
            return None;
        }
        if has_mine(tile_at(&field, x, y)) {
            assert(listed(done).contains((x as int, y as int)));
            return None;
        }
        place_mine(&mut field, x, y, w, h);
        proof {
            assert(!listed(done).contains((x as int, y as int)));
            assert forall|p: (int, int)| listed(next).contains(p) == listed(done).insert(
                (x as int, y as int),
            ).contains(p) by {
                if p == (x as int, y as int) {
                    assert(next[i as int].0 == p.0 && next[i as int].1 == p.1);
                }
            }
        }
        i += 1;
    }
    proof {
        assert(mines@.take(mines.len() as int) =~= mines@);
    }
    Some(field)
}

} // verus!
