//! The board as a mathematical value, and what can be said of it without
//! looking at the rest of the game: its shape, where its mines are, how many
//! mines lie around a tile, and which tiles touch which.

use vstd::prelude::*;
use crate::field::Tile;
use crate::field::TileContent;

verus! {

/// The board behind a vector of columns: `grid_view(f)[x][y]` is the tile in
/// column `x`, row `y`.
pub open spec fn grid_view(field: &Vec<Vec<Tile>>) -> Seq<Seq<Tile>> {
    Seq::new(field@.len(), |x: int| field@[x]@)
}

/// `g` with the tile on `(x, y)` replaced by `t`.
pub open spec fn with_tile(g: Seq<Seq<Tile>>, x: int, y: int, t: Tile) -> Seq<Seq<Tile>> {
    g.update(x, g[x].update(y, t))
}

/// The tile on `(x, y)`.
pub fn tile_at(field: &Vec<Vec<Tile>>, x: usize, y: usize) -> (t: &Tile)
    requires
        inside(grid_view(field), x as int, y as int),
    ensures
        *t == grid_view(field)[x as int][y as int],
{
    &field[x][y]
}

/// The tile on `(x, y)`, to be changed in place: the board ends as it was but
/// for that tile.
pub fn tile_mut(field: &mut Vec<Vec<Tile>>, x: usize, y: usize) -> (t: &mut Tile)
    requires
        inside(grid_view(old(field)), x as int, y as int),
    ensures
        *t == grid_view(old(field))[x as int][y as int],
        grid_view(final(field)) == with_tile(grid_view(old(field)), x as int, y as int, *final(t)),
{
    &mut field[x][y]
}

/// `g` has `w` columns of `h` tiles each.
pub open spec fn rectangular(g: Seq<Seq<Tile>>, w: int, h: int) -> bool {
    &&& g.len() == w
    &&& forall|x: int| 0 <= x < w ==> (#[trigger] g[x]).len() == h
}

/// `(x, y)` names a tile of `g`.
pub open spec fn inside(g: Seq<Seq<Tile>>, x: int, y: int) -> bool {
    0 <= x < g.len() && 0 <= y < g[x].len()
}

/// Two different positions that touch, diagonals included.
pub open spec fn adjacent(x1: int, y1: int, x2: int, y2: int) -> bool {
    &&& -1 <= x1 - x2 <= 1
    &&& -1 <= y1 - y2 <= 1
    &&& !(x1 == x2 && y1 == y2)
}

/// Column-major order on positions.
pub open spec fn precedes(x1: int, y1: int, x2: int, y2: int) -> bool {
    x1 < x2 || (x1 == x2 && y1 < y2)
}

/// `(a, b)` is one of `ns[i..]`.
pub open spec fn listed_from(ns: Seq<(usize, usize)>, i: int, a: int, b: int) -> bool {
    exists|j: int| i <= j < ns.len() && (#[trigger] ns[j]).0 == a && ns[j].1 == b
}

/// `ns` is in column-major order, each position before the next; so none is
/// listed twice.
pub open spec fn ascending(ns: Seq<(usize, usize)>) -> bool {
    forall|i: int, j: int|
        0 <= i < j < ns.len() ==> precedes(
            (#[trigger] ns[i]).0 as int,
            ns[i].1 as int,
            (#[trigger] ns[j]).0 as int,
            ns[j].1 as int,
        )
}

/// `ns` lists the tiles that touch `(x, y)` on a board of `w` columns and `h`
/// rows: those and no others, each once, in column-major order.
pub open spec fn lists_neighbors(ns: Seq<(usize, usize)>, x: int, y: int, w: int, h: int) -> bool {
    &&& forall|i: int|
        0 <= i < ns.len() ==> {
            &&& (#[trigger] ns[i]).0 < w
            &&& ns[i].1 < h
            &&& adjacent(x, y, ns[i].0 as int, ns[i].1 as int)
        }
    &&& forall|a: int, b: int|
        0 <= a < w && 0 <= b < h && adjacent(x, y, a, b) ==> #[trigger] listed_from(ns, 0, a, b)
    &&& ascending(ns)
}

/// 1 if `(x, y)` is a tile of `g` that holds a mine, else 0.
pub open spec fn bomb_at(g: Seq<Seq<Tile>>, x: int, y: int) -> int {
    if inside(g, x, y) && g[x][y].content is Bomb {
        1
    } else {
        0
    }
}

/// The number of mines on the tiles that touch `(x, y)`.
pub open spec fn bombs_around(g: Seq<Seq<Tile>>, x: int, y: int) -> int {
    bomb_at(g, x - 1, y - 1) + bomb_at(g, x - 1, y) + bomb_at(g, x - 1, y + 1)
        + bomb_at(g, x, y - 1) + bomb_at(g, x, y + 1)
        + bomb_at(g, x + 1, y - 1) + bomb_at(g, x + 1, y) + bomb_at(g, x + 1, y + 1)
}

/// Every tile without a mine stores the number of mines around it.
pub open spec fn counts_exact(g: Seq<Seq<Tile>>) -> bool {
    forall|x: int, y: int|
        inside(g, x, y) && !(#[trigger] g[x][y].content is Bomb)
            ==> g[x][y].content == TileContent::Empty(bombs_around(g, x, y) as i32)
}

/// A stored count is never less than 0 nor more than 8.
pub proof fn lemma_counts_in_range(g: Seq<Seq<Tile>>, x: int, y: int)
    requires
        counts_exact(g),
        inside(g, x, y),
    ensures
        g[x][y].content matches TileContent::Empty(n) ==> 0 <= n <= 8,
{
}

/// Two boards of one shape with mines on the same tiles, but perhaps for `(x, y)`.
pub open spec fn same_mines_but(g: Seq<Seq<Tile>>, k: Seq<Seq<Tile>>, x: int, y: int) -> bool {
    &&& g.len() == k.len()
    &&& forall|a: int| 0 <= a < g.len() ==> (#[trigger] g[a]).len() == k[a].len()
    &&& forall|a: int, b: int|
        inside(g, a, b) && !(a == x && b == y) ==> (#[trigger] g[a][b].content is Bomb) == (
        k[a][b].content is Bomb)
}

/// Whether a position counts as a mine depends on the mines alone.
pub proof fn lemma_bomb_at_follows_mines(
    g: Seq<Seq<Tile>>,
    k: Seq<Seq<Tile>>,
    x: int,
    y: int,
    a: int,
    b: int,
)
    requires
        same_mines_but(g, k, x, y),
        inside(g, x, y) ==> !(a == x && b == y),
    ensures
        bomb_at(g, a, b) == bomb_at(k, a, b),
{
}

/// A mine put on `(x, y)` raises the number of mines around exactly the tiles
/// that touch `(x, y)`, by one.
pub proof fn lemma_one_more_mine(g: Seq<Seq<Tile>>, k: Seq<Seq<Tile>>, x: int, y: int, a: int, b: int)
    requires
        same_mines_but(g, k, x, y),
        inside(g, x, y),
        !(g[x][y].content is Bomb),
        k[x][y].content is Bomb,
    ensures
        bombs_around(k, a, b) == bombs_around(g, a, b) + if adjacent(x, y, a, b) {
            1int
        } else {
            0int
        },
{
    if !(a - 1 == x && b - 1 == y) {
        lemma_bomb_at_follows_mines(g, k, x, y, a - 1, b - 1);
    }
    if !(a - 1 == x && b == y) {
        lemma_bomb_at_follows_mines(g, k, x, y, a - 1, b);
    }
    if !(a - 1 == x && b + 1 == y) {
        lemma_bomb_at_follows_mines(g, k, x, y, a - 1, b + 1);
    }
    if !(a == x && b - 1 == y) {
        lemma_bomb_at_follows_mines(g, k, x, y, a, b - 1);
    }
    if !(a == x && b + 1 == y) {
        lemma_bomb_at_follows_mines(g, k, x, y, a, b + 1);
    }
    if !(a + 1 == x && b - 1 == y) {
        lemma_bomb_at_follows_mines(g, k, x, y, a + 1, b - 1);
    }
    if !(a + 1 == x && b == y) {
        lemma_bomb_at_follows_mines(g, k, x, y, a + 1, b);
    }
    if !(a + 1 == x && b + 1 == y) {
        lemma_bomb_at_follows_mines(g, k, x, y, a + 1, b + 1);
    }
}

/// Boards of one shape with mines on the same tiles have the same number of
/// mines around every position.
pub proof fn lemma_counts_follow_mines(g: Seq<Seq<Tile>>, k: Seq<Seq<Tile>>, a: int, b: int)
    requires
        same_mines_but(g, k, -1, -1),
    ensures
        bombs_around(g, a, b) == bombs_around(k, a, b),
{
    lemma_bomb_at_follows_mines(g, k, -1, -1, a - 1, b - 1);
    lemma_bomb_at_follows_mines(g, k, -1, -1, a - 1, b);
    lemma_bomb_at_follows_mines(g, k, -1, -1, a - 1, b + 1);
    lemma_bomb_at_follows_mines(g, k, -1, -1, a, b - 1);
    lemma_bomb_at_follows_mines(g, k, -1, -1, a, b + 1);
    lemma_bomb_at_follows_mines(g, k, -1, -1, a + 1, b - 1);
    lemma_bomb_at_follows_mines(g, k, -1, -1, a + 1, b);
    lemma_bomb_at_follows_mines(g, k, -1, -1, a + 1, b + 1);
}

/// The positions of the mines.
pub open spec fn bombs(g: Seq<Seq<Tile>>) -> Set<(int, int)> {
    Set::new(|p: (int, int)| inside(g, p.0, p.1) && g[p.0][p.1].content is Bomb)
}

/// The positions of the flags.
pub open spec fn flags(g: Seq<Seq<Tile>>) -> Set<(int, int)> {
    Set::new(|p: (int, int)| inside(g, p.0, p.1) && g[p.0][p.1].flagged)
}

/// The positions of the tiles that are still hidden.
pub open spec fn hidden(g: Seq<Seq<Tile>>) -> Set<(int, int)> {
    Set::new(|p: (int, int)| inside(g, p.0, p.1) && !g[p.0][p.1].revealed)
}

/// All positions of a board of `w` columns and `h` rows.
pub open spec fn cells(w: int, h: int) -> Set<(int, int)> {
    Set::new(|p: (int, int)| 0 <= p.0 < w && 0 <= p.1 < h)
}

/// The positions of column `x` of a board of `h` rows.
pub open spec fn column(x: int, h: int) -> Set<(int, int)> {
    Set::new(|p: (int, int)| p.0 == x && 0 <= p.1 < h)
}

/// A column of `h` rows has `h` positions.
pub proof fn lemma_column_len(x: int, h: int)
    requires
        0 <= h,
    ensures
        column(x, h).finite(),
        column(x, h).len() == h,
    decreases h,
{
    if h == 0 {
        assert(column(x, h) =~= Set::empty());
    } else {
        lemma_column_len(x, h - 1);
        assert(column(x, h) =~= column(x, h - 1).insert((x, h - 1)));
    }
}

/// A board of `w` columns and `h` rows has `w * h` positions.
pub proof fn lemma_cells_len(w: int, h: int)
    requires
        0 <= w,
        0 <= h,
    ensures
        cells(w, h).finite(),
        cells(w, h).len() == w * h,
    decreases w,
{
    if w == 0 {
        assert(cells(w, h) =~= Set::empty());
    } else {
        lemma_cells_len(w - 1, h);
        lemma_column_len(w - 1, h);
        assert(cells(w, h) =~= cells(w - 1, h) + column(w - 1, h));
        vstd::set_lib::lemma_set_disjoint_lens(cells(w - 1, h), column(w - 1, h));
        assert((w - 1) * h + h == w * h) by (nonlinear_arith);
    }
}

/// A set of positions of a board is finite and no larger than the board.
pub proof fn lemma_on_board_len(s: Set<(int, int)>, w: int, h: int)
    requires
        0 <= w,
        0 <= h,
        s.subset_of(cells(w, h)),
    ensures
        s.finite(),
        s.len() <= w * h,
{
    lemma_cells_len(w, h);
    vstd::set_lib::lemma_len_subset(s, cells(w, h));
}

/// The mines, the flags and the hidden tiles of a board are sets of its positions.
pub proof fn lemma_board_sets(g: Seq<Seq<Tile>>, w: int, h: int)
    requires
        rectangular(g, w, h),
        0 <= h,
    ensures
        bombs(g).subset_of(cells(w, h)),
        flags(g).subset_of(cells(w, h)),
        hidden(g).subset_of(cells(w, h)),
        bombs(g).finite(),
        flags(g).finite(),
        hidden(g).finite(),
        bombs(g).len() <= w * h,
        flags(g).len() <= w * h,
        hidden(g).len() <= w * h,
{
    lemma_on_board_len(bombs(g), w, h);
    lemma_on_board_len(flags(g), w, h);
    lemma_on_board_len(hidden(g), w, h);
}

/// The tiles that touch `(x, y)` on a board of `w` columns and `h` rows, in
/// column-major order.
pub fn neighbors(x: usize, y: usize, w: usize, h: usize) -> (ns: Vec<(usize, usize)>)
    requires
        x < w,
        y < h,
    ensures
        lists_neighbors(ns@, x as int, y as int, w as int, h as int),
{
    let mut ns: Vec<(usize, usize)> = Vec::new();
    let ghost mut at: Map<(int, int), int> = Map::empty();
    if x > 0 {
        if y > 0 {
            proof {
                at = at.insert((x - 1, y - 1), ns.len() as int);
            }
            ns.push((x - 1, y - 1));
        }
        proof {
            at = at.insert((x - 1, y as int), ns.len() as int);
        }
        ns.push((x - 1, y));
        if y < h - 1 {
            proof {
                at = at.insert((x - 1, y + 1), ns.len() as int);
            }
            ns.push((x - 1, y + 1));
        }
    }
    if y > 0 {
        proof {
            at = at.insert((x as int, y - 1), ns.len() as int);
        }
        ns.push((x, y - 1));
    }
    if y < h - 1 {
        proof {
            at = at.insert((x as int, y + 1), ns.len() as int);
        }
        ns.push((x, y + 1));
    }
    if x < w - 1 {
        if y > 0 {
            proof {
                at = at.insert((x + 1, y - 1), ns.len() as int);
            }
            ns.push((x + 1, y - 1));
        }
        proof {
            at = at.insert((x + 1, y as int), ns.len() as int);
        }
        ns.push((x + 1, y));
        if y < h - 1 {
            proof {
                at = at.insert((x + 1, y + 1), ns.len() as int);
            }
            ns.push((x + 1, y + 1));
        }
    }
    proof {
        assert forall|a: int, b: int|
            0 <= a < w && 0 <= b < h && adjacent(x as int, y as int, a, b) implies #[trigger] listed_from(
            ns@,
            0,
            a,
            b,
        ) by {
            let i = at[(a, b)];
            assert(0 <= i < ns.len() && ns[i].0 == a && ns[i].1 == b);
        }
    }
    ns
}

} // verus!
