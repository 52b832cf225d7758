//! The game as a mathematical value, each move as a function on such values,
//! and what holds of them.

use vstd::prelude::*;
use crate::field::GameState;
use crate::field::Tile;
use crate::field::TileContent;
use crate::grid::{
    adjacent, bombs, bombs_around, counts_exact, flags, inside, lemma_board_sets,
    lemma_counts_follow_mines, rectangular, same_mines_but, with_tile,
};
use crate::region::{
    lemma_reached_coverable, lemma_reached_from_nonzero, lemma_reached_origin, lemma_reached_step,
    opened, reached, zero,
};

verus! {

/// The clock ticks in nanoseconds.
pub const NANOS_PER_SECOND: u128 = 1_000_000_000;

/// The timer stops counting here.
pub const TIMER_LIMIT: i32 = 999;

/// A board of `w` columns and `h` rows can take `mine_count` mines: there is
/// at least one tile more than there are mines, and no more tiles than the
/// flag counter can count.
pub open spec fn valid_setup(w: int, h: int, mine_count: int) -> bool {
    &&& 0 < w
    &&& 0 < h
    &&& 0 <= mine_count < w * h <= i32::MAX
}

/// The time from `start` to `now`, both clock readings; none if the clock has
/// gone back.
pub open spec fn since(start: u128, now: u128) -> u128 {
    if now >= start {
        (now - start) as u128
    } else {
        0
    }
}

/// The time played at `now` by a game whose clock was started at `start`, if
/// it was started at all.
pub open spec fn spent(start: Option<u128>, now: u128) -> u128 {
    match start {
        Some(t) => since(t, now),
        None => 0,
    }
}

/// The whole seconds in `nanos`, as far as the timer counts.
pub open spec fn timer_seconds(nanos: u128) -> int {
    if nanos / NANOS_PER_SECOND > TIMER_LIMIT {
        TIMER_LIMIT as int
    } else {
        (nanos / NANOS_PER_SECOND) as int
    }
}

/// A game as a value.
pub struct GameView {
    /// The number of columns.
    pub width: int,
    /// The number of rows.
    pub height: int,
    /// The number of mines on the board.
    pub mine_count: int,
    /// The number of flags on the board.
    pub flag_count: int,
    /// Playing, won or lost, with the time.
    pub state: GameState,
    /// The tiles: `grid[x][y]` is the one in column `x`, row `y`.
    pub grid: Seq<Seq<Tile>>,
    /// The tile that the pointer hovers over, if any.
    pub preview: Option<(int, int)>,
}

impl GameView {
    /// What holds of every game from its creation on.
    pub open spec fn wf(self) -> bool {
        &&& valid_setup(self.width, self.height, self.mine_count)
        &&& rectangular(self.grid, self.width, self.height)
        &&& counts_exact(self.grid)
        &&& bombs(self.grid).len() == self.mine_count
        &&& flags(self.grid).len() == self.flag_count
        &&& forall|x: int, y: int|
            inside(self.grid, x, y) ==> !((#[trigger] self.grid[x][y]).revealed && self.grid[x][y].flagged)
        &&& self.preview matches Some(p) ==> inside(self.grid, p.0, p.1)
        &&& !(self.state is Playing) ==> self.preview is None
    }

    /// Nothing has happened yet: every tile is hidden, there are no flags and
    /// no hover, and the clock has not started.
    pub open spec fn untouched(self) -> bool {
        &&& self.state == GameState::Playing(None)
        &&& self.preview is None
        &&& self.flag_count == 0
        &&& forall|x: int, y: int|
            inside(self.grid, x, y) ==> {
                &&& !(#[trigger] self.grid[x][y]).revealed
                &&& !self.grid[x][y].flagged
            }
    }

    /// The game is over, won or lost.
    pub open spec fn over(self) -> bool {
        !(self.state is Playing)
    }

    /// The mines that are left to find, going by the flags: never less than none.
    pub open spec fn remaining(self) -> int {
        if self.mine_count - self.flag_count > 0 {
            self.mine_count - self.flag_count
        } else {
            0
        }
    }

    /// What the timer shows when the clock reads `now`.
    pub open spec fn elapsed(self, now: u128) -> int {
        match self.state {
            GameState::Playing(start) => timer_seconds(spent(start, now)),
            GameState::Victory(time) => timer_seconds(time),
            GameState::Boom(time) => timer_seconds(time),
        }
    }

    /// Every tile without a mine is revealed.
    pub open spec fn cleared(self) -> bool {
        forall|x: int, y: int|
            inside(self.grid, x, y) && !(#[trigger] self.grid[x][y].content is Bomb)
                ==> self.grid[x][y].revealed
    }

    /// Whether `(x, y)` is lit up by the hover: it is hidden and has no flag,
    /// and either the pointer is on it, or the pointer is on a tile that
    /// touches it, is revealed and has a mine around it.
    pub open spec fn highlighted(self, x: int, y: int) -> bool {
        &&& self.state is Playing
        &&& self.preview matches Some(p)
        &&& !self.grid[x][y].revealed
        &&& !self.grid[x][y].flagged
        &&& {
            ||| p == (x, y)
            ||| {
                &&& adjacent(p.0, p.1, x, y)
                &&& self.grid[p.0][p.1].revealed
                &&& self.grid[p.0][p.1].content matches TileContent::Empty(n)
                &&& n > 0
            }
        }
    }

    /// The game after the pointer has moved to `pos`, or off the board. A
    /// pointer over a flag leaves the hover where it was.
    pub open spec fn hover(self, pos: Option<(int, int)>) -> GameView {
        if !(self.state is Playing) {
            self
        } else {
            match pos {
                None => GameView { preview: None, ..self },
                Some(p) => if self.grid[p.0][p.1].flagged {
                    self
                } else {
                    GameView { preview: Some(p), ..self }
                },
            }
        }
    }

    /// The game after the flag on `(x, y)` has been toggled. Nothing happens
    /// once the game is over, or on a revealed tile.
    pub open spec fn flag(self, x: int, y: int) -> GameView {
        let t = self.grid[x][y];
        if !(self.state is Playing) || t.revealed {
            self
        } else {
            GameView {
                grid: with_tile(
                    self.grid,
                    x,
                    y,
                    Tile { content: t.content, revealed: t.revealed, flagged: !t.flagged },
                ),
                flag_count: if t.flagged {
                    self.flag_count - 1
                } else {
                    self.flag_count + 1
                },
                ..self
            }
        }
    }

    /// The game with its clock started at `now`, unless it runs already.
    pub open spec fn start(self, now: u128) -> GameView {
        if self.state == GameState::Playing(None) {
            GameView { state: GameState::Playing(Some(now)), ..self }
        } else {
            self
        }
    }

    /// The game lost at `now`: the time is frozen and the hover is gone.
    pub open spec fn boom(self, now: u128) -> GameView {
        match self.state {
            GameState::Playing(start) => GameView {
                state: GameState::Boom(spent(start, now)),
                preview: None,
                ..self
            },
            _ => self,
        }
    }

    /// The game won at `now`: the time is frozen and the hover is gone.
    pub open spec fn win(self, now: u128) -> GameView {
        match self.state {
            GameState::Playing(start) => GameView {
                state: GameState::Victory(spent(start, now)),
                preview: None,
                ..self
            },
            _ => self,
        }
    }

    /// The game after `(x, y)` has been revealed at `now`. Nothing happens
    /// once the game is over, or on a flag. Else the clock starts if it has
    /// not yet, the reveal spreads over the board, and a mine on `(x, y)`
    /// ends the game.
    pub open spec fn uncover(self, x: int, y: int, now: u128) -> GameView {
        if !(self.state is Playing) || self.grid[x][y].flagged {
            self
        } else {
            let shown = GameView { grid: opened(self.grid, x, y), ..self.start(now) };
            if self.grid[x][y].content is Bomb {
                shown.boom(now)
            } else {
                shown
            }
        }
    }
}

/// A change to whether tiles are revealed or flagged leaves the mines and the
/// counts around them as they were.
pub proof fn lemma_marks_keep_counts(g: Seq<Seq<Tile>>, k: Seq<Seq<Tile>>)
    requires
        counts_exact(g),
        k.len() == g.len(),
        forall|x: int| 0 <= x < g.len() ==> (#[trigger] k[x]).len() == g[x].len(),
        forall|x: int, y: int| inside(g, x, y) ==> (#[trigger] k[x][y]).content == g[x][y].content,
    ensures
        counts_exact(k),
        bombs(k) == bombs(g),
{
    assert forall|x: int, y: int|
        inside(k, x, y) && !(#[trigger] k[x][y].content is Bomb) implies k[x][y].content
        == TileContent::Empty(bombs_around(k, x, y) as i32) by {
        lemma_counts_follow_mines(g, k, x, y);
    }
    assert(bombs(k) =~= bombs(g));
}

/// Toggling a flag keeps a game well formed: the mines stay where they are,
/// the counts around them stay exact, and the flag counter still counts the
/// flags.
pub proof fn lemma_flag_keeps_wf(v: GameView, x: int, y: int)
    requires
        v.wf(),
        inside(v.grid, x, y),
    ensures
        v.flag(x, y).wf(),
{
    let r = v.flag(x, y);
    if r != v {
        lemma_marks_keep_counts(v.grid, r.grid);
        lemma_board_sets(v.grid, v.width, v.height);
        if v.grid[x][y].flagged {
            assert(flags(r.grid) =~= flags(v.grid).remove((x, y)));
        } else {
            assert(flags(r.grid) =~= flags(v.grid).insert((x, y)));
        }
    }
}

/// Moving the pointer keeps a game well formed.
pub proof fn lemma_hover_keeps_wf(v: GameView, pos: Option<(int, int)>)
    requires
        v.wf(),
        pos matches Some(p) ==> inside(v.grid, p.0, p.1),
    ensures
        v.hover(pos).wf(),
{
}

/// Declaring the game won keeps it well formed.
pub proof fn lemma_win_keeps_wf(v: GameView, now: u128)
    requires
        v.wf(),
    ensures
        v.win(now).wf(),
{
}

/// Revealing a tile keeps a game well formed: the mines stay where they are,
/// the counts around them stay exact, and no flagged tile is revealed.
pub proof fn lemma_uncover_keeps_wf(v: GameView, x: int, y: int, now: u128)
    requires
        v.wf(),
        inside(v.grid, x, y),
    ensures
        v.uncover(x, y, now).wf(),
{
    if v.state is Playing && !v.grid[x][y].flagged {
        let g = v.grid;
        let k = opened(g, x, y);
        lemma_marks_keep_counts(g, k);
        assert(flags(k) =~= flags(g));
        assert forall|a: int, b: int| inside(k, a, b) implies !((#[trigger] k[a][b]).revealed
            && k[a][b].flagged) by {
            if reached(g, x, y, a, b) {
                lemma_reached_coverable(g, x, y, a, b);
            }
        }
    }
}

/// Revealing a mine loses the game, and reveals no tile but the mine.
pub proof fn lemma_uncover_mine(v: GameView, x: int, y: int, now: u128)
    requires
        inside(v.grid, x, y),
        v.state is Playing,
        !v.grid[x][y].flagged,
        v.grid[x][y].content is Bomb,
    ensures
        v.uncover(x, y, now).state is Boom,
        v.uncover(x, y, now).grid[x][y].revealed,
        forall|a: int, b: int|
            inside(v.grid, a, b) && !(a == x && b == y) ==> #[trigger] v.uncover(x, y, now).grid[a][b]
                == v.grid[a][b],
{
    let g = v.grid;
    lemma_reached_origin(g, x, y);
    assert forall|a: int, b: int| inside(g, a, b) && !(a == x && b == y) implies #[trigger] v.uncover(
        x,
        y,
        now,
    ).grid[a][b] == g[a][b] by {
        lemma_reached_from_nonzero(g, x, y, a, b);
    }
}

/// Revealing a tile with a mine around it reveals that tile alone, and the
/// game goes on.
pub proof fn lemma_uncover_number(v: GameView, x: int, y: int, now: u128)
    requires
        inside(v.grid, x, y),
        v.state is Playing,
        !v.grid[x][y].flagged,
        !(v.grid[x][y].content is Bomb),
        !zero(v.grid[x][y]),
    ensures
        v.uncover(x, y, now).state is Playing,
        v.uncover(x, y, now).grid[x][y].revealed,
        forall|a: int, b: int|
            inside(v.grid, a, b) && !(a == x && b == y) ==> #[trigger] v.uncover(x, y, now).grid[a][b]
                == v.grid[a][b],
{
    let g = v.grid;
    lemma_reached_origin(g, x, y);
    assert forall|a: int, b: int| inside(g, a, b) && !(a == x && b == y) implies #[trigger] v.uncover(
        x,
        y,
        now,
    ).grid[a][b] == g[a][b] by {
        lemma_reached_from_nonzero(g, x, y, a, b);
    }
}

/// Revealing a tile with no mine around it opens the whole region of such
/// tiles that hangs together with it, and the numbered tiles on the border of
/// that region: the tile itself is revealed, and so is every tile that the
/// reveal reaches; around every tile that the reveal has reached and that has
/// no mine around it, every tile is revealed unless it has a flag; a tile is
/// newly revealed only if the reveal has reached it; and every flagged tile is
/// as it was, hidden and flagged. The game goes on.
pub proof fn lemma_uncover_region(v: GameView, x: int, y: int, now: u128)
    requires
        v.wf(),
        inside(v.grid, x, y),
        v.state is Playing,
        !v.grid[x][y].flagged,
        zero(v.grid[x][y]),
    ensures
        v.uncover(x, y, now).state is Playing,
        v.uncover(x, y, now).grid[x][y].revealed,
        forall|a: int, b: int|
            #![trigger reached(v.grid, x, y, a, b)]
            reached(v.grid, x, y, a, b) ==> v.uncover(x, y, now).grid[a][b].revealed,
        forall|a: int, b: int, c: int, d: int|
            #![trigger reached(v.grid, x, y, a, b), v.uncover(x, y, now).grid[c][d]]
            reached(v.grid, x, y, a, b) && zero(v.grid[a][b]) && inside(v.grid, c, d) && adjacent(
                a,
                b,
                c,
                d,
            ) && !v.grid[c][d].flagged ==> v.uncover(x, y, now).grid[c][d].revealed,
        forall|a: int, b: int|
            inside(v.grid, a, b) && (#[trigger] v.uncover(x, y, now).grid[a][b]).revealed
                && !v.grid[a][b].revealed ==> reached(v.grid, x, y, a, b),
        forall|a: int, b: int|
            inside(v.grid, a, b) && v.grid[a][b].flagged ==> {
                &&& #[trigger] v.uncover(x, y, now).grid[a][b] == v.grid[a][b]
                &&& !v.grid[a][b].revealed
            },
        forall|a: int, b: int|
            inside(v.grid, a, b) ==> {
                &&& (#[trigger] v.uncover(x, y, now).grid[a][b]).content == v.grid[a][b].content
                &&& v.uncover(x, y, now).grid[a][b].flagged == v.grid[a][b].flagged
                &&& v.grid[a][b].revealed ==> v.uncover(x, y, now).grid[a][b].revealed
            },
{
    let g = v.grid;
    let k = v.uncover(x, y, now).grid;
    lemma_reached_origin(g, x, y);
    assert forall|a: int, b: int|
        #![trigger reached(g, x, y, a, b)]
        reached(g, x, y, a, b) implies k[a][b].revealed by {
        lemma_reached_coverable(g, x, y, a, b);
    }
    assert forall|a: int, b: int, c: int, d: int|
        #![trigger reached(g, x, y, a, b), k[c][d]]
        reached(g, x, y, a, b) && zero(g[a][b]) && inside(g, c, d) && adjacent(a, b, c, d)
            && !g[c][d].flagged implies k[c][d].revealed by {
        if !g[c][d].revealed {
            lemma_reached_step(g, x, y, a, b, c, d);
        }
    }
    assert forall|a: int, b: int| inside(g, a, b) && g[a][b].flagged implies {
        &&& #[trigger] k[a][b] == g[a][b]
        &&& !g[a][b].revealed
    } by {
        if reached(g, x, y, a, b) {
            lemma_reached_coverable(g, x, y, a, b);
        }
    }
}

/// Toggling the flag on a tile twice leaves the game as it was: the tile and
/// the flag counter are back at what they were.
pub proof fn lemma_flag_twice(v: GameView, x: int, y: int)
    requires
        inside(v.grid, x, y),
    ensures
        v.flag(x, y).flag(x, y) == v,
{
    let once = v.flag(x, y);
    let twice = once.flag(x, y);
    assert(twice.grid =~~= v.grid);
}

/// The timer never shows less than 0 nor more than its limit; it never goes
/// back while the clock goes on; and once the game is over it shows the same
/// whatever the clock reads.
pub proof fn lemma_timer(v: GameView, now: u128, later: u128)
    requires
        now <= later,
    ensures
        0 <= v.elapsed(now) <= TIMER_LIMIT,
        v.elapsed(now) <= v.elapsed(later),
        v.over() ==> v.elapsed(now) == v.elapsed(later),
{
    lemma_timer_seconds_grow(spent_of(v, now), spent_of(v, later));
}

/// The time that the timer of `v` goes by when the clock reads `now`.
pub open spec fn spent_of(v: GameView, now: u128) -> u128 {
    match v.state {
        GameState::Playing(start) => spent(start, now),
        GameState::Victory(time) => time,
        GameState::Boom(time) => time,
    }
}

/// More time shows as no fewer seconds.
pub proof fn lemma_timer_seconds_grow(a: u128, b: u128)
    requires
        a <= b,
    ensures
        0 <= timer_seconds(a) <= timer_seconds(b) <= TIMER_LIMIT,
{
    assert(a / NANOS_PER_SECOND <= b / NANOS_PER_SECOND) by (nonlinear_arith)
        requires
            a <= b,
            NANOS_PER_SECOND == 1_000_000_000,
    ;
}

/// A move does not set the timer back: what it shows after a reveal, a toggled
/// flag, a move of the pointer or a win is no less than what it showed before,
/// as long as the clock has not gone back; and the moment the game ends the
/// timer shows what it showed while the game went on.
pub proof fn lemma_timer_through_moves(
    v: GameView,
    x: int,
    y: int,
    pos: Option<(int, int)>,
    now: u128,
    later: u128,
)
    requires
        now <= later,
    ensures
        v.elapsed(now) <= v.uncover(x, y, now).elapsed(later),
        v.elapsed(now) <= v.win(now).elapsed(later),
        v.elapsed(now) <= v.flag(x, y).elapsed(later),
        v.elapsed(now) <= v.hover(pos).elapsed(later),
        v.uncover(x, y, now).over() ==> v.uncover(x, y, now).elapsed(later) == v.elapsed(now),
        v.win(now).elapsed(later) == v.elapsed(now),
{
    lemma_timer(v, now, later);
    let r = v.uncover(x, y, now);
    lemma_timer_seconds_grow(spent_of(v, now), spent_of(r, later));
    lemma_timer_seconds_grow(spent_of(v, now), spent_of(v.win(now), later));
    lemma_timer_seconds_grow(spent_of(v.win(now), later), spent_of(v, now));
    if r.over() {
        lemma_timer_seconds_grow(spent_of(r, later), spent_of(v, now));
    }
}

/// Once the game is over no move changes anything.
pub proof fn lemma_over_is_final(v: GameView, x: int, y: int, pos: Option<(int, int)>, now: u128)
    requires
        v.over(),
    ensures
        v.uncover(x, y, now) == v,
        v.flag(x, y) == v,
        v.hover(pos) == v,
        v.win(now) == v,
        v.boom(now) == v,
{
}

} // verus!
