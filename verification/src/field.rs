//! The game: the board, the flags, the hover and the clock, and the moves
//! that change them. What each move does is stated over [`GameView`].

use vstd::prelude::*;
use std::time::Instant;
use crate::grid::{bombs, counts_exact, flags, grid_view, lemma_board_sets, tile_at, tile_mut};
use crate::minefield::{distinct, field_with_mines, generate_field, has_mine, listed, on_board};
use crate::model::{
    lemma_flag_keeps_wf, lemma_uncover_keeps_wf, spent, timer_seconds, valid_setup, GameView,
    NANOS_PER_SECOND, TIMER_LIMIT,
};
use crate::region::reveal_from;

verus! {

/// What a tile holds: a mine, or the number of mines on the up to eight tiles
/// around it.
#[derive(Clone, Copy, Debug, PartialEq, Eq, Structural)]
pub enum TileContent {
    Empty(i32),
    Bomb,
}

/// One tile of the board.
#[derive(Clone, Copy, Debug, PartialEq, Eq, Structural)]
pub struct Tile {
    pub content: TileContent,
    pub revealed: bool,
    pub flagged: bool,
}

/// Where the game stands. The clock counts nanoseconds from the moment the
/// game was set up.
#[derive(Clone, Copy, Debug, PartialEq, Eq)]
pub enum GameState {
    /// Under way, with the clock reading at the first reveal, if there has
    /// been one.
    Playing(Option<u128>),
    /// Won, after this much time.
    Victory(u128),
    /// Lost, after this much time.
    Boom(u128),
}

/// The tile that the pointer hovers over, if any.
enum PreviewState {
    NoPreview,
    Preview(usize, usize),
}

/// A game of Minesweeper.
pub struct Game {
    w: usize,
    h: usize,
    mine_count: i32,
    state: GameState,
    field: Vec<Vec<Tile>>,
    flag_count: i32,
    preview: PreviewState,
    clock: Instant,
}

impl View for Game {
    type V = GameView;

    closed spec fn view(&self) -> GameView {
        GameView {
            width: self.w as int,
            height: self.h as int,
            mine_count: self.mine_count as int,
            flag_count: self.flag_count as int,
            state: self.state,
            grid: grid_view(&self.field),
            preview: match self.preview {
                PreviewState::NoPreview => None,
                PreviewState::Preview(x, y) => Some((x as int, y as int)),
            },
        }
    }
}

/// Whether a board of `w` columns and `h` rows can take `mine_count` mines.
pub fn setup_fits(w: usize, h: usize, mine_count: i32) -> (fits: bool)
    ensures
        fits == valid_setup(w as int, h as int, mine_count as int),
{
    if w == 0 || h == 0 || mine_count < 0 {
        return false;
    }
    match w.checked_mul(h) {
        Some(area) => area <= i32::MAX as usize && (mine_count as usize) < area,
        None => false,
    }
}

/// The whole seconds in `nanos`, as far as the timer counts.
pub fn clamp_seconds(nanos: u128) -> (secs: i32)
    ensures
        secs == timer_seconds(nanos),
{
    let whole = nanos / NANOS_PER_SECOND;
    if whole > TIMER_LIMIT as u128 {
        TIMER_LIMIT
    } else {
        whole as i32
    }
}

impl Game {
    /// A fresh game on a board of `w` columns and `h` rows with `mine_count`
    /// mines on random tiles and the counts around them; `None` if the board
    /// cannot take that many mines, or is too large for the flags to be
    /// counted.
    pub fn new(w: usize, h: usize, mine_count: i32) -> (made: Option<Game>)
        ensures
            made.is_some() <==> valid_setup(w as int, h as int, mine_count as int),
            made matches Some(game) ==> {
                &&& game@.wf()
                &&& game@.untouched()
                &&& game@.width == w
                &&& game@.height == h
                &&& game@.mine_count == mine_count
                &&& bombs(game@.grid).len() == mine_count
                &&& counts_exact(game@.grid)
            },
    {
        if !setup_fits(w, h, mine_count) {
            return None;
        }
        let field = generate_field(w, h, mine_count);
        let game = Game {
            w,
            h,
            mine_count,
            state: GameState::Playing(None),
            field,
            flag_count: 0,
            preview: PreviewState::NoPreview,
            clock: Instant::now(),
        };
        proof {
            assert(flags(game@.grid) =~= Set::empty());
        }
        Some(game)
    }

    /// A fresh game on a board of `w` columns and `h` rows with a mine on each
    /// of the listed tiles and the counts around them; `None` if the board
    /// cannot take that many mines or is too large for the flags to be
    /// counted, or if a position is off the board or listed twice.
    pub fn with_mines(w: usize, h: usize, mines: &Vec<(usize, usize)>) -> (made: Option<Game>)
        ensures
            made.is_some() <==> {
                &&& valid_setup(w as int, h as int, mines.len() as int)
                &&& on_board(mines@, w as int, h as int)
                &&& distinct(mines@)
            },
            made matches Some(game) ==> {
                &&& game@.wf()
                &&& game@.untouched()
                &&& game@.width == w
                &&& game@.height == h
                &&& game@.mine_count == mines.len()
                &&& bombs(game@.grid) == listed(mines@)
                &&& counts_exact(game@.grid)
            },
    {
        if mines.len() > i32::MAX as usize {
            return None;
        }
        let mine_count = mines.len() as i32;
        if !setup_fits(w, h, mine_count) {
            return None;
        }
        match field_with_mines(w, h, mines) {
            None => None,
            Some(field) => {
                let game = Game {
                    w,
                    h,
                    mine_count,
                    state: GameState::Playing(None),
                    field,
                    flag_count: 0,
                    preview: PreviewState::NoPreview,
                    clock: Instant::now(),
                };
                proof {
                    assert(flags(game@.grid) =~= Set::empty());
                }
                Some(game)
            },
        }
    }

    /// The number of columns.
    pub fn width(&self) -> (w: usize)
        ensures
            w == self@.width,
    {
        self.w
    }

    /// The number of rows.
    pub fn height(&self) -> (h: usize)
        ensures
            h == self@.height,
    {
        self.h
    }

    /// The number of columns and the number of rows.
    pub fn size(&self) -> (size: (usize, usize))
        ensures
            size.0 == self@.width,
            size.1 == self@.height,
    {
        (self.w, self.h)
    }

    /// The mines that are left to find, going by the flags: the number of
    /// mines less the number of flags, and 0 if there are more flags than
    /// mines.
    pub fn mines_remaining(&self) -> (left: i32)
        requires
            self@.wf(),
        ensures
            left == self@.remaining(),
            left >= 0,
    {
        let left = self.mine_count - self.flag_count;
        if left > 0 {
            left
        } else {
            0
        }
    }

    /// What the clock reads: the nanoseconds since the game was set up.
    fn now(&self) -> u128 {
        self.clock.elapsed().as_nanos()
    }

    /// What the timer shows now: the whole seconds since the first reveal, up
    /// to the timer's limit; 0 before the first reveal; and the time at which
    /// the game ended once it is over.
    pub fn time(&self) -> (secs: i32)
        ensures
            exists|now: u128| secs == self@.elapsed(now),
            0 <= secs <= TIMER_LIMIT,
            self@.state == GameState::Playing(None) ==> secs == 0,
            self@.state matches GameState::Victory(time) ==> secs == timer_seconds(time),
            self@.state matches GameState::Boom(time) ==> secs == timer_seconds(time),
    {
        let now = self.now();
        self.time_at(now)
    }

    /// What the timer shows when the clock reads `now`.
    pub fn time_at(&self, now: u128) -> (secs: i32)
        ensures
            secs == self@.elapsed(now),
            0 <= secs <= TIMER_LIMIT,
    {
        match self.state {
            GameState::Boom(time) => clamp_seconds(time),
            GameState::Victory(time) => clamp_seconds(time),
            GameState::Playing(Some(start)) => {
                if now >= start {
                    clamp_seconds(now - start)
                } else {
                    clamp_seconds(0)
                }
            },
            GameState::Playing(None) => 0,
        }
    }

    /// Whether the pointer hovers over a tile.
    pub fn preview(&self) -> (on: bool)
        ensures
            on == self@.preview.is_some(),
    {
        match self.preview {
            PreviewState::NoPreview => false,
            PreviewState::Preview(_, _) => true,
        }
    }

    /// Whether `(x, y)` is lit up by the hover.
    pub fn preview_at(&self, x: usize, y: usize) -> (lit: bool)
        requires
            self@.wf(),
            x < self@.width,
            y < self@.height,
        ensures
            lit == self@.highlighted(x as int, y as int),
    {
        match self.state {
            GameState::Playing(_) => {},
            _ => {
                return false;
            },
        }
        match self.preview {
            PreviewState::NoPreview => false,
            PreviewState::Preview(px, py) => {
                let tile = tile_at(&self.field, x, y);
                if tile.revealed || tile.flagged {
                    return false;
                }
                if x == px && y == py {
                    return true;
                }
                if px > x && px - x > 1 || x > px && x - px > 1 {
                    return false;
                }
                if py > y && py - y > 1 || y > py && y - py > 1 {
                    return false;
                }
                let preview_tile = tile_at(&self.field, px, py);
                if !preview_tile.revealed {
                    return false;
                }
                match preview_tile.content {
                    TileContent::Empty(n) => n > 0,
                    TileContent::Bomb => false,
                }
            },
        }
    }

    /// Moves the pointer to `pos`, or off the board. Nothing happens once the
    /// game is over, and a pointer over a flag leaves the hover where it was.
    pub fn set_preview(&mut self, pos: Option<(usize, usize)>)
        requires
            old(self)@.wf(),
            pos matches Some(p) ==> p.0 < old(self)@.width && p.1 < old(self)@.height,
        ensures
            final(self)@ == old(self)@.hover(
                match pos {
                    Some(p) => Some((p.0 as int, p.1 as int)),
                    None => None,
                },
            ),
            final(self)@.wf(),
    {
        match self.state {
            GameState::Playing(_) => {},
            _ => {
                return ;
            },
        }
        match pos {
            None => {
                self.preview = PreviewState::NoPreview;
            },
            Some((x, y)) => {
                if !tile_at(&self.field, x, y).flagged {
                    self.preview = PreviewState::Preview(x, y);
                }
            },
        }
    }

    /// Where the game stands.
    pub fn state(&self) -> (state: &GameState)
        ensures
            *state == self@.state,
    {
        &self.state
    }

    /// The board, column by column.
    pub fn get_field(&self) -> (field: &Vec<Vec<Tile>>)
        ensures
            grid_view(field) == self@.grid,
    {
        &self.field
    }

    /// Toggles the flag on `(x, y)` and counts it. Nothing happens once the
    /// game is over, or on a revealed tile.
    pub fn flag_tile(&mut self, x: usize, y: usize)
        requires
            old(self)@.wf(),
            x < old(self)@.width,
            y < old(self)@.height,
        ensures
            final(self)@ == old(self)@.flag(x as int, y as int),
            final(self)@.wf(),
    {
        match self.state {
            GameState::Playing(_) => {},
            _ => {
                return ;
            },
        }
        proof {
            lemma_flag_keeps_wf(self@, x as int, y as int);
            lemma_board_sets(self@.flag(x as int, y as int).grid, self.w as int, self.h as int);
        }
        if tile_at(&self.field, x, y).revealed {
            return ;
        }
        let tile = tile_mut(&mut self.field, x, y);
        tile.flagged = !tile.flagged;
        let flagged = tile.flagged;
        if flagged {
            self.flag_count = self.flag_count + 1;
        } else {
            self.flag_count = self.flag_count - 1;
        }
    }

    /// Reveals `(x, y)` now. Nothing happens once the game is over, or on a
    /// flag. Else the clock starts if it has not yet, the reveal spreads from
    /// a tile with no mine around it, and a mine ends the game.
    pub fn reveal_tile(&mut self, x: usize, y: usize)
        requires
            old(self)@.wf(),
            x < old(self)@.width,
            y < old(self)@.height,
        ensures
            exists|now: u128| final(self)@ == old(self)@.uncover(x as int, y as int, now),
            final(self)@.wf(),
    {
        let now = self.now();
        self.reveal_tile_at(x, y, now);
    }

    /// Reveals `(x, y)` when the clock reads `now`.
    pub fn reveal_tile_at(&mut self, x: usize, y: usize, now: u128)
        requires
            old(self)@.wf(),
            x < old(self)@.width,
            y < old(self)@.height,
        ensures
            final(self)@ == old(self)@.uncover(x as int, y as int, now),
            final(self)@.wf(),
    {
        proof {
            lemma_uncover_keeps_wf(self@, x as int, y as int, now);
        }
        match self.state {
            GameState::Playing(_) => {},
            _ => {
                return ;
            },
        }
        if tile_at(&self.field, x, y).flagged {
            return ;
        }
        self.game_start(now);
        reveal_from(&mut self.field, x, y, self.w, self.h);
        if has_mine(tile_at(&self.field, x, y)) {
            self.game_boom(now);
        }
    }

    /// Whether every tile without a mine is revealed.
    pub fn cleared(&self) -> (done: bool)
        requires
            self@.wf(),
        ensures
            done == self@.cleared(),
    {
        let mut x: usize = 0;
        while x < self.w
            invariant
                self@.wf(),
                x <= self.w,
                forall|a: int, b: int|
                    0 <= a < x && 0 <= b < self.h && !(#[trigger] self@.grid[a][b].content is Bomb)
                        ==> self@.grid[a][b].revealed,
            decreases self.w - x,
        {
            let mut y: usize = 0;
            while y < self.h
                invariant
                    self@.wf(),
                    x < self.w,
                    y <= self.h,
                    forall|a: int, b: int|
                        0 <= a < x && 0 <= b < self.h && !(#[trigger] self@.grid[a][b].content is Bomb)
                            ==> self@.grid[a][b].revealed,
                    forall|b: int|
                        0 <= b < y && !(#[trigger] self@.grid[x as int][b].content is Bomb)
                            ==> self@.grid[x as int][b].revealed,
                decreases self.h - y,
            {
                let tile = tile_at(&self.field, x, y);
                if !has_mine(tile) && !tile.revealed {
                    return false;
                }
                y += 1;
            }
            x += 1;
        }
        true
    }

    /// Starts the clock at `now`, unless it runs already.
    fn game_start(&mut self, now: u128)
        ensures
            final(self)@ == old(self)@.start(now),
    {
        match self.state {
            GameState::Playing(None) => {
                self.state = GameState::Playing(Some(now));
            },
            _ => {},
        }
    }

    /// Ends the game as lost at `now`: the time is frozen and the hover is
    /// gone. The board stays as it is.
    fn game_boom(&mut self, now: u128)
        requires
            old(self)@.state is Playing,
        ensures
            final(self)@ == old(self)@.boom(now),
    {
        match self.state {
            GameState::Playing(start) => {
                self.state = GameState::Boom(Self::time_spent(start, now));
                self.preview = PreviewState::NoPreview;
            },
            _ => {},
        }
    }

    /// The time from `start` to `now`; none if the clock was never started.
    fn time_spent(start: Option<u128>, now: u128) -> (time: u128)
        ensures
            time == spent(start, now),
    {
        match start {
            Some(t) => if now >= t {
                now - t
            } else {
                0
            },
            None => 0,
        }
    }

    /// Ends the game as won, now. The game must be under way.
    pub fn game_yay(&mut self)
        requires
            old(self)@.wf(),
            old(self)@.state is Playing,
        ensures
            exists|now: u128| final(self)@ == old(self)@.win(now),
            final(self)@.state is Victory,
            final(self)@.wf(),
    {
        let now = self.now();
        self.game_yay_at(now);
    }

    /// Ends the game as won when the clock reads `now`: the time is frozen and
    /// the hover is gone. The board stays as it is. The game must be under way.
    pub fn game_yay_at(&mut self, now: u128)
        requires
            old(self)@.wf(),
            old(self)@.state is Playing,
        ensures
            final(self)@ == old(self)@.win(now),
            final(self)@.state is Victory,
            final(self)@.wf(),
    {
        match self.state {
            GameState::Playing(start) => {
                self.state = GameState::Victory(Self::time_spent(start, now));
                self.preview = PreviewState::NoPreview;
            },
            _ => {},
        }
    }
}

} // verus!
