use vstd::prelude::*;
use crate::block::{
    Block, has_filled, lemma_fits_bounds, lemma_rotated_has_filled, mask_fits, rotated_mask,
};
use crate::game::{
    clamped_score, compacted, empty_field, lock_cells, next_level, Game, GAME_HEIGHT, GAME_WIDTH,
};
use crate::tetromino::{from_catalog, lemma_catalog_has_filled, Tetromino, SPAWN_X, SPAWN_Y};

verus! {

/// Abstract input events consumed by the game loop; `Timeout` stands for a
/// gravity tick on which no command arrived.
#[derive(Clone, Copy, Debug, PartialEq, Eq, Structural)]
pub enum Input {
    MoveLeft,
    MoveRight,
    MoveDown,
    Rotate,
    HardDrop,
    Quit,
    Restart,
    Timeout,
}

/// Observable states of the game loop.
#[derive(Clone, Copy, Debug, PartialEq, Eq, Structural)]
pub enum State {
    Playing,
    GameOverWaiting,
    Terminated,
}

/// The deepest row at or below `py`, scanning upward no further than `y`,
/// where the mask still fits; `y` itself when no deeper row fits.
pub open spec fn deepest_fit(g: Seq<i16>, m: Seq<char>, x: int, y: int, py: int) -> int
    decreases py - y,
{
    if py <= y {
        y
    } else if mask_fits(m, g, py, x) {
        py
    } else {
        deepest_fit(g, m, x, y, py - 1)
    }
}

/// Where a hard drop from anchor row `y` commits the piece: the deepest row
/// between `y` and the field's last row at which the mask fits.
pub open spec fn drop_row(g: Seq<i16>, m: Seq<char>, y: int, x: int) -> int {
    deepest_fit(g, m, x, y, GAME_HEIGHT as int + 1)
}

/// The active mask after one command: a committed rotation, otherwise
/// unchanged.
pub open spec fn cmd_mask(g: Seq<i16>, m: Seq<char>, y: int, x: int, ev: Input) -> Seq<char> {
    if ev == Input::Rotate && mask_fits(rotated_mask(m), g, y, x) {
        rotated_mask(m)
    } else {
        m
    }
}

/// The anchor row after one command.
pub open spec fn cmd_y(g: Seq<i16>, m: Seq<char>, y: int, x: int, ev: Input) -> int {
    if ev == Input::MoveDown && mask_fits(m, g, y + 1, x) {
        y + 1
    } else if ev == Input::HardDrop {
        drop_row(g, m, y, x)
    } else {
        y
    }
}

/// The anchor column after one command.
pub open spec fn cmd_x(g: Seq<i16>, m: Seq<char>, y: int, x: int, ev: Input) -> int {
    if ev == Input::MoveLeft && mask_fits(m, g, y, x - 1) {
        x - 1
    } else if ev == Input::MoveRight && mask_fits(m, g, y, x + 1) {
        x + 1
    } else {
        x
    }
}

/// The score reward earned by the command itself: the rows advanced by a
/// hard drop, nothing otherwise.
pub open spec fn cmd_bonus(g: Seq<i16>, m: Seq<char>, y: int, x: int, ev: Input) -> int {
    if ev == Input::HardDrop {
        drop_row(g, m, y, x) - y
    } else {
        0
    }
}

/// The game loop: owns the field, the active and the on-deck piece, the
/// catalog, and the loop's observable state.
pub struct Engine {
    /// The field and the session's counters.
    pub game: Game,
    /// The actively falling piece, which carries its own anchor.
    pub block: Block,
    /// The on-deck piece, waiting at the pre-spawn anchor.
    pub next: Block,
    /// The immutable catalog of the seven shapes.
    pub tetromino: Tetromino,
    /// The loop's observable state.
    pub state: State,
}

/// A session exactly as after initialization or a restart: an empty field,
/// score zero, the slowest level, and two catalog pieces at the pre-spawn
/// anchor.
pub open spec fn fresh_session(e: Engine) -> bool {
    &&& e.game.data@ == empty_field()
    &&& e.game.score == 0
    &&& e.game.level == 10
    &&& !e.game.done
    &&& e.state == State::Playing
    &&& e.block.y == SPAWN_Y && e.block.x == SPAWN_X
    &&& from_catalog(e.tetromino, e.block)
    &&& e.next.y == SPAWN_Y && e.next.x == SPAWN_X
    &&& from_catalog(e.tetromino, e.next)
}

/// One Playing-state iteration on a command or tick: the command is applied
/// against the collision rules, then the piece either descends one row or,
/// when it can descend no further, locks into the field, the rows compact,
/// the level is re-derived, the on-deck piece becomes active, and a new
/// piece is drawn; a spawned piece that does not fit ends the game.
pub open spec fn playing_step(pre: Engine, ev: Input, post: Engine) -> bool {
    let g = pre.game.data@;
    let m0 = pre.block.data@;
    let y0 = pre.block.y as int;
    let x0 = pre.block.x as int;
    let m1 = cmd_mask(g, m0, y0, x0, ev);
    let y1 = cmd_y(g, m0, y0, x0, ev);
    let x1 = cmd_x(g, m0, y0, x0, ev);
    let score1 = clamped_score(pre.game.score as int, cmd_bonus(g, m0, y0, x0, ev));
    if mask_fits(m1, g, y1 + 1, x1) {
        // the piece descends one row
        &&& post.game.data@ == g
        &&& post.game.score == score1
        &&& post.game.level == pre.game.level
        &&& post.game.done == pre.game.done
        &&& post.block.data@ == m1
        &&& post.block.y == y1 + 1
        &&& post.block.x == x1
        &&& post.block.id == pre.block.id
        &&& post.next == pre.next
        &&& post.tetromino == pre.tetromino
        &&& post.state == State::Playing
    } else {
        // the piece locks; rows compact, the level is re-derived, the
        // on-deck piece becomes active and a fresh one is drawn
        let locked = lock_cells(g, m1, y1, x1, pre.block.id, 16);
        let comp = compacted(locked);
        let over = !mask_fits(pre.next.data@, comp, pre.next.y as int, pre.next.x as int);
        &&& post.game.data@ == comp
        &&& post.game.score == clamped_score(score1, 10 - pre.game.level as int)
        &&& post.game.level == next_level(pre.game.level as int, comp)
        &&& post.game.done == over
        &&& post.block.data@ == pre.next.data@
        &&& post.block.y == pre.next.y
        &&& post.block.x == pre.next.x
        &&& post.block.id == pre.next.id
        &&& post.next.y == SPAWN_Y && post.next.x == SPAWN_X
        &&& from_catalog(post.tetromino, post.next)
        &&& post.tetromino == pre.tetromino
        &&& post.state == (if over {
            State::GameOverWaiting
        } else {
            State::Playing
        })
    }
}

impl Engine {
    /// The session's invariant: all parts well formed, the active piece has
    /// at least one filled cell and sits within one mask of the field, the
    /// on-deck piece is a catalog piece at the pre-spawn anchor, and the
    /// done flag is never set while playing.
    pub open spec fn wf(&self) -> bool {
        &&& self.game.wf()
        &&& self.block.wf()
        &&& self.next.wf()
        &&& self.tetromino.wf()
        &&& has_filled(self.block.data@)
        &&& -1 <= self.block.y <= GAME_HEIGHT as int
        &&& -2 <= self.block.x <= GAME_WIDTH as int
        &&& self.next.y == SPAWN_Y && self.next.x == SPAWN_X
        &&& from_catalog(self.tetromino, self.next)
        &&& self.state == State::Playing ==> !self.game.done
    }

    /// Start a session: an empty field, two pieces drawn from the catalog,
    /// score zero, the level at its slowest value.
    pub fn new(tetromino: Tetromino) -> (e: Engine)
        requires
            tetromino.wf(),
        ensures
            e.wf(),
            fresh_session(e),
            e.tetromino == tetromino,
    {
        let game = Game::new();
        let block = tetromino.next();
        let next = tetromino.next();
        let e = Engine { game, block, next, tetromino, state: State::Playing };
        proof {
            lemma_catalog_has_filled(e.tetromino, e.block);
        }
        e
    }

    /// Reset the session in place, as at initialization.
    fn restart(&mut self)
        requires
            old(self).tetromino.wf(),
        ensures
            final(self).wf(),
            fresh_session(*final(self)),
            final(self).tetromino == old(self).tetromino,
    {
        self.game = Game::new();
        self.block = self.tetromino.next();
        self.next = self.tetromino.next();
        self.state = State::Playing;
        proof {
            lemma_catalog_has_filled(self.tetromino, self.block);
        }
    }

    /// Consume one input-or-timeout event. Quit terminates the loop, Restart
    /// resets the session; any other event in the Playing state is handled
    /// as one `playing_step`; while waiting after a game over only Quit and
    /// Restart are accepted.
    #[verifier::loop_isolation(false)]
    pub fn step(&mut self, ev: Input)
        requires
            old(self).wf(),
        ensures
            final(self).wf(),
            final(self).tetromino == old(self).tetromino,
            old(self).state == State::Terminated ==> *final(self) == *old(self),
            old(self).state == State::GameOverWaiting ==> (if ev == Input::Quit {
                &&& final(self).state == State::Terminated
                &&& final(self).game == old(self).game
                &&& final(self).block == old(self).block
                &&& final(self).next == old(self).next
            } else if ev == Input::Restart {
                fresh_session(*final(self))
            } else {
                *final(self) == *old(self)
            }),
            old(self).state == State::Playing && ev == Input::Quit ==> {
                &&& final(self).state == State::Terminated
                &&& final(self).game == old(self).game
                &&& final(self).block == old(self).block
                &&& final(self).next == old(self).next
            },
            old(self).state == State::Playing && ev == Input::Restart ==> fresh_session(
                *final(self),
            ),
            old(self).state == State::Playing && ev != Input::Quit && ev != Input::Restart
                ==> playing_step(*old(self), ev, *final(self)),
            ev != Input::Restart ==> final(self).game.level <= old(self).game.level,
            ev != Input::Restart ==> final(self).game.score >= old(self).game.score,
    {
        match self.state {
            State::Terminated => {},
            State::GameOverWaiting => {
                if ev == Input::Quit {
                    self.state = State::Terminated;
                } else if ev == Input::Restart {
                    self.restart();
                }
            },
            State::Playing => {
                if ev == Input::Quit {
                    self.state = State::Terminated;
                    return;
                }
                if ev == Input::Restart {
                    self.restart();
                    return;
                }
                let ghost g0 = self.game.data@;
                let ghost m0 = self.block.data@;
                let ghost y0i = self.block.y as int;
                let ghost x0i = self.block.x as int;
                let ghost s0 = self.game.score as int;
                match ev {
                    Input::MoveLeft => {
                        let cy = self.block.y;
                        let nx = self.block.x - 1;
                        if self.block.fits(&self.game, cy, nx) {
                            proof {
                                lemma_fits_bounds(m0, g0, y0i, x0i - 1);
                            }
                            self.block.setyx(cy, nx);
                        }
                    },
                    Input::MoveRight => {
                        let cy = self.block.y;
                        let nx = self.block.x + 1;
                        if self.block.fits(&self.game, cy, nx) {
                            proof {
                                lemma_fits_bounds(m0, g0, y0i, x0i + 1);
                            }
                            self.block.setyx(cy, nx);
                        }
                    },
                    Input::MoveDown => {
                        let cx = self.block.x;
                        let ny = self.block.y + 1;
                        if self.block.fits(&self.game, ny, cx) {
                            proof {
                                lemma_fits_bounds(m0, g0, y0i + 1, x0i);
                            }
                            self.block.setyx(ny, cx);
                        }
                    },
                    Input::Rotate => {
                        self.block.rotate(&self.game);
                        proof {
                            if mask_fits(rotated_mask(m0), g0, y0i, x0i) {
                                lemma_rotated_has_filled(m0);
                            }
                        }
                    },
                    Input::HardDrop => {
                        let y0 = self.block.y;
                        let x0 = self.block.x;
                        let mut py: i32 = GAME_HEIGHT + 1;
                        while py > y0 && !self.block.fits(&self.game, py, x0)
                            invariant
                                y0 <= py <= GAME_HEIGHT + 1,
                                deepest_fit(g0, m0, x0 as int, y0 as int, GAME_HEIGHT as int + 1)
                                    == deepest_fit(g0, m0, x0 as int, y0 as int, py as int),
                            decreases py - y0,
                        {
                            py -= 1;
                        }
                        let ny: i32;
                        let bonus: i32;
                        if py > y0 {
                            ny = py;
                            bonus = py - y0;
                        } else {
                            ny = y0;
                            bonus = 0;
                        }
                        assert(ny as int == drop_row(g0, m0, y0 as int, x0 as int));
                        proof {
                            lemma_deepest_fit_props(
                                g0,
                                m0,
                                x0 as int,
                                y0 as int,
                                GAME_HEIGHT as int + 1,
                            );
                            if ny != y0 {
                                lemma_fits_bounds(m0, g0, ny as int, x0 as int);
                            }
                        }
                        add_score_clamped(&mut self.game, bonus);
                        self.block.setyx(ny, x0);
                    },
                    _ => {},
                }
                proof {
                    assert(self.block.data@ == cmd_mask(g0, m0, y0i, x0i, ev));
                    assert(self.block.y as int == cmd_y(g0, m0, y0i, x0i, ev));
                    assert(self.block.x as int == cmd_x(g0, m0, y0i, x0i, ev));
                    assert(self.game.score as int == clamped_score(
                        s0,
                        cmd_bonus(g0, m0, y0i, x0i, ev),
                    ));
                    assert(has_filled(self.block.data@));
                    assert(-1 <= self.block.y <= GAME_HEIGHT as int);
                    assert(-2 <= self.block.x <= GAME_WIDTH as int);
                }
                // descent evaluation: one row down, or lock and advance
                let y1 = self.block.y;
                let x1 = self.block.x;
                if self.block.fits(&self.game, y1 + 1, x1) {
                    proof {
                        lemma_fits_bounds(self.block.data@, g0, y1 as int + 1, x1 as int);
                    }
                    self.block.setyx(y1 + 1, x1);
                } else {
                    self.game.store(self.block.clone());
                    self.block = self.next.clone();
                    let fresh = self.tetromino.next();
                    self.next = fresh;
                    let _redraw = self.game.refresh();
                    proof {
                        lemma_catalog_has_filled(self.tetromino, self.block);
                    }
                    let by = self.block.y;
                    let bx = self.block.x;
                    if !self.block.fits(&self.game, by, bx) {
                        self.game.gameover();
                        self.state = State::GameOverWaiting;
                    }
                }
            },
        }
    }
}

/// Every hard-drop target is the starting row itself or a deeper row at
/// which the mask still fits.
proof fn lemma_deepest_fit_props(g: Seq<i16>, m: Seq<char>, x: int, y: int, py: int)
    ensures
        deepest_fit(g, m, x, y, py) == y || (y < deepest_fit(g, m, x, y, py) <= py && mask_fits(
            m,
            g,
            deepest_fit(g, m, x, y, py),
            x,
        )),
    decreases py - y,
{
    if py <= y {
    } else if mask_fits(m, g, py, x) {
    } else {
        lemma_deepest_fit_props(g, m, x, y, py - 1);
    }
}

/// Add a non-negative reward to the score, dropping an addition that would
/// exceed the score type's maximum.
fn add_score_clamped(game: &mut Game, d: i32)
    requires
        old(game).wf(),
        0 <= d,
    ensures
        final(game).wf(),
        final(game).score == clamped_score(old(game).score as int, d as int),
        final(game).data@ == old(game).data@,
        final(game).level == old(game).level,
        final(game).done == old(game).done,
{
    if game.score <= i32::MAX - d {
        game.addscore(d);
    }
}

} // verus!
