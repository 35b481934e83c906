use vstd::prelude::*;
use vstd::string::StrSliceExecFns;
use crate::game::{Game, GAME_HEIGHT, GAME_WIDTH, grid_fits};

verus! {

/// Side of a piece's square mask.
pub const BLOCK_WIDTH: usize = 4;

/// Number of cells of a piece's mask.
pub const BLOCK_SIZE: usize = 16;

/// The mask with every cell empty.
pub open spec fn empty_mask() -> Seq<char> {
    Seq::new(BLOCK_SIZE as nat, |i: int| '.')
}

/// One piece cell "fits" at an absolute coordinate when the column lies
/// inside the field's width, the row does not exceed the field's height, and
/// the cell is either above the visible field (the staging exemption) or free
/// on the field itself.
pub open spec fn cell_fits(g: Seq<i16>, py: int, px: int) -> bool {
    &&& 1 <= px <= GAME_WIDTH as int
    &&& py <= GAME_HEIGHT as int
    &&& (py <= 0 || grid_fits(g, py, px))
}

/// A mask fits at anchor (y, x) when every filled mask cell fits at its
/// absolute coordinate; mask cell i lands on row y + i / 4, column x + i % 4.
pub open spec fn mask_fits(m: Seq<char>, g: Seq<i16>, y: int, x: int) -> bool {
    forall|i: int| 0 <= i < BLOCK_SIZE as int && m[i] != '.' ==> cell_fits(g, y + i / 4, x + i % 4)
}

/// The mask after one clockwise quarter turn: destination cell d takes its
/// value from source cell 4 * (d % 4) + 3 - d / 4.
pub open spec fn rotated_mask(m: Seq<char>) -> Seq<char> {
    Seq::new(BLOCK_SIZE as nat, |d: int| m[4 * (d % 4) + 3 - d / 4])
}

/// A tetromino piece.
pub struct Block {
    /// The 4x4 mask: '.' is an empty cell, anything else a filled one.
    pub data: Vec<char>,
    /// The number of mask rows set so far while building the piece.
    pub index: usize,
    /// The current y location of the anchor.
    pub y: i32,
    /// The current x location of the anchor.
    pub x: i32,
    /// The individual id of the piece.
    pub id: i16,
}

impl Block {
    /// The mask is always exactly 4x4.
    pub open spec fn wf(&self) -> bool {
        self.data@.len() == BLOCK_SIZE as int
    }

    /// Return a new "empty" block.
    pub fn new() -> (b: Block)
        ensures
            b.wf(),
            b.data@ == empty_mask(),
            b.index == 0,
            b.y == 0,
            b.x == 0,
            b.id == 0,
    {
        let mut data: Vec<char> = Vec::new();
        let mut i: usize = 0;
        while i < BLOCK_SIZE
            invariant
                i <= BLOCK_SIZE,
                data@.len() == i as int,
                forall|j: int| 0 <= j < i as int ==> data@[j] == '.',
            decreases BLOCK_SIZE - i,
        {
            data.push('.');
            i += 1;
        }
        proof {
            assert(data@ =~= empty_mask());
        }
        Block { data, index: 0, y: 0, x: 0, id: 0 }
    }

    /// Set the individual block id.
    pub fn setid(&mut self, id: i16)
        ensures
            final(self).id == id,
            final(self).data@ == old(self).data@,
            final(self).index == old(self).index,
            final(self).y == old(self).y,
            final(self).x == old(self).x,
    {
        self.id = id;
    }

    /// Set the next row of the mask to turn the block into a tetromino. A row
    /// that is not exactly four characters long, or a fifth row, is ignored.
    #[verifier::loop_isolation(false)]
    pub fn row(&mut self, row: &str)
        requires
            old(self).wf(),
        ensures
            final(self).wf(),
            final(self).y == old(self).y,
            final(self).x == old(self).x,
            final(self).id == old(self).id,
            old(self).index < BLOCK_WIDTH && row@.len() == BLOCK_WIDTH as int ==> {
                &&& final(self).index == old(self).index + 1
                &&& forall|i: int|
                    0 <= i < BLOCK_SIZE as int ==> final(self).data@[i] == (
                    if 4 * old(self).index as int <= i < 4 * old(self).index as int + 4 {
                        row@[i - 4 * old(self).index as int]
                    } else {
                        old(self).data@[i]
                    })
            },
            !(old(self).index < BLOCK_WIDTH && row@.len() == BLOCK_WIDTH as int) ==> {
                &&& final(self).index == old(self).index
                &&& final(self).data@ == old(self).data@
            },
    {
        let i = self.index;
        if i >= BLOCK_WIDTH || row.unicode_len() != BLOCK_WIDTH {
            return;
        }
        let mut j: usize = 0;
        while j < BLOCK_WIDTH
            invariant
                j <= BLOCK_WIDTH,
                self.data@.len() == BLOCK_SIZE as int,
                self.index == i,
                self.y == old(self).y,
                self.x == old(self).x,
                self.id == old(self).id,
                forall|k: int|
                    0 <= k < BLOCK_SIZE as int ==> self.data@[k] == (
                    if 4 * i as int <= k < 4 * i as int + j as int {
                        row@[k - 4 * i as int]
                    } else {
                        old(self).data@[k]
                    }),
            decreases BLOCK_WIDTH - j,
        {
            let c = row.get_char(j);
            self.data[i * BLOCK_WIDTH + j] = c;
            j += 1;
        }
        self.index = i + 1;
    }

    /// Store the coordinates of the block.
    pub fn setyx(&mut self, y: i32, x: i32)
        ensures
            final(self).y == y,
            final(self).x == x,
            final(self).data@ == old(self).data@,
            final(self).index == old(self).index,
            final(self).id == old(self).id,
    {
        self.y = y;
        self.x = x;
    }

    /// Get the coordinates of a mask cell by relative index.
    pub fn getyx(idx: usize) -> (r: (usize, usize))
        ensures
            r.0 == idx as int / BLOCK_WIDTH as int,
            r.1 == idx as int % BLOCK_WIDTH as int,
    {
        (idx / BLOCK_WIDTH, idx % BLOCK_WIDTH)
    }

    /// Does the block fit on the game field at anchor (y, x)?
    pub fn fits(&self, game: &Game, y: i32, x: i32) -> (r: bool)
        requires
            self.wf(),
            game.wf(),
        ensures
            r == mask_fits(self.data@, game.data@, y as int, x as int),
    {
        mask_fits_at(&self.data, game, y as i64, x as i64)
    }

    /// Rotate the block clockwise on the game field: the rotated mask is kept
    /// only when it still fits at the block's current anchor; otherwise the
    /// prior mask is retained unchanged.
    #[verifier::loop_isolation(false)]
    pub fn rotate(&mut self, game: &Game)
        requires
            old(self).wf(),
            game.wf(),
        ensures
            final(self).wf(),
            final(self).y == old(self).y,
            final(self).x == old(self).x,
            final(self).id == old(self).id,
            final(self).index == old(self).index,
            final(self).data@ == (if mask_fits(
                rotated_mask(old(self).data@),
                game.data@,
                old(self).y as int,
                old(self).x as int,
            ) {
                rotated_mask(old(self).data@)
            } else {
                old(self).data@
            }),
            !mask_fits(
                rotated_mask(old(self).data@),
                game.data@,
                old(self).y as int,
                old(self).x as int,
            ) ==> final(self).data@ == old(self).data@,
    {
        let mut newmask: Vec<char> = Vec::new();
        let mut d: usize = 0;
        while d < BLOCK_SIZE
            invariant
                d <= BLOCK_SIZE,
                newmask@.len() == d as int,
                forall|j: int| 0 <= j < d as int ==> newmask@[j] == rotated_mask(self.data@)[j],
            decreases BLOCK_SIZE - d,
        {
            let src = 4 * (d % 4) + 3 - d / 4;
            newmask.push(self.data[src]);
            d += 1;
        }
        proof {
            assert(newmask@ =~= rotated_mask(self.data@));
        }
        if mask_fits_at(&newmask, game, self.y as i64, self.x as i64) {
            self.data = newmask;
        }
    }
}

/// The fit test over a bare mask, with the anchor taken wide enough that the
/// coordinate arithmetic cannot wrap for any 32-bit anchor.
#[verifier::loop_isolation(false)]
fn mask_fits_at(mask: &Vec<char>, game: &Game, y: i64, x: i64) -> (r: bool)
    requires
        mask@.len() == BLOCK_SIZE as int,
        game.wf(),
        i32::MIN as i64 <= y <= i32::MAX as i64,
        i32::MIN as i64 <= x <= i32::MAX as i64,
    ensures
        r == mask_fits(mask@, game.data@, y as int, x as int),
{
    let mut i: usize = 0;
    while i < BLOCK_SIZE
        invariant
            i <= BLOCK_SIZE,
            forall|j: int|
                0 <= j < i as int && mask@[j] != '.' ==> cell_fits(
                    game.data@,
                    y as int + j / 4,
                    x as int + j % 4,
                ),
        decreases BLOCK_SIZE - i,
    {
        let c = mask[i];
        if c != '.' {
            let py: i64 = y + (i / 4) as i64;
            let px: i64 = x + (i % 4) as i64;
            if px < 1 || px > GAME_WIDTH as i64 || py > GAME_HEIGHT as i64 {
                return false;
            }
            if py > 0 {
                if !game.fits(py as i32, px as i32) {
                    return false;
                }
            }
        }
        i += 1;
    }
    true
}

/// The per-cell fit test respects the field's bounds: it fails beyond either
/// side or below the bottom, and above the visible field every column inside
/// the width is free, whatever the occupancy.
pub proof fn lemma_cell_fits_bounds(g: Seq<i16>, py: int, px: int)
    ensures
        px < 1 || px > GAME_WIDTH as int || py > GAME_HEIGHT as int ==> !cell_fits(g, py, px),
        1 <= px <= GAME_WIDTH as int && py <= 0 ==> cell_fits(g, py, px),
{
}

/// A mask with at least one filled cell.
pub open spec fn has_filled(m: Seq<char>) -> bool {
    exists|i: int| 0 <= i < BLOCK_SIZE as int && m[i] != '.'
}

/// Rotating twice reverses the mask.
proof fn lemma_rotate_twice(m: Seq<char>)
    requires
        m.len() == BLOCK_SIZE as int,
    ensures
        rotated_mask(rotated_mask(m)) =~= Seq::new(BLOCK_SIZE as nat, |d: int| m[15 - d]),
{
    let m2 = rotated_mask(m);
    assert forall|d: int| 0 <= d < 16 implies rotated_mask(m2)[d] == m[15 - d] by {
        let a = d / 4;
        let b = d % 4;
        assert(0 <= a < 4 && 0 <= b < 4 && d == 4 * a + b);
        let e = 4 * b + 3 - a;
        assert(rotated_mask(m2)[d] == m2[e]);
        assert(e / 4 == b && e % 4 == 3 - a);
        assert(m2[e] == m[4 * (3 - a) + 3 - b]);
    }
}

/// Applying the rotation transform four times restores the original mask
/// exactly: rotation is a cyclic permutation of order four.
pub proof fn lemma_rotate_four(m: Seq<char>)
    requires
        m.len() == BLOCK_SIZE as int,
    ensures
        rotated_mask(rotated_mask(rotated_mask(rotated_mask(m)))) == m,
{
    lemma_rotate_twice(m);
    let m2 = rotated_mask(rotated_mask(m));
    lemma_rotate_twice(m2);
    assert(rotated_mask(rotated_mask(m2)) =~= m);
}

/// Rotation keeps at least one cell filled.
pub proof fn lemma_rotated_has_filled(m: Seq<char>)
    requires
        m.len() == BLOCK_SIZE as int,
        has_filled(m),
    ensures
        has_filled(rotated_mask(m)),
{
    let i = choose|i: int| 0 <= i < BLOCK_SIZE as int && m[i] != '.';
    let a = i / 4;
    let b = i % 4;
    assert(0 <= a < 4 && 0 <= b < 4 && i == 4 * a + b);
    let d = 12 + a - 4 * b;
    assert(d % 4 == a && d / 4 == 3 - b);
    assert(rotated_mask(m)[d] == m[i]);
}

/// A mask with a filled cell can fit only with its anchor close to the
/// field: the column within a mask's width of the field and the row not
/// below the bottom.
pub proof fn lemma_fits_bounds(m: Seq<char>, g: Seq<i16>, y: int, x: int)
    requires
        has_filled(m),
        mask_fits(m, g, y, x),
    ensures
        -2 <= x <= GAME_WIDTH as int,
        y <= GAME_HEIGHT as int,
{
    let i = choose|i: int| 0 <= i < BLOCK_SIZE as int && m[i] != '.';
    assert(cell_fits(g, y + i / 4, x + i % 4));
    assert(0 <= i / 4 <= 3 && 0 <= i % 4 <= 3);
}

} // verus!
