use vstd::prelude::*;
use rand::Rng;
use crate::block::{Block, BLOCK_SIZE};

verus! {

/// Number of shapes in the piece catalog.
pub const SHAPE_COUNT: usize = 7;

/// Row of the default pre-spawn anchor, just above the visible field.
pub const SPAWN_Y: i32 = -1;

/// Column of the default pre-spawn anchor.
pub const SPAWN_X: i32 = 5;

/// Relies on rand's `Rng::gen_range` over `thread_rng`: sampling the range
/// `0..n` yields a value below `n`, and panics only when the range is empty.
#[verifier::external_body]
fn random_below(n: usize) -> (r: usize)
    requires
        0 < n,
    ensures
        r < n,
{
    rand::thread_rng().gen_range(0..n)
}

/// All tetromino blocks.
pub struct Tetromino {
    /// The seven canonical shapes (I, J, L, O, S, T, Z).
    pub data: Vec<Block>,
}

/// The block is a fresh copy of a catalog entry, placed at the default
/// pre-spawn anchor.
pub open spec fn from_catalog(t: Tetromino, b: Block) -> bool {
    exists|k: int|
        0 <= k < SHAPE_COUNT as int && b.data@ == t.data@[k].data@ && b.id == t.data@[k].id
}

impl Tetromino {
    /// The catalog holds exactly the seven canonical shapes with identifiers
    /// one through seven.
    pub open spec fn wf(&self) -> bool {
        &&& self.data@.len() == SHAPE_COUNT as int
        &&& forall|k: int| 0 <= k < SHAPE_COUNT as int ==> (#[trigger] self.data@[k]).wf()
        &&& forall|k: int|
            0 <= k < SHAPE_COUNT as int ==> (#[trigger] self.data@[k]).id == k + 1
        &&& forall|k: int|
            0 <= k < SHAPE_COUNT as int ==> (#[trigger] self.data@[k]).y == 0 && self.data@[k].x
                == 0
        &&& self.data@[0].data@ == shape_i()
        &&& self.data@[1].data@ == shape_j()
        &&& self.data@[2].data@ == shape_l()
        &&& self.data@[3].data@ == shape_o()
        &&& self.data@[4].data@ == shape_s()
        &&& self.data@[5].data@ == shape_t()
        &&& self.data@[6].data@ == shape_z()
    }

    /// Create the tetrominos.
    pub fn new() -> (t: Tetromino)
        ensures
            t.wf(),
    {
        let mut data: Vec<Block> = Vec::new();
        let mut block: Block;

        // I
        block = Block::new();
        block.setid(1);
        block.row("..I.");
        block.row("..I.");
        block.row("..I.");
        block.row("..I.");
        proof {
            reveal_strlit("..I.");
            assert(block.data@ =~= shape_i());
        }
        data.push(block);

        // J
        block = Block::new();
        block.setid(2);
        block.row("..J.");
        block.row("..J.");
        block.row(".JJ.");
        block.row("....");
        proof {
            reveal_strlit("..J.");
            reveal_strlit(".JJ.");
            reveal_strlit("....");
            assert(block.data@ =~= shape_j());
        }
        data.push(block);

        // L
        block = Block::new();
        block.setid(3);
        block.row(".L..");
        block.row(".L..");
        block.row(".LL.");
        block.row("....");
        proof {
            reveal_strlit(".L..");
            reveal_strlit(".LL.");
            reveal_strlit("....");
            assert(block.data@ =~= shape_l());
        }
        data.push(block);

        // O
        block = Block::new();
        block.setid(4);
        block.row("....");
        block.row(".OO.");
        block.row(".OO.");
        block.row("....");
        proof {
            reveal_strlit(".OO.");
            reveal_strlit("....");
            assert(block.data@ =~= shape_o());
        }
        data.push(block);

        // S
        block = Block::new();
        block.setid(5);
        block.row(".S..");
        block.row(".SS.");
        block.row("..S.");
        block.row("....");
        proof {
            reveal_strlit(".S..");
            reveal_strlit(".SS.");
            reveal_strlit("..S.");
            reveal_strlit("....");
            assert(block.data@ =~= shape_s());
        }
        data.push(block);

        // T
        block = Block::new();
        block.setid(6);
        block.row("..T.");
        block.row(".TT.");
        block.row("..T.");
        block.row("....");
        proof {
            reveal_strlit("..T.");
            reveal_strlit(".TT.");
            reveal_strlit("....");
            assert(block.data@ =~= shape_t());
        }
        data.push(block);

        // Z
        block = Block::new();
        block.setid(7);
        block.row("..Z.");
        block.row(".ZZ.");
        block.row(".Z..");
        block.row("....");
        proof {
            reveal_strlit("..Z.");
            reveal_strlit(".ZZ.");
            reveal_strlit(".Z..");
            reveal_strlit("....");
            assert(block.data@ =~= shape_z());
        }
        data.push(block);

        Tetromino { data }
    }

    /// Draw one piece by independent uniform random selection from the
    /// catalog and return a fresh copy at the default pre-spawn anchor.
    pub fn next(&self) -> (b: Block)
        requires
            self.wf(),
        ensures
            b.wf(),
            b.y == SPAWN_Y,
            b.x == SPAWN_X,
            from_catalog(*self, b),
    {
        let k = random_below(self.data.len());
        let mut b = vec_get_block(&self.data, k).clone();
        b.setyx(SPAWN_Y, SPAWN_X);
        proof {
            assert(b.data@ == self.data@[k as int].data@ && b.id == self.data@[k as int].id);
        }
        b
    }
}

/// Borrow one catalog entry.
fn vec_get_block(v: &Vec<Block>, i: usize) -> (b: &Block)
    requires
        i < v@.len(),
    ensures
        *b == v@[i as int],
{
    &v[i]
}

impl Clone for Block {
    /// A cloned piece has the same mask, anchor and identifier.
    fn clone(&self) -> (r: Self)
        ensures
            r.data@ == self.data@,
            r.index == self.index,
            r.y == self.y,
            r.x == self.x,
            r.id == self.id,
    {
        let data = clone_mask(&self.data);
        Block { data, index: self.index, y: self.y, x: self.x, id: self.id }
    }
}

/// Copy a mask cell by cell.
#[verifier::loop_isolation(false)]
fn clone_mask(m: &Vec<char>) -> (r: Vec<char>)
    ensures
        r@ == m@,
{
    let mut r: Vec<char> = Vec::new();
    let mut i: usize = 0;
    while i < m.len()
        invariant
            i <= m@.len(),
            r@ =~= m@.subrange(0, i as int),
        decreases m@.len() - i,
    {
        r.push(m[i]);
        i += 1;
    }
    proof {
        assert(r@ =~= m@);
    }
    r
}

/// Every catalog shape has at least one filled cell, and so has any fresh
/// copy of one.
pub proof fn lemma_catalog_has_filled(t: Tetromino, b: Block)
    requires
        t.wf(),
        from_catalog(t, b),
    ensures
        crate::block::has_filled(b.data@),
{
    let k = choose|k: int|
        0 <= k < SHAPE_COUNT as int && b.data@ == t.data@[k].data@ && b.id == t.data@[k].id;
    if k == 0 {
        assert(b.data@[2] != '.');
    } else if k == 1 {
        assert(b.data@[2] != '.');
    } else if k == 2 {
        assert(b.data@[1] != '.');
    } else if k == 3 {
        assert(b.data@[5] != '.');
    } else if k == 4 {
        assert(b.data@[1] != '.');
    } else if k == 5 {
        assert(b.data@[2] != '.');
    } else {
        assert(b.data@[2] != '.');
    }
}

/// The I shape's mask.
pub open spec fn shape_i() -> Seq<char> {
    seq![
        '.', '.', 'I', '.',
        '.', '.', 'I', '.',
        '.', '.', 'I', '.',
        '.', '.', 'I', '.',
    ]
}

/// The J shape's mask.
pub open spec fn shape_j() -> Seq<char> {
    seq![
        '.', '.', 'J', '.',
        '.', '.', 'J', '.',
        '.', 'J', 'J', '.',
        '.', '.', '.', '.',
    ]
}

/// The L shape's mask.
pub open spec fn shape_l() -> Seq<char> {
    seq![
        '.', 'L', '.', '.',
        '.', 'L', '.', '.',
        '.', 'L', 'L', '.',
        '.', '.', '.', '.',
    ]
}

/// The O shape's mask.
pub open spec fn shape_o() -> Seq<char> {
    seq![
        '.', '.', '.', '.',
        '.', 'O', 'O', '.',
        '.', 'O', 'O', '.',
        '.', '.', '.', '.',
    ]
}

/// The S shape's mask.
pub open spec fn shape_s() -> Seq<char> {
    seq![
        '.', 'S', '.', '.',
        '.', 'S', 'S', '.',
        '.', '.', 'S', '.',
        '.', '.', '.', '.',
    ]
}

/// The T shape's mask.
pub open spec fn shape_t() -> Seq<char> {
    seq![
        '.', '.', 'T', '.',
        '.', 'T', 'T', '.',
        '.', '.', 'T', '.',
        '.', '.', '.', '.',
    ]
}

/// The Z shape's mask.
pub open spec fn shape_z() -> Seq<char> {
    seq![
        '.', '.', 'Z', '.',
        '.', 'Z', 'Z', '.',
        '.', 'Z', '.', '.',
        '.', '.', '.', '.',
    ]
}

} // verus!
