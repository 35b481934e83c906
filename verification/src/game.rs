use vstd::prelude::*;
use vstd::seq_lib::lemma_flatten_concat;

verus! {

/// Height of the visible playing field, in rows.
pub const GAME_HEIGHT: i32 = 20;

/// Width of the visible playing field, in columns.
pub const GAME_WIDTH: i32 = 12;

/// Number of cells of the playing field (height times width).
pub const GAME_FIELD: usize = 240;

/// Flat offset of a field coordinate, or -1 for any coordinate outside the
/// visible field. Rows and columns are 1-based; row 0 and above (smaller)
/// is the staging area and has no flat offset.
pub open spec fn flat_index(y: int, x: int) -> int {
    if y < 1 || x < 1 || y > GAME_HEIGHT as int || x > GAME_WIDTH as int {
        -1
    } else {
        (GAME_WIDTH as int) * (y - 1) + (x - 1)
    }
}

/// A field coordinate is free unless it lies inside the visible field and the
/// cell there is occupied.
pub open spec fn grid_fits(g: Seq<i16>, y: int, x: int) -> bool {
    flat_index(y, x) == -1 || g[flat_index(y, x)] == 0
}

/// The field with every cell empty.
pub open spec fn empty_field() -> Seq<i16> {
    Seq::new(GAME_FIELD as nat, |i: int| 0i16)
}

/// The field after writing a piece's identifier into the first `n` mask cells
/// that are filled and land inside the visible field.
pub open spec fn lock_cells(g: Seq<i16>, m: Seq<char>, y: int, x: int, id: i16, n: int) -> Seq<i16>
    decreases n,
{
    if n <= 0 {
        g
    } else {
        let prev = lock_cells(g, m, y, x, id, n - 1);
        let i = n - 1;
        let idx = flat_index(y + i / 4, x + i % 4);
        if m[i] != '.' && idx >= 0 {
            prev.update(idx, id)
        } else {
            prev
        }
    }
}

/// Index of the first occupied cell in row-major order; the last index when
/// the whole field is empty.
pub open spec fn first_filled_from(g: Seq<i16>, i: int) -> int
    decreases GAME_FIELD as int - i,
{
    if i < 0 || i >= GAME_FIELD as int - 1 {
        GAME_FIELD as int - 1
    } else if g[i] != 0 {
        i
    } else {
        first_filled_from(g, i + 1)
    }
}

/// Index of the first occupied cell of the whole field.
pub open spec fn first_filled(g: Seq<i16>) -> int {
    first_filled_from(g, 0)
}

/// Candidate level: the index of the first occupied cell as a fraction of the
/// whole field, scaled to ten and rounded to the nearest integer.
pub open spec fn level_candidate(g: Seq<i16>) -> int {
    (first_filled(g) * 10 + (GAME_FIELD as int) / 2) / (GAME_FIELD as int)
}

/// The level after one derivation: the candidate is adopted only when it is
/// strictly lower than the current level (the ratchet never eases).
pub open spec fn next_level(level: int, g: Seq<i16>) -> int {
    if level_candidate(g) < level {
        level_candidate(g)
    } else {
        level
    }
}

/// One row of the field, as a sequence of its cells.
pub open spec fn row_of(g: Seq<i16>, r: int) -> Seq<i16> {
    g.subrange((GAME_WIDTH as int) * r, (GAME_WIDTH as int) * r + (GAME_WIDTH as int))
}

/// The field as a sequence of its rows, top to bottom.
pub open spec fn rows_of(g: Seq<i16>) -> Seq<Seq<i16>> {
    Seq::new(GAME_HEIGHT as nat, |r: int| row_of(g, r))
}

/// A row qualifies for removal exactly when it has no empty cell.
pub open spec fn row_is_full(row: Seq<i16>) -> bool {
    forall|c: int| 0 <= c < GAME_WIDTH as int ==> row[c] != 0
}

/// The predicate that keeps a row through compaction.
pub open spec fn keep_pred() -> spec_fn(Seq<i16>) -> bool {
    |row: Seq<i16>| !row_is_full(row)
}

/// The rows that survive compaction, in their original order.
pub open spec fn kept_rows(g: Seq<i16>) -> Seq<Seq<i16>> {
    rows_of(g).filter(keep_pred())
}

/// A row with every cell empty.
pub open spec fn empty_row() -> Seq<i16> {
    Seq::new(GAME_WIDTH as nat, |c: int| 0i16)
}

/// The field after compaction: the full rows are dropped, the surviving rows
/// keep their order and sink to the bottom, and the vacated rows at the top
/// are entirely empty.
pub open spec fn compacted(g: Seq<i16>) -> Seq<i16> {
    let kept = kept_rows(g);
    let pads = Seq::new((GAME_HEIGHT as int - kept.len()) as nat, |r: int| empty_row());
    (pads + kept).flatten()
}

/// Number of occupied cells.
pub open spec fn count_occ(g: Seq<i16>) -> int
    decreases g.len(),
{
    if g.len() == 0 {
        0
    } else {
        count_occ(g.drop_last()) + (if g.last() != 0 {
            1int
        } else {
            0int
        })
    }
}

/// Score after adding a non-negative reward; an addition that would exceed
/// the score type's maximum is dropped rather than wrapped.
pub open spec fn clamped_score(s: int, d: int) -> int {
    if s + d <= i32::MAX as int {
        s + d
    } else {
        s
    }
}

/// The rows among the first `r` that survive compaction.
pub open spec fn kept_prefix(g: Seq<i16>, r: int) -> Seq<Seq<i16>> {
    rows_of(g).subrange(0, r).filter(keep_pred())
}

/// The state of the playing field and of the running session's counters.
pub struct Game {
    /// The state of the field: 0 is an empty cell, any other value is the
    /// identifier of the piece that occupies it.
    pub data: Vec<i16>,
    /// The current score.
    pub score: i32,
    /// Game over!
    pub done: bool,
    /// The level (an inverse speed, lowered as the stack grows).
    pub level: i32,
}

impl Game {
    /// The field has exactly one cell per coordinate, the level stays in its
    /// bounded range and the score is never negative.
    pub open spec fn wf(&self) -> bool {
        &&& self.data@.len() == GAME_FIELD as int
        &&& 0 <= self.level <= 10
        &&& 0 <= self.score
    }

    /// Initialize a new game: an empty field, score 0, the slowest level.
    pub fn new() -> (g: Game)
        ensures
            g.wf(),
            g.data@ == empty_field(),
            g.score == 0,
            g.level == 10,
            !g.done,
    {
        let mut data: Vec<i16> = Vec::new();
        let mut i: usize = 0;
        while i < GAME_FIELD
            invariant
                i <= GAME_FIELD,
                data@.len() == i as int,
                forall|j: int| 0 <= j < i as int ==> data@[j] == 0i16,
            decreases GAME_FIELD - i,
        {
            data.push(0);
            i += 1;
        }
        proof {
            assert(data@ =~= empty_field());
        }
        Game { data, score: 0, done: false, level: 10 }
    }

    /// Get coordinates by relative index.
    pub fn getyx(idx: usize) -> (r: (usize, usize))
        ensures
            r.0 == idx as int / GAME_WIDTH as int,
            r.1 == idx as int % GAME_WIDTH as int,
    {
        (idx / (GAME_WIDTH as usize), idx % (GAME_WIDTH as usize))
    }

    /// Get relative index by coordinates; -1 signals "out of range".
    pub fn index(y: i32, x: i32) -> (r: i32)
        ensures
            r == flat_index(y as int, x as int),
    {
        if y < 1 || x < 1 || y > GAME_HEIGHT || x > GAME_WIDTH {
            return -1;
        }
        GAME_WIDTH * (y - 1) + (x - 1)
    }

    /// Does a piece cell "fit" on the specified coordinate? False exactly when
    /// the coordinate maps to a cell of the visible field and that cell is
    /// occupied; any out-of-range coordinate reports as free, and the caller
    /// is responsible for its own bounds checks.
    pub fn fits(&self, y: i32, x: i32) -> (r: bool)
        requires
            self.wf(),
        ensures
            r == grid_fits(self.data@, y as int, x as int),
    {
        let idx = Self::index(y, x);
        if idx < 0 {
            return true;
        }
        self.data[idx as usize] == 0
    }

    /// Increase the score.
    pub fn addscore(&mut self, score: i32)
        requires
            0 <= score,
            old(self).score + score <= i32::MAX,
        ensures
            final(self).score == old(self).score + score,
            final(self).data@ == old(self).data@,
            final(self).level == old(self).level,
            final(self).done == old(self).done,
    {
        self.score += score;
    }

    /// End the game.
    pub fn gameover(&mut self)
        ensures
            final(self).done,
            final(self).data@ == old(self).data@,
            final(self).level == old(self).level,
            final(self).score == old(self).score,
    {
        self.done = true;
    }

    /// Put a piece on the game field stack: every filled mask cell that lands
    /// inside the visible field is written with the piece's identifier, and
    /// the level-scaled base reward is added to the score.
    #[verifier::loop_isolation(false)]
    pub fn store(&mut self, block: crate::block::Block)
        requires
            old(self).wf(),
            block.wf(),
        ensures
            final(self).wf(),
            final(self).data@ == lock_cells(
                old(self).data@,
                block.data@,
                block.y as int,
                block.x as int,
                block.id,
                16,
            ),
            final(self).score == clamped_score(old(self).score as int, 10 - old(self).level as int),
            final(self).level == old(self).level,
            final(self).done == old(self).done,
    {
        let reward = 10 - self.level;
        if self.score <= i32::MAX - reward {
            self.addscore(reward);
        }
        let mut i: usize = 0;
        while i < 16
            invariant
                i <= 16,
                self.data@.len() == GAME_FIELD as int,
                self.data@ == lock_cells(
                    old(self).data@,
                    block.data@,
                    block.y as int,
                    block.x as int,
                    block.id,
                    i as int,
                ),
                self.score == clamped_score(old(self).score as int, 10 - old(self).level as int),
                self.level == old(self).level,
                self.done == old(self).done,
            decreases 16 - i,
        {
            let c = block.data[i];
            if c != '.' {
                let py: i64 = block.y as i64 + (i / 4) as i64;
                let px: i64 = block.x as i64 + (i % 4) as i64;
                if 1 <= py && py <= GAME_HEIGHT as i64 && 1 <= px && px <= GAME_WIDTH as i64 {
                    let idx: usize = ((GAME_WIDTH as i64) * (py - 1) + (px - 1)) as usize;
                    assert(idx as int == flat_index(
                        block.y as int + i as int / 4,
                        block.x as int + i as int % 4,
                    ));
                    self.data[idx] = block.id;
                }
            }
            i += 1;
        }
    }

    /// Update the level and hence the game speed: adopt the derived candidate
    /// level only when it is lower than the current one.
    #[verifier::loop_isolation(false)]
    pub fn speed(&mut self)
        requires
            old(self).wf(),
        ensures
            final(self).wf(),
            final(self).data@ == old(self).data@,
            final(self).score == old(self).score,
            final(self).done == old(self).done,
            final(self).level == next_level(old(self).level as int, old(self).data@),
            final(self).level <= old(self).level,
    {
        let mut count: usize = 0;
        while count < GAME_FIELD - 1 && self.data[count] == 0
            invariant
                count <= GAME_FIELD - 1,
                forall|j: int| 0 <= j < count as int ==> self.data@[j] == 0,
            decreases GAME_FIELD - count,
        {
            count += 1;
        }
        proof {
            lemma_first_filled_at(self.data@, 0, count as int);
        }
        let cand: i32 = ((count * 10 + GAME_FIELD / 2) / GAME_FIELD) as i32;
        if cand < self.level {
            self.level = cand;
        }
    }

    /// Remove the full rows: surviving rows keep their order and sink to the
    /// bottom, the vacated rows at the top become empty. Returns whether any
    /// row was removed, which tells the caller that a full redraw is needed.
    #[verifier::loop_isolation(false)]
    pub fn compact(&mut self) -> (removed: bool)
        requires
            old(self).wf(),
        ensures
            final(self).wf(),
            final(self).data@ == compacted(old(self).data@),
            final(self).score == old(self).score,
            final(self).level == old(self).level,
            final(self).done == old(self).done,
            removed == (kept_rows(old(self).data@).len() < GAME_HEIGHT as int),
    {
        let ghost g = self.data@;
        let mut kept: Vec<i16> = Vec::new();
        let mut nkept: usize = 0;
        let mut r: usize = 0;
        while r < 20
            invariant
                r <= 20,
                nkept <= r,
                nkept as int == kept_prefix(g, r as int).len(),
                kept@ == kept_prefix(g, r as int).flatten(),
                kept@.len() == 12 * nkept as int,
            decreases 20 - r,
        {
            let mut full: bool = true;
            let mut c: usize = 0;
            while c < 12
                invariant
                    c <= 12,
                    full ==> forall|j: int| 0 <= j < c as int ==> row_of(g, r as int)[j] != 0,
                    !full ==> !row_is_full(row_of(g, r as int)),
                decreases 12 - c,
            {
                if self.data[r * 12 + c] == 0 {
                    assert(row_of(g, r as int)[c as int] == 0);
                    full = false;
                }
                c += 1;
            }
            assert(full == row_is_full(row_of(g, r as int)));
            proof {
                lemma_keep_filter_push(
                    rows_of(g).subrange(0, r as int),
                    row_of(g, r as int),
                );
                assert(rows_of(g).subrange(0, r as int + 1) =~= rows_of(g).subrange(
                    0,
                    r as int,
                ).push(row_of(g, r as int)));
            }
            if !full {
                let mut c: usize = 0;
                while c < 12
                    invariant
                        c <= 12,
                        kept@ == kept_prefix(g, r as int).flatten() + row_of(
                            g,
                            r as int,
                        ).subrange(0, c as int),
                    decreases 12 - c,
                {
                    kept.push(self.data[r * 12 + c]);
                    c += 1;
                }
                proof {
                    broadcast use Seq::lemma_flatten_push;

                    assert(row_of(g, r as int).subrange(0, 12) =~= row_of(g, r as int));
                    assert(kept_prefix(g, r as int + 1).flatten() =~= kept_prefix(
                        g,
                        r as int,
                    ).flatten() + row_of(g, r as int));
                }
                nkept += 1;
            }
            r += 1;
        }
        proof {
            assert(rows_of(g).subrange(0, 20) =~= rows_of(g));
        }
        let removed_rows: usize = 20 - nkept;
        let mut nd: Vec<i16> = Vec::new();
        let mut p: usize = 0;
        while p < removed_rows * 12
            invariant
                p <= removed_rows * 12,
                nd@.len() == p as int,
                forall|j: int| 0 <= j < p as int ==> nd@[j] == 0i16,
            decreases removed_rows * 12 - p,
        {
            nd.push(0);
            p += 1;
        }
        nd.append(&mut kept);
        proof {
            let krows = kept_rows(g);
            let pads = Seq::new((GAME_HEIGHT as int - krows.len()) as nat, |q: int| empty_row());
            lemma_flatten_concat(pads, krows);
            lemma_flatten_empty_rows(removed_rows as int);
            assert(pads =~= Seq::new(removed_rows as nat, |q: int| empty_row()));
            assert(nd@ =~= compacted(g));
        }
        self.data = nd;
        removed_rows > 0
    }

    /// Update the game field: remove full rows, then re-derive the level and
    /// hence the game speed from the compacted field.
    pub fn refresh(&mut self) -> (redraw: bool)
        requires
            old(self).wf(),
        ensures
            final(self).wf(),
            final(self).data@ == compacted(old(self).data@),
            final(self).score == old(self).score,
            final(self).done == old(self).done,
            final(self).level == next_level(old(self).level as int, compacted(old(self).data@)),
            final(self).level <= old(self).level,
            redraw == (kept_rows(old(self).data@).len() < GAME_HEIGHT as int),
    {
        let removed = self.compact();
        self.speed();
        removed
    }
}

/// Filtering after appending one row keeps the row exactly when it is not
/// full.
proof fn lemma_keep_filter_push(s: Seq<Seq<i16>>, x: Seq<i16>)
    ensures
        s.push(x).filter(keep_pred()) == (if !row_is_full(x) {
            s.filter(keep_pred()).push(x)
        } else {
            s.filter(keep_pred())
        }),
{
    reveal(Seq::filter);
    assert(s.push(x).drop_last() =~= s);
    assert(s.push(x).last() == x);
}

/// A run of empty rows flattens to a run of empty cells.
proof fn lemma_flatten_empty_rows(n: int)
    requires
        0 <= n,
    ensures
        Seq::new(n as nat, |r: int| empty_row()).flatten() =~= Seq::new(
            (12 * n) as nat,
            |j: int| 0i16,
        ),
    decreases n,
{
    let s = Seq::new(n as nat, |r: int| empty_row());
    if n > 0 {
        broadcast use Seq::lemma_flatten_push;

        lemma_flatten_empty_rows(n - 1);
        let s0 = Seq::new((n - 1) as nat, |r: int| empty_row());
        assert(s =~= s0.push(empty_row()));
        assert(s.flatten() =~= s0.flatten() + empty_row());
    } else {
        assert(s.flatten() =~= Seq::<i16>::empty());
    }
}

/// A scan that finds no occupied cell before `k`, and stops at `k` because the
/// cell there is occupied or the field ends, has found the first occupied cell.
proof fn lemma_first_filled_at(g: Seq<i16>, i: int, k: int)
    requires
        0 <= i <= k <= GAME_FIELD as int - 1,
        forall|j: int| i <= j < k ==> g[j] == 0,
        k == GAME_FIELD as int - 1 || g[k] != 0,
    ensures
        first_filled_from(g, i) == k,
    decreases k - i,
{
    if i < k {
        lemma_first_filled_at(g, i + 1, k);
    }
}

/// Occupied cells of a concatenation are counted part by part.
proof fn lemma_count_occ_concat(a: Seq<i16>, b: Seq<i16>)
    ensures
        count_occ(a + b) == count_occ(a) + count_occ(b),
    decreases b.len(),
{
    if b.len() == 0 {
        assert(a + b =~= a);
    } else {
        lemma_count_occ_concat(a, b.drop_last());
        assert((a + b).drop_last() =~= a + b.drop_last());
        assert((a + b).last() == b.last());
    }
}

/// A sequence of occupied cells counts its whole length; one of empty cells
/// counts nothing.
proof fn lemma_count_occ_uniform(s: Seq<i16>)
    ensures
        (forall|i: int| 0 <= i < s.len() ==> s[i] != 0) ==> count_occ(s) == s.len(),
        (forall|i: int| 0 <= i < s.len() ==> s[i] == 0) ==> count_occ(s) == 0,
    decreases s.len(),
{
    if s.len() > 0 {
        lemma_count_occ_uniform(s.drop_last());
    }
}

/// Dropping the full rows from a stack of full-width rows removes exactly
/// twelve occupied cells per dropped row.
proof fn lemma_count_filter(rs: Seq<Seq<i16>>)
    requires
        forall|i: int| 0 <= i < rs.len() ==> (#[trigger] rs[i]).len() == GAME_WIDTH as int,
    ensures
        rs.filter(keep_pred()).len() <= rs.len(),
        count_occ(rs.flatten()) == count_occ(rs.filter(keep_pred()).flatten()) + 12 * (rs.len()
            - rs.filter(keep_pred()).len()),
    decreases rs.len(),
{
    reveal(Seq::filter);
    if rs.len() == 0 {
        assert(rs.flatten() =~= Seq::<i16>::empty());
    } else {
        let dl = rs.drop_last();
        let lst = rs.last();
        lemma_count_filter(dl);
        rs.lemma_flatten_and_flatten_alt_are_equivalent();
        dl.lemma_flatten_and_flatten_alt_are_equivalent();
        assert(rs.flatten_alt() == dl.flatten_alt() + lst);
        lemma_count_occ_concat(dl.flatten(), lst);
        lemma_keep_filter_push(dl, lst);
        assert(dl.push(lst) =~= rs);
        if !row_is_full(lst) {
            broadcast use Seq::lemma_flatten_push;

            assert(rs.filter(keep_pred()) == dl.filter(keep_pred()).push(lst));
            assert(rs.filter(keep_pred()).flatten() =~= dl.filter(keep_pred()).flatten() + lst);
            lemma_count_occ_concat(dl.filter(keep_pred()).flatten(), lst);
        } else {
            assert(rs.filter(keep_pred()) == dl.filter(keep_pred()));
            lemma_count_occ_uniform(lst);
            assert(count_occ(lst) == 12);
        }
    }
}

/// Flattening a stack of full-width rows: the result has twelve cells per row
/// and cell j comes from row j / 12, column j % 12.
proof fn lemma_flatten_uniform(rs: Seq<Seq<i16>>)
    requires
        forall|i: int| 0 <= i < rs.len() ==> (#[trigger] rs[i]).len() == GAME_WIDTH as int,
    ensures
        rs.flatten().len() == 12 * rs.len(),
        forall|j: int|
            0 <= j < 12 * rs.len() ==> #[trigger] rs.flatten()[j] == rs[j / 12][j % 12],
    decreases rs.len(),
{
    if rs.len() > 0 {
        let dl = rs.drop_last();
        let lst = rs.last();
        lemma_flatten_uniform(dl);
        rs.lemma_flatten_and_flatten_alt_are_equivalent();
        dl.lemma_flatten_and_flatten_alt_are_equivalent();
        assert(rs.flatten_alt() == dl.flatten_alt() + lst);
        let n = rs.len() as int;
        assert forall|j: int| 0 <= j < 12 * n implies #[trigger] rs.flatten()[j] == rs[j / 12][j
            % 12] by {
            if j < 12 * (n - 1) {
                assert(rs.flatten()[j] == dl.flatten()[j]);
                assert(0 <= j / 12 < n - 1) by (nonlinear_arith)
                    requires
                        0 <= j < 12 * (n - 1),
                ;
                assert(dl[j / 12] == rs[j / 12]);
            } else {
                assert(rs.flatten()[j] == lst[j - 12 * (n - 1)]);
                assert(j / 12 == n - 1 && j % 12 == j - 12 * (n - 1)) by (nonlinear_arith)
                    requires
                        12 * (n - 1) <= j < 12 * n,
                ;
            }
        }
    }
}

/// A field is the flattening of its rows.
proof fn lemma_rows_flatten(g: Seq<i16>)
    requires
        g.len() == GAME_FIELD as int,
    ensures
        rows_of(g).flatten() == g,
{
    lemma_flatten_uniform(rows_of(g));
    assert forall|j: int| 0 <= j < 240 implies rows_of(g).flatten()[j] == g[j] by {
        assert(0 <= j / 12 < 20 && 0 <= j % 12 < 12 && 12 * (j / 12) + j % 12 == j)
            by (nonlinear_arith)
            requires
                0 <= j < 240,
        ;
        assert(rows_of(g)[j / 12][j % 12] == g[12 * (j / 12) + j % 12]);
    }
    assert(rows_of(g).flatten() =~= g);
}

/// Compaction never changes the count of occupied cells except by deleting
/// the cells of the rows that were entirely full: the count drops by exactly
/// the field's width times the number of removed rows.
pub proof fn lemma_compact_occupied(g: Seq<i16>)
    requires
        g.len() == GAME_FIELD as int,
    ensures
        kept_rows(g).len() <= GAME_HEIGHT as int,
        count_occ(compacted(g)) == count_occ(g) - 12 * (GAME_HEIGHT as int - kept_rows(g).len()),
{
    broadcast use Seq::lemma_filter_len;

    let krows = kept_rows(g);
    let pads = Seq::new((GAME_HEIGHT as int - krows.len()) as nat, |r: int| empty_row());
    lemma_rows_flatten(g);
    lemma_count_filter(rows_of(g));
    lemma_flatten_concat(pads, krows);
    lemma_flatten_empty_rows(GAME_HEIGHT as int - krows.len());
    lemma_count_occ_concat(pads.flatten(), krows.flatten());
    lemma_count_occ_uniform(pads.flatten());
    assert(count_occ(pads.flatten()) == 0);
}

/// Above the visible field the grid's own test reports every coordinate as
/// free, whatever the column and the occupancy: the staging exemption.
pub proof fn lemma_staging_free(g: Seq<i16>, y: int, x: int)
    ensures
        y <= 0 ==> grid_fits(g, y, x),
{
}

/// Derived levels never exceed the level they start from: over a session the
/// sequence of levels is non-increasing.
pub proof fn lemma_level_monotone(level: int, g: Seq<i16>)
    ensures
        next_level(level, g) <= level,
{
}

/// Repeated derivations over any succession of field states produce a
/// non-increasing sequence of levels.
pub proof fn lemma_level_sequence(level: int, g1: Seq<i16>, g2: Seq<i16>)
    ensures
        next_level(next_level(level, g1), g2) <= next_level(level, g1) <= level,
{
}

} // verus!
