//! The tape: a growable band of symbols addressed by a cursor.
//!
//! The band models a two-way-infinite tape through lazy extension of a finite
//! buffer: moving off either end grows the band by one blank cell. The cursor
//! is always a valid index into the band; an empty input is replaced by a
//! single blank cell so the invariant holds from step zero.

use vstd::prelude::*;

verus! {

/// The band after one move to the left: at the left edge a blank cell is
/// prepended and the cursor stays on it, otherwise only the cursor moves.
pub open spec fn left_moved(cells: Seq<char>, cursor: int, blank: char) -> (Seq<char>, int) {
    if cursor == 0 {
        (seq![blank] + cells, 0)
    } else {
        (cells, cursor - 1)
    }
}

/// The band after one move to the right: at the right edge a blank cell is
/// appended and the cursor advances onto it, otherwise only the cursor moves.
pub open spec fn right_moved(cells: Seq<char>, cursor: int, blank: char) -> (Seq<char>, int) {
    if cursor + 1 == cells.len() {
        (cells.push(blank), cursor + 1)
    } else {
        (cells, cursor + 1)
    }
}

/// A mutable band of symbols with a cursor and the blank symbol used to grow
/// the band.
pub struct Tape {
    pub cells: Vec<char>,
    pub cursor: usize,
    pub blank: char,
}

impl Tape {
    /// The cursor always addresses a cell of the band.
    pub open spec fn wf(self) -> bool {
        self.cursor < self.cells@.len()
    }

    /// Build a band holding the input symbols with the cursor on the first
    /// cell; an empty input yields a band of one blank cell.
    pub fn new(input: Vec<char>, blank: char) -> (t: Tape)
        ensures
            t.wf(),
            t.blank == blank,
            t.cursor == 0,
            t.cells@ == if input@.len() == 0 { seq![blank] } else { input@ },
    {
        let mut cells = input;
        if cells.len() == 0 {
            cells.push(blank);
        }
        Tape { cells, cursor: 0, blank }
    }

    /// The symbol under the cursor.
    pub fn read(&self) -> (c: char)
        requires
            self.wf(),
        ensures
            c == self.cells@[self.cursor as int],
    {
        self.cells[self.cursor]
    }

    /// Replace the symbol under the cursor.
    pub fn write(&mut self, c: char)
        requires
            old(self).wf(),
        ensures
            final(self).wf(),
            final(self).cells@ == old(self).cells@.update(old(self).cursor as int, c),
            final(self).cursor == old(self).cursor,
            final(self).blank == old(self).blank,
    {
        self.cells[self.cursor] = c;
    }

    /// Move the cursor one cell to the left, growing the band by one blank
    /// cell when the cursor is already on the leftmost cell.
    pub fn move_left(&mut self)
        requires
            old(self).wf(),
        ensures
            final(self).wf(),
            final(self).blank == old(self).blank,
            (final(self).cells@, final(self).cursor as int) == left_moved(
                old(self).cells@,
                old(self).cursor as int,
                old(self).blank,
            ),
    {
        if self.cursor == 0 {
            let b = self.blank;
            self.cells.insert(0, b);
            proof {
                assert(self.cells@ =~= seq![self.blank] + old(self).cells@);
            }
        } else {
            self.cursor = self.cursor - 1;
        }
    }

    /// Move the cursor one cell to the right, growing the band by one blank
    /// cell when the cursor is already on the rightmost cell.
    pub fn move_right(&mut self)
        requires
            old(self).wf(),
        ensures
            final(self).wf(),
            final(self).blank == old(self).blank,
            (final(self).cells@, final(self).cursor as int) == right_moved(
                old(self).cells@,
                old(self).cursor as int,
                old(self).blank,
            ),
    {
        let n = self.cells.len();
        self.cursor = self.cursor + 1;
        if self.cursor == n {
            let b = self.blank;
            self.cells.push(b);
        }
    }

    /// A copy of the whole band, for step events and inspection.
    pub fn contents(&self) -> (v: Vec<char>)
        ensures
            v@ == self.cells@,
    {
        let mut v: Vec<char> = Vec::new();
        let mut i: usize = 0;
        while i < self.cells.len()
            invariant
                i <= self.cells@.len(),
                v@ == self.cells@.take(i as int),
            decreases self.cells@.len() - i,
        {
            v.push(self.cells[i]);
            proof {
                assert(v@ =~= self.cells@.take(i + 1));
            }
            i = i + 1;
        }
        proof {
            assert(v@ =~= self.cells@);
        }
        v
    }

    /// A read-only window of the band around the cursor: up to `window` cells
    /// on each side of the cell under the cursor. Purely presentational.
    pub fn snapshot(&self, window: usize) -> (v: Vec<char>)
        requires
            self.wf(),
        ensures
            v@ == self.cells@.subrange(
                window_lo(self.cursor as int, window as int),
                window_hi(self.cursor as int, window as int, self.cells@.len() as int),
            ),
    {
        let lo: usize = if self.cursor >= window { self.cursor - window } else { 0 };
        // Compare the cells remaining to the right of the cursor against the
        // window, rather than adding to the cursor, so nothing overflows.
        let hi: usize = if self.cells.len() - 1 - self.cursor <= window {
            self.cells.len()
        } else {
            self.cursor + window + 1
        };
        let mut v: Vec<char> = Vec::new();
        let mut i: usize = lo;
        while i < hi
            invariant
                lo <= i <= hi <= self.cells@.len(),
                v@ == self.cells@.subrange(lo as int, i as int),
            decreases hi - i,
        {
            v.push(self.cells[i]);
            proof {
                assert(v@ =~= self.cells@.subrange(lo as int, i + 1));
            }
            i = i + 1;
        }
        v
    }
}

/// First cell of the presentational window around `cursor`.
pub open spec fn window_lo(cursor: int, window: int) -> int {
    if cursor >= window {
        cursor - window
    } else {
        0
    }
}

/// One past the last cell of the presentational window around `cursor`.
pub open spec fn window_hi(cursor: int, window: int, len: int) -> int {
    if len - 1 - cursor <= window {
        len
    } else {
        cursor + window + 1
    }
}

/// The band and cursor after `k` moves to the left.
pub open spec fn left_moved_n(cells: Seq<char>, cursor: int, blank: char, k: nat) -> (Seq<char>, int)
    decreases k,
{
    if k == 0 {
        (cells, cursor)
    } else {
        let (cells1, cursor1) = left_moved(cells, cursor, blank);
        left_moved_n(cells1, cursor1, blank, (k - 1) as nat)
    }
}

/// Law: writing a symbol at the cursor and then reading the cell under the
/// cursor yields that symbol.
pub proof fn lemma_write_read(cells: Seq<char>, cursor: int, x: char)
    requires
        0 <= cursor < cells.len(),
    ensures
        cells.update(cursor, x)[cursor] == x,
{
}

/// Law: moving left `k` times from cursor zero prepends exactly `k` blank
/// cells, leaves the cursor at zero, and keeps the cursor inside the band.
pub proof fn lemma_left_growth(cells: Seq<char>, blank: char, k: nat)
    requires
        cells.len() > 0,
    ensures
        ({
            let (cells1, cursor1) = left_moved_n(cells, 0, blank, k);
            &&& cells1 =~= Seq::new(k, |i: int| blank) + cells
            &&& cursor1 == 0
            &&& 0 <= cursor1 < cells1.len()
        }),
    decreases k,
{
    if k == 0 {
        assert(Seq::new(0, |i: int| blank) + cells =~= cells);
    } else {
        let stepped = seq![blank] + cells;
        lemma_left_growth(stepped, blank, (k - 1) as nat);
        assert(left_moved_n(cells, 0, blank, k) == left_moved_n(stepped, 0, blank, (k - 1) as nat));
        assert(Seq::new((k - 1) as nat, |i: int| blank) + stepped =~= Seq::new(
            k,
            |i: int| blank,
        ) + cells);
    }
}

/// Law: moving right from the rightmost cell appends exactly one blank cell
/// and the cursor advances onto it.
pub proof fn lemma_right_growth(cells: Seq<char>, blank: char)
    requires
        cells.len() > 0,
    ensures
        ({
            let (cells1, cursor1) = right_moved(cells, cells.len() - 1, blank);
            &&& cells1 == cells.push(blank)
            &&& cursor1 == cells.len()
            &&& cells1[cursor1] == blank
            &&& 0 <= cursor1 < cells1.len()
        }),
{
}

} // verus!
