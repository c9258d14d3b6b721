//! The cursor: a positional read view over a table.
//!
//! A cursor carries a borrowed reference to its table, a row position, and
//! an end-of-table flag. It moves in one direction only: `advance` steps to
//! the next position and raises the flag when the position reaches the row
//! count; the end state is absorbing.

use vstd::prelude::*;

use crate::row::SimpleRow;
use crate::table::Table;

verus! {

/// The mathematical content of a cursor: its position and flag.
#[verifier::ext_equal]
pub ghost struct CursorAbs {
    pub row_num: nat,
    pub end_of_table: bool,
}

/// Where a cursor starts on a table of `n` rows: position zero, already at
/// the end exactly when the table is empty.
pub open spec fn cursor_at_start(n: nat) -> CursorAbs {
    CursorAbs { row_num: 0, end_of_table: n == 0 }
}

/// One advance on a table of `n` rows: the position grows by one and the
/// flag is raised when the new position is at or past `n` (and never drops).
pub open spec fn cursor_step(c: CursorAbs, n: nat) -> CursorAbs {
    CursorAbs { row_num: c.row_num + 1, end_of_table: c.end_of_table || c.row_num + 1 >= n }
}

/// The cursor reached from the start of a table of `n` rows by exactly `k`
/// advances.
pub open spec fn cursor_after(k: nat, n: nat) -> CursorAbs
    decreases k,
{
    if k == 0 {
        cursor_at_start(n)
    } else {
        cursor_step(cursor_after((k - 1) as nat, n), n)
    }
}

/// Cursor traversal: starting from the start of a table of `n` rows, `k`
/// advances put the cursor at position `k`, and the end of the table is
/// reached exactly when `k == n`. In particular the cursor passes each
/// position below `n` exactly once, in ascending order, and `n` advances
/// end the traversal.
pub proof fn lemma_cursor_traversal(n: nat, k: nat)
    requires
        k <= n,
    ensures
        cursor_after(k, n).row_num == k,
        cursor_after(k, n).end_of_table == (k >= n),
    decreases k,
{
    if k > 0 {
        lemma_cursor_traversal(n, (k - 1) as nat);
    }
}

/// A positional read view over a table: the table, a row position, and the
/// end-of-table flag (the position is one past the last row when it is set
/// by `table_end`).
pub struct Cursor<'a> {
    pub table: &'a Table,
    pub row_num: usize,
    pub end_of_table: bool,
}

impl<'a> Cursor<'a> {
    /// The position and flag of this cursor.
    pub open spec fn abs(self) -> CursorAbs {
        CursorAbs { row_num: self.row_num as nat, end_of_table: self.end_of_table }
    }

    /// The table is well formed, the position never passes the row count,
    /// and the flag is raised exactly when no row is left to read.
    pub open spec fn wf(self) -> bool {
        &&& self.table.wf()
        &&& self.row_num <= self.table.num_rows
        &&& self.end_of_table == (self.row_num >= self.table.num_rows)
    }

    /// A cursor at the first row of the table; at the end already when the
    /// table is empty.
    pub fn table_start(table: &'a Table) -> (c: Cursor<'a>)
        requires
            table.wf(),
        ensures
            c.wf(),
            c.table == table,
            c.abs() == cursor_at_start(table@.len()),
    {
        let end_of: bool = table.num_rows == 0;
        let c = Cursor { table, row_num: 0, end_of_table: end_of };
        assert(c.abs() =~= cursor_at_start(table@.len()));
        c
    }

    /// A cursor one past the last row of the table; always at the end.
    pub fn table_end(table: &'a Table) -> (c: Cursor<'a>)
        requires
            table.wf(),
        ensures
            c.wf(),
            c.table == table,
            c.abs().row_num == table@.len(),
            c.abs().end_of_table,
    {
        let num_rows = table.num_rows;
        Cursor { table, row_num: num_rows, end_of_table: true }
    }

    /// Step to the next position; reaching the row count raises the
    /// end-of-table flag.
    pub fn advance(&mut self)
        requires
            old(self).wf(),
            !old(self).end_of_table,
        ensures
            final(self).wf(),
            final(self).table == old(self).table,
            final(self).abs() == cursor_step(old(self).abs(), old(self).table@.len()),
    {
        self.row_num = self.row_num + 1;
        if self.row_num >= self.table.num_rows {
            self.end_of_table = true;
        }
        assert(self.abs() =~= cursor_step(old(self).abs(), old(self).table@.len()));
    }

    /// The row at the current position; only valid before the end of the
    /// table.
    pub fn row(&self) -> (r: &SimpleRow)
        requires
            self.wf(),
            !self.end_of_table,
        ensures
            *r == self.table.rows@[self.row_num as int],
            r@ == self.table@[self.row_num as int],
    {
        &self.table.rows[self.row_num]
    }
}

} // verus!
