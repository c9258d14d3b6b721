//! Executor bindings: turning a prepared statement into table mutations or
//! cursor traversals, with a classified result code.

use vstd::prelude::*;

use crate::cursor::Cursor;
use crate::row::RowAbs;
use crate::row::SimpleRow;
use crate::statement::PreparedStatement;
use crate::status::ExecuteResult;
use crate::status::StatementType;
use crate::table::row_views;
use crate::table::Table;
use crate::TABLE_MAX_ROWS;

verus! {

/// Append a row to the table and count it. (The slot number is taken for
/// interface compatibility; rows always go to the next free slot.)
pub fn set_row_slot(table: &mut Table, row: SimpleRow, _row_num: usize) -> (ok: bool)
    requires
        old(table).wf(),
        row.wf(),
        old(table).num_rows < TABLE_MAX_ROWS,
    ensures
        ok,
        final(table).wf(),
        final(table).file_ok == old(table).file_ok,
        final(table).num_rows == old(table).num_rows + 1,
        final(table)@ == old(table)@.push(row@),
{
    table.rows.push(row);
    table.num_rows = table.num_rows + 1;
    assert(table@ =~= old(table)@.push(row@));
    true
}

/// Append a row at the end of the table.
pub fn append_row_slot(table: &mut Table, row: SimpleRow) -> (ok: bool)
    requires
        old(table).wf(),
        row.wf(),
        old(table).num_rows < TABLE_MAX_ROWS,
    ensures
        ok,
        final(table).wf(),
        final(table).file_ok == old(table).file_ok,
        final(table)@ == old(table)@.push(row@),
{
    let next = table.num_rows + 1;
    set_row_slot(table, row, next)
}

/// Execute an insert: refused with `ExecuteTableFull` exactly when the
/// table is at capacity; otherwise the statement's row is appended and the
/// insert succeeds.
pub fn execute_insert(statement: PreparedStatement, table: &mut Table) -> (r: ExecuteResult)
    requires
        old(table).wf(),
        statement.row.wf(),
    ensures
        final(table).wf(),
        final(table).file_ok == old(table).file_ok,
        old(table)@.len() >= TABLE_MAX_ROWS ==> r is ExecuteTableFull && *final(table) == *old(
            table,
        ),
        old(table)@.len() < TABLE_MAX_ROWS ==> r is ExecuteSuccess && final(table)@ == old(
            table,
        )@.push(statement.row@),
{
    if table.num_rows >= TABLE_MAX_ROWS {
        return ExecuteResult::ExecuteTableFull;
    }
    let num = table.num_rows;
    let to_insert: SimpleRow = statement.row;
    if set_row_slot(table, to_insert, num) {
        return ExecuteResult::ExecuteSuccess;
    }
    ExecuteResult::ExecuteFailed
}

/// Execute a select: traverse the table with a cursor from its start and
/// hand back a copy of every row, in insertion order, for the caller to
/// print. Always succeeds.
pub fn execute_select(_statement: PreparedStatement, table: &Table) -> (r: (
    ExecuteResult,
    Vec<SimpleRow>,
))
    requires
        table.wf(),
    ensures
        r.0 is ExecuteSuccess,
        row_views(r.1@) == table@,
        forall|i: int| 0 <= i < r.1@.len() ==> (#[trigger] r.1@[i]).wf(),
{
    let mut out: Vec<SimpleRow> = Vec::new();
    let mut cursor = Cursor::table_start(table);
    assert(row_views(out@) =~= table@.subrange(0, 0));
    while !cursor.end_of_table
        invariant
            table.wf(),
            cursor.wf(),
            cursor.table == table,
            row_views(out@) == table@.subrange(0, cursor.row_num as int),
            forall|i: int| 0 <= i < out@.len() ==> (#[trigger] out@[i]).wf(),
        decreases table.num_rows - cursor.row_num,
    {
        let row = cursor.row();
        let copy = row.duplicate();
        proof {
            assert(row_views(out@.push(copy)) =~= row_views(out@).push(copy@));
            assert(table@.subrange(0, cursor.row_num as int).push(table@[cursor.row_num as int])
                =~= table@.subrange(0, cursor.row_num + 1));
        }
        out.push(copy);
        cursor.advance();
    }
    assert(table@.subrange(0, table@.len() as int) =~= table@);
    (ExecuteResult::ExecuteSuccess, out)
}

/// Dispatch a prepared statement: an insert mutates the table, a select
/// reads it and hands back the rows to print, an invalid statement does
/// nothing and fails.
pub fn execute_prepared_statement(statement: PreparedStatement, table: &mut Table) -> (r: (
    ExecuteResult,
    Vec<SimpleRow>,
))
    requires
        old(table).wf(),
        statement.row.wf(),
    ensures
        final(table).wf(),
        final(table).file_ok == old(table).file_ok,
        statement.statement_type is Invalid ==> r.0 is ExecuteFailed && *final(table) == *old(table)
            && r.1@.len() == 0,
        statement.statement_type is Select ==> r.0 is ExecuteSuccess && *final(table) == *old(table)
            && row_views(r.1@) == old(table)@ && (forall|i: int|
            0 <= i < r.1@.len() ==> (#[trigger] r.1@[i]).wf()),
        statement.statement_type is Insert ==> r.1@.len() == 0 && (old(table)@.len()
            >= TABLE_MAX_ROWS ==> r.0 is ExecuteTableFull && *final(table) == *old(table)) && (old(
            table,
        )@.len() < TABLE_MAX_ROWS ==> r.0 is ExecuteSuccess && final(table)@ == old(table)@.push(
            statement.row@,
        )),
{
    match statement.statement_type {
        StatementType::Invalid => (ExecuteResult::ExecuteFailed, Vec::new()),
        StatementType::Insert => {
            let exec_result = execute_insert(statement, table);
            (exec_result, Vec::new())
        },
        StatementType::Select => execute_select(statement, table),
    }
}

/// The table contents after trying to insert each of `rows` in turn,
/// starting from `t`: each insert appends its row when the table is below
/// capacity and otherwise leaves the table unchanged, as `execute_insert`
/// does.
pub open spec fn table_after_inserts(t: Seq<RowAbs>, rows: Seq<RowAbs>) -> Seq<RowAbs>
    decreases rows.len(),
{
    if rows.len() == 0 {
        t
    } else {
        let prev = table_after_inserts(t, rows.drop_last());
        if prev.len() < TABLE_MAX_ROWS {
            prev.push(rows.last())
        } else {
            prev
        }
    }
}

/// Whether every insert in the run succeeds: each one finds the table below
/// capacity, as `execute_insert` requires for `ExecuteSuccess`.
pub open spec fn inserts_all_succeed(t: Seq<RowAbs>, rows: Seq<RowAbs>) -> bool
    decreases rows.len(),
{
    if rows.len() == 0 {
        true
    } else {
        inserts_all_succeed(t, rows.drop_last()) && table_after_inserts(t, rows.drop_last()).len()
            < TABLE_MAX_ROWS
    }
}

/// Running inserts from any starting table: the count grows one per insert
/// up to capacity and then stops; the run succeeds throughout exactly when
/// it never passes capacity; and a fully successful run appends exactly its
/// rows, in order.
pub proof fn lemma_inserts_from(t: Seq<RowAbs>, rows: Seq<RowAbs>)
    requires
        t.len() <= TABLE_MAX_ROWS,
    ensures
        t.len() + rows.len() <= TABLE_MAX_ROWS ==> table_after_inserts(t, rows).len() == t.len()
            + rows.len(),
        t.len() + rows.len() > TABLE_MAX_ROWS ==> table_after_inserts(t, rows).len()
            == TABLE_MAX_ROWS,
        inserts_all_succeed(t, rows) <==> t.len() + rows.len() <= TABLE_MAX_ROWS,
        t.len() + rows.len() <= TABLE_MAX_ROWS ==> table_after_inserts(t, rows) == t + rows,
    decreases rows.len(),
{
    if rows.len() == 0 {
        assert(t + rows =~= t);
    } else {
        let front = rows.drop_last();
        lemma_inserts_from(t, front);
        if t.len() + rows.len() <= TABLE_MAX_ROWS {
            assert((t + front).push(rows.last()) =~= t + rows);
        }
    }
}

/// Bounded insertion: starting from an empty table, a run in which every
/// insert succeeds has at most `TABLE_MAX_ROWS` inserts and builds exactly
/// the inserted rows; a longer run finds the table at capacity, where
/// `execute_insert` answers `ExecuteTableFull`.
pub proof fn lemma_bounded_insertion(rows: Seq<RowAbs>)
    ensures
        inserts_all_succeed(Seq::<RowAbs>::empty(), rows) <==> rows.len() <= TABLE_MAX_ROWS,
        table_after_inserts(Seq::<RowAbs>::empty(), rows).len() <= TABLE_MAX_ROWS,
        rows.len() <= TABLE_MAX_ROWS ==> table_after_inserts(Seq::<RowAbs>::empty(), rows) == rows,
{
    lemma_inserts_from(Seq::<RowAbs>::empty(), rows);
    if rows.len() <= TABLE_MAX_ROWS {
        assert(Seq::<RowAbs>::empty() + rows =~= rows);
    }
}

} // verus!
