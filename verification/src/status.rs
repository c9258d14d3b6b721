//! Result classifications: one small closed sum type for each stage of
//! handling a line of input.

use vstd::prelude::*;

verus! {

/// What kind of statement a line of input was prepared into.
pub enum StatementType {
    Invalid,
    Insert,
    Select,
}

/// Outcome of handling a meta-command (a line starting with a dot).
pub enum MetaCommandResult {
    MetaCommandSuccess,
    MetaCommandUnrecognized,
}

/// Outcome of preparing a statement from a line of input.
pub enum PreparedStatementResult {
    PreparedStatementSuccess,
    PreparedStatementSyntaxError,
    PreparedStatementUnrecognized,
    PreparedStatementError,
}

/// Outcome of executing a prepared statement against the table.
pub enum ExecuteResult {
    ExecuteSuccess,
    ExecuteFailed,
    ExecuteTableFull,
}

} // verus!
