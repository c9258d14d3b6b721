//! Storage and command-execution core of a single-user, single-table,
//! embedded relational database.
//!
//! Rows of a fixed schema (`id`, `username`, `email`) are kept in memory in
//! insertion order and persisted to a single backing file as a contiguous
//! stream of fixed-width 291-byte slots. A slot whose id field is zero marks
//! the end of the data during recovery. The surrounding program (prompt,
//! line reading, file handling) lives outside this library and talks to it
//! through plain values: byte strings in, rows and result codes out.

use vstd::prelude::*;

pub mod codec;
pub mod cursor;
pub mod executor;
pub mod row;
pub mod state;
pub mod statement;
pub mod status;
pub mod table;

verus! {

/// Width of the id field in a slot, in bytes.
pub const ID_SIZE: usize = 4;

/// Width of the username field in a slot, in bytes.
pub const USERNAME_SIZE: usize = 32;

/// Width of the email field in a slot, in bytes.
pub const EMAIL_SIZE: usize = 255;

/// Byte offset of the id field within a slot.
pub const ID_OFFSET: usize = 0;

/// Byte offset of the username field within a slot.
pub const USERNAME_OFFSET: usize = ID_OFFSET + ID_SIZE;

/// Byte offset of the email field within a slot.
pub const EMAIL_OFFSET: usize = USERNAME_OFFSET + USERNAME_SIZE;

/// Width of one row slot: 291 bytes.
pub const ROW_SIZE: usize = ID_SIZE + USERNAME_SIZE + EMAIL_SIZE;

/// Size of a page of the backing file, in bytes.
pub const PAGE_SIZE: usize = 4096;

/// Number of pages the backing file reserves room for.
pub const TABLE_MAX_PAGES: usize = 100;

/// Rows that fit in one page: 14.
pub const ROWS_PER_PAGE: usize = PAGE_SIZE / ROW_SIZE;

/// Capacity of the table: 1400 rows.
pub const TABLE_MAX_ROWS: usize = ROWS_PER_PAGE * TABLE_MAX_PAGES;

/// Number of bytes the backing file is pre-extended to on first creation.
/// The page-oriented reservation formula deliberately yields more room than
/// `TABLE_MAX_ROWS * ROW_SIZE`; the file layout depends on this exact value.
pub const INITIAL_FILE_SIZE: u64 = 4096u64 * 100u64 * 291u64 / 14u64;

} // verus!
