use sqlite_lite::executor::execute_insert;
use sqlite_lite::row::SimpleRow;
use sqlite_lite::statement::PreparedStatement;
use sqlite_lite::status::ExecuteResult;
use sqlite_lite::status::StatementType;
use sqlite_lite::table::Table;
use sqlite_lite::TABLE_MAX_ROWS;

fn fresh_table() -> Table {
    Table::new(true, &Vec::new())
}

fn insert_statement(id: u32, username: &[u8], email: &[u8]) -> PreparedStatement {
    let mut statement = PreparedStatement::new();
    statement.statement_type = StatementType::Insert;
    statement.row.set_id(id);
    assert!(statement.row.set_username(&username.to_vec()));
    assert!(statement.row.set_email(&email.to_vec()));
    statement
}

#[test]
fn fresh_table_is_empty() {
    let table = fresh_table();
    assert_eq!(table.num_rows, 0);
    assert!(table.file_ok);
}

#[test]
fn unhealthy_open_gives_empty_unusable_table() {
    let table = Table::new(false, &vec![7u8; 291]);
    assert_eq!(table.num_rows, 0);
    assert!(!table.file_ok);
}

#[test]
fn flush_then_reopen_restores_rows_in_order() {
    let mut table = fresh_table();
    let rows: [(u32, &[u8], &[u8]); 3] = [
        (1, b"alice", b"alice@example.com"),
        (2, b"bob", b"bob@e"),
        (3, b"carol", b"carol@example.org"),
    ];
    for (id, name, email) in rows {
        let r = execute_insert(insert_statement(id, name, email), &mut table);
        assert!(matches!(r, ExecuteResult::ExecuteSuccess));
    }
    let mut image = table.flush_image();
    assert_eq!(image.len(), 3 * 291);
    // the backing file is pre-extended with zeros past the flushed slots
    image.extend(std::iter::repeat(0u8).take(2 * 291));
    let reopened = Table::new(true, &image);
    assert_eq!(reopened.num_rows, 3);
    for (i, (id, name, email)) in rows.iter().enumerate() {
        let row: &SimpleRow = &reopened.rows[i];
        assert_eq!(row.get_id(), *id);
        assert_eq!(row.get_username(), name.to_vec());
        assert_eq!(row.get_email(), email.to_vec());
    }
}

#[test]
fn flush_puts_each_id_at_its_slot_offset() {
    let mut table = fresh_table();
    for id in [10u32, 20, 30] {
        let r = execute_insert(insert_statement(id, b"u", b"e"), &mut table);
        assert!(matches!(r, ExecuteResult::ExecuteSuccess));
    }
    let image = table.flush_image();
    assert_eq!(&image[0..4], &[10, 0, 0, 0]);
    assert_eq!(&image[291..295], &[20, 0, 0, 0]);
    assert_eq!(&image[582..586], &[30, 0, 0, 0]);
}

#[test]
fn recovery_stops_at_zero_id_slot() {
    let mut image = vec![0u8; 3 * 291];
    image[0] = 1;
    image[4] = b'a';
    // slot 1 keeps a zero id: recovery must stop there
    image[2 * 291] = 3;
    let table = Table::new(true, &image);
    assert_eq!(table.num_rows, 1);
    assert_eq!(table.rows[0].get_id(), 1);
}

#[test]
fn recovery_ignores_trailing_partial_slot() {
    let mut image = vec![0u8; 291 + 10];
    image[0] = 1;
    image[291] = 9;
    let table = Table::new(true, &image);
    assert_eq!(table.num_rows, 1);
}

#[test]
fn capacity_bound_holds() {
    let mut table = fresh_table();
    for id in 1..=(TABLE_MAX_ROWS as u32) {
        let r = execute_insert(insert_statement(id, b"u", b"e"), &mut table);
        assert!(matches!(r, ExecuteResult::ExecuteSuccess));
    }
    assert_eq!(table.num_rows, 1400);
    let r = execute_insert(insert_statement(1401, b"u", b"e"), &mut table);
    assert!(matches!(r, ExecuteResult::ExecuteTableFull));
    assert_eq!(table.num_rows, 1400);
}

#[test]
fn write_rows_to_file_skips_empty_and_unhealthy() {
    let empty = fresh_table();
    assert!(empty.write_rows_to_file().is_none());

    let mut unhealthy = Table::new(false, &Vec::new());
    unhealthy.rows.push(insert_statement(1, b"a", b"b").row);
    unhealthy.num_rows = 1;
    assert!(unhealthy.write_rows_to_file().is_none());

    let mut table = fresh_table();
    let r = execute_insert(insert_statement(1, b"a", b"b"), &mut table);
    assert!(matches!(r, ExecuteResult::ExecuteSuccess));
    let image = table.write_rows_to_file().expect("a healthy table with rows flushes");
    assert_eq!(image.len(), 291);
    assert_eq!(&image[0..4], &[1, 0, 0, 0]);
}
