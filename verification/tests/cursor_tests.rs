use sqlite_lite::cursor::Cursor;
use sqlite_lite::executor::execute_insert;
use sqlite_lite::statement::PreparedStatement;
use sqlite_lite::status::ExecuteResult;
use sqlite_lite::status::StatementType;
use sqlite_lite::table::Table;

fn table_with_ids(ids: &[u32]) -> Table {
    let mut table = Table::new(true, &Vec::new());
    for &id in ids {
        let mut statement = PreparedStatement::new();
        statement.statement_type = StatementType::Insert;
        statement.row.set_id(id);
        assert!(statement.row.set_username(&b"u".to_vec()));
        assert!(statement.row.set_email(&b"e".to_vec()));
        let r = execute_insert(statement, &mut table);
        assert!(matches!(r, ExecuteResult::ExecuteSuccess));
    }
    table
}

#[test]
fn traversal_visits_each_row_once_in_order() {
    let table = table_with_ids(&[5, 6, 7]);
    let mut cursor = Cursor::table_start(&table);
    let mut seen: Vec<u32> = Vec::new();
    let mut advances = 0;
    while !cursor.end_of_table {
        seen.push(cursor.row().get_id());
        cursor.advance();
        advances += 1;
    }
    assert_eq!(seen, vec![5, 6, 7]);
    assert_eq!(advances, 3);
    assert!(cursor.end_of_table);
}

#[test]
fn start_of_empty_table_is_already_at_end() {
    let table = table_with_ids(&[]);
    let cursor = Cursor::table_start(&table);
    assert!(cursor.end_of_table);
    assert_eq!(cursor.row_num, 0);
}

#[test]
fn start_of_nonempty_table_is_in_range() {
    let table = table_with_ids(&[1]);
    let cursor = Cursor::table_start(&table);
    assert!(!cursor.end_of_table);
    assert_eq!(cursor.row_num, 0);
}

#[test]
fn table_end_is_one_past_the_last_row() {
    let table = table_with_ids(&[1, 2]);
    let cursor = Cursor::table_end(&table);
    assert!(cursor.end_of_table);
    assert_eq!(cursor.row_num, 2);
}

#[test]
fn advance_raises_flag_exactly_at_count() {
    let table = table_with_ids(&[1, 2]);
    let mut cursor = Cursor::table_start(&table);
    assert!(!cursor.end_of_table);
    cursor.advance();
    assert!(!cursor.end_of_table);
    assert_eq!(cursor.row_num, 1);
    cursor.advance();
    assert!(cursor.end_of_table);
    assert_eq!(cursor.row_num, 2);
}
