use sqlite_lite::statement::do_prepared_statements;
use sqlite_lite::statement::parse_u32;
use sqlite_lite::statement::tokenize;
use sqlite_lite::statement::PreparedStatement;
use sqlite_lite::status::PreparedStatementResult;
use sqlite_lite::status::StatementType;

fn prepare(input: &[u8]) -> (PreparedStatementResult, PreparedStatement) {
    let mut statement = PreparedStatement::new();
    let r = do_prepared_statements(&input.to_vec(), &mut statement);
    (r, statement)
}

#[test]
fn insert_line_prepares_successfully() {
    let (r, statement) = prepare(b"INSERT 1 alice alice@example.com");
    assert!(matches!(r, PreparedStatementResult::PreparedStatementSuccess));
    assert!(matches!(statement.statement_type, StatementType::Insert));
    assert_eq!(statement.row.get_id(), 1);
    assert_eq!(statement.row.get_username(), b"alice".to_vec());
    assert_eq!(statement.row.get_email(), b"alice@example.com".to_vec());
}

#[test]
fn select_line_prepares_successfully() {
    let (r, statement) = prepare(b"SELECT");
    assert!(matches!(r, PreparedStatementResult::PreparedStatementSuccess));
    assert!(matches!(statement.statement_type, StatementType::Select));
}

#[test]
fn keywords_are_case_insensitive() {
    let (r, statement) = prepare(b"select");
    assert!(matches!(r, PreparedStatementResult::PreparedStatementSuccess));
    assert!(matches!(statement.statement_type, StatementType::Select));
    let (r, statement) = prepare(b"insert 2 bob bob@e");
    assert!(matches!(r, PreparedStatementResult::PreparedStatementSuccess));
    assert!(matches!(statement.statement_type, StatementType::Insert));
    assert_eq!(statement.row.get_id(), 2);
}

#[test]
fn zero_id_is_a_syntax_error() {
    let (r, _) = prepare(b"INSERT 0 bob bob@e");
    assert!(matches!(r, PreparedStatementResult::PreparedStatementSyntaxError));
}

#[test]
fn non_numeric_id_is_a_syntax_error() {
    let (r, _) = prepare(b"INSERT abc bob bob@e");
    assert!(matches!(r, PreparedStatementResult::PreparedStatementSyntaxError));
}

#[test]
fn overflowing_id_is_a_syntax_error() {
    let (r, _) = prepare(b"INSERT 99999999999 bob bob@e");
    assert!(matches!(r, PreparedStatementResult::PreparedStatementSyntaxError));
}

#[test]
fn too_few_tokens_is_a_syntax_error() {
    let (r, _) = prepare(b"INSERT 1 alice");
    assert!(matches!(r, PreparedStatementResult::PreparedStatementSyntaxError));
}

#[test]
fn overlong_username_is_a_preparation_error() {
    let mut line = b"INSERT 1 ".to_vec();
    line.extend(std::iter::repeat(b'x').take(33));
    line.extend_from_slice(b" a@b");
    let (r, _) = prepare(&line);
    assert!(matches!(r, PreparedStatementResult::PreparedStatementError));
}

#[test]
fn overlong_email_is_a_preparation_error() {
    let mut line = b"INSERT 1 alice ".to_vec();
    line.extend(std::iter::repeat(b'e').take(256));
    let (r, _) = prepare(&line);
    assert!(matches!(r, PreparedStatementResult::PreparedStatementError));
}

#[test]
fn username_and_email_at_their_bounds_prepare() {
    let mut line = b"INSERT 7 ".to_vec();
    line.extend(std::iter::repeat(b'u').take(32));
    line.push(b' ');
    line.extend(std::iter::repeat(b'e').take(255));
    let (r, statement) = prepare(&line);
    assert!(matches!(r, PreparedStatementResult::PreparedStatementSuccess));
    assert_eq!(statement.row.get_username().len(), 32);
    assert_eq!(statement.row.get_email().len(), 255);
}

#[test]
fn unknown_statement_is_unrecognized() {
    let (r, statement) = prepare(b"UPDATE foo");
    assert!(matches!(r, PreparedStatementResult::PreparedStatementUnrecognized));
    assert!(matches!(statement.statement_type, StatementType::Invalid));
}

#[test]
fn extra_tokens_after_email_are_ignored() {
    let (r, statement) = prepare(b"INSERT 3 a b extra tokens");
    assert!(matches!(r, PreparedStatementResult::PreparedStatementSuccess));
    assert_eq!(statement.row.get_username(), b"a".to_vec());
    assert_eq!(statement.row.get_email(), b"b".to_vec());
}

#[test]
fn tokenize_splits_on_runs_of_whitespace() {
    let toks = tokenize(&b"  INSERT  1\talice \r\n bob  ".to_vec());
    let words: Vec<Vec<u8>> = toks;
    assert_eq!(
        words,
        vec![
            b"INSERT".to_vec(),
            b"1".to_vec(),
            b"alice".to_vec(),
            b"bob".to_vec(),
        ]
    );
}

#[test]
fn tokenize_of_blank_input_is_empty() {
    assert_eq!(tokenize(&b"".to_vec()), Vec::<Vec<u8>>::new());
    assert_eq!(tokenize(&b"   ".to_vec()), Vec::<Vec<u8>>::new());
}

#[test]
fn parse_u32_accepts_plain_and_signed_numerals() {
    assert_eq!(parse_u32(&b"123".to_vec()), Some(123));
    assert_eq!(parse_u32(&b"+7".to_vec()), Some(7));
    assert_eq!(parse_u32(&b"0".to_vec()), Some(0));
    assert_eq!(parse_u32(&b"007".to_vec()), Some(7));
    assert_eq!(parse_u32(&b"4294967295".to_vec()), Some(u32::MAX));
}

#[test]
fn parse_u32_rejects_malformed_and_overflowing_numerals() {
    assert_eq!(parse_u32(&b"".to_vec()), None);
    assert_eq!(parse_u32(&b"+".to_vec()), None);
    assert_eq!(parse_u32(&b"12a".to_vec()), None);
    assert_eq!(parse_u32(&b"-1".to_vec()), None);
    assert_eq!(parse_u32(&b"4294967296".to_vec()), None);
    assert_eq!(parse_u32(&b"99999999999999999999".to_vec()), None);
}
