use rsqlite::buffer::InputBuffer;
use rsqlite::session::process_line;
use rsqlite::table::file::FileImage;
use rsqlite::table::row::Row;
use rsqlite::table::Table;
use rsqlite::vm::statement::{Statement, StatementType};
use rsqlite::vm::text::{parse_id, split_fields};
use rsqlite::vm::{
    do_meta_command, execute_insert, execute_select, execute_statement, prepare_insert,
    prepare_statement, starts_with, ExecuteResult, MetaCommandResult, PrepareResult,
};

fn line(text: &str) -> InputBuffer {
    InputBuffer { buffer: text.to_string() }
}

fn fresh() -> Table {
    Table::db_open(FileImage::new(Vec::new()))
}

fn prepared(text: &str) -> (PrepareResult, Statement) {
    let mut statement = Statement::new();
    let result = prepare_statement(&line(text), &mut statement);
    (result, statement)
}

fn text_of(field: &[u8]) -> &[u8] {
    let end = field.iter().rposition(|b| *b != 0).map_or(0, |i| i + 1);
    &field[..end]
}

fn shown(reply_output: Vec<u8>) -> String {
    String::from_utf8(reply_output).unwrap()
}

#[test]
fn new_input_buffer_is_empty() {
    assert_eq!(InputBuffer::new().buffer, "");
}

#[test]
fn new_statement_is_empty() {
    let statement = Statement::new();
    assert_eq!(statement.stmt_type, StatementType::Empty);
    assert_eq!(statement.row_to_insert.id, 0);
    assert_eq!(statement.row_to_insert.username, [0u8; 32]);
    assert_eq!(statement.row_to_insert.email, [0u8; 255]);
}

#[test]
fn split_fields_cuts_at_every_separator() {
    let parts = |s: &'static str| -> Vec<Vec<u8>> {
        split_fields(s.as_bytes(), b' ').into_iter().map(|f| f.to_vec()).collect()
    };
    assert_eq!(parts("insert 1 a b"), vec![b"insert".to_vec(), b"1".to_vec(), b"a".to_vec(), b"b".to_vec()]);
    assert_eq!(parts(""), vec![Vec::<u8>::new()]);
    assert_eq!(parts("abc"), vec![b"abc".to_vec()]);
    assert_eq!(parts(" "), vec![Vec::<u8>::new(), Vec::new()]);
    assert_eq!(parts("a  b"), vec![b"a".to_vec(), Vec::new(), b"b".to_vec()]);
    assert_eq!(parts("a "), vec![b"a".to_vec(), Vec::new()]);
    assert_eq!(parts(" a"), vec![Vec::new(), b"a".to_vec()]);
}

#[test]
fn parse_id_reads_decimal_numbers() {
    assert_eq!(parse_id(b"0"), Some(0));
    assert_eq!(parse_id(b"1"), Some(1));
    assert_eq!(parse_id(b"42"), Some(42));
    assert_eq!(parse_id(b"+42"), Some(42));
    assert_eq!(parse_id(b"007"), Some(7));
    assert_eq!(parse_id(b"4294967295"), Some(u32::MAX));
    assert_eq!(parse_id(b"00000000004294967295"), Some(u32::MAX));
}

#[test]
fn parse_id_refuses_what_is_no_number() {
    assert_eq!(parse_id(b""), None);
    assert_eq!(parse_id(b"+"), None);
    assert_eq!(parse_id(b"-"), None);
    assert_eq!(parse_id(b"-1"), None);
    assert_eq!(parse_id(b"-0"), None);
    assert_eq!(parse_id(b"++1"), None);
    assert_eq!(parse_id(b"1a"), None);
    assert_eq!(parse_id(b"a1"), None);
    assert_eq!(parse_id(b" 1"), None);
    assert_eq!(parse_id(b"1.5"), None);
    assert_eq!(parse_id(b"4294967296"), None);
    assert_eq!(parse_id(b"99999999999999999999999"), None);
    assert_eq!(parse_id(b"42949672950"), None);
}

#[test]
fn parse_id_agrees_with_the_standard_parser() {
    for text in ["0", "12", "+3", "-3", "", "+", "4294967295", "4294967296", "0x10", "1_000", "٣"] {
        assert_eq!(parse_id(text.as_bytes()), text.parse::<u32>().ok(), "{}", text);
    }
}

#[test]
fn starts_with_compares_the_first_bytes() {
    assert!(starts_with(b"insert 1", b"insert"));
    assert!(starts_with(b"insert", b"insert"));
    assert!(!starts_with(b"inser", b"insert"));
    assert!(!starts_with(b"Insert 1", b"insert"));
    assert!(starts_with(b"abc", b""));
}

#[test]
fn prepare_insert_statement() {
    let (result, statement) = prepared("insert 1 alice foo@example.com");
    assert_eq!(result, PrepareResult::Success);
    assert_eq!(statement.stmt_type, StatementType::Insert);
    assert_eq!(statement.row_to_insert.id, 1);
    assert_eq!(text_of(&statement.row_to_insert.username), b"alice");
    assert_eq!(text_of(&statement.row_to_insert.email), b"foo@example.com");
    assert!(statement.row_to_insert.username[5..].iter().all(|b| *b == 0));
    assert!(statement.row_to_insert.email[15..].iter().all(|b| *b == 0));
}

#[test]
fn prepare_insert_ignores_further_fields() {
    let (result, statement) = prepared("insert 2 bob bob@x.org and more");
    assert_eq!(result, PrepareResult::Success);
    assert_eq!(statement.row_to_insert.id, 2);
    assert_eq!(text_of(&statement.row_to_insert.email), b"bob@x.org");
}

#[test]
fn prepare_select_statement() {
    let (result, statement) = prepared("select");
    assert_eq!(result, PrepareResult::Success);
    assert_eq!(statement.stmt_type, StatementType::Select);
    let (result, statement) = prepared("select * from users");
    assert_eq!(result, PrepareResult::Success);
    assert_eq!(statement.stmt_type, StatementType::Select);
}

#[test]
fn prepare_unrecognized_statement() {
    for text in ["update 1", "delete", "abc", "", "inser", "INSERT 1 a b", "selec"] {
        let (result, statement) = prepared(text);
        assert_eq!(result, PrepareResult::UnrecognizedStatement, "{}", text);
        assert_eq!(statement.stmt_type, StatementType::Empty);
    }
}

#[test]
fn prepare_insert_with_too_few_fields() {
    for text in ["insert", "insert 1", "insert 1 alice", "insert1 alice foo"] {
        let (result, statement) = prepared(text);
        assert_eq!(result, PrepareResult::SyntaxError, "{}", text);
        assert_eq!(statement.stmt_type, StatementType::Insert);
        assert_eq!(statement.row_to_insert.id, 0);
    }
}

#[test]
fn prepare_insert_with_bad_id() {
    for text in [
        "insert -1 test test@example.com",
        "insert abc test test@example.com",
        "insert  1 test test@example.com",
        "insert 4294967296 test test@example.com",
        "insert 1.0 test test@example.com",
    ] {
        let (result, statement) = prepared(text);
        assert_eq!(result, PrepareResult::NegativeID, "{}", text);
        assert_eq!(statement.stmt_type, StatementType::Insert);
        assert_eq!(statement.row_to_insert.id, 0);
        assert_eq!(statement.row_to_insert.username, [0u8; 32]);
    }
}

#[test]
fn prepare_insert_with_long_strings() {
    let name33 = "a".repeat(33);
    let name32 = "a".repeat(32);
    let mail256 = "b".repeat(256);
    let mail255 = "b".repeat(255);

    let (result, statement) = prepared(&format!("insert 7 {} {}", name33, mail255));
    assert_eq!(result, PrepareResult::StringTooLong);
    assert_eq!(statement.row_to_insert.id, 7);
    assert_eq!(statement.row_to_insert.username, [0u8; 32]);
    assert_eq!(statement.row_to_insert.email, [0u8; 255]);

    let (result, statement) = prepared(&format!("insert 7 {} {}", name32, mail256));
    assert_eq!(result, PrepareResult::StringTooLong);
    assert_eq!(statement.row_to_insert.id, 7);
    assert_eq!(statement.row_to_insert.username, [b'a'; 32]);
    assert_eq!(statement.row_to_insert.email, [0u8; 255]);

    let (result, statement) = prepared(&format!("insert 7 {} {}", name32, mail255));
    assert_eq!(result, PrepareResult::Success);
    assert_eq!(statement.row_to_insert.username, [b'a'; 32]);
    assert_eq!(statement.row_to_insert.email, [b'b'; 255]);
}

#[test]
fn prepare_insert_counts_bytes_not_characters() {
    let name = "é".repeat(16);
    let (result, statement) = prepared(&format!("insert 1 {} x", name));
    assert_eq!(result, PrepareResult::Success);
    assert_eq!(&statement.row_to_insert.username[..], name.as_bytes());
    let (result, _) = prepared(&format!("insert 1 {}a x", name));
    assert_eq!(result, PrepareResult::StringTooLong);
}

#[test]
fn prepare_insert_from_fields() {
    let args: Vec<&[u8]> = vec![b"insert", b"12", b"carol", b"carol@example.com"];
    let mut statement = Statement::new();
    assert_eq!(prepare_insert(&args, &mut statement), PrepareResult::Success);
    assert_eq!(statement.stmt_type, StatementType::Empty);
    assert_eq!(statement.row_to_insert.id, 12);
    assert_eq!(text_of(&statement.row_to_insert.username), b"carol");

    let args: Vec<&[u8]> = vec![b"insert", b"13", b"", b""];
    assert_eq!(prepare_insert(&args, &mut statement), PrepareResult::Success);
    assert_eq!(statement.row_to_insert.id, 13);
    assert_eq!(statement.row_to_insert.username, [0u8; 32]);
    assert_eq!(statement.row_to_insert.email, [0u8; 255]);
}

#[test]
fn prepare_insert_overwrites_what_the_statement_held() {
    let mut statement = Statement::new();
    let args: Vec<&[u8]> = vec![b"insert", b"1", b"longer-name", b"first@example.com"];
    assert_eq!(prepare_insert(&args, &mut statement), PrepareResult::Success);
    let args: Vec<&[u8]> = vec![b"insert", b"2", b"ann", b"a@b"];
    assert_eq!(prepare_insert(&args, &mut statement), PrepareResult::Success);
    assert_eq!(statement.row_to_insert.id, 2);
    assert_eq!(text_of(&statement.row_to_insert.username), b"ann");
    assert_eq!(text_of(&statement.row_to_insert.email), b"a@b");
}

#[test]
fn execute_insert_and_select() {
    let mut table = fresh();
    let (_, statement) = prepared("insert 1 user1 user1@example.com");
    assert_eq!(execute_insert(&statement, &mut table), ExecuteResult::Success);
    let (_, statement) = prepared("insert 2 user2 user2@example.com");
    let (result, lines) = execute_statement(&statement, &mut table);
    assert_eq!(result, ExecuteResult::Success);
    assert!(lines.is_empty());
    assert_eq!(table.num_rows, 2);

    let (result, lines) = execute_select(&mut table);
    assert_eq!(result, ExecuteResult::Success);
    assert_eq!(
        lines,
        vec![b"(1, user1, user1@example.com)".to_vec(), b"(2, user2, user2@example.com)".to_vec()]
    );

    let (_, statement) = prepared("select");
    let (result, lines) = execute_statement(&statement, &mut table);
    assert_eq!(result, ExecuteResult::Success);
    assert_eq!(lines.len(), 2);
}

#[test]
fn execute_insert_on_a_full_table() {
    let mut table = fresh();
    let (_, statement) = prepared("insert 1 user1 user1@example.com");
    for _ in 0..1400 {
        assert_eq!(execute_insert(&statement, &mut table), ExecuteResult::Success);
    }
    assert_eq!(execute_insert(&statement, &mut table), ExecuteResult::TableFull);
    assert_eq!(table.num_rows, 1400);
    let (result, lines) = execute_statement(&statement, &mut table);
    assert_eq!(result, ExecuteResult::TableFull);
    assert!(lines.is_empty());
    assert_eq!(table.num_rows, 1400);
}

#[test]
fn execute_empty_statement() {
    let mut table = fresh();
    let (result, lines) = execute_statement(&Statement::new(), &mut table);
    assert_eq!(result, ExecuteResult::Success);
    assert_eq!(lines, vec![b"Empty statement".to_vec()]);
    assert_eq!(table.num_rows, 0);
}

#[test]
fn execute_select_on_an_empty_table() {
    let mut table = fresh();
    let (result, lines) = execute_select(&mut table);
    assert_eq!(result, ExecuteResult::Success);
    assert!(lines.is_empty());
}

#[test]
fn meta_command_exit_closes_the_table() {
    let mut table = fresh();
    table.insert(Row { id: 9, username: [b'u'; 32], email: [b'e'; 255] }).unwrap();
    assert_eq!(do_meta_command(&line(".exit"), &mut table), MetaCommandResult::Exit);
    assert_eq!(table.pager.file.bytes.len(), 291);
    assert_eq!(&table.pager.file.bytes[0..4], &9u32.to_ne_bytes()[..]);
    assert!(table.pager.pages[0].is_empty());
}

#[test]
fn meta_command_unrecognized() {
    let mut table = fresh();
    table.insert(Row::new()).unwrap();
    for text in [".foo", ".exit ", ".exi", ".", ".EXIT", "exit"] {
        assert_eq!(
            do_meta_command(&line(text), &mut table),
            MetaCommandResult::UnrecognizedCommand,
            "{}",
            text
        );
    }
    assert!(table.pager.file.bytes.is_empty());
    assert_eq!(table.pager.pages[0].len(), 291);
}

#[test]
fn process_line_replies() {
    let mut table = fresh();
    let mut say = |text: &str| {
        let reply = process_line(&line(text), &mut table);
        (shown(reply.output), reply.exit)
    };
    assert_eq!(say(""), (String::new(), false));
    assert_eq!(say(".foo"), ("Unrecognized command '.foo'.\n".to_string(), false));
    assert_eq!(say("foo bar"), ("Unrecognized keyword at the start of 'foo bar'.\n".to_string(), false));
    assert_eq!(say("ab"), ("Unrecognized keyword at the start of 'ab'.\n".to_string(), false));
    assert_eq!(say("insert 1"), ("Syntax error. Could not parse statement.\n".to_string(), false));
    assert_eq!(say("insert -1 a b"), ("ID must be positive.\n".to_string(), false));
    assert_eq!(
        say(&format!("insert 1 {} b", "a".repeat(33))),
        ("String is too long.\n".to_string(), false)
    );
    assert_eq!(say("select"), ("Executed.\n".to_string(), false));
    assert_eq!(say("insert 1 a b"), ("Executed.\n".to_string(), false));
    assert_eq!(say("insert 2 c d"), ("Executed.\n".to_string(), false));
    assert_eq!(say("select"), ("(1, a, b)\n(2, c, d)\nExecuted.\n".to_string(), false));
    assert_eq!(say(".exit"), (String::new(), true));
}

#[test]
fn process_line_reports_a_full_table() {
    let mut table = fresh();
    for _ in 0..1400 {
        let reply = process_line(&line("insert 1 a b"), &mut table);
        assert_eq!(reply.output, b"Executed.\n".to_vec());
    }
    let reply = process_line(&line("insert 1 a b"), &mut table);
    assert_eq!(shown(reply.output), "Error: Table full.\n");
    assert!(!reply.exit);
    assert_eq!(table.num_rows, 1400);
}
