//! Statements: how a line becomes one, and what running it does.

pub mod statement;
pub mod text;

use crate::ascii::SPACE;
use crate::buffer::InputBuffer;
use crate::constants::{EMAIL_SIZE, TABLE_MAX_ROWS, USERNAME_SIZE};
use crate::table::row::{padded, Row, RowView};
use crate::table::{Table, TableView};
use crate::vm::statement::{Statement, StatementType, StatementView};
use crate::vm::text::{field_views, parse_id, parse_u32, split, split_fields};
use vstd::prelude::*;
use vstd::string::StringSliceAdditionalSpecFns;

verus! {

/// How running a statement ended.
#[derive(Clone, Copy, Debug, PartialEq, Eq, Structural)]
pub enum ExecuteResult {
    Success,
    TableFull,
}

/// How a command that starts with a dot ended.
#[derive(Clone, Copy, Debug, PartialEq, Eq, Structural)]
pub enum MetaCommandResult {
    /// The table was closed and the session is over.
    Exit,
    UnrecognizedCommand,
}

/// How turning a line into a statement ended.
#[derive(Clone, Copy, Debug, PartialEq, Eq, Structural)]
pub enum PrepareResult {
    Success,
    UnrecognizedStatement,
    SyntaxError,
    StringTooLong,
    NegativeID,
}

/// The word with which an insert starts.
pub open spec fn keyword_insert() -> Seq<u8> {
    "insert".spec_bytes()
}

/// The word with which a select starts.
pub open spec fn keyword_select() -> Seq<u8> {
    "select".spec_bytes()
}

/// The command that ends a session.
pub open spec fn command_exit() -> Seq<u8> {
    ".exit".spec_bytes()
}

/// `line` starts with `word`.
pub open spec fn begins_with(line: Seq<u8>, word: Seq<u8>) -> bool {
    line.len() >= word.len() && line.take(word.len() as int) == word
}

/// What `prepare_insert` makes of the fields of a line and the statement
/// it is given. The id is taken first, then the username, then the email;
/// what was taken before a field is refused stays in the statement.
pub open spec fn insert_prepared(args: Seq<Seq<u8>>, before: StatementView) -> (
    PrepareResult,
    StatementView,
) {
    match parse_u32(args[1]) {
        None => (PrepareResult::NegativeID, before),
        Some(id) => {
            let with_id = StatementView {
                row_to_insert: RowView { id, ..before.row_to_insert },
                ..before
            };
            if args[2].len() > USERNAME_SIZE {
                (PrepareResult::StringTooLong, with_id)
            } else {
                let with_username = StatementView {
                    row_to_insert: RowView {
                        username: padded(args[2], USERNAME_SIZE as nat),
                        ..with_id.row_to_insert
                    },
                    ..before
                };
                if args[3].len() > EMAIL_SIZE {
                    (PrepareResult::StringTooLong, with_username)
                } else {
                    (
                        PrepareResult::Success,
                        StatementView {
                            row_to_insert: RowView {
                                email: padded(args[3], EMAIL_SIZE as nat),
                                ..with_username.row_to_insert
                            },
                            ..before
                        },
                    )
                }
            }
        },
    }
}

/// What `prepare_statement` makes of a line and the statement it is given.
pub open spec fn statement_prepared(line: Seq<u8>, before: StatementView) -> (
    PrepareResult,
    StatementView,
) {
    if begins_with(line, keyword_insert()) {
        let typed = StatementView { stmt_type: StatementType::Insert, ..before };
        let args = split(line, SPACE);
        if args.len() < 4 {
            (PrepareResult::SyntaxError, typed)
        } else {
            insert_prepared(args, typed)
        }
    } else if begins_with(line, keyword_select()) {
        (PrepareResult::Success, StatementView { stmt_type: StatementType::Select, ..before })
    } else {
        (PrepareResult::UnrecognizedStatement, before)
    }
}

/// Tells whether `line` starts with `word`.
pub fn starts_with(line: &[u8], word: &[u8]) -> (b: bool)
    ensures
        b == begins_with(line@, word@),
{
    if line.len() < word.len() {
        return false;
    }
    let mut i: usize = 0;
    while i < word.len()
        invariant
            i <= word@.len() <= line@.len(),
            forall|j: int| 0 <= j < i ==> line@[j] == word@[j],
        decreases word@.len() - i,
    {
        if line[i] != word[i] {
            assert(line@.take(word@.len() as int)[i as int] != word@[i as int]);
            return false;
        }
        i += 1;
    }
    assert(line@.take(word@.len() as int) =~= word@);
    true
}

/// Fills `statement` from the fields of an insert: the id from the second
/// field, the username from the third and the email from the fourth.
pub fn prepare_insert(args: &Vec<&[u8]>, statement: &mut Statement) -> (r: PrepareResult)
    requires
        args@.len() >= 4,
    ensures
        (r, final(statement)@) == insert_prepared(field_views(args@), old(statement)@),
{
    statement.row_to_insert.id = match parse_id(args[1]) {
        Some(id) => id,
        None => {
            return PrepareResult::NegativeID;
        },
    };
    let ubytes = args[2];
    let ulen = ubytes.len();
    if ulen > USERNAME_SIZE {
        return PrepareResult::StringTooLong;
    }
    let mut username_bytes = [0u8; USERNAME_SIZE];
    let mut i: usize = 0;
    while i < ulen
        invariant
            i <= ulen == ubytes@.len() <= USERNAME_SIZE,
            forall|j: int| 0 <= j < i ==> username_bytes@[j] == ubytes@[j],
            forall|j: int| i <= j < USERNAME_SIZE ==> username_bytes@[j] == 0,
        decreases ulen - i,
    {
        username_bytes[i] = ubytes[i];
        i += 1;
    }
    assert(username_bytes@ =~= padded(ubytes@, USERNAME_SIZE as nat));
    statement.row_to_insert.username = username_bytes;

    let ebytes = args[3];
    let elen = ebytes.len();
    if elen > EMAIL_SIZE {
        return PrepareResult::StringTooLong;
    }
    let mut email_bytes = [0u8; EMAIL_SIZE];
    let mut i: usize = 0;
    while i < elen
        invariant
            i <= elen == ebytes@.len() <= EMAIL_SIZE,
            forall|j: int| 0 <= j < i ==> email_bytes@[j] == ebytes@[j],
            forall|j: int| i <= j < EMAIL_SIZE ==> email_bytes@[j] == 0,
        decreases elen - i,
    {
        email_bytes[i] = ebytes[i];
        i += 1;
    }
    assert(email_bytes@ =~= padded(ebytes@, EMAIL_SIZE as nat));
    statement.row_to_insert.email = email_bytes;

    PrepareResult::Success
}

/// Turns the line in `input_buffer` into a statement: an insert with its
/// row, or a select.
pub fn prepare_statement(input_buffer: &InputBuffer, statement: &mut Statement) -> (r:
    PrepareResult)
    ensures
        (r, final(statement)@) == statement_prepared(input_buffer.bytes(), old(statement)@),
{
    let line = input_buffer.buffer.as_str().as_bytes();
    if starts_with(line, "insert".as_bytes()) {
        statement.stmt_type = StatementType::Insert;
        let args = split_fields(line, SPACE);
        if args.len() < 4 {
            return PrepareResult::SyntaxError;
        } else {
            return prepare_insert(&args, statement);
        }
    }
    if starts_with(line, "select".as_bytes()) {
        statement.stmt_type = StatementType::Select;
        return PrepareResult::Success;
    }
    PrepareResult::UnrecognizedStatement
}

/// The lines that show `rows`, one for each row.
pub open spec fn lines_of(rows: Seq<RowView>) -> Seq<Seq<u8>> {
    Seq::new(rows.len(), |i: int| rows[i].line())
}

/// The views of `lines`, one for one.
pub open spec fn line_views(lines: Seq<Vec<u8>>) -> Seq<Seq<u8>> {
    Seq::new(lines.len(), |i: int| lines[i]@)
}

/// What running `statement` on a table gives: how it ended, the lines to
/// show before that is said, and the table afterwards.
pub open spec fn executed(statement: StatementView, before: TableView) -> (
    ExecuteResult,
    Seq<Seq<u8>>,
    TableView,
) {
    match statement.stmt_type {
        StatementType::Insert => if before.num_rows >= TABLE_MAX_ROWS {
            (ExecuteResult::TableFull, Seq::empty(), before)
        } else {
            (
                ExecuteResult::Success,
                Seq::empty(),
                before.inserted(statement.row_to_insert.encoded()),
            )
        },
        StatementType::Select => (
            ExecuteResult::Success,
            lines_of(before.rows()),
            before.scanned(),
        ),
        StatementType::Empty => (
            ExecuteResult::Success,
            seq!["Empty statement".spec_bytes()],
            before,
        ),
    }
}

/// Tells whether the line is the command that ends a session.
pub fn is_exit_command(input_buffer: &InputBuffer) -> (b: bool)
    ensures
        b == (input_buffer.bytes() == command_exit()),
{
    let line = input_buffer.buffer.as_str().as_bytes();
    let exit = ".exit".as_bytes();
    assert(line@.take(line@.len() as int) =~= line@);
    line.len() == exit.len() && starts_with(line, exit)
}

/// Runs a command that starts with a dot. `.exit` closes the table; there
/// is no other command.
pub fn do_meta_command(input_buffer: &InputBuffer, table: &mut Table) -> (r: MetaCommandResult)
    requires
        old(table)@.pager.wf(),
        old(table)@.num_rows <= TABLE_MAX_ROWS,
    ensures
        input_buffer.bytes() == command_exit() ==> r == MetaCommandResult::Exit && final(table)@
            == old(table)@.closed(),
        input_buffer.bytes() != command_exit() ==> r == MetaCommandResult::UnrecognizedCommand
            && final(table)@ == old(table)@,
{
    if is_exit_command(input_buffer) {
        table.db_close();
        MetaCommandResult::Exit
    } else {
        MetaCommandResult::UnrecognizedCommand
    }
}

/// Inserts the row of `statement` into the table, if it has room.
pub fn execute_insert(statement: &Statement, table: &mut Table) -> (r: ExecuteResult)
    requires
        old(table)@.wf(),
    ensures
        final(table)@.wf(),
        old(table)@.num_rows >= TABLE_MAX_ROWS ==> r == ExecuteResult::TableFull && final(table)@
            == old(table)@,
        old(table)@.num_rows < TABLE_MAX_ROWS ==> r == ExecuteResult::Success && final(table)@
            == old(table)@.inserted(statement@.row_to_insert.encoded()) && final(table)@.rows()
            == old(table)@.rows().push(statement@.row_to_insert),
{
    let row = Row {
        id: statement.row_to_insert.id,
        username: statement.row_to_insert.username,
        email: statement.row_to_insert.email,
    };
    match table.insert(row) {
        Ok(()) => ExecuteResult::Success,
        Err(_) => ExecuteResult::TableFull,
    }
}

/// Lists the table: one line for each row, in the order of insertion.
pub fn execute_select(table: &mut Table) -> (r: (ExecuteResult, Vec<Vec<u8>>))
    requires
        old(table)@.wf(),
    ensures
        r.0 == ExecuteResult::Success,
        line_views(r.1@) == lines_of(old(table)@.rows()),
        final(table)@ == old(table)@.scanned(),
        final(table)@.wf(),
        final(table)@.rows() == old(table)@.rows(),
{
    let rows = table.scan();
    let mut lines: Vec<Vec<u8>> = Vec::new();
    let mut i: usize = 0;
    while i < rows.len()
        invariant
            i <= rows@.len(),
            lines@.len() == i,
            forall|k: int| 0 <= k < i ==> (#[trigger] lines@[k])@ == rows@[k]@.line(),
        decreases rows@.len() - i,
    {
        lines.push(rows[i].print_row());
        i += 1;
    }
    assert(line_views(lines@) =~= lines_of(crate::table::views(rows@)));
    (ExecuteResult::Success, lines)
}

/// Runs `statement` on the table. The lines of the result are what is to
/// be shown before the outcome is said.
pub fn execute_statement(statement: &Statement, table: &mut Table) -> (r: (
    ExecuteResult,
    Vec<Vec<u8>>,
))
    requires
        old(table)@.wf(),
    ensures
        (r.0, line_views(r.1@), final(table)@) == executed(statement@, old(table)@),
        final(table)@.wf(),
        statement@.stmt_type == StatementType::Insert && r.0 == ExecuteResult::Success
            ==> final(table)@.rows() == old(table)@.rows().push(statement@.row_to_insert),
        statement@.stmt_type != StatementType::Insert
            ==> final(table)@.rows() == old(table)@.rows(),
{
    match statement.stmt_type {
        StatementType::Insert => {
            let result = execute_insert(statement, table);
            let lines: Vec<Vec<u8>> = Vec::new();
            assert(line_views(lines@) =~= Seq::<Seq<u8>>::empty());
            (result, lines)
        },
        StatementType::Select => execute_select(table),
        StatementType::Empty => {
            let mut lines: Vec<Vec<u8>> = Vec::new();
            lines.push(vstd::slice::slice_to_vec("Empty statement".as_bytes()));
            assert(line_views(lines@) =~= seq!["Empty statement".spec_bytes()]);
            (ExecuteResult::Success, lines)
        },
    }
}

} // verus!
