//! One step of a session: a line comes in, and what is to be shown goes out.

use crate::ascii::{DOT, NEWLINE};
use crate::buffer::InputBuffer;
use crate::table::file::FileRange;
use crate::table::transfer::{
    agree, lemma_closed_same_cache, lemma_insert_reads_suffice, lemma_scan_reads_suffice,
};
use crate::table::{Table, TableView};
use crate::vm::statement::{Statement, StatementType, StatementView};
use crate::table::row::RowView;
use crate::vm::{
    command_exit, do_meta_command, execute_statement, executed, is_exit_command, line_views,
    prepare_statement, statement_prepared, ExecuteResult, MetaCommandResult, PrepareResult,
};
use vstd::prelude::*;
use vstd::string::StringSliceAdditionalSpecFns;

verus! {

/// What a line of input leads to.
pub struct Reply {
    /// The text to show, each line of it ended by a newline.
    pub output: Vec<u8>,
    /// The table was closed, and the session ends.
    pub exit: bool,
}

/// `lines`, each followed by a newline, one after the other.
pub open spec fn joined(lines: Seq<Seq<u8>>) -> Seq<u8>
    decreases lines.len(),
{
    if lines.len() == 0 {
        Seq::empty()
    } else {
        joined(lines.drop_last()) + lines.last() + seq![NEWLINE]
    }
}

/// The empty statement, from which every line is prepared.
pub open spec fn empty_statement() -> StatementView {
    StatementView { stmt_type: StatementType::Empty, row_to_insert: RowView::empty() }
}

/// What is shown for a line that is no statement.
pub open spec fn refusal(r: PrepareResult, line: Seq<u8>) -> Seq<u8> {
    match r {
        PrepareResult::Success => Seq::empty(),
        PrepareResult::UnrecognizedStatement => "Unrecognized keyword at the start of '".spec_bytes()
            + line + "'.\n".spec_bytes(),
        PrepareResult::SyntaxError => "Syntax error. Could not parse statement.\n".spec_bytes(),
        PrepareResult::StringTooLong => "String is too long.\n".spec_bytes(),
        PrepareResult::NegativeID => "ID must be positive.\n".spec_bytes(),
    }
}

/// What is shown for the outcome of a statement.
pub open spec fn verdict(r: ExecuteResult) -> Seq<u8> {
    match r {
        ExecuteResult::Success => "Executed.\n".spec_bytes(),
        ExecuteResult::TableFull => "Error: Table full.\n".spec_bytes(),
    }
}

/// What a line leads to on a table: the text to show, whether the session
/// ends, and the table afterwards. The empty line does nothing. A line that
/// starts with a dot is a command. Any other line is prepared as a
/// statement and, if that succeeds, run.
pub open spec fn processed(line: Seq<u8>, before: TableView) -> (Seq<u8>, bool, TableView) {
    if line.len() == 0 {
        (Seq::empty(), false, before)
    } else if line[0] == DOT {
        if line == command_exit() {
            (Seq::empty(), true, before.closed())
        } else {
            ("Unrecognized command '".spec_bytes() + line + "'.\n".spec_bytes(), false, before)
        }
    } else {
        let (prepared, statement) = statement_prepared(line, empty_statement());
        if prepared == PrepareResult::Success {
            let (result, lines, after) = executed(statement, before);
            (joined(lines) + verdict(result), false, after)
        } else {
            (refusal(prepared, line), false, before)
        }
    }
}

/// What passes between the file and the table for one line of input.
pub struct Transfers {
    /// The pieces of the file that the line makes the table read.
    pub reads: Vec<FileRange>,
    /// The pieces of the file that the line makes the table write.
    pub writes: Vec<FileRange>,
}

/// The pieces of the file that a line makes a table read, and those that it
/// makes the table write. An insert that has room reads the page of the new
/// row, a select reads every page that holds a row, both only where the
/// page is yet to be loaded. The command that ends the session writes every
/// resident page that holds a row. No other line touches the file.
pub open spec fn planned(line: Seq<u8>, before: TableView) -> (Seq<FileRange>, Seq<FileRange>) {
    if line.len() == 0 {
        (Seq::empty(), Seq::empty())
    } else if line[0] == DOT {
        if line == command_exit() {
            (Seq::empty(), before.close_writes())
        } else {
            (Seq::empty(), Seq::empty())
        }
    } else {
        let (prepared, statement) = statement_prepared(line, empty_statement());
        if prepared == PrepareResult::Success {
            match statement.stmt_type {
                StatementType::Insert => (before.insert_reads(), Seq::empty()),
                StatementType::Select => (before.scan_reads(), Seq::empty()),
                StatementType::Empty => (Seq::empty(), Seq::empty()),
            }
        } else {
            (Seq::empty(), Seq::empty())
        }
    }
}

/// Says which pieces of the file `process_line` reads for the line, and
/// which it writes. Nothing is done to the table.
pub fn transfers(input_buffer: &InputBuffer, table: &Table) -> (plan: Transfers)
    requires
        table@.pager.wf(),
    ensures
        (plan.reads@, plan.writes@) == planned(input_buffer.bytes(), table@),
{
    let line = input_buffer.buffer.as_str().as_bytes();
    if line.len() == 0 {
        return Transfers { reads: Vec::new(), writes: Vec::new() };
    }
    if line[0] == DOT {
        if is_exit_command(input_buffer) {
            return Transfers { reads: Vec::new(), writes: table.close_writes() };
        }
        return Transfers { reads: Vec::new(), writes: Vec::new() };
    }
    let mut statement = Statement::new();
    match prepare_statement(input_buffer, &mut statement) {
        PrepareResult::Success => {},
        _ => {
            return Transfers { reads: Vec::new(), writes: Vec::new() };
        },
    }
    match statement.stmt_type {
        StatementType::Insert => Transfers { reads: table.insert_reads(), writes: Vec::new() },
        StatementType::Select => Transfers { reads: table.scan_reads(), writes: Vec::new() },
        StatementType::Empty => Transfers { reads: Vec::new(), writes: Vec::new() },
    }
}

/// What a line reads is all that it needs of the file. Take two tables with
/// the same cache whose files are the same in the pieces that the line
/// reads: the line reads and writes the same pieces on both, shows the same
/// text, ends the session on both or on neither, and leaves both with the
/// same cache.
pub proof fn lemma_reads_suffice(line: Seq<u8>, a: TableView, b: TableView)
    requires
        a.wf(),
        a.same_cache(b),
        agree(a.pager.file, b.pager.file, planned(line, a).0),
    ensures
        planned(line, b) == planned(line, a),
        processed(line, b).0 == processed(line, a).0,
        processed(line, b).1 == processed(line, a).1,
        processed(line, b).2.same_cache(processed(line, a).2),
{
    if line.len() == 0 {
    } else if line[0] == DOT {
        if line == command_exit() {
            lemma_closed_same_cache(a, b);
        }
    } else {
        let (prepared, statement) = statement_prepared(line, empty_statement());
        if prepared == PrepareResult::Success {
            match statement.stmt_type {
                StatementType::Insert => {
                    if a.num_rows < crate::constants::TABLE_MAX_ROWS {
                        lemma_insert_reads_suffice(a, b, statement.row_to_insert.encoded());
                    }
                },
                StatementType::Select => {
                    lemma_scan_reads_suffice(a, b);
                },
                StatementType::Empty => {},
            }
        }
    }
}

/// Appends the bytes of `text` to `out`.
fn push_text(out: &mut Vec<u8>, text: &str)
    ensures
        final(out)@ == old(out)@ + text.spec_bytes(),
{
    out.extend_from_slice(text.as_bytes());
    assert(out@ =~= old(out)@ + text.spec_bytes());
}

/// Takes one line of input through the session: runs the command or the
/// statement that it holds, and says what is to be shown for it.
pub fn process_line(input_buffer: &InputBuffer, table: &mut Table) -> (reply: Reply)
    requires
        old(table)@.wf(),
    ensures
        (reply.output@, reply.exit, final(table)@) == processed(
            input_buffer.bytes(),
            old(table)@,
        ),
        !reply.exit ==> final(table)@.wf(),
{
    let mut output: Vec<u8> = Vec::new();
    let line = input_buffer.buffer.as_str().as_bytes();
    if line.len() == 0 {
        return Reply { output, exit: false };
    }
    if line[0] == DOT {
        match do_meta_command(input_buffer, table) {
            MetaCommandResult::Exit => {
                return Reply { output, exit: true };
            },
            MetaCommandResult::UnrecognizedCommand => {
                push_text(&mut output, "Unrecognized command '");
                output.extend_from_slice(line);
                push_text(&mut output, "'.\n");
                assert(output@ =~= "Unrecognized command '".spec_bytes() + line@
                    + "'.\n".spec_bytes());
                return Reply { output, exit: false };
            },
        }
    }
    let mut statement = Statement::new();
    match prepare_statement(input_buffer, &mut statement) {
        PrepareResult::Success => {},
        PrepareResult::UnrecognizedStatement => {
            push_text(&mut output, "Unrecognized keyword at the start of '");
            output.extend_from_slice(line);
            push_text(&mut output, "'.\n");
            assert(output@ =~= "Unrecognized keyword at the start of '".spec_bytes() + line@
                + "'.\n".spec_bytes());
            return Reply { output, exit: false };
        },
        PrepareResult::SyntaxError => {
            push_text(&mut output, "Syntax error. Could not parse statement.\n");
            return Reply { output, exit: false };
        },
        PrepareResult::StringTooLong => {
            push_text(&mut output, "String is too long.\n");
            return Reply { output, exit: false };
        },
        PrepareResult::NegativeID => {
            push_text(&mut output, "ID must be positive.\n");
            return Reply { output, exit: false };
        },
    }
    let (result, lines) = execute_statement(&statement, table);
    let mut i: usize = 0;
    assert(line_views(lines@).take(0) =~= Seq::<Seq<u8>>::empty());
    while i < lines.len()
        invariant
            i <= lines@.len(),
            output@ == joined(line_views(lines@).take(i as int)),
        decreases lines@.len() - i,
    {
        output.extend_from_slice(lines[i].as_slice());
        output.push(NEWLINE);
        proof {
            let shown = line_views(lines@).take(i + 1);
            assert(shown.drop_last() =~= line_views(lines@).take(i as int));
            assert(shown.last() == lines@[i as int]@);
            assert(output@ =~= joined(shown.drop_last()) + shown.last() + seq![NEWLINE]);
        }
        i += 1;
    }
    assert(line_views(lines@).take(i as int) =~= line_views(lines@));
    match result {
        ExecuteResult::Success => {
            push_text(&mut output, "Executed.\n");
        },
        ExecuteResult::TableFull => {
            push_text(&mut output, "Error: Table full.\n");
        },
    }
    Reply { output, exit: false }
}

} // verus!
