//! A statement: its kind and, for an insert, the row to insert.

use crate::table::row::{Row, RowView};
use vstd::prelude::*;

verus! {

/// The kind of a statement.
#[derive(Clone, Copy, Debug, PartialEq, Eq, Structural)]
pub enum StatementType {
    Insert,
    Select,
    Empty,
}

/// A statement, ready to be run.
pub struct Statement {
    pub stmt_type: StatementType,
    pub row_to_insert: Row,
}

/// What a statement holds, as plain values.
pub struct StatementView {
    pub stmt_type: StatementType,
    pub row_to_insert: RowView,
}

impl View for Statement {
    type V = StatementView;

    open spec fn view(&self) -> StatementView {
        StatementView { stmt_type: self.stmt_type, row_to_insert: self.row_to_insert@ }
    }
}

impl Statement {
    /// Returns the empty statement, which holds the empty row.
    pub fn new() -> (statement: Statement)
        ensures
            statement@ == (StatementView {
                stmt_type: StatementType::Empty,
                row_to_insert: RowView::empty(),
            }),
    {
        Statement { stmt_type: StatementType::Empty, row_to_insert: Row::new() }
    }
}

} // verus!
