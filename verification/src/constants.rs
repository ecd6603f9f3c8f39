//! The sizes that fix the layout of rows, pages and the table.

use vstd::prelude::*;

verus! {

/// Size of a page in bytes, the granule in which the file is read and written.
pub const PAGE_SIZE: u32 = 4096;

/// Maximum number of pages a table can hold.
pub const TABLE_MAX_PAGES: u32 = 100;

/// Number of whole rows that fit into a page.
pub const ROWS_PER_PAGE: u32 = PAGE_SIZE / ROW_SIZE;

/// Maximum number of rows a table can hold.
pub const TABLE_MAX_ROWS: u32 = ROWS_PER_PAGE * TABLE_MAX_PAGES;

/// Size of the id field in bytes.
pub const ID_SIZE: usize = 4;

/// Size of the username field in bytes.
pub const USERNAME_SIZE: usize = 32;

/// Size of the email field in bytes.
pub const EMAIL_SIZE: usize = 255;

/// Offset of the id field inside an encoded row.
pub const ID_OFFSET: usize = 0;

/// Offset of the username field inside an encoded row.
pub const USERNAME_OFFSET: usize = ID_OFFSET + ID_SIZE;

/// Offset of the email field inside an encoded row.
pub const EMAIL_OFFSET: usize = USERNAME_OFFSET + USERNAME_SIZE;

/// Number of bytes that an encoded row occupies.
pub const ROW_SIZE: u32 = (ID_SIZE + USERNAME_SIZE + EMAIL_SIZE) as u32;

/// The values of the derived sizes.
pub proof fn lemma_sizes()
    ensures
        ROW_SIZE == 291,
        ROWS_PER_PAGE == 14,
        TABLE_MAX_ROWS == 1400,
        USERNAME_OFFSET == 4,
        EMAIL_OFFSET == 36,
        ROWS_PER_PAGE * ROW_SIZE == 4074,
        TABLE_MAX_PAGES * PAGE_SIZE == 409600,
{
}

} // verus!
