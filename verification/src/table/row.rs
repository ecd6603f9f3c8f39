//! Rows and their fixed-width encoding.

use crate::ascii::{BRACKET_CLOSE, BRACKET_OPEN, COMMA, DIGIT_ZERO, SPACE};
use crate::constants::{
    EMAIL_OFFSET, EMAIL_SIZE, ID_OFFSET, ID_SIZE, ROW_SIZE, USERNAME_OFFSET, USERNAME_SIZE,
};
use vstd::prelude::*;

verus! {

/// The bytes of `id` in the byte order of the machine the library is built for.
pub uninterp spec fn native_bytes(id: u32) -> Seq<u8>;

/// The integer whose bytes, in the byte order of the machine the library is
/// built for, are `bytes`.
pub uninterp spec fn native_value(bytes: Seq<u8>) -> u32;

/// Calls `u32::to_ne_bytes`. Trusted: the result is the memory representation
/// of `id`, and reading that representation back gives `id`.
#[verifier::external_body]
fn id_to_bytes(id: u32) -> (out: [u8; 4])
    ensures
        out@ == native_bytes(id),
        native_value(out@) == id,
{
    id.to_ne_bytes()
}

/// Calls `u32::from_ne_bytes`. Trusted: the result is the integer that has
/// `bytes` as its memory representation.
#[verifier::external_body]
fn id_from_bytes(bytes: [u8; 4]) -> (id: u32)
    ensures
        id == native_value(bytes@),
{
    u32::from_ne_bytes(bytes)
}

/// A field's text: the field without the zero bytes that pad its end.
pub open spec fn trimmed(field: Seq<u8>) -> Seq<u8>
    decreases field.len(),
{
    if field.len() > 0 && field.last() == 0 {
        trimmed(field.drop_last())
    } else {
        field
    }
}

/// The decimal digits of `n` in ASCII, most significant first.
pub open spec fn decimal(n: nat) -> Seq<u8>
    decreases n,
{
    if n < 10 {
        seq![(DIGIT_ZERO + n) as u8]
    } else {
        decimal(n / 10).push((DIGIT_ZERO + n % 10) as u8)
    }
}

/// The text of a field is a prefix of the field that does not end in a zero
/// byte, and every byte of the field after it is zero.
pub proof fn lemma_trimmed(field: Seq<u8>)
    ensures
        trimmed(field).len() <= field.len(),
        trimmed(field) == field.take(trimmed(field).len() as int),
        trimmed(field).len() > 0 ==> trimmed(field).last() != 0,
        forall|j: int| trimmed(field).len() <= j < field.len() ==> field[j] == 0,
    decreases field.len(),
{
    if field.len() > 0 && field.last() == 0 {
        let shorter = field.drop_last();
        lemma_trimmed(shorter);
        assert(shorter.take(trimmed(shorter).len() as int) =~= field.take(
            trimmed(shorter).len() as int,
        ));
        assert forall|j: int| trimmed(field).len() <= j < field.len() implies field[j] == 0 by {
            if j < shorter.len() {
                assert(shorter[j] == field[j]);
            }
        }
    } else {
        assert(field.take(field.len() as int) =~= field);
    }
}

/// A field that is filled to its last byte is its own text: nothing is cut
/// from a value that uses the whole capacity.
pub proof fn lemma_full_field_kept(field: Seq<u8>)
    requires
        field.len() > 0,
        field.last() != 0,
    ensures
        trimmed(field) == field,
{
}

/// `text` followed by as many zero bytes as fill `size` bytes.
pub open spec fn padded(text: Seq<u8>, size: nat) -> Seq<u8> {
    text + Seq::new((size - text.len()) as nat, |i: int| 0u8)
}

/// A text that does not end in a zero byte comes back whole from the field
/// it was padded into: no padding shows, and nothing of the text is lost,
/// whether it fills the field or not.
pub proof fn lemma_trimmed_padded(text: Seq<u8>, size: nat)
    requires
        text.len() <= size,
        text.len() == 0 || text.last() != 0,
    ensures
        padded(text, size).len() == size,
        trimmed(padded(text, size)) == text,
    decreases size - text.len(),
{
    if text.len() == size {
        assert(padded(text, size) =~= text);
    } else {
        assert(padded(text, size).drop_last() =~= padded(text, (size - 1) as nat));
        lemma_trimmed_padded(text, (size - 1) as nat);
    }
}

/// Copies the text of `field` out of it.
pub fn field_text(field: &[u8]) -> (text: Vec<u8>)
    ensures
        text@ == trimmed(field@),
{
    let mut end: usize = field.len();
    assert(field@.take(end as int) =~= field@);
    while end > 0 && field[end - 1] == 0
        invariant
            end <= field@.len(),
            trimmed(field@) == trimmed(field@.take(end as int)),
        decreases end,
    {
        assert(field@.take(end as int).drop_last() =~= field@.take(end - 1));
        end -= 1;
    }
    let mut text: Vec<u8> = Vec::new();
    let mut i: usize = 0;
    while i < end
        invariant
            i <= end <= field@.len(),
            text@ == field@.take(i as int),
        decreases end - i,
    {
        text.push(field[i]);
        assert(field@.take(i as int).push(field@[i as int]) =~= field@.take(i + 1));
        i += 1;
    }
    text
}

/// Writes `n` in decimal digits.
pub fn decimal_text(n: u32) -> (text: Vec<u8>)
    ensures
        text@ == decimal(n as nat),
{
    let mut rest: u32 = n;
    let mut low: Vec<u8> = Vec::new();
    while rest >= 10
        invariant
            decimal(n as nat) =~= decimal(rest as nat) + Seq::new(
                low@.len(),
                |i: int| low@[low@.len() - 1 - i],
            ),
        decreases rest,
    {
        let ghost before = low@;
        low.push(DIGIT_ZERO + (rest % 10) as u8);
        assert(decimal(rest as nat) + Seq::new(
            before.len(),
            |i: int| before[before.len() - 1 - i],
        ) =~= decimal((rest / 10) as nat) + Seq::new(
            low@.len(),
            |i: int| low@[low@.len() - 1 - i],
        ));
        rest = rest / 10;
    }
    low.push(DIGIT_ZERO + rest as u8);
    let mut text: Vec<u8> = Vec::new();
    let mut i: usize = low.len();
    while i > 0
        invariant
            i <= low@.len(),
            text@ =~= Seq::new((low@.len() - i) as nat, |k: int| low@[low@.len() - 1 - k]),
        decreases i,
    {
        i -= 1;
        text.push(low[i]);
    }
    text
}

/// One record of the table.
#[derive(Clone, Copy, Debug)]
pub struct Row {
    pub id: u32,
    pub username: [u8; USERNAME_SIZE],
    pub email: [u8; EMAIL_SIZE],
}

/// What a row holds, as plain values.
pub struct RowView {
    pub id: u32,
    pub username: Seq<u8>,
    pub email: Seq<u8>,
}

impl View for Row {
    type V = RowView;

    open spec fn view(&self) -> RowView {
        RowView { id: self.id, username: self.username@, email: self.email@ }
    }
}

impl RowView {
    /// The empty row: id zero, and both text fields all zero bytes.
    pub open spec fn empty() -> RowView {
        RowView {
            id: 0,
            username: Seq::new(USERNAME_SIZE as nat, |i: int| 0u8),
            email: Seq::new(EMAIL_SIZE as nat, |i: int| 0u8),
        }
    }

    /// The encoded row: id, username and email, one after the other.
    pub open spec fn encoded(self) -> Seq<u8> {
        native_bytes(self.id) + self.username + self.email
    }

    /// The line that shows the row: the id in decimal and the text of both
    /// fields, in round brackets, with a comma and a space between them.
    pub open spec fn line(self) -> Seq<u8> {
        seq![BRACKET_OPEN] + decimal(self.id as nat) + seq![COMMA, SPACE] + trimmed(self.username)
            + seq![COMMA, SPACE] + trimmed(self.email) + seq![BRACKET_CLOSE]
    }

    /// The row that the first `ROW_SIZE` bytes of `bytes` hold.
    pub open spec fn decoded(bytes: Seq<u8>) -> RowView {
        RowView {
            id: native_value(bytes.subrange(0, ID_SIZE as int)),
            username: bytes.subrange(USERNAME_OFFSET as int, EMAIL_OFFSET as int),
            email: bytes.subrange(EMAIL_OFFSET as int, ROW_SIZE as int),
        }
    }
}

impl Row {
    /// Returns the empty row: id zero and both text fields all zero bytes.
    pub fn new() -> (row: Row)
        ensures
            row@ == RowView::empty(),
    {
        let row = Row { id: 0, username: [0u8; USERNAME_SIZE], email: [0u8; EMAIL_SIZE] };
        assert(row.username@ =~= RowView::empty().username);
        assert(row.email@ =~= RowView::empty().email);
        row
    }

    /// Encodes the row into its `ROW_SIZE` bytes.
    pub fn encode(&self) -> (bytes: Vec<u8>)
        ensures
            bytes@ == self@.encoded(),
            bytes@.len() == ROW_SIZE,
            RowView::decoded(bytes@) == self@,
    {
        let id_bytes = id_to_bytes(self.id);
        let mut bytes: Vec<u8> = Vec::new();
        bytes.extend_from_slice(&id_bytes);
        bytes.extend_from_slice(&self.username);
        bytes.extend_from_slice(&self.email);
        assert(bytes@.subrange(0, ID_SIZE as int) == id_bytes@);
        assert(bytes@.subrange(USERNAME_OFFSET as int, EMAIL_OFFSET as int) == self.username@);
        assert(bytes@.subrange(EMAIL_OFFSET as int, ROW_SIZE as int) == self.email@);
        bytes
    }

    /// Decodes the row whose `ROW_SIZE` bytes start at `offset` in `buffer`.
    pub fn decode(buffer: &[u8], offset: usize) -> (row: Row)
        requires
            offset + ROW_SIZE <= buffer@.len(),
        ensures
            row@ == RowView::decoded(buffer@.subrange(offset as int, offset + ROW_SIZE)),
    {
        let ghost record = buffer@.subrange(offset as int, offset + ROW_SIZE);
        assert(buffer@.len() == buffer.len());
        let mut id_bytes = [0u8; ID_SIZE];
        let mut i: usize = 0;
        while i < ID_SIZE
            invariant
                offset + ROW_SIZE <= buffer@.len() <= usize::MAX,
                i <= ID_SIZE,
                forall|k: int| 0 <= k < i ==> id_bytes@[k] == buffer@[offset + ID_OFFSET + k],
            decreases ID_SIZE - i,
        {
            id_bytes[i] = buffer[offset + ID_OFFSET + i];
            i += 1;
        }
        assert(id_bytes@ =~= record.subrange(0, ID_SIZE as int));
        let id = id_from_bytes(id_bytes);
        let mut username = [0u8; USERNAME_SIZE];
        let mut i: usize = 0;
        while i < USERNAME_SIZE
            invariant
                offset + ROW_SIZE <= buffer@.len() <= usize::MAX,
                i <= USERNAME_SIZE,
                forall|k: int|
                    0 <= k < i ==> username@[k] == buffer@[offset + USERNAME_OFFSET + k],
            decreases USERNAME_SIZE - i,
        {
            username[i] = buffer[offset + USERNAME_OFFSET + i];
            i += 1;
        }
        assert(username@ =~= record.subrange(USERNAME_OFFSET as int, EMAIL_OFFSET as int));
        let mut email = [0u8; EMAIL_SIZE];
        let mut i: usize = 0;
        while i < EMAIL_SIZE
            invariant
                offset + ROW_SIZE <= buffer@.len() <= usize::MAX,
                i <= EMAIL_SIZE,
                forall|k: int| 0 <= k < i ==> email@[k] == buffer@[offset + EMAIL_OFFSET + k],
            decreases EMAIL_SIZE - i,
        {
            email[i] = buffer[offset + EMAIL_OFFSET + i];
            i += 1;
        }
        assert(email@ =~= record.subrange(EMAIL_OFFSET as int, ROW_SIZE as int));
        Row { id, username, email }
    }

    /// The line that shows the row, as `RowView::line` lays it out.
    pub fn print_row(&self) -> (line: Vec<u8>)
        ensures
            line@ == self@.line(),
    {
        let mut line: Vec<u8> = Vec::new();
        line.push(BRACKET_OPEN);
        let id = decimal_text(self.id);
        line.extend_from_slice(id.as_slice());
        line.push(COMMA);
        line.push(SPACE);
        let username = field_text(&self.username);
        line.extend_from_slice(username.as_slice());
        line.push(COMMA);
        line.push(SPACE);
        let email = field_text(&self.email);
        line.extend_from_slice(email.as_slice());
        line.push(BRACKET_CLOSE);
        assert(line@ =~= self@.line());
        line
    }
}

} // verus!
