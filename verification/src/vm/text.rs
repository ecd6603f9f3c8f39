//! Cutting a line into fields and reading a number from a field.

use crate::ascii::{DIGIT_NINE, DIGIT_ZERO, PLUS};
use vstd::prelude::*;

verus! {

/// The number of bytes of `s` before the first `sep`, or the length of `s`
/// if it holds none.
pub open spec fn field_len(s: Seq<u8>, sep: u8) -> int
    decreases s.len(),
{
    if s.len() == 0 || s[0] == sep {
        0
    } else {
        1 + field_len(s.drop_first(), sep)
    }
}

/// The fields that `sep` cuts `s` into: what stands before the first `sep`,
/// then the fields of what follows it. A line without `sep` is one field.
pub open spec fn split(s: Seq<u8>, sep: u8) -> Seq<Seq<u8>>
    decreases s.len(),
{
    let k = field_len(s, sep);
    if 0 <= k < s.len() {
        seq![s.take(k)] + split(s.skip(k + 1), sep)
    } else {
        seq![s]
    }
}

/// `field_len` is the one position that has no `sep` before it and either
/// holds `sep` or is the end of `s`.
pub proof fn lemma_field_len(s: Seq<u8>, sep: u8, k: int)
    requires
        0 <= k <= s.len(),
        forall|j: int| 0 <= j < k ==> s[j] != sep,
        k < s.len() ==> s[k] == sep,
    ensures
        field_len(s, sep) == k,
    decreases k,
{
    if k > 0 {
        let rest = s.drop_first();
        assert forall|j: int| 0 <= j < k - 1 implies rest[j] != sep by {
            assert(rest[j] == s[j + 1]);
        }
        lemma_field_len(rest, sep, k - 1);
    }
}

/// `fields` with one `sep` between each two of them.
pub open spec fn joined_by(fields: Seq<Seq<u8>>, sep: u8) -> Seq<u8>
    decreases fields.len(),
{
    if fields.len() == 0 {
        Seq::empty()
    } else if fields.len() == 1 {
        fields[0]
    } else {
        fields[0] + seq![sep] + joined_by(fields.drop_first(), sep)
    }
}

/// There is at least one field, no field holds `sep`, and the fields with
/// one `sep` between each two of them are the line again.
pub proof fn lemma_split(s: Seq<u8>, sep: u8)
    ensures
        split(s, sep).len() >= 1,
        forall|f: int, j: int|
            0 <= f < split(s, sep).len() && 0 <= j < split(s, sep)[f].len() ==> split(s, sep)[f][j]
                != sep,
        joined_by(split(s, sep), sep) == s,
    decreases s.len(),
{
    let k = field_len(s, sep);
    lemma_field_len_bounds(s, sep);
    if 0 <= k < s.len() {
        let rest = s.skip(k + 1);
        lemma_split(rest, sep);
        assert forall|f: int, j: int|
            0 <= f < split(s, sep).len() && 0 <= j < split(s, sep)[f].len() implies split(
            s,
            sep,
        )[f][j] != sep by {
            if f > 0 {
                assert(split(s, sep)[f] == split(rest, sep)[f - 1]);
            }
        }
        assert(split(s, sep).drop_first() =~= split(rest, sep));
        assert(s.take(k) + seq![sep] + rest =~= s);
    }
}

/// `field_len` lies inside `s`, no byte before it is `sep`, and if it is not
/// the end of `s` the byte there is `sep`.
pub proof fn lemma_field_len_bounds(s: Seq<u8>, sep: u8)
    ensures
        0 <= field_len(s, sep) <= s.len(),
        forall|j: int| 0 <= j < field_len(s, sep) ==> s[j] != sep,
        field_len(s, sep) < s.len() ==> s[field_len(s, sep)] == sep,
    decreases s.len(),
{
    if !(s.len() == 0 || s[0] == sep) {
        let rest = s.drop_first();
        lemma_field_len_bounds(rest, sep);
        assert forall|j: int| 0 <= j < field_len(s, sep) implies s[j] != sep by {
            if j > 0 {
                assert(rest[j - 1] == s[j]);
            }
        }
        if field_len(rest, sep) < rest.len() {
            assert(rest[field_len(rest, sep)] == s[field_len(rest, sep) + 1]);
        }
    }
}

/// The views of `fields`, one for one.
pub open spec fn field_views(fields: Seq<&[u8]>) -> Seq<Seq<u8>> {
    Seq::new(fields.len(), |i: int| fields[i]@)
}

/// Cuts `line` at every `sep`.
pub fn split_fields<'a>(line: &'a [u8], sep: u8) -> (fields: Vec<&'a [u8]>)
    ensures
        field_views(fields@) == split(line@, sep),
{
    let mut fields: Vec<&'a [u8]> = Vec::new();
    let mut start: usize = 0;
    let mut i: usize = 0;
    assert(line@.skip(0) =~= line@);
    while i < line.len()
        invariant
            start <= i <= line@.len(),
            forall|j: int| start <= j < i ==> line@[j] != sep,
            split(line@, sep) == field_views(fields@) + split(line@.skip(start as int), sep),
        decreases line@.len() - i,
    {
        if line[i] == sep {
            let field = vstd::slice::slice_subrange(line, start, i);
            proof {
                let rest = line@.skip(start as int);
                lemma_field_len(rest, sep, i - start);
                assert(rest.take(i - start) =~= field@);
                assert(rest.skip(i - start + 1) =~= line@.skip(i + 1));
                assert(field_views(fields@.push(field)) =~= field_views(fields@) + seq![field@]);
            }
            fields.push(field);
            start = i + 1;
        }
        i += 1;
    }
    let last = vstd::slice::slice_subrange(line, start, line.len());
    proof {
        let rest = line@.skip(start as int);
        lemma_field_len(rest, sep, rest.len() as int);
        assert(rest =~= last@);
        assert(field_views(fields@.push(last)) =~= field_views(fields@) + seq![last@]);
    }
    fields.push(last);
    fields
}

/// The number that the decimal digits `s` stand for.
pub open spec fn digits_value(s: Seq<u8>) -> nat
    decreases s.len(),
{
    if s.len() == 0 {
        0
    } else {
        digits_value(s.drop_last()) * 10 + (s.last() - DIGIT_ZERO) as nat
    }
}

/// Every byte of `s` is an ASCII digit.
pub open spec fn all_digits(s: Seq<u8>) -> bool {
    forall|i: int| 0 <= i < s.len() ==> DIGIT_ZERO <= #[trigger] s[i] <= DIGIT_NINE
}

/// The number that `s` is the decimal text of: one or more digits, after a
/// plus sign or none, that stand for a number a `u32` can hold. There is
/// none for any other text.
pub open spec fn parse_u32(s: Seq<u8>) -> Option<u32> {
    let digits = if s.len() > 0 && s[0] == PLUS {
        s.drop_first()
    } else {
        s
    };
    if digits.len() > 0 && all_digits(digits) && digits_value(digits) <= u32::MAX {
        Some(digits_value(digits) as u32)
    } else {
        None
    }
}

/// The digits read so far never stand for more than all of them.
pub proof fn lemma_digits_value_grows(s: Seq<u8>, k: int)
    requires
        all_digits(s),
        0 <= k <= s.len(),
    ensures
        digits_value(s.take(k)) <= digits_value(s),
    decreases s.len() - k,
{
    if k < s.len() {
        lemma_digits_value_grows(s, k + 1);
        assert(s.take(k + 1).drop_last() =~= s.take(k));
    } else {
        assert(s.take(k) =~= s);
    }
}

/// Reads a number from its decimal text.
pub fn parse_id(text: &[u8]) -> (id: Option<u32>)
    ensures
        id == parse_u32(text@),
{
    let first: usize = if text.len() > 0 && text[0] == PLUS {
        1
    } else {
        0
    };
    let ghost digits = text@.skip(first as int);
    assert(digits =~= if text@.len() > 0 && text@[0] == PLUS {
        text@.drop_first()
    } else {
        text@
    });
    if first == text.len() {
        return None;
    }
    let mut value: u64 = 0;
    let mut i: usize = first;
    assert(digits.take(0) =~= Seq::<u8>::empty());
    while i < text.len()
        invariant
            first <= i <= text@.len(),
            digits == text@.skip(first as int),
            parse_u32(text@) == if all_digits(digits) && digits_value(digits) <= u32::MAX {
                Some(digits_value(digits) as u32)
            } else {
                None
            },
            all_digits(digits.take(i - first)),
            value == digits_value(digits.take(i - first)),
            value <= u32::MAX,
        decreases text@.len() - i,
    {
        let byte = text[i];
        if byte < DIGIT_ZERO || byte > DIGIT_NINE {
            assert(digits[i - first] == byte);
            return None;
        }
        let next = value * 10 + (byte - DIGIT_ZERO) as u64;
        proof {
            assert(digits.take(i - first + 1).drop_last() =~= digits.take(i - first));
            assert(digits.take(i - first + 1).last() == byte);
            assert(all_digits(digits.take(i - first + 1))) by {
                assert forall|j: int| 0 <= j < i - first + 1 implies DIGIT_ZERO
                    <= #[trigger] digits.take(i - first + 1)[j] <= DIGIT_NINE by {
                    if j < i - first {
                        assert(digits.take(i - first)[j] == digits.take(i - first + 1)[j]);
                    }
                }
            }
        }
        if next > u32::MAX as u64 {
            proof {
                if all_digits(digits) {
                    lemma_digits_value_grows(digits, i - first + 1);
                }
            }
            return None;
        }
        value = next;
        i += 1;
    }
    assert(digits.take(i - first) =~= digits);
    Some(value as u32)
}

} // verus!
