//! Lines of comma-separated tables of hourly values, as bytes: their
//! fields, the column that a header names, and the text of a number before
//! it is read.

use vstd::prelude::*;

verus! {

/// The byte that separates the fields of a line: a comma.
pub const SEPARATOR: u8 = 0x2c;

/// The byte that may stand around a field: a double quote.
pub const QUOTE: u8 = 0x22;

/// The byte that separates the whole part of a number from its fraction: a
/// point.
pub const POINT: u8 = 0x2e;

/// The byte of a minus sign.
pub const MINUS: u8 = 0x2d;

/// The fields of a list of byte strings, as values.
pub open spec fn rows(fields: Seq<Vec<u8>>) -> Seq<Seq<u8>> {
    Seq::new(fields.len(), |i: int| fields[i]@)
}

/// The fields in one line, with a separator between each two.
pub open spec fn joined(fields: Seq<Seq<u8>>) -> Seq<u8>
    decreases fields.len(),
{
    if fields.len() == 0 {
        Seq::empty()
    } else if fields.len() == 1 {
        fields[0]
    } else {
        joined(fields.drop_last()) + seq![SEPARATOR] + fields.last()
    }
}

/// Whether `text` holds no separator.
pub open spec fn is_field(text: Seq<u8>) -> bool {
    forall|k: int| 0 <= k < text.len() ==> text[k] != SEPARATOR
}

/// A byte at the end of the last field is a byte at the end of the line.
proof fn lemma_joined_grows(fields: Seq<Seq<u8>>, last: Seq<u8>, byte: u8)
    ensures
        joined(fields.push(last.push(byte))) == joined(fields.push(last)).push(byte),
{
    let longer = fields.push(last.push(byte));
    let shorter = fields.push(last);
    assert(longer.drop_last() =~= fields);
    assert(shorter.drop_last() =~= fields);
    if fields.len() == 0 {
        assert(joined(longer) =~= joined(shorter).push(byte));
    } else {
        assert(joined(longer) =~= joined(shorter).push(byte));
    }
}

/// A new, empty field at the end of the fields is a separator at the end
/// of the line.
proof fn lemma_joined_starts_field(fields: Seq<Seq<u8>>)
    requires
        fields.len() >= 1,
    ensures
        joined(fields.push(Seq::empty())) == joined(fields).push(SEPARATOR),
{
    let longer = fields.push(Seq::<u8>::empty());
    assert(longer.drop_last() =~= fields);
    assert(joined(longer) =~= joined(fields).push(SEPARATOR));
}

/// Splits a line into its fields: the texts between its separators. A line
/// without separator is one field; a line with `n` separators has `n + 1`
/// fields, of which any may be empty.
pub fn split_fields(line: &[u8]) -> (fields: Vec<Vec<u8>>)
    ensures
        fields@.len() >= 1,
        forall|i: int| 0 <= i < fields@.len() ==> is_field(#[trigger] fields@[i]@),
        joined(rows(fields@)) == line@,
{
    let mut fields: Vec<Vec<u8>> = Vec::new();
    let mut current: Vec<u8> = Vec::new();
    let n = line.len();
    let mut i: usize = 0;
    assert(rows(fields@).push(current@).drop_last() =~= rows(fields@));
    assert(joined(rows(fields@).push(current@)) =~= line@.take(0));
    while i < n
        invariant
            n == line@.len(),
            i <= n,
            forall|k: int| 0 <= k < fields@.len() ==> is_field(#[trigger] fields@[k]@),
            is_field(current@),
            joined(rows(fields@).push(current@)) == line@.take(i as int),
        decreases n - i,
    {
        let byte = line[i];
        let ghost before = rows(fields@);
        let ghost field = current@;
        assert(line@.take(i as int + 1) =~= line@.take(i as int).push(byte));
        if byte == SEPARATOR {
            fields.push(current);
            current = Vec::new();
            proof {
                assert(rows(fields@) =~= before.push(field));
                assert(current@ =~= Seq::<u8>::empty());
                lemma_joined_starts_field(before.push(field));
            }
        } else {
            current.push(byte);
            proof {
                lemma_joined_grows(before, field, byte);
            }
        }
        i += 1;
    }
    let ghost before = rows(fields@);
    let ghost field = current@;
    fields.push(current);
    proof {
        assert(rows(fields@) =~= before.push(field));
        assert(line@.take(n as int) =~= line@);
    }
    fields
}

/// Whether two byte strings hold the same bytes.
pub fn same_bytes(left: &[u8], right: &[u8]) -> (same: bool)
    ensures
        same == (left@ == right@),
{
    if left.len() != right.len() {
        return false;
    }
    let n = left.len();
    let mut i: usize = 0;
    while i < n
        invariant
            n == left@.len(),
            n == right@.len(),
            i <= n,
            forall|k: int| 0 <= k < i ==> left@[k] == right@[k],
        decreases n - i,
    {
        if left[i] != right[i] {
            return false;
        }
        i += 1;
    }
    assert(left@ =~= right@);
    true
}

/// The place of the first of `fields` that is `name`; none where no field
/// is.
pub fn find_column(fields: &Vec<Vec<u8>>, name: &[u8]) -> (place: Option<usize>)
    ensures
        match place {
            Some(i) => i < fields@.len() && fields@[i as int]@ == name@ && forall|k: int|
                0 <= k < i ==> (#[trigger] fields@[k])@ != name@,
            None => forall|k: int| 0 <= k < fields@.len() ==> (#[trigger] fields@[k])@ != name@,
        },
{
    let n = fields.len();
    let mut i: usize = 0;
    while i < n
        invariant
            n == fields@.len(),
            i <= n,
            forall|k: int| 0 <= k < i ==> (#[trigger] fields@[k])@ != name@,
        decreases n - i,
    {
        if same_bytes(fields[i].as_slice(), name) {
            return Some(i);
        }
        i += 1;
    }
    None
}

/// `byte`, or a point in place of a comma.
pub open spec fn pointed(byte: u8) -> u8 {
    if byte == SEPARATOR {
        POINT
    } else {
        byte
    }
}

/// Writes a point for every comma, so that a number with a decimal comma
/// can be read as one with a decimal point.
pub fn normalize_decimal(text: &[u8]) -> (normal: Vec<u8>)
    ensures
        normal@.len() == text@.len(),
        forall|k: int| 0 <= k < text@.len() ==> normal@[k] == pointed(text@[k]),
{
    let mut normal: Vec<u8> = Vec::new();
    let n = text.len();
    let mut i: usize = 0;
    while i < n
        invariant
            n == text@.len(),
            i <= n,
            normal@.len() == i,
            forall|k: int| 0 <= k < i ==> normal@[k] == pointed(text@[k]),
        decreases n - i,
    {
        let byte = text[i];
        if byte == SEPARATOR {
            normal.push(POINT);
        } else {
            normal.push(byte);
        }
        i += 1;
    }
    normal
}

/// The number of quotes with which `text` starts.
pub open spec fn leading_quotes(text: Seq<u8>) -> nat
    decreases text.len(),
{
    if text.len() > 0 && text[0] == QUOTE {
        1 + leading_quotes(text.drop_first())
    } else {
        0
    }
}

/// The number of quotes with which `text` ends.
pub open spec fn trailing_quotes(text: Seq<u8>) -> nat
    decreases text.len(),
{
    if text.len() > 0 && text.last() == QUOTE {
        1 + trailing_quotes(text.drop_last())
    } else {
        0
    }
}

/// `text` without the quotes at its start and at its end. A text of
/// nothing but quotes is left empty.
pub open spec fn unquoted(text: Seq<u8>) -> Seq<u8> {
    let rest = text.skip(leading_quotes(text) as int);
    rest.take(rest.len() - trailing_quotes(rest))
}

proof fn lemma_leading_quotes(text: Seq<u8>, i: int)
    requires
        0 <= i <= text.len(),
        forall|k: int| 0 <= k < i ==> text[k] == QUOTE,
        i < text.len() ==> text[i] != QUOTE,
    ensures
        leading_quotes(text) == i,
    decreases i,
{
    if i > 0 {
        let rest = text.drop_first();
        assert forall|k: int| 0 <= k < i - 1 implies rest[k] == QUOTE by {
            assert(rest[k] == text[k + 1]);
        }
        if i - 1 < rest.len() {
            assert(rest[i - 1] == text[i]);
        }
        lemma_leading_quotes(rest, i - 1);
    }
}

proof fn lemma_trailing_quotes(text: Seq<u8>, j: int)
    requires
        0 <= j <= text.len(),
        forall|k: int| j <= k < text.len() ==> text[k] == QUOTE,
        j > 0 ==> text[j - 1] != QUOTE,
    ensures
        trailing_quotes(text) == text.len() - j,
    decreases text.len() - j,
{
    if j < text.len() {
        let rest = text.drop_last();
        assert forall|k: int| j <= k < rest.len() implies rest[k] == QUOTE by {
            assert(rest[k] == text[k]);
        }
        if j > 0 {
            assert(rest[j - 1] == text[j - 1]);
        }
        lemma_trailing_quotes(rest, j);
    }
}

/// Takes the quotes at the start and at the end of a field away.
pub fn strip_quotes(text: &[u8]) -> (bare: Vec<u8>)
    ensures
        bare@ == unquoted(text@),
{
    let n = text.len();
    let mut start: usize = 0;
    while start < n && text[start] == QUOTE
        invariant
            n == text@.len(),
            start <= n,
            forall|k: int| 0 <= k < start ==> text@[k] == QUOTE,
        decreases n - start,
    {
        start += 1;
    }
    let mut end: usize = n;
    while end > start && text[end - 1] == QUOTE
        invariant
            n == text@.len(),
            start <= end <= n,
            forall|k: int| end <= k < n ==> text@[k] == QUOTE,
        decreases end,
    {
        end -= 1;
    }
    let mut bare: Vec<u8> = Vec::new();
    let mut i: usize = start;
    while i < end
        invariant
            n == text@.len(),
            start <= i <= end <= n,
            bare@ == text@.subrange(start as int, i as int),
        decreases end - i,
    {
        bare.push(text[i]);
        assert(text@.subrange(start as int, i as int + 1) =~= text@.subrange(
            start as int,
            i as int,
        ).push(text@[i as int]));
        i += 1;
    }
    proof {
        lemma_leading_quotes(text@, start as int);
        let rest = text@.skip(start as int);
        assert forall|k: int| end - start <= k < rest.len() implies rest[k] == QUOTE by {
            assert(rest[k] == text@[k + start]);
        }
        if end > start {
            assert(rest[end - start - 1] == text@[end - 1]);
        }
        lemma_trailing_quotes(rest, end - start);
        assert(rest.take(end - start) =~= text@.subrange(start as int, end as int));
    }
    bare
}

/// Whether a byte can stand in the text of a number: a digit, a point, a
/// comma or a minus sign.
pub open spec fn is_number_byte(byte: u8) -> bool {
    0x30 <= byte <= 0x39 || byte == POINT || byte == SEPARATOR || byte == MINUS
}

/// The bytes of `text` that can stand in the text of a number, in their
/// order.
pub open spec fn number_bytes(text: Seq<u8>) -> Seq<u8>
    decreases text.len(),
{
    if text.len() == 0 {
        Seq::empty()
    } else if is_number_byte(text.last()) {
        number_bytes(text.drop_last()).push(text.last())
    } else {
        number_bytes(text.drop_last())
    }
}

/// Keeps of a text what can stand in the text of a number, and drops the
/// rest: units, spaces, letters.
pub fn keep_number_bytes(text: &[u8]) -> (cleaned: Vec<u8>)
    ensures
        cleaned@ == number_bytes(text@),
{
    let mut cleaned: Vec<u8> = Vec::new();
    let n = text.len();
    let mut i: usize = 0;
    assert(text@.take(0) =~= Seq::<u8>::empty());
    while i < n
        invariant
            n == text@.len(),
            i <= n,
            cleaned@ == number_bytes(text@.take(i as int)),
        decreases n - i,
    {
        let byte = text[i];
        assert(text@.take(i as int + 1).drop_last() =~= text@.take(i as int));
        assert(text@.take(i as int + 1).last() == byte);
        if (0x30 <= byte && byte <= 0x39) || byte == POINT || byte == SEPARATOR || byte == MINUS {
            cleaned.push(byte);
        }
        i += 1;
    }
    assert(text@.take(n as int) =~= text@);
    cleaned
}

/// A line has the columns that a table asks for when it has at least
/// `columns` fields.
pub fn has_columns(fields: &Vec<Vec<u8>>, columns: usize) -> (r: bool)
    ensures
        r == (fields@.len() >= columns),
{
    fields.len() >= columns
}

} // verus!
