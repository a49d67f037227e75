//! The wire format of a batch: a self-describing byte string that carries the
//! schema and the columns.
//!
//! A batch is laid out as the format's mark, the number of fields, the number
//! of rows, the fields and then the columns. Numbers are eight bytes, least
//! significant first. A field is the length of its name, the name in UTF-8,
//! one byte for its type and one byte that says whether it is nullable. A
//! column is one cell per row; a cell is the byte 0 for null, or the byte 1
//! and the value in as many bytes as its type is wide.

use vstd::prelude::*;
use vstd::slice::{slice_subrange, slice_to_vec};
use vstd::utf8::{decode_utf8, encode_utf8, valid_utf8};
use crate::batch::{column_views, BatchView, Column, ColumnView, RecordBatch};
use crate::codec_laws::lemma_decode_of_encode;
use crate::error::CodecError;
use crate::schema::{field_views, DataType, Field, FieldView, Schema};
use crate::text::string_from_utf8;
use crate::wire::{
    le_bytes, le_value, lemma_le_bytes_of_value, lemma_radix_pow_values, read_le, write_le,
};

verus! {

/// The four bytes that every encoded batch starts with.
pub open spec fn magic() -> Seq<u8> {
    seq![0x57u8, 0x55u8, 0x44u8, 0x46u8]
}

/// The encoding of a count.
pub open spec fn encode_count(n: nat) -> Seq<u8> {
    le_bytes(n, 8)
}

/// The byte of a flag.
pub open spec fn flag_byte(flag: bool) -> u8 {
    if flag {
        1u8
    } else {
        0u8
    }
}

/// The encoding of a field.
pub open spec fn encode_field(field: FieldView) -> Seq<u8> {
    let name = encode_utf8(field.name);
    encode_count(name.len()) + name + seq![field.data_type.spec_tag(), flag_byte(field.nullable)]
}

/// The encoding of fields, one after the other.
pub open spec fn encode_fields(fields: Seq<FieldView>) -> Seq<u8>
    decreases fields.len(),
{
    if fields.len() == 0 {
        Seq::empty()
    } else {
        encode_fields(fields.drop_last()) + encode_field(fields.last())
    }
}

/// The encoding of a cell of a column whose type is `width` bytes wide.
pub open spec fn encode_cell(cell: Option<u64>, width: nat) -> Seq<u8> {
    match cell {
        None => seq![0u8],
        Some(bits) => seq![1u8] + le_bytes(bits as nat, width),
    }
}

/// The encoding of cells, one after the other.
pub open spec fn encode_cells(cells: Seq<Option<u64>>, width: nat) -> Seq<u8>
    decreases cells.len(),
{
    if cells.len() == 0 {
        Seq::empty()
    } else {
        encode_cells(cells.drop_last(), width) + encode_cell(cells.last(), width)
    }
}

/// The encoding of columns, one after the other.
pub open spec fn encode_columns(columns: Seq<ColumnView>) -> Seq<u8>
    decreases columns.len(),
{
    if columns.len() == 0 {
        Seq::empty()
    } else {
        encode_columns(columns.drop_last()) + encode_cells(
            columns.last().values,
            columns.last().data_type.spec_width(),
        )
    }
}

/// The encoding of a batch.
pub open spec fn encode_batch(batch: BatchView) -> Seq<u8> {
    magic() + encode_count(batch.fields.len()) + encode_count(batch.rows()) + encode_fields(
        batch.fields,
    ) + encode_columns(batch.columns)
}

/// Reads a count at `pos`: the count and the position after it.
pub open spec fn parse_count(bytes: Seq<u8>, pos: int) -> Result<(nat, int), CodecError> {
    if pos + 8 > bytes.len() {
        Err(CodecError::Truncated)
    } else {
        Ok((le_value(bytes.subrange(pos, pos + 8)), pos + 8))
    }
}

/// Reads a field at `pos`: the field and the position after it.
pub open spec fn parse_field(bytes: Seq<u8>, pos: int) -> Result<(FieldView, int), CodecError> {
    match parse_count(bytes, pos) {
        Err(e) => Err(e),
        Ok((n, p)) => {
            if p + n + 2 > bytes.len() {
                Err(CodecError::Truncated)
            } else if !valid_utf8(bytes.subrange(p, p + n)) {
                Err(CodecError::InvalidName)
            } else {
                match DataType::spec_from_tag(bytes[p + n]) {
                    None => Err(CodecError::UnknownType),
                    Some(data_type) => {
                        if bytes[p + n + 1] > 1 {
                            Err(CodecError::InvalidFlag)
                        } else {
                            Ok(
                                (
                                    FieldView {
                                        name: decode_utf8(bytes.subrange(p, p + n)),
                                        data_type,
                                        nullable: bytes[p + n + 1] == 1,
                                    },
                                    p + n + 2,
                                ),
                            )
                        }
                    },
                }
            }
        },
    }
}

/// Reads `count` fields from `pos` on: the fields and the position after them.
pub open spec fn parse_fields(bytes: Seq<u8>, pos: int, count: nat) -> Result<
    (Seq<FieldView>, int),
    CodecError,
>
    decreases count,
{
    if count == 0 {
        Ok((Seq::empty(), pos))
    } else {
        match parse_fields(bytes, pos, (count - 1) as nat) {
            Err(e) => Err(e),
            Ok((fields, p)) => match parse_field(bytes, p) {
                Err(e) => Err(e),
                Ok((field, q)) => Ok((fields.push(field), q)),
            },
        }
    }
}

/// Reads a cell of `width` value bytes at `pos`: the cell and the position
/// after it.
pub open spec fn parse_cell(bytes: Seq<u8>, pos: int, width: nat) -> Result<
    (Option<u64>, int),
    CodecError,
> {
    if pos >= bytes.len() {
        Err(CodecError::Truncated)
    } else if bytes[pos] == 0 {
        Ok((None, pos + 1))
    } else if bytes[pos] == 1 {
        if pos + 1 + width > bytes.len() {
            Err(CodecError::Truncated)
        } else {
            Ok((Some(le_value(bytes.subrange(pos + 1, pos + 1 + width)) as u64), pos + 1 + width))
        }
    } else {
        Err(CodecError::InvalidFlag)
    }
}

/// Reads `rows` cells from `pos` on: the cells and the position after them.
pub open spec fn parse_cells(bytes: Seq<u8>, pos: int, width: nat, rows: nat) -> Result<
    (Seq<Option<u64>>, int),
    CodecError,
>
    decreases rows,
{
    if rows == 0 {
        Ok((Seq::empty(), pos))
    } else {
        match parse_cells(bytes, pos, width, (rows - 1) as nat) {
            Err(e) => Err(e),
            Ok((cells, p)) => match parse_cell(bytes, p, width) {
                Err(e) => Err(e),
                Ok((cell, q)) => Ok((cells.push(cell), q)),
            },
        }
    }
}

/// Reads the columns of the first `count` fields from `pos` on, each of
/// `rows` cells: the columns and the position after them.
pub open spec fn parse_columns(
    bytes: Seq<u8>,
    pos: int,
    fields: Seq<FieldView>,
    rows: nat,
    count: nat,
) -> Result<(Seq<ColumnView>, int), CodecError>
    decreases count,
{
    if count == 0 {
        Ok((Seq::empty(), pos))
    } else {
        match parse_columns(bytes, pos, fields, rows, (count - 1) as nat) {
            Err(e) => Err(e),
            Ok((columns, p)) => {
                let data_type = fields[count - 1].data_type;
                match parse_cells(bytes, p, data_type.spec_width(), rows) {
                    Err(e) => Err(e),
                    Ok((cells, q)) => Ok(
                        (columns.push(ColumnView { data_type, values: cells }), q),
                    ),
                }
            },
        }
    }
}

/// Reads the fields and the columns that follow the two counts of a batch.
pub open spec fn parse_body(bytes: Seq<u8>, pos: int, count: nat, rows: nat) -> Result<
    BatchView,
    CodecError,
> {
    if count == 0 && rows != 0 {
        Err(CodecError::InvalidRowCount)
    } else {
        match parse_fields(bytes, pos, count) {
            Err(e) => Err(e),
            Ok((fields, p)) => match parse_columns(bytes, p, fields, rows, fields.len()) {
                Err(e) => Err(e),
                Ok((columns, q)) => {
                    if q != bytes.len() {
                        Err(CodecError::TrailingBytes)
                    } else {
                        Ok(BatchView { fields, columns })
                    }
                },
            },
        }
    }
}

/// The batch that `bytes` encode, or why they encode none.
pub open spec fn parse_batch(bytes: Seq<u8>) -> Result<BatchView, CodecError> {
    if bytes.len() < 4 {
        Err(CodecError::Truncated)
    } else if bytes.subrange(0, 4) != magic() {
        Err(CodecError::BadMagic)
    } else {
        match parse_count(bytes, 4) {
            Err(e) => Err(e),
            Ok((count, p)) => match parse_count(bytes, p) {
                Err(e) => Err(e),
                Ok((rows, q)) => parse_body(bytes, q, count, rows),
            },
        }
    }
}

/// Appends `bytes` to `out`.
fn append_bytes(out: &mut Vec<u8>, bytes: &[u8])
    ensures
        final(out)@ == old(out)@ + bytes@,
{
    let mut i: usize = 0;
    assert(out@ =~= old(out)@ + bytes@.take(0));
    while i < bytes.len()
        invariant
            i <= bytes@.len(),
            out@ == old(out)@ + bytes@.take(i as int),
        decreases bytes@.len() - i,
    {
        out.push(bytes[i]);
        i = i + 1;
        assert(out@ =~= old(out)@ + bytes@.take(i as int));
    }
    assert(bytes@.take(i as int) =~= bytes@);
}

/// Appends the encoding of a field to `out`.
fn write_field(out: &mut Vec<u8>, field: &Field)
    ensures
        final(out)@ == old(out)@ + encode_field(field@),
        encode_utf8(field@.name).len() <= usize::MAX,
{
    let name = field.name.as_str().as_bytes();
    write_le(out, name.len() as u64, 8);
    append_bytes(out, name);
    out.push(field.data_type.tag());
    out.push(if field.nullable { 1u8 } else { 0u8 });
    assert(out@ =~= old(out)@ + encode_field(field@));
}

/// Appends the encoding of a column to `out`.
fn write_column(out: &mut Vec<u8>, column: &Column)
    ensures
        final(out)@ == old(out)@ + encode_cells(
            column@.values,
            column@.data_type.spec_width(),
        ),
{
    let width = column.data_type().width();
    let values = column.values();
    let ghost w = width as nat;
    let mut i: usize = 0;
    assert(out@ =~= old(out)@ + encode_cells(values@.take(0), w));
    while i < values.len()
        invariant
            i <= values@.len(),
            width <= 8,
            w == width as nat,
            out@ == old(out)@ + encode_cells(values@.take(i as int), w),
        decreases values@.len() - i,
    {
        let ghost before = out@;
        match values[i] {
            None => {
                out.push(0u8);
            },
            Some(bits) => {
                out.push(1u8);
                write_le(out, bits, width);
            },
        }
        proof {
            let next = values@.take(i + 1);
            assert(next.drop_last() =~= values@.take(i as int));
            assert(next.last() == values@[i as int]);
            assert(out@ =~= before + encode_cell(values@[i as int], w));
            assert(out@ =~= old(out)@ + encode_cells(next, w));
        }
        i = i + 1;
    }
    assert(values@.take(i as int) =~= values@);
}

/// Encodes a batch.
pub fn encode(batch: &RecordBatch) -> (out: Vec<u8>)
    ensures
        out@ == encode_batch(batch@),
        parse_batch(out@) == Ok::<BatchView, CodecError>(batch@),
{
    let mut out: Vec<u8> = Vec::new();
    out.push(0x57u8);
    out.push(0x55u8);
    out.push(0x44u8);
    out.push(0x46u8);
    assert(out@ =~= magic());
    let fields = &batch.schema().fields;
    let columns = batch.columns();
    let ghost field_views = batch@.fields;
    let ghost views = batch@.columns;
    assert(field_views.len() == fields@.len());
    write_le(&mut out, fields.len() as u64, 8);
    write_le(&mut out, batch.num_rows() as u64, 8);
    let ghost head = out@;
    assert(head =~= magic() + encode_count(field_views.len()) + encode_count(batch@.rows()));
    let mut i: usize = 0;
    assert(out@ =~= head + encode_fields(field_views.take(0)));
    while i < fields.len()
        invariant
            i <= fields@.len(),
            field_views.len() == fields@.len(),
            forall|k: int| 0 <= k < fields@.len() ==> field_views[k] == fields@[k]@,
            forall|k: int|
                0 <= k < i ==> encode_utf8(#[trigger] field_views[k].name).len() <= usize::MAX,
            out@ == head + encode_fields(field_views.take(i as int)),
        decreases fields@.len() - i,
    {
        write_field(&mut out, &fields[i]);
        proof {
            let next = field_views.take(i + 1);
            assert(next.drop_last() =~= field_views.take(i as int));
            assert(next.last() == fields@[i as int]@);
            assert(out@ =~= head + encode_fields(next));
        }
        i = i + 1;
    }
    assert(field_views.take(i as int) =~= field_views);
    let ghost middle = out@;
    let mut j: usize = 0;
    assert(out@ =~= middle + encode_columns(views.take(0)));
    while j < columns.len()
        invariant
            j <= columns@.len(),
            views == column_views(columns@),
            out@ == middle + encode_columns(views.take(j as int)),
        decreases columns@.len() - j,
    {
        write_column(&mut out, &columns[j]);
        proof {
            let next = views.take(j + 1);
            assert(next.drop_last() =~= views.take(j as int));
            assert(next.last() == columns@[j as int]@);
            assert(out@ =~= middle + encode_columns(next));
        }
        j = j + 1;
    }
    assert(views.take(j as int) =~= views);
    assert(out@ =~= encode_batch(batch@));
    proof {
        lemma_radix_pow_values();
        lemma_decode_of_encode(batch@);
    }
    out
}

/// A failure among the first fields is the failure of any longer run of fields.
proof fn lemma_parse_fields_failure(bytes: Seq<u8>, pos: int, done: nat, count: nat, e: CodecError)
    requires
        done <= count,
        parse_fields(bytes, pos, done) == Err::<(Seq<FieldView>, int), CodecError>(e),
    ensures
        parse_fields(bytes, pos, count) == Err::<(Seq<FieldView>, int), CodecError>(e),
    decreases count,
{
    if done < count {
        lemma_parse_fields_failure(bytes, pos, done, (count - 1) as nat, e);
    }
}

/// A failure among the first cells is the failure of any longer run of cells.
proof fn lemma_parse_cells_failure(
    bytes: Seq<u8>,
    pos: int,
    width: nat,
    done: nat,
    rows: nat,
    e: CodecError,
)
    requires
        done <= rows,
        parse_cells(bytes, pos, width, done) == Err::<(Seq<Option<u64>>, int), CodecError>(e),
    ensures
        parse_cells(bytes, pos, width, rows) == Err::<(Seq<Option<u64>>, int), CodecError>(e),
    decreases rows,
{
    if done < rows {
        lemma_parse_cells_failure(bytes, pos, width, done, (rows - 1) as nat, e);
    }
}

/// A failure among the first columns is the failure of any longer run of columns.
proof fn lemma_parse_columns_failure(
    bytes: Seq<u8>,
    pos: int,
    fields: Seq<FieldView>,
    rows: nat,
    done: nat,
    count: nat,
    e: CodecError,
)
    requires
        done <= count,
        parse_columns(bytes, pos, fields, rows, done) == Err::<(Seq<ColumnView>, int), CodecError>(
            e,
        ),
    ensures
        parse_columns(bytes, pos, fields, rows, count) == Err::<(Seq<ColumnView>, int), CodecError>(
            e,
        ),
    decreases count,
{
    if done < count {
        lemma_parse_columns_failure(bytes, pos, fields, rows, done, (count - 1) as nat, e);
    }
}

/// Reads a count at `pos`.
fn read_count(bytes: &[u8], pos: usize) -> (r: Result<(u64, usize), CodecError>)
    requires
        pos <= bytes@.len(),
    ensures
        match r {
            Ok((n, next)) => parse_count(bytes@, pos as int) == Ok::<(nat, int), CodecError>(
                (n as nat, next as int),
            ) && pos <= next <= bytes@.len(),
            Err(e) => parse_count(bytes@, pos as int) == Err::<(nat, int), CodecError>(e),
        },
{
    if bytes.len() - pos < 8 {
        Err(CodecError::Truncated)
    } else {
        let n = read_le(bytes, pos, 8);
        Ok((n, pos + 8))
    }
}

/// Reads a field at `pos`.
fn read_field(bytes: &[u8], pos: usize) -> (r: Result<(Field, usize), CodecError>)
    requires
        pos <= bytes@.len(),
    ensures
        match r {
            Ok((field, next)) => parse_field(bytes@, pos as int) == Ok::<
                (FieldView, int),
                CodecError,
            >((field@, next as int)) && pos < next <= bytes@.len(),
            Err(e) => parse_field(bytes@, pos as int) == Err::<(FieldView, int), CodecError>(e),
        },
{
    let (n, p) = match read_count(bytes, pos) {
        Err(e) => {
            return Err(e);
        },
        Ok(found) => found,
    };
    let left = bytes.len() - p;
    if left < 2 || n > (left - 2) as u64 {
        return Err(CodecError::Truncated);
    }
    let end = p + n as usize;
    let name = match string_from_utf8(slice_to_vec(slice_subrange(bytes, p, end))) {
        None => {
            return Err(CodecError::InvalidName);
        },
        Some(name) => name,
    };
    let data_type = match DataType::from_tag(bytes[end]) {
        None => {
            return Err(CodecError::UnknownType);
        },
        Some(data_type) => data_type,
    };
    let flag = bytes[end + 1];
    if flag > 1 {
        return Err(CodecError::InvalidFlag);
    }
    Ok((Field::new(name, data_type, flag == 1), end + 2))
}

/// Reads a cell of `width` value bytes at `pos`.
fn read_cell(bytes: &[u8], pos: usize, width: usize) -> (r: Result<
    (Option<u64>, usize),
    CodecError,
>)
    requires
        pos <= bytes@.len(),
        width <= 8,
    ensures
        match r {
            Ok((cell, next)) => parse_cell(bytes@, pos as int, width as nat) == Ok::<
                (Option<u64>, int),
                CodecError,
            >((cell, next as int)) && pos < next <= bytes@.len(),
            Err(e) => parse_cell(bytes@, pos as int, width as nat) == Err::<
                (Option<u64>, int),
                CodecError,
            >(e),
        },
{
    if pos >= bytes.len() {
        return Err(CodecError::Truncated);
    }
    let flag = bytes[pos];
    if flag == 0 {
        Ok((None, pos + 1))
    } else if flag == 1 {
        if bytes.len() - pos - 1 < width {
            Err(CodecError::Truncated)
        } else {
            let bits = read_le(bytes, pos + 1, width);
            Ok((Some(bits), pos + 1 + width))
        }
    } else {
        Err(CodecError::InvalidFlag)
    }
}

/// What `width` bytes denote is a bit pattern of a type that wide.
proof fn lemma_value_fits(bytes: Seq<u8>, data_type: DataType)
    requires
        bytes.len() == data_type.spec_width(),
    ensures
        le_value(bytes) <= data_type.spec_max_bits(),
{
    lemma_le_bytes_of_value(bytes);
    lemma_radix_pow_values();
}

/// Reads a column of `rows` cells of the given type from `pos` on.
fn read_column(bytes: &[u8], pos: usize, data_type: DataType, rows: u64) -> (r: Result<
    (Column, usize),
    CodecError,
>)
    requires
        pos <= bytes@.len(),
    ensures
        match r {
            Ok((column, next)) => parse_cells(
                bytes@,
                pos as int,
                data_type.spec_width(),
                rows as nat,
            ) == Ok::<(Seq<Option<u64>>, int), CodecError>((column@.values, next as int))
                && column@.data_type == data_type && column@.values.len() == rows
                && column@.valid() && pos <= next <= bytes@.len(),
            Err(e) => parse_cells(bytes@, pos as int, data_type.spec_width(), rows as nat) == Err::<
                (Seq<Option<u64>>, int),
                CodecError,
            >(e),
        },
{
    let width = data_type.width();
    let ghost w = data_type.spec_width();
    let mut values: Vec<Option<u64>> = Vec::new();
    let mut at: usize = pos;
    let mut done: u64 = 0;
    while done < rows
        invariant
            done <= rows,
            pos <= at <= bytes@.len(),
            width == w,
            w == data_type.spec_width(),
            values@.len() == done,
            parse_cells(bytes@, pos as int, w, done as nat) == Ok::<
                (Seq<Option<u64>>, int),
                CodecError,
            >((values@, at as int)),
            (ColumnView { data_type, values: values@ }).valid(),
        decreases rows - done,
    {
        match read_cell(bytes, at, width) {
            Err(e) => {
                proof {
                    lemma_parse_cells_failure(
                        bytes@,
                        pos as int,
                        w,
                        (done + 1) as nat,
                        rows as nat,
                        e,
                    );
                }
                return Err(e);
            },
            Ok((cell, next)) => {
                proof {
                    if cell is Some {
                        lemma_value_fits(bytes@.subrange(at + 1, at + 1 + w), data_type);
                    }
                }
                values.push(cell);
                at = next;
                done = done + 1;
            },
        }
    }
    Ok((Column::from_checked(data_type, values), at))
}

/// Decodes a batch.
pub fn decode(bytes: &[u8]) -> (r: Result<RecordBatch, CodecError>)
    ensures
        match r {
            Ok(batch) => parse_batch(bytes@) == Ok::<BatchView, CodecError>(batch@)
                && batch@.valid(),
            Err(e) => parse_batch(bytes@) == Err::<BatchView, CodecError>(e),
        },
{
    if bytes.len() < 4 {
        return Err(CodecError::Truncated);
    }
    if bytes[0] != 0x57u8 || bytes[1] != 0x55u8 || bytes[2] != 0x44u8 || bytes[3] != 0x46u8 {
        assert(bytes@.subrange(0, 4) != magic()) by {
            if bytes@.subrange(0, 4) == magic() {
                assert(bytes@.subrange(0, 4)[0] == magic()[0]);
                assert(bytes@.subrange(0, 4)[1] == magic()[1]);
                assert(bytes@.subrange(0, 4)[2] == magic()[2]);
                assert(bytes@.subrange(0, 4)[3] == magic()[3]);
            }
        }
        return Err(CodecError::BadMagic);
    }
    assert(bytes@.subrange(0, 4) =~= magic());
    let (count, p) = match read_count(bytes, 4) {
        Err(e) => {
            return Err(e);
        },
        Ok(found) => found,
    };
    let (rows, start) = match read_count(bytes, p) {
        Err(e) => {
            return Err(e);
        },
        Ok(found) => found,
    };
    assert(parse_batch(bytes@) == parse_body(bytes@, start as int, count as nat, rows as nat));
    if count == 0 && rows != 0 {
        return Err(CodecError::InvalidRowCount);
    }
    let mut fields: Vec<Field> = Vec::new();
    let mut at: usize = start;
    let mut done: u64 = 0;
    assert(field_views(fields@) =~= Seq::empty());
    while done < count
        invariant
            done <= count,
            start <= at <= bytes@.len(),
            fields@.len() == done,
            !(count == 0 && rows != 0),
            parse_batch(bytes@) == parse_body(bytes@, start as int, count as nat, rows as nat),
            parse_fields(bytes@, start as int, done as nat) == Ok::<
                (Seq<FieldView>, int),
                CodecError,
            >((field_views(fields@), at as int)),
        decreases count - done,
    {
        let ghost before = field_views(fields@);
        match read_field(bytes, at) {
            Err(e) => {
                proof {
                    lemma_parse_fields_failure(
                        bytes@,
                        start as int,
                        (done + 1) as nat,
                        count as nat,
                        e,
                    );
                }
                return Err(e);
            },
            Ok((field, next)) => {
                fields.push(field);
                at = next;
                done = done + 1;
                assert(field_views(fields@) =~= before.push(field@));
            },
        }
    }
    let schema = Schema::new(fields);
    let ghost declared = schema@;
    let body = at;
    let mut columns: Vec<Column> = Vec::new();
    let mut i: usize = 0;
    assert(column_views(columns@) =~= Seq::empty());
    while i < schema.fields.len()
        invariant
            i <= schema.fields@.len(),
            declared == schema@,
            declared.len() == count,
            body <= at <= bytes@.len(),
            columns@.len() == i,
            !(count == 0 && rows != 0),
            parse_batch(bytes@) == parse_body(bytes@, start as int, count as nat, rows as nat),
            parse_fields(bytes@, start as int, count as nat) == Ok::<
                (Seq<FieldView>, int),
                CodecError,
            >((declared, body as int)),
            parse_columns(bytes@, body as int, declared, rows as nat, i as nat) == Ok::<
                (Seq<ColumnView>, int),
                CodecError,
            >((column_views(columns@), at as int)),
            forall|k: int|
                0 <= k < i ==> {
                    &&& (#[trigger] column_views(columns@)[k]).valid()
                    &&& column_views(columns@)[k].data_type == declared[k].data_type
                    &&& column_views(columns@)[k].values.len() == rows
                },
        decreases schema.fields@.len() - i,
    {
        let ghost before = column_views(columns@);
        let data_type = schema.fields[i].data_type;
        assert(declared[i as int].data_type == data_type);
        match read_column(bytes, at, data_type, rows) {
            Err(e) => {
                proof {
                    lemma_parse_columns_failure(
                        bytes@,
                        body as int,
                        declared,
                        rows as nat,
                        (i + 1) as nat,
                        declared.len(),
                        e,
                    );
                }
                return Err(e);
            },
            Ok((column, next)) => {
                let ghost added = column@;
                columns.push(column);
                at = next;
                i = i + 1;
                assert(column_views(columns@) =~= before.push(added));
            },
        }
    }
    if at != bytes.len() {
        return Err(CodecError::TrailingBytes);
    }
    Ok(RecordBatch::from_checked(schema, columns))
}

} // verus!
