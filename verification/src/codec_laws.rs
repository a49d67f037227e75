//! The laws of the wire format: decoding undoes encoding, and what decodes
//! is the encoding of a valid batch and of nothing else.

use vstd::prelude::*;
use vstd::utf8::{
    decode_utf8_encode_utf8, encode_utf8, encode_utf8_decode_utf8, encode_utf8_valid_utf8,
};
use crate::batch::{BatchView, ColumnView};
use crate::codec::{
    encode_batch, encode_cell, encode_cells, encode_columns, encode_count, encode_field,
    encode_fields, flag_byte, magic, parse_batch, parse_body, parse_cell, parse_cells,
    parse_columns, parse_count, parse_field, parse_fields,
};
use crate::error::CodecError;
use crate::schema::{DataType, FieldView};
use crate::wire::{
    le_bytes, lemma_le_bytes_len, lemma_le_bytes_of_value, lemma_le_value_of_bytes,
    lemma_radix_pow_bounded, lemma_radix_pow_values, radix_pow,
};

verus! {

/// The counts and name lengths of the batch fit the eight bytes that the
/// format gives a number.
pub open spec fn encodable(batch: BatchView) -> bool {
    &&& batch.fields.len() < radix_pow(8)
    &&& batch.rows() < radix_pow(8)
    &&& forall|i: int|
        0 <= i < batch.fields.len() ==> encode_utf8(#[trigger] batch.fields[i].name).len()
            < radix_pow(8)
}

/// `part` stands in `bytes` from `pos` on.
spec fn stands_at(bytes: Seq<u8>, pos: int, part: Seq<u8>) -> bool {
    &&& 0 <= pos
    &&& pos + part.len() <= bytes.len()
    &&& bytes.subrange(pos, pos + part.len()) == part
}

/// Where two parts stand one after the other, each stands at its place.
proof fn lemma_split(bytes: Seq<u8>, pos: int, head: Seq<u8>, tail: Seq<u8>)
    requires
        stands_at(bytes, pos, head + tail),
    ensures
        stands_at(bytes, pos, head),
        stands_at(bytes, pos + head.len(), tail),
{
    let whole = bytes.subrange(pos, pos + (head + tail).len());
    assert(bytes.subrange(pos, pos + head.len()) =~= whole.subrange(0, head.len() as int));
    assert(whole.subrange(0, head.len() as int) =~= head);
    assert(bytes.subrange(pos + head.len(), pos + head.len() + tail.len()) =~= whole.subrange(
        head.len() as int,
        whole.len() as int,
    ));
    assert(whole.subrange(head.len() as int, whole.len() as int) =~= tail);
}

/// Where one part stands and another follows it, the two stand joined.
proof fn lemma_join(bytes: Seq<u8>, pos: int, head: Seq<u8>, tail: Seq<u8>)
    requires
        stands_at(bytes, pos, head),
        stands_at(bytes, pos + head.len(), tail),
    ensures
        stands_at(bytes, pos, head + tail),
{
    assert(bytes.subrange(pos, pos + (head + tail).len()) =~= bytes.subrange(
        pos,
        pos + head.len(),
    ) + bytes.subrange(pos + head.len(), pos + head.len() + tail.len()));
}

/// An encoded count is read back.
proof fn lemma_count_read_back(bytes: Seq<u8>, pos: int, n: nat)
    requires
        n < radix_pow(8),
        stands_at(bytes, pos, encode_count(n)),
    ensures
        encode_count(n).len() == 8,
        parse_count(bytes, pos) == Ok::<(nat, int), CodecError>((n, pos + 8)),
{
    lemma_le_bytes_len(n, 8);
    lemma_le_value_of_bytes(n, 8);
}

/// What was read as a count is the encoding of that count.
proof fn lemma_count_was_written(bytes: Seq<u8>, pos: int)
    requires
        0 <= pos,
        parse_count(bytes, pos) is Ok,
    ensures
        ({
            let (n, next) = parse_count(bytes, pos)->Ok_0;
            &&& next == pos + 8
            &&& n < radix_pow(8)
            &&& stands_at(bytes, pos, encode_count(n))
        }),
{
    let part = bytes.subrange(pos, pos + 8);
    lemma_le_bytes_of_value(part);
}

/// An encoded field is read back.
proof fn lemma_field_read_back(bytes: Seq<u8>, pos: int, field: FieldView)
    requires
        encode_utf8(field.name).len() < radix_pow(8),
        stands_at(bytes, pos, encode_field(field)),
    ensures
        parse_field(bytes, pos) == Ok::<(FieldView, int), CodecError>(
            (field, pos + encode_field(field).len()),
        ),
{
    let name = encode_utf8(field.name);
    let count = encode_count(name.len());
    let tail = seq![field.data_type.spec_tag(), flag_byte(field.nullable)];
    lemma_le_bytes_len(name.len(), 8);
    assert(encode_field(field) =~= count + (name + tail));
    lemma_split(bytes, pos, count, name + tail);
    lemma_split(bytes, pos + 8, name, tail);
    lemma_count_read_back(bytes, pos, name.len());
    let p = pos + 8;
    let n = name.len();
    assert(bytes.subrange(p, p + n) == name);
    encode_utf8_valid_utf8(field.name);
    encode_utf8_decode_utf8(field.name);
    let end = bytes.subrange(p + n, p + n + 2);
    assert(end == tail);
    assert(bytes[p + n] == end[0]);
    assert(bytes[p + n + 1] == end[1]);
    field.data_type.lemma_tag_round_trip();
}

/// What was read as a field is the encoding of that field.
proof fn lemma_field_was_written(bytes: Seq<u8>, pos: int)
    requires
        0 <= pos,
        parse_field(bytes, pos) is Ok,
    ensures
        ({
            let (field, next) = parse_field(bytes, pos)->Ok_0;
            &&& pos < next
            &&& next == pos + encode_field(field).len()
            &&& encode_utf8(field.name).len() < radix_pow(8)
            &&& stands_at(bytes, pos, encode_field(field))
        }),
{
    lemma_count_was_written(bytes, pos);
    let (n, p) = parse_count(bytes, pos)->Ok_0;
    let (field, next) = parse_field(bytes, pos)->Ok_0;
    let name = bytes.subrange(p, p + n);
    decode_utf8_encode_utf8(name);
    assert(encode_utf8(field.name) == name);
    DataType::lemma_from_tag_inverse(bytes[p + n]);
    let tail = seq![field.data_type.spec_tag(), flag_byte(field.nullable)];
    assert(bytes.subrange(p + n, p + n + 2) =~= tail);
    lemma_le_bytes_len(n, 8);
    lemma_join(bytes, p, name, tail);
    lemma_join(bytes, pos, encode_count(n), name + tail);
    assert(encode_field(field) =~= encode_count(n) + (name + tail));
}

/// Encoded fields are read back.
proof fn lemma_fields_read_back(bytes: Seq<u8>, pos: int, fields: Seq<FieldView>)
    requires
        forall|i: int|
            0 <= i < fields.len() ==> encode_utf8(#[trigger] fields[i].name).len() < radix_pow(8),
        stands_at(bytes, pos, encode_fields(fields)),
    ensures
        parse_fields(bytes, pos, fields.len()) == Ok::<(Seq<FieldView>, int), CodecError>(
            (fields, pos + encode_fields(fields).len()),
        ),
    decreases fields.len(),
{
    if fields.len() == 0 {
        assert(fields =~= Seq::empty());
    } else {
        let init = fields.drop_last();
        let last = fields.last();
        lemma_split(bytes, pos, encode_fields(init), encode_field(last));
        assert forall|i: int| 0 <= i < init.len() implies encode_utf8(
            #[trigger] init[i].name,
        ).len() < radix_pow(8) by {
            assert(init[i] == fields[i]);
        }
        lemma_fields_read_back(bytes, pos, init);
        lemma_field_read_back(bytes, pos + encode_fields(init).len(), last);
        assert(init.push(last) =~= fields);
    }
}

/// What was read as fields is the encoding of those fields.
proof fn lemma_fields_were_written(bytes: Seq<u8>, pos: int, count: nat)
    requires
        0 <= pos <= bytes.len(),
        parse_fields(bytes, pos, count) is Ok,
    ensures
        ({
            let (fields, next) = parse_fields(bytes, pos, count)->Ok_0;
            &&& fields.len() == count
            &&& pos <= next
            &&& next == pos + encode_fields(fields).len()
            &&& stands_at(bytes, pos, encode_fields(fields))
            &&& forall|i: int|
                0 <= i < fields.len() ==> encode_utf8(#[trigger] fields[i].name).len()
                    < radix_pow(8)
        }),
    decreases count,
{
    if count == 0 {
        assert(bytes.subrange(pos, pos) =~= Seq::empty());
    } else {
        lemma_fields_were_written(bytes, pos, (count - 1) as nat);
        let (init, p) = parse_fields(bytes, pos, (count - 1) as nat)->Ok_0;
        lemma_field_was_written(bytes, p);
        let (last, q) = parse_field(bytes, p)->Ok_0;
        let fields = init.push(last);
        assert(fields.drop_last() =~= init);
        lemma_join(bytes, pos, encode_fields(init), encode_field(last));
    }
}

/// An encoded cell is read back.
proof fn lemma_cell_read_back(bytes: Seq<u8>, pos: int, cell: Option<u64>, width: nat)
    requires
        cell matches Some(bits) ==> bits < radix_pow(width),
        stands_at(bytes, pos, encode_cell(cell, width)),
    ensures
        parse_cell(bytes, pos, width) == Ok::<(Option<u64>, int), CodecError>(
            (cell, pos + encode_cell(cell, width).len()),
        ),
{
    let part = encode_cell(cell, width);
    assert(bytes[pos] == bytes.subrange(pos, pos + part.len())[0]);
    match cell {
        None => {},
        Some(bits) => {
            lemma_le_bytes_len(bits as nat, width);
            lemma_split(bytes, pos, seq![1u8], le_bytes(bits as nat, width));
            lemma_le_value_of_bytes(bits as nat, width);
        },
    }
}

/// What was read as a cell is the encoding of that cell.
proof fn lemma_cell_was_written(bytes: Seq<u8>, pos: int, width: nat)
    requires
        0 <= pos,
        width <= 8,
        parse_cell(bytes, pos, width) is Ok,
    ensures
        ({
            let (cell, next) = parse_cell(bytes, pos, width)->Ok_0;
            &&& pos < next
            &&& next == pos + encode_cell(cell, width).len()
            &&& stands_at(bytes, pos, encode_cell(cell, width))
            &&& cell matches Some(bits) ==> bits < radix_pow(width)
        }),
{
    let (cell, next) = parse_cell(bytes, pos, width)->Ok_0;
    if bytes[pos] == 0 {
        assert(bytes.subrange(pos, pos + 1) =~= seq![0u8]);
    } else {
        let part = bytes.subrange(pos + 1, pos + 1 + width);
        lemma_le_bytes_of_value(part);
        lemma_radix_pow_bounded(width);
        assert(bytes.subrange(pos, pos + 1) =~= seq![1u8]);
        lemma_join(bytes, pos, seq![1u8], part);
    }
}

/// Encoded cells are read back.
proof fn lemma_cells_read_back(bytes: Seq<u8>, pos: int, cells: Seq<Option<u64>>, width: nat)
    requires
        forall|i: int|
            0 <= i < cells.len() ==> (#[trigger] cells[i] matches Some(bits) ==> bits < radix_pow(
                width,
            )),
        stands_at(bytes, pos, encode_cells(cells, width)),
    ensures
        parse_cells(bytes, pos, width, cells.len()) == Ok::<(Seq<Option<u64>>, int), CodecError>(
            (cells, pos + encode_cells(cells, width).len()),
        ),
    decreases cells.len(),
{
    if cells.len() == 0 {
        assert(cells =~= Seq::empty());
    } else {
        let init = cells.drop_last();
        let last = cells.last();
        lemma_split(bytes, pos, encode_cells(init, width), encode_cell(last, width));
        assert forall|i: int| 0 <= i < init.len() implies (#[trigger] init[i] matches Some(bits)
            ==> bits < radix_pow(width)) by {
            assert(init[i] == cells[i]);
        }
        lemma_cells_read_back(bytes, pos, init, width);
        lemma_cell_read_back(bytes, pos + encode_cells(init, width).len(), last, width);
        assert(init.push(last) =~= cells);
    }
}

/// What was read as cells is the encoding of those cells.
proof fn lemma_cells_were_written(bytes: Seq<u8>, pos: int, width: nat, rows: nat)
    requires
        0 <= pos <= bytes.len(),
        width <= 8,
        parse_cells(bytes, pos, width, rows) is Ok,
    ensures
        ({
            let (cells, next) = parse_cells(bytes, pos, width, rows)->Ok_0;
            &&& cells.len() == rows
            &&& pos <= next
            &&& next == pos + encode_cells(cells, width).len()
            &&& stands_at(bytes, pos, encode_cells(cells, width))
            &&& forall|i: int|
                0 <= i < cells.len() ==> (#[trigger] cells[i] matches Some(bits) ==> bits
                    < radix_pow(width))
        }),
    decreases rows,
{
    if rows == 0 {
        assert(bytes.subrange(pos, pos) =~= Seq::empty());
    } else {
        lemma_cells_were_written(bytes, pos, width, (rows - 1) as nat);
        let (init, p) = parse_cells(bytes, pos, width, (rows - 1) as nat)->Ok_0;
        lemma_cell_was_written(bytes, p, width);
        let (last, q) = parse_cell(bytes, p, width)->Ok_0;
        let cells = init.push(last);
        assert(cells.drop_last() =~= init);
        lemma_join(bytes, pos, encode_cells(init, width), encode_cell(last, width));
    }
}

/// A bit pattern of a type is below the power of the type's width, and the
/// other way round.
proof fn lemma_fits_width(data_type: DataType, bits: u64)
    ensures
        data_type.spec_holds(bits) <==> bits < radix_pow(data_type.spec_width()),
        data_type.spec_width() <= 8,
{
    lemma_radix_pow_values();
}

/// The columns are as many as `count`, each valid, of its field's type and
/// of `rows` cells.
spec fn columns_fit(columns: Seq<ColumnView>, fields: Seq<FieldView>, rows: nat, count: nat) -> bool {
    &&& columns.len() == count
    &&& count <= fields.len()
    &&& forall|i: int|
        0 <= i < count ==> {
            &&& (#[trigger] columns[i]).valid()
            &&& columns[i].data_type == fields[i].data_type
            &&& columns[i].values.len() == rows
        }
}

/// Encoded columns are read back.
proof fn lemma_columns_read_back(
    bytes: Seq<u8>,
    pos: int,
    columns: Seq<ColumnView>,
    fields: Seq<FieldView>,
    rows: nat,
)
    requires
        columns_fit(columns, fields, rows, columns.len()),
        stands_at(bytes, pos, encode_columns(columns)),
    ensures
        parse_columns(bytes, pos, fields, rows, columns.len()) == Ok::<
            (Seq<ColumnView>, int),
            CodecError,
        >((columns, pos + encode_columns(columns).len())),
    decreases columns.len(),
{
    if columns.len() == 0 {
        assert(columns =~= Seq::empty());
    } else {
        let init = columns.drop_last();
        let last = columns.last();
        let width = last.data_type.spec_width();
        lemma_split(bytes, pos, encode_columns(init), encode_cells(last.values, width));
        assert(columns_fit(init, fields, rows, init.len())) by {
            assert forall|i: int| 0 <= i < init.len() implies {
                &&& (#[trigger] init[i]).valid()
                &&& init[i].data_type == fields[i].data_type
                &&& init[i].values.len() == rows
            } by {
                assert(init[i] == columns[i]);
            }
        }
        lemma_columns_read_back(bytes, pos, init, fields, rows);
        assert(last == columns[columns.len() - 1]);
        assert forall|i: int| 0 <= i < last.values.len() implies (
        #[trigger] last.values[i] matches Some(bits) ==> bits < radix_pow(width)) by {
            if let Some(bits) = last.values[i] {
                lemma_fits_width(last.data_type, bits);
            }
        }
        lemma_cells_read_back(bytes, pos + encode_columns(init).len(), last.values, width);
        assert(init.push(ColumnView { data_type: last.data_type, values: last.values })
            =~= columns);
    }
}

/// What was read as columns is the encoding of those columns, and they fit
/// the fields.
proof fn lemma_columns_were_written(
    bytes: Seq<u8>,
    pos: int,
    fields: Seq<FieldView>,
    rows: nat,
    count: nat,
)
    requires
        0 <= pos <= bytes.len(),
        count <= fields.len(),
        parse_columns(bytes, pos, fields, rows, count) is Ok,
    ensures
        ({
            let (columns, next) = parse_columns(bytes, pos, fields, rows, count)->Ok_0;
            &&& columns_fit(columns, fields, rows, count)
            &&& pos <= next
            &&& next == pos + encode_columns(columns).len()
            &&& stands_at(bytes, pos, encode_columns(columns))
        }),
    decreases count,
{
    if count == 0 {
        assert(bytes.subrange(pos, pos) =~= Seq::empty());
    } else {
        lemma_columns_were_written(bytes, pos, fields, rows, (count - 1) as nat);
        let (init, p) = parse_columns(bytes, pos, fields, rows, (count - 1) as nat)->Ok_0;
        let data_type = fields[count - 1].data_type;
        let width = data_type.spec_width();
        lemma_fits_width(data_type, 0);
        lemma_cells_were_written(bytes, p, width, rows);
        let (cells, q) = parse_cells(bytes, p, width, rows)->Ok_0;
        let last = ColumnView { data_type, values: cells };
        let columns = init.push(last);
        assert(columns.drop_last() =~= init);
        assert(last.valid()) by {
            assert forall|i: int| 0 <= i < cells.len() implies (#[trigger] cells[i] matches Some(
                bits,
            ) ==> data_type.spec_holds(bits)) by {
                if let Some(bits) = cells[i] {
                    lemma_fits_width(data_type, bits);
                }
            }
        }
        lemma_join(bytes, pos, encode_columns(init), encode_cells(cells, width));
    }
}

/// Decoding the encoding of a valid batch gives the batch back.
pub proof fn lemma_decode_of_encode(batch: BatchView)
    requires
        batch.valid(),
        encodable(batch),
    ensures
        parse_batch(encode_batch(batch)) == Ok::<BatchView, CodecError>(batch),
{
    let bytes = encode_batch(batch);
    let count = encode_count(batch.fields.len());
    let rows = encode_count(batch.rows());
    let fields = encode_fields(batch.fields);
    let columns = encode_columns(batch.columns);
    lemma_le_bytes_len(batch.fields.len(), 8);
    lemma_le_bytes_len(batch.rows(), 8);
    assert(bytes =~= magic() + (count + (rows + (fields + columns))));
    assert(bytes.subrange(0, bytes.len() as int) =~= bytes);
    assert(stands_at(bytes, 0, magic() + (count + (rows + (fields + columns)))));
    lemma_split(bytes, 0, magic(), count + (rows + (fields + columns)));
    lemma_split(bytes, 4, count, rows + (fields + columns));
    lemma_split(bytes, 12, rows, fields + columns);
    lemma_split(bytes, 20, fields, columns);
    lemma_count_read_back(bytes, 4, batch.fields.len());
    lemma_count_read_back(bytes, 12, batch.rows());
    lemma_fields_read_back(bytes, 20, batch.fields);
    assert(columns_fit(batch.columns, batch.fields, batch.rows(), batch.columns.len()));
    lemma_columns_read_back(
        bytes,
        20 + fields.len() as int,
        batch.columns,
        batch.fields,
        batch.rows(),
    );
    assert(parse_batch(bytes) == parse_body(bytes, 20, batch.fields.len(), batch.rows()));
}

/// Bytes that decode to a batch are the encoding of that batch, and the
/// batch is valid.
pub proof fn lemma_encode_of_decode(bytes: Seq<u8>)
    requires
        parse_batch(bytes) is Ok,
    ensures
        ({
            let batch = parse_batch(bytes)->Ok_0;
            &&& batch.valid()
            &&& encodable(batch)
            &&& encode_batch(batch) == bytes
        }),
{
    let batch = parse_batch(bytes)->Ok_0;
    assert(stands_at(bytes, 0, magic()));
    lemma_count_was_written(bytes, 4);
    let count = parse_count(bytes, 4)->Ok_0.0;
    lemma_count_was_written(bytes, 12);
    let rows = parse_count(bytes, 12)->Ok_0.0;
    assert(parse_batch(bytes) == parse_body(bytes, 20, count, rows));
    lemma_body_was_written(bytes, 20, count, rows);
    let body = encode_fields(batch.fields) + encode_columns(batch.columns);
    lemma_le_bytes_len(count, 8);
    lemma_le_bytes_len(rows, 8);
    lemma_join(bytes, 12, encode_count(rows), body);
    lemma_join(bytes, 4, encode_count(count), encode_count(rows) + body);
    lemma_join(bytes, 0, magic(), encode_count(count) + (encode_count(rows) + body));
    let whole = magic() + (encode_count(count) + (encode_count(rows) + body));
    assert(whole.len() == bytes.len());
    assert(bytes.subrange(0, bytes.len() as int) =~= bytes);
    assert(whole == bytes);
    assert(encode_batch(batch) =~= whole);
}

/// What was read as the fields and columns of a batch is their encoding, it
/// reaches the end of the bytes, and the batch is valid.
proof fn lemma_body_was_written(bytes: Seq<u8>, pos: int, count: nat, rows: nat)
    requires
        0 <= pos <= bytes.len(),
        count < radix_pow(8),
        rows < radix_pow(8),
        parse_body(bytes, pos, count, rows) is Ok,
    ensures
        ({
            let batch = parse_body(bytes, pos, count, rows)->Ok_0;
            let body = encode_fields(batch.fields) + encode_columns(batch.columns);
            &&& batch.valid()
            &&& encodable(batch)
            &&& batch.fields.len() == count
            &&& batch.rows() == rows
            &&& stands_at(bytes, pos, body)
            &&& pos + body.len() == bytes.len()
        }),
{
    lemma_fields_were_written(bytes, pos, count);
    let (fields, r) = parse_fields(bytes, pos, count)->Ok_0;
    lemma_columns_were_written(bytes, r, fields, rows, fields.len());
    let (columns, end) = parse_columns(bytes, r, fields, rows, fields.len())->Ok_0;
    let batch = BatchView { fields, columns };
    assert(parse_body(bytes, pos, count, rows)->Ok_0 == batch);
    lemma_join(bytes, pos, encode_fields(fields), encode_columns(columns));
    assert(batch.rows() == rows);
    assert(batch.valid());
}

/// Two valid batches with the same encoding are the same batch.
pub proof fn lemma_encoding_is_injective(a: BatchView, b: BatchView)
    requires
        a.valid(),
        b.valid(),
        encodable(a),
        encodable(b),
        encode_batch(a) == encode_batch(b),
    ensures
        a == b,
{
    lemma_decode_of_encode(a);
    lemma_decode_of_encode(b);
}

/// Bytes decode exactly where they are the encoding of a valid batch.
pub proof fn lemma_decodes_exactly_encodings(bytes: Seq<u8>)
    ensures
        parse_batch(bytes) is Ok <==> exists|batch: BatchView|
            batch.valid() && encodable(batch) && #[trigger] encode_batch(batch) == bytes,
{
    if parse_batch(bytes) is Ok {
        lemma_encode_of_decode(bytes);
        let batch = parse_batch(bytes)->Ok_0;
        assert(batch.valid() && encodable(batch) && encode_batch(batch) == bytes);
    }
    if exists|batch: BatchView|
        batch.valid() && encodable(batch) && #[trigger] encode_batch(batch) == bytes {
        let batch = choose|batch: BatchView|
            batch.valid() && encodable(batch) && #[trigger] encode_batch(batch) == bytes;
        lemma_decode_of_encode(batch);
    }
}

} // verus!
