//! The guest export convention: how a function from columns to a column
//! becomes an entry point from bytes to bytes.

use vstd::prelude::*;
use crate::batch::{column_views, BatchView, Column, ColumnView, RecordBatch};
use crate::codec::{decode, encode, encode_batch, parse_batch};
use crate::error::{codec_prefix, BatchError};
use crate::schema::{positional, positional_name, DataType, Field, FieldView, Schema};
use crate::text::join;

verus! {

/// The schema of a result batch: one nullable field, named as the column at
/// position 0.
pub open spec fn result_fields(data_type: DataType) -> Seq<FieldView> {
    seq![FieldView { name: positional_name(0), data_type, nullable: true }]
}

/// The batch that carries `column` as the result of a call.
pub open spec fn result_batch(column: ColumnView) -> BatchView {
    BatchView { fields: result_fields(column.data_type), columns: seq![column] }
}

/// Packs the result of a call into a batch of one column.
pub fn pack_result(column: Column) -> (batch: RecordBatch)
    ensures
        batch@ == result_batch(column@),
        batch@.valid(),
{
    let data_type = column.data_type();
    let ghost view = column@;
    let mut fields: Vec<Field> = Vec::new();
    fields.push(Field::new(positional(0), data_type, true));
    let mut columns: Vec<Column> = Vec::new();
    columns.push(column);
    let schema = Schema::new(fields);
    assert(schema@ =~= result_fields(data_type));
    assert(column_views(columns@) =~= seq![view]);
    RecordBatch::from_checked(schema, columns)
}

/// Whether `reply` is what the entry point hands back for what the guest
/// function gave: the encoded result batch, or the failure that the function
/// reported, unchanged.
pub open spec fn replies(given: Result<Column, String>, reply: Result<Vec<u8>, String>) -> bool {
    match given {
        Ok(column) => reply matches Ok(bytes) && bytes@ == encode_batch(result_batch(column@)),
        Err(message) => reply == Err::<Vec<u8>, String>(message),
    }
}

/// The entry point of the guest function `f`: decodes the arguments, calls
/// `f` once on the columns and encodes what it gives. Bytes that are no
/// batch are reported as a failure and `f` is not called.
pub fn export_udf<F>(f: F, payload: &[u8]) -> (reply: Result<Vec<u8>, String>) where
    F: FnOnce(&[Column]) -> Result<Column, String>,

    requires
        forall|args: &[Column]| f.requires((args,)),
    ensures
        match parse_batch(payload@) {
            Err(e) => reply matches Err(text) && text@ == codec_prefix() + e.spec_describe(),
            Ok(batch) => exists|args: &[Column], given: Result<Column, String>|
                {
                    &&& column_views(args@) == batch.columns
                    &&& #[trigger] f.ensures((args,), given)
                    &&& replies(given, reply)
                },
        },
{
    match decode(payload) {
        Err(e) => Err(join("[Wasm Codec] ", e.describe())),
        Ok(batch) => {
            let (_, columns) = batch.into_parts();
            let args = columns.as_slice();
            let given = f(args);
            let ghost seen = given;
            let reply = match given {
                Ok(column) => Ok(encode(&pack_result(column))),
                Err(message) => Err(message),
            };
            assert(f.ensures((args,), seen) && replies(seen, reply));
            reply
        },
    }
}

/// Whether cell `i` of `result` is what `op` makes of cell `i` of `left` and
/// `right`: null where either is null, and else what `op` gives for the two
/// values, which is a value or null.
pub open spec fn cell_combined<F: Fn(u64, u64) -> Option<u64>>(
    op: F,
    left: Seq<Option<u64>>,
    right: Seq<Option<u64>>,
    result: Seq<Option<u64>>,
    i: int,
) -> bool {
    match (left[i], right[i]) {
        (Some(a), Some(b)) => op.ensures((a, b), result[i]),
        _ => result[i] is None,
    }
}

/// Whether `op` gives, for the values at some row of `left` and `right`, a
/// value that is no bit pattern of `data_type`.
pub open spec fn overflows<F: Fn(u64, u64) -> Option<u64>>(
    op: F,
    left: Seq<Option<u64>>,
    right: Seq<Option<u64>>,
    data_type: DataType,
) -> bool {
    exists|i: int, v: u64|
        0 <= i < left.len() && left[i] is Some && right[i] is Some && #[trigger] op.ensures(
            (left[i]->Some_0, right[i]->Some_0),
            Some(v),
        ) && !data_type.spec_holds(v)
}

/// Combines two columns row by row into a column of type `data_type`: a row
/// is null where either side is null, and else what `op` gives for the two
/// values, null where `op` has no value to give. Columns of different
/// lengths are refused, and so is a value that does not fit `data_type`.
pub fn zip_with<F>(left: &Column, right: &Column, data_type: DataType, op: F) -> (r: Result<
    Column,
    BatchError,
>) where F: Fn(u64, u64) -> Option<u64>
    requires
        forall|a: u64, b: u64| op.requires((a, b)),
    ensures
        match r {
            Ok(column) => {
                &&& left@.values.len() == right@.values.len()
                &&& column@.data_type == data_type
                &&& column@.values.len() == left@.values.len()
                &&& column@.valid()
                &&& forall|i: int|
                    0 <= i < left@.values.len() ==> #[trigger] cell_combined(
                        op,
                        left@.values,
                        right@.values,
                        column@.values,
                        i,
                    )
            },
            Err(e) => if left@.values.len() != right@.values.len() {
                e == BatchError::ColumnLength
            } else {
                e == BatchError::ValueOutOfRange && overflows(
                    op,
                    left@.values,
                    right@.values,
                    data_type,
                )
            },
        },
{
    if left.len() != right.len() {
        return Err(BatchError::ColumnLength);
    }
    let a = left.values();
    let b = right.values();
    let mut values: Vec<Option<u64>> = Vec::new();
    let mut i: usize = 0;
    while i < a.len()
        invariant
            i <= a@.len(),
            a@.len() == b@.len(),
            a@ == left@.values,
            b@ == right@.values,
            values@.len() == i,
            forall|x: u64, y: u64| op.requires((x, y)),
            (ColumnView { data_type, values: values@ }).valid(),
            forall|k: int| 0 <= k < i ==> #[trigger] cell_combined(op, a@, b@, values@, k),
        decreases a@.len() - i,
    {
        let ghost before = values@;
        let cell = match (a[i], b[i]) {
            (Some(x), Some(y)) => {
                let given = op(x, y);
                match given {
                    Some(v) => {
                        if !data_type.holds(v) {
                            assert(op.ensures(
                                (a@[i as int]->Some_0, b@[i as int]->Some_0),
                                Some(v),
                            ));
                            return Err(BatchError::ValueOutOfRange);
                        }
                    },
                    None => {},
                }
                given
            },
            _ => None,
        };
        values.push(cell);
        proof {
            assert forall|k: int| 0 <= k < i + 1 implies #[trigger] cell_combined(
                op,
                a@,
                b@,
                values@,
                k,
            ) by {
                if k < i {
                    assert(cell_combined(op, a@, b@, before, k));
                    assert(values@[k] == before[k]);
                }
            }
        }
        i = i + 1;
    }
    Ok(Column::from_checked(data_type, values))
}

} // verus!
