//! Columns and batches: the unit that crosses the boundary in both directions.

use vstd::prelude::*;
use crate::error::BatchError;
use crate::schema::{DataType, FieldView, Schema};

verus! {

/// What a column is, as a mathematical value: a type and one cell per row,
/// a cell being null or the bit pattern of a value.
pub struct ColumnView {
    pub data_type: DataType,
    pub values: Seq<Option<u64>>,
}

impl ColumnView {
    /// Every value that is present is a bit pattern of the column's type.
    pub open spec fn valid(self) -> bool {
        forall|i: int|
            0 <= i < self.values.len() ==> (#[trigger] self.values[i] matches Some(bits)
                ==> self.data_type.spec_holds(bits))
    }
}

/// A typed column. Each value that is present fits the column's type.
#[derive(Debug, PartialEq, Eq)]
pub struct Column {
    data_type: DataType,
    values: Vec<Option<u64>>,
}

impl View for Column {
    type V = ColumnView;

    closed spec fn view(&self) -> ColumnView {
        ColumnView { data_type: self.data_type, values: self.values@ }
    }
}

impl Column {
    #[verifier::type_invariant]
    spec fn well_formed(&self) -> bool {
        self@.valid()
    }

    /// A column of the given type and cells, refused where a value does not
    /// fit the type.
    pub fn try_new(data_type: DataType, values: Vec<Option<u64>>) -> (r: Result<
        Column,
        BatchError,
    >)
        ensures
            match r {
                Ok(c) => c@ == (ColumnView { data_type, values: values@ }) && c@.valid(),
                Err(e) => e == BatchError::ValueOutOfRange && !(ColumnView {
                    data_type,
                    values: values@,
                }).valid(),
            },
    {
        let mut i: usize = 0;
        while i < values.len()
            invariant
                i <= values@.len(),
                forall|k: int|
                    0 <= k < i ==> (#[trigger] values@[k] matches Some(bits)
                        ==> data_type.spec_holds(bits)),
            decreases values@.len() - i,
        {
            match values[i] {
                Some(bits) => {
                    if !data_type.holds(bits) {
                        return Err(BatchError::ValueOutOfRange);
                    }
                },
                None => {},
            }
            i = i + 1;
        }
        Ok(Column { data_type, values })
    }

    /// A column of the given type and cells, all of which fit the type.
    pub(crate) fn from_checked(data_type: DataType, values: Vec<Option<u64>>) -> (c: Column)
        requires
            (ColumnView { data_type, values: values@ }).valid(),
        ensures
            c@ == (ColumnView { data_type, values: values@ }),
    {
        Column { data_type, values }
    }

    /// The column's type.
    pub fn data_type(&self) -> (t: DataType)
        ensures
            t == self@.data_type,
            self@.valid(),
    {
        proof {
            use_type_invariant(self);
        }
        self.data_type
    }

    /// The number of rows.
    pub fn len(&self) -> (n: usize)
        ensures
            n == self@.values.len(),
    {
        self.values.len()
    }

    /// The cells, one per row.
    pub fn values(&self) -> (v: &Vec<Option<u64>>)
        ensures
            v@ == self@.values,
            self@.valid(),
    {
        proof {
            use_type_invariant(self);
        }
        &self.values
    }
}

impl Clone for Column {
    fn clone(&self) -> (c: Column)
        ensures
            c@ == self@,
    {
        proof {
            use_type_invariant(self);
        }
        let mut values: Vec<Option<u64>> = Vec::new();
        let mut i: usize = 0;
        while i < self.values.len()
            invariant
                i <= self.values@.len(),
                values@ == self.values@.take(i as int),
            decreases self.values@.len() - i,
        {
            values.push(self.values[i]);
            assert(values@ =~= self.values@.take(i + 1));
            i = i + 1;
        }
        assert(values@ =~= self.values@);
        Column { data_type: self.data_type, values }
    }
}

/// What a batch is, as a mathematical value.
pub struct BatchView {
    pub fields: Seq<FieldView>,
    pub columns: Seq<ColumnView>,
}

impl BatchView {
    /// The number of rows: the length of the first column, and none where
    /// there is no column.
    pub open spec fn rows(self) -> nat {
        if self.columns.len() == 0 {
            0
        } else {
            self.columns[0].values.len()
        }
    }

    /// One valid column per field, of the field's type, all of one length.
    pub open spec fn valid(self) -> bool {
        &&& self.fields.len() == self.columns.len()
        &&& forall|i: int|
            0 <= i < self.columns.len() ==> {
                &&& (#[trigger] self.columns[i]).valid()
                &&& self.columns[i].data_type == self.fields[i].data_type
                &&& self.columns[i].values.len() == self.rows()
            }
    }
}

/// The views of a sequence of columns.
pub open spec fn column_views(columns: Seq<Column>) -> Seq<ColumnView> {
    Seq::new(columns.len(), |i: int| columns[i]@)
}

/// What stands against packing `columns` under `fields`, if anything.
pub open spec fn batch_fault(fields: Seq<FieldView>, columns: Seq<ColumnView>) -> Option<
    BatchError,
> {
    if fields.len() != columns.len() {
        Some(BatchError::ColumnCount)
    } else if exists|i: int|
        0 <= i < columns.len() && (#[trigger] columns[i]).data_type != fields[i].data_type {
        Some(BatchError::ColumnType)
    } else if exists|i: int|
        0 <= i < columns.len() && (#[trigger] columns[i]).values.len() != columns[0].values.len() {
        Some(BatchError::ColumnLength)
    } else {
        None
    }
}

/// A schema and one column per field, all columns of one length.
#[derive(Debug, PartialEq, Eq)]
pub struct RecordBatch {
    schema: Schema,
    columns: Vec<Column>,
}

impl View for RecordBatch {
    type V = BatchView;

    closed spec fn view(&self) -> BatchView {
        BatchView { fields: self.schema@, columns: column_views(self.columns@) }
    }
}

impl RecordBatch {
    #[verifier::type_invariant]
    spec fn well_formed(&self) -> bool {
        self@.valid()
    }

    /// Packs `columns` under `schema`, refused where they do not fit it.
    pub fn try_new(schema: Schema, columns: Vec<Column>) -> (r: Result<RecordBatch, BatchError>)
        ensures
            match r {
                Ok(b) => {
                    &&& b@ == (BatchView { fields: schema@, columns: column_views(columns@) })
                    &&& b@.valid()
                    &&& batch_fault(schema@, column_views(columns@)) is None
                },
                Err(e) => batch_fault(schema@, column_views(columns@)) == Some(e),
            },
    {
        let ghost views = column_views(columns@);
        if schema.fields.len() != columns.len() {
            return Err(BatchError::ColumnCount);
        }
        let mut i: usize = 0;
        while i < columns.len()
            invariant
                i <= columns@.len(),
                schema@.len() == columns@.len(),
                views == column_views(columns@),
                forall|k: int|
                    0 <= k < i ==> (#[trigger] views[k]).data_type == schema@[k].data_type,
                forall|k: int| 0 <= k < i ==> (#[trigger] views[k]).valid(),
            decreases columns@.len() - i,
        {
            let column = &columns[i];
            proof {
                use_type_invariant(column);
            }
            if column.data_type() != schema.fields[i].data_type {
                assert(views[i as int].data_type != schema@[i as int].data_type);
                return Err(BatchError::ColumnType);
            }
            i = i + 1;
        }
        let mut j: usize = 0;
        while j < columns.len()
            invariant
                j <= columns@.len(),
                schema@.len() == columns@.len(),
                views == column_views(columns@),
                forall|k: int|
                    0 <= k < columns@.len() ==> (#[trigger] views[k]).data_type
                        == schema@[k].data_type,
                forall|k: int| 0 <= k < columns@.len() ==> (#[trigger] views[k]).valid(),
                forall|k: int|
                    0 <= k < j ==> (#[trigger] views[k]).values.len() == views[0].values.len(),
            decreases columns@.len() - j,
        {
            if columns[j].len() != columns[0].len() {
                assert(views[j as int].values.len() != views[0].values.len());
                return Err(BatchError::ColumnLength);
            }
            j = j + 1;
        }
        Ok(RecordBatch { schema, columns })
    }

    /// Packs `columns` under `schema`, which they fit.
    pub(crate) fn from_checked(schema: Schema, columns: Vec<Column>) -> (b: RecordBatch)
        requires
            (BatchView { fields: schema@, columns: column_views(columns@) }).valid(),
        ensures
            b@ == (BatchView { fields: schema@, columns: column_views(columns@) }),
    {
        RecordBatch { schema, columns }
    }

    /// The batch's schema.
    pub fn schema(&self) -> (s: &Schema)
        ensures
            s@ == self@.fields,
    {
        &self.schema
    }

    /// The batch's columns, in the order of the fields.
    pub fn columns(&self) -> (c: &Vec<Column>)
        ensures
            column_views(c@) == self@.columns,
            self@.valid(),
    {
        proof {
            use_type_invariant(self);
        }
        &self.columns
    }

    /// The number of columns.
    pub fn num_columns(&self) -> (n: usize)
        ensures
            n == self@.columns.len(),
    {
        self.columns.len()
    }

    /// The number of rows.
    pub fn num_rows(&self) -> (n: usize)
        ensures
            n == self@.rows(),
    {
        if self.columns.len() == 0 {
            0
        } else {
            self.columns[0].len()
        }
    }

    /// The column at position `i`, if there is one.
    pub fn column(&self, i: usize) -> (c: Option<&Column>)
        ensures
            match c {
                Some(col) => i < self@.columns.len() && col@ == self@.columns[i as int],
                None => i >= self@.columns.len(),
            },
    {
        if i < self.columns.len() {
            Some(&self.columns[i])
        } else {
            None
        }
    }

    /// Takes the batch apart.
    pub fn into_parts(self) -> (r: (Schema, Vec<Column>))
        ensures
            r.0@ == self@.fields,
            column_views(r.1@) == self@.columns,
            self@.valid(),
    {
        proof {
            use_type_invariant(&self);
        }
        (self.schema, self.columns)
    }
}

impl Clone for RecordBatch {
    fn clone(&self) -> (b: RecordBatch)
        ensures
            b@ == self@,
    {
        proof {
            use_type_invariant(self);
        }
        let mut columns: Vec<Column> = Vec::new();
        let mut i: usize = 0;
        while i < self.columns.len()
            invariant
                i <= self.columns@.len(),
                columns@.len() == i,
                forall|k: int| 0 <= k < i ==> columns@[k]@ == self.columns@[k]@,
            decreases self.columns@.len() - i,
        {
            columns.push(self.columns[i].clone());
            i = i + 1;
        }
        let schema = self.schema.clone();
        assert(column_views(columns@) =~= column_views(self.columns@));
        RecordBatch { schema, columns }
    }
}

} // verus!
