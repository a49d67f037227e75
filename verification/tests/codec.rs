use wasmedge_factory::text::{join, decimal};
use wasmedge_factory::wire::{read_le, write_le};
use wasmedge_factory::{
    decode, encode, BatchError, CodecError, Column, DataType, Field, RecordBatch, Schema,
};

fn field(name: &str, data_type: DataType, nullable: bool) -> Field {
    Field::new(String::from(name), data_type, nullable)
}

fn mixed_batch() -> RecordBatch {
    let schema = Schema::new(vec![
        field("c0", DataType::Int8, false),
        field("c1", DataType::UInt16, true),
        field("c2", DataType::Int32, false),
        field("c3", DataType::Float32, true),
        field("c4", DataType::Int64, false),
        field("c5", DataType::UInt64, true),
        field("c6", DataType::Float64, true),
        field("c7", DataType::UInt8, false),
        field("c8", DataType::Int16, false),
        field("c9", DataType::UInt32, false),
    ]);
    let columns = vec![
        Column::try_new(DataType::Int8, vec![Some(0xff), None, Some(0)]).unwrap(),
        Column::try_new(DataType::UInt16, vec![None, Some(0xffff), Some(1)]).unwrap(),
        Column::try_new(DataType::Int32, vec![Some(0x8000_0000), Some(7), None]).unwrap(),
        Column::try_new(
            DataType::Float32,
            vec![Some(1.5f32.to_bits() as u64), None, Some(f32::NAN.to_bits() as u64)],
        )
        .unwrap(),
        Column::try_new(DataType::Int64, vec![Some((-1i64) as u64), None, None]).unwrap(),
        Column::try_new(DataType::UInt64, vec![None, None, Some(u64::MAX)]).unwrap(),
        Column::try_new(
            DataType::Float64,
            vec![Some(2.0f64.to_bits()), None, Some((-0.0f64).to_bits())],
        )
        .unwrap(),
        Column::try_new(DataType::UInt8, vec![Some(1), Some(2), Some(3)]).unwrap(),
        Column::try_new(DataType::Int16, vec![None, None, None]).unwrap(),
        Column::try_new(DataType::UInt32, vec![Some(0xffff_ffff), Some(0), None]).unwrap(),
    ];
    RecordBatch::try_new(schema, columns).unwrap()
}

#[test]
fn round_trip_keeps_values_and_nulls() {
    let batch = mixed_batch();
    let bytes = encode(&batch);
    let back = decode(&bytes).unwrap();
    assert_eq!(back, batch);
    assert_eq!(back.num_rows(), 3);
    assert_eq!(back.num_columns(), 10);
    assert_eq!(back.column(6).unwrap().values()[0], Some(2.0f64.to_bits()));
    assert_eq!(back.column(6).unwrap().values()[1], None);
    assert_eq!(encode(&back), bytes);
}

#[test]
fn round_trip_of_a_batch_without_columns() {
    let batch = RecordBatch::try_new(Schema::new(vec![]), vec![]).unwrap();
    let bytes = encode(&batch);
    assert_eq!(
        bytes,
        vec![0x57, 0x55, 0x44, 0x46, 0, 0, 0, 0, 0, 0, 0, 0, 0, 0, 0, 0, 0, 0, 0, 0]
    );
    assert_eq!(decode(&bytes).unwrap(), batch);
}

#[test]
fn round_trip_of_columns_without_rows() {
    let batch = RecordBatch::try_new(
        Schema::new(vec![field("a", DataType::Float64, true)]),
        vec![Column::try_new(DataType::Float64, vec![]).unwrap()],
    )
    .unwrap();
    let back = decode(&encode(&batch)).unwrap();
    assert_eq!(back, batch);
    assert_eq!(back.num_rows(), 0);
}

fn small_bytes() -> Vec<u8> {
    vec![
        0x57, 0x55, 0x44, 0x46, // mark
        2, 0, 0, 0, 0, 0, 0, 0, // two fields
        2, 0, 0, 0, 0, 0, 0, 0, // two rows
        2, 0, 0, 0, 0, 0, 0, 0, b'c', b'0', 6, 0, // c0: UInt16, not nullable
        3, 0, 0, 0, 0, 0, 0, 0, b'x', 0xc3, 0xa9, 10, 1, // xé: Float64, nullable
        1, 0x34, 0x12, 0, // c0: 0x1234, null
        0, 1, 0, 0, 0, 0, 0, 0, 0xf0, 0x3f, // xé: null, 1.0
    ]
}

fn small_batch() -> RecordBatch {
    RecordBatch::try_new(
        Schema::new(vec![
            field("c0", DataType::UInt16, false),
            field("xé", DataType::Float64, true),
        ]),
        vec![
            Column::try_new(DataType::UInt16, vec![Some(0x1234), None]).unwrap(),
            Column::try_new(DataType::Float64, vec![None, Some(1.0f64.to_bits())]).unwrap(),
        ],
    )
    .unwrap()
}

#[test]
fn encoding_is_laid_out_byte_for_byte() {
    assert_eq!(encode(&small_batch()), small_bytes());
}

#[test]
fn decoding_reads_the_layout() {
    let batch = decode(&small_bytes()).unwrap();
    assert_eq!(batch, small_batch());
    assert_eq!(batch.schema().fields[1].name, "xé");
    assert_eq!(batch.schema().fields[1].name.chars().count(), 2);
    assert!(batch.schema().fields[1].nullable);
    assert!(!batch.schema().fields[0].nullable);
}

#[test]
fn every_strict_prefix_is_truncated() {
    let bytes = small_bytes();
    for n in 0..bytes.len() {
        assert_eq!(decode(&bytes[..n]), Err(CodecError::Truncated), "prefix of {} bytes", n);
    }
}

#[test]
fn trailing_bytes_are_refused() {
    let mut bytes = small_bytes();
    bytes.push(0);
    assert_eq!(decode(&bytes), Err(CodecError::TrailingBytes));
}

#[test]
fn a_wrong_mark_is_refused() {
    let mut bytes = small_bytes();
    bytes[3] = 0x47;
    assert_eq!(decode(&bytes), Err(CodecError::BadMagic));
    assert_eq!(decode(&[0, 0, 0, 0]), Err(CodecError::BadMagic));
}

#[test]
fn rows_without_columns_are_refused() {
    let bytes = vec![0x57, 0x55, 0x44, 0x46, 0, 0, 0, 0, 0, 0, 0, 0, 1, 0, 0, 0, 0, 0, 0, 0];
    assert_eq!(decode(&bytes), Err(CodecError::InvalidRowCount));
}

#[test]
fn a_name_that_is_not_utf8_is_refused() {
    let mut bytes = small_bytes();
    bytes[41] = 0xff;
    assert_eq!(decode(&bytes), Err(CodecError::InvalidName));
    let mut bytes = small_bytes();
    bytes[42] = b'a';
    assert_eq!(decode(&bytes), Err(CodecError::InvalidName));
}

#[test]
fn an_unknown_type_is_refused() {
    let mut bytes = small_bytes();
    bytes[30] = 0;
    assert_eq!(decode(&bytes), Err(CodecError::UnknownType));
    let mut bytes = small_bytes();
    bytes[30] = 11;
    assert_eq!(decode(&bytes), Err(CodecError::UnknownType));
}

#[test]
fn a_flag_that_is_no_flag_is_refused() {
    let mut bytes = small_bytes();
    bytes[31] = 2;
    assert_eq!(decode(&bytes), Err(CodecError::InvalidFlag));
    let mut bytes = small_bytes();
    bytes[45] = 2;
    assert_eq!(decode(&bytes), Err(CodecError::InvalidFlag));
}

#[test]
fn a_count_beyond_the_bytes_is_truncated() {
    let mut bytes = small_bytes();
    bytes[4] = 3;
    assert_eq!(decode(&bytes), Err(CodecError::Truncated));
    let mut bytes = small_bytes();
    bytes[12] = 3;
    assert_eq!(decode(&bytes), Err(CodecError::Truncated));
    let mut bytes = small_bytes();
    for b in &mut bytes[20..28] {
        *b = 0xff;
    }
    assert_eq!(decode(&bytes), Err(CodecError::Truncated));
}

#[test]
fn every_codec_fault_has_its_text() {
    assert_eq!(CodecError::Truncated.describe(), "batch bytes end early");
    assert_eq!(
        CodecError::BadMagic.describe(),
        "batch bytes do not start with the format mark"
    );
    assert_eq!(
        CodecError::InvalidRowCount.describe(),
        "rows announced for a batch without columns"
    );
    assert_eq!(CodecError::InvalidName.describe(), "field name is not UTF-8");
    assert_eq!(CodecError::UnknownType.describe(), "unknown column type");
    assert_eq!(CodecError::InvalidFlag.describe(), "flag byte is neither 0 nor 1");
    assert_eq!(CodecError::TrailingBytes.describe(), "bytes follow the end of the batch");
}

#[test]
fn numerals_are_little_endian() {
    let mut out = vec![9u8];
    write_le(&mut out, 0x0102_0304_0506_0708, 8);
    assert_eq!(out, vec![9, 8, 7, 6, 5, 4, 3, 2, 1]);
    let mut out = Vec::new();
    write_le(&mut out, 0x0102_0304_0506_0708, 2);
    assert_eq!(out, vec![8, 7]);
    let mut out = Vec::new();
    write_le(&mut out, 5, 0);
    assert!(out.is_empty());
    assert_eq!(read_le(&[9, 8, 7, 6, 5, 4, 3, 2, 1], 1, 8), 0x0102_0304_0506_0708);
    assert_eq!(read_le(&[0x34, 0x12], 0, 2), 0x1234);
    assert_eq!(read_le(&[0xff; 8], 0, 8), u64::MAX);
    assert_eq!(read_le(&[1, 2, 3], 3, 0), 0);
}

#[test]
fn numbers_are_written_in_decimal() {
    assert_eq!(decimal(0), "0");
    assert_eq!(decimal(9), "9");
    assert_eq!(decimal(10), "10");
    assert_eq!(decimal(1234567890), "1234567890");
    assert_eq!(decimal(usize::MAX), usize::MAX.to_string());
    assert_eq!(join("ab", "cd"), "abcd");
    assert_eq!(join("", ""), "");
}

#[test]
fn types_have_widths_and_tags() {
    let all = [
        (DataType::Int8, 1, 1, 0xffu64),
        (DataType::Int16, 2, 2, 0xffff),
        (DataType::Int32, 4, 3, 0xffff_ffff),
        (DataType::Int64, 8, 4, u64::MAX),
        (DataType::UInt8, 1, 5, 0xff),
        (DataType::UInt16, 2, 6, 0xffff),
        (DataType::UInt32, 4, 7, 0xffff_ffff),
        (DataType::UInt64, 8, 8, u64::MAX),
        (DataType::Float32, 4, 9, 0xffff_ffff),
        (DataType::Float64, 8, 10, u64::MAX),
    ];
    for (data_type, width, tag, max) in all {
        assert_eq!(data_type.width(), width);
        assert_eq!(data_type.tag(), tag);
        assert_eq!(DataType::from_tag(tag), Some(data_type));
        assert!(data_type.holds(max));
        assert!(data_type.holds(0));
        if max != u64::MAX {
            assert!(!data_type.holds(max + 1));
        }
    }
    assert_eq!(DataType::from_tag(0), None);
    assert_eq!(DataType::from_tag(11), None);
    assert_eq!(DataType::from_tag(255), None);
}

#[test]
fn a_value_that_does_not_fit_is_refused() {
    assert_eq!(
        Column::try_new(DataType::UInt8, vec![Some(255), None, Some(256)]),
        Err(BatchError::ValueOutOfRange)
    );
    assert_eq!(
        Column::try_new(DataType::Float32, vec![Some(1 << 32)]),
        Err(BatchError::ValueOutOfRange)
    );
    let column = Column::try_new(DataType::UInt8, vec![Some(255), None]).unwrap();
    assert_eq!(column.data_type(), DataType::UInt8);
    assert_eq!(column.len(), 2);
    assert_eq!(column.values(), &vec![Some(255), None]);
    assert_eq!(column.clone(), column);
}

#[test]
fn columns_that_do_not_fit_the_schema_are_refused() {
    let schema = || {
        Schema::new(vec![field("c0", DataType::Int8, false), field("c1", DataType::Int16, false)])
    };
    let int8 = |n: usize| Column::try_new(DataType::Int8, vec![Some(1); n]).unwrap();
    let int16 = |n: usize| Column::try_new(DataType::Int16, vec![None; n]).unwrap();
    assert_eq!(RecordBatch::try_new(schema(), vec![int8(1)]), Err(BatchError::ColumnCount));
    assert_eq!(
        RecordBatch::try_new(schema(), vec![int8(1), int16(1), int16(1)]),
        Err(BatchError::ColumnCount)
    );
    assert_eq!(
        RecordBatch::try_new(schema(), vec![int16(1), int8(1)]),
        Err(BatchError::ColumnType)
    );
    assert_eq!(
        RecordBatch::try_new(schema(), vec![int8(2), int8(3)]),
        Err(BatchError::ColumnType)
    );
    assert_eq!(
        RecordBatch::try_new(schema(), vec![int8(2), int16(3)]),
        Err(BatchError::ColumnLength)
    );
    let batch = RecordBatch::try_new(schema(), vec![int8(2), int16(2)]).unwrap();
    assert_eq!(batch.num_rows(), 2);
    assert_eq!(batch.num_columns(), 2);
    assert_eq!(batch.schema(), &schema());
    assert_eq!(batch.column(1), Some(&int16(2)));
    assert_eq!(batch.column(2), None);
    assert_eq!(batch.columns().len(), 2);
    assert_eq!(batch.clone(), batch);
    let (s, c) = batch.into_parts();
    assert_eq!(s, schema());
    assert_eq!(c, vec![int8(2), int16(2)]);
}

#[test]
fn every_batch_fault_has_its_text() {
    assert_eq!(BatchError::ValueOutOfRange.describe(), "value does not fit the column type");
    assert_eq!(BatchError::ColumnCount.describe(), "wrong number of columns");
    assert_eq!(BatchError::ColumnType.describe(), "column of another type than declared");
    assert_eq!(BatchError::ColumnLength.describe(), "columns of different lengths");
}

#[test]
fn argument_schema_names_by_position() {
    let types = vec![DataType::Float64; 12];
    let schema = Schema::for_arguments(&types);
    assert_eq!(schema.len(), 12);
    let names: Vec<&str> = schema.fields.iter().map(|f| f.name.as_str()).collect();
    assert_eq!(
        names,
        vec!["c0", "c1", "c2", "c3", "c4", "c5", "c6", "c7", "c8", "c9", "c10", "c11"]
    );
    assert!(schema.fields.iter().all(|f| !f.nullable && f.data_type == DataType::Float64));
    assert_eq!(schema.clone(), schema);
    assert_eq!(Schema::for_arguments(&vec![]).len(), 0);
}
