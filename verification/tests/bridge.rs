use std::cell::Cell;

use wasmedge_factory::{
    complete, decode, encode, export_name, export_udf, invoke, pack_result, zip_with, BatchError,
    CallOutcome, CodecError, Column, DataType, Field, InvocationError, RecordBatch, Schema,
    WasmFunctionError, WasmFunctionWrapper,
};

fn floats(values: &[Option<f64>]) -> Column {
    Column::try_new(DataType::Float64, values.iter().map(|v| v.map(f64::to_bits)).collect())
        .unwrap()
}

fn as_floats(column: &Column) -> Vec<Option<f64>> {
    assert_eq!(column.data_type(), DataType::Float64);
    column.values().iter().map(|v| v.map(f64::from_bits)).collect()
}

fn power(args: &[Column]) -> Result<Column, String> {
    if args.len() != 2 {
        return Err(String::from("two arguments expected"));
    }
    zip_with(&args[0], &args[1], DataType::Float64, |base, exponent| {
        Some(f64::from_bits(base).powf(f64::from_bits(exponent)).to_bits())
    })
    .map_err(|e| String::from(e.describe()))
}

fn returns_error(_args: &[Column]) -> Result<Column, String> {
    Err(String::from("wasm function returned error"))
}

fn divides_by_zero(_args: &[Column]) -> Result<Column, String> {
    Err(String::from("Divide by zero error"))
}

/// A stand-in for the sandbox: it knows three exports and traps on one.
fn sandbox(symbol: &str, payload: &[u8]) -> CallOutcome {
    let reply = match symbol {
        "__wasm_udf_f1" => export_udf(power, payload),
        "__wasm_udf_f_return_error" => export_udf(returns_error, payload),
        "__wasm_udf_f_return_arrow_error" => export_udf(divides_by_zero, payload),
        "__wasm_udf_f_panic" => return CallOutcome::Trapped(String::from("unreachable")),
        _ => return CallOutcome::Trapped(String::from("unknown export")),
    };
    match reply {
        Ok(bytes) => CallOutcome::Returned(bytes),
        Err(message) => CallOutcome::Reported(message),
    }
}

fn function(name: &str, method: &str) -> WasmFunctionWrapper {
    WasmFunctionWrapper::new(
        String::from(name),
        method,
        vec![DataType::Float64, DataType::Float64],
        DataType::Float64,
    )
}

#[test]
fn power_is_computed_row_by_row() {
    let f1 = function("f1", "f1");
    let base = floats(&[Some(2.0), Some(3.0), Some(4.0), Some(5.0)]);
    let exponent = floats(&[Some(2.0), Some(3.0), Some(4.0), Some(5.1)]);
    let result = f1.invoke(sandbox, vec![base, exponent]).unwrap();
    assert_eq!(
        as_floats(&result),
        vec![Some(4.0), Some(27.0), Some(256.0), Some(3670.684197150057)]
    );
}

#[test]
fn a_null_on_either_side_gives_null() {
    let f1 = function("f1", "f1");
    let base = floats(&[Some(2.0), None, Some(4.0), None]);
    let exponent = floats(&[Some(2.0), Some(3.0), None, None]);
    let result = f1.invoke(sandbox, vec![base, exponent]).unwrap();
    assert_eq!(as_floats(&result), vec![Some(4.0), None, None, None]);
}

#[test]
fn a_reported_error_is_shown_with_the_invocation_mark() {
    let f2 = function("f2", "f_return_error");
    let error = f2.invoke(sandbox, vec![floats(&[Some(1.0)]), floats(&[Some(1.0)])]).unwrap_err();
    assert_eq!(
        error,
        InvocationError::GuestReportedError(String::from("wasm function returned error"))
    );
    assert_eq!(error.message(), "[Wasm Invocation] wasm function returned error");
}

#[test]
fn a_computation_error_is_passed_through() {
    let f2 = function("f2", "f_return_arrow_error");
    let error = f2.invoke(sandbox, vec![floats(&[Some(1.0)]), floats(&[Some(1.0)])]).unwrap_err();
    assert_eq!(error.message(), "[Wasm Invocation] Divide by zero error");
    assert_ne!(error.message(), "[Wasm Invocation] wasm function returned error");
}

#[test]
fn a_trap_is_shown_as_a_panic_and_leaves_the_next_call_alone() {
    let f1 = function("f1", "f1");
    let f3 = function("f3", "f_panic");
    let error = f3.invoke(sandbox, vec![floats(&[Some(1.0)]), floats(&[Some(1.0)])]).unwrap_err();
    assert_eq!(error, InvocationError::GuestPanic(String::from("unreachable")));
    assert_eq!(error.message(), "[Wasm Invocation Panic] unreachable");
    let result = f1.invoke(sandbox, vec![floats(&[Some(1.0)]), floats(&[Some(1.0)])]).unwrap();
    assert_eq!(as_floats(&result), vec![Some(1.0)]);
    let again = f3.invoke(sandbox, vec![floats(&[Some(1.0)]), floats(&[Some(1.0)])]).unwrap_err();
    assert_eq!(again.message(), "[Wasm Invocation Panic] unreachable");
}

#[test]
fn arguments_that_do_not_fit_never_reach_the_sandbox() {
    let f1 = function("f1", "f1");
    let called = Cell::new(0);
    let counting = |symbol: &str, payload: &[u8]| {
        called.set(called.get() + 1);
        sandbox(symbol, payload)
    };
    assert_eq!(
        f1.invoke(&counting, vec![floats(&[Some(1.0)])]),
        Err(InvocationError::Signature(BatchError::ColumnCount))
    );
    assert_eq!(
        f1.invoke(&counting, vec![]),
        Err(InvocationError::Signature(BatchError::ColumnCount))
    );
    assert_eq!(
        f1.invoke(
            &counting,
            vec![floats(&[Some(1.0)]), floats(&[Some(1.0)]), floats(&[Some(1.0)])]
        ),
        Err(InvocationError::Signature(BatchError::ColumnCount))
    );
    let ints = Column::try_new(DataType::Int64, vec![Some(1)]).unwrap();
    assert_eq!(
        f1.invoke(&counting, vec![floats(&[Some(1.0)]), ints]),
        Err(InvocationError::Signature(BatchError::ColumnType))
    );
    assert_eq!(
        f1.invoke(&counting, vec![floats(&[Some(1.0)]), floats(&[])]),
        Err(InvocationError::Signature(BatchError::ColumnLength))
    );
    assert_eq!(called.get(), 0);
    assert!(f1.invoke(&counting, vec![floats(&[Some(1.0)]), floats(&[Some(1.0)])]).is_ok());
    assert_eq!(called.get(), 1);
}

#[test]
fn the_sandbox_gets_the_symbol_and_the_encoded_arguments() {
    let f = function("declared", "exported");
    assert_eq!(f.name(), "declared");
    assert_eq!(f.wasm_method(), "__wasm_udf_exported");
    assert_eq!(export_name("f1"), "__wasm_udf_f1");
    assert_eq!(export_name(""), "__wasm_udf_");
    let args = vec![floats(&[Some(1.0), None]), floats(&[None, Some(2.0)])];
    let packed = f.pack(args.clone()).unwrap();
    assert_eq!(packed.schema(), f.argument_schema());
    assert_eq!(packed.columns(), &args);
    let expected = encode(&packed);
    let result = f.invoke(
        |symbol: &str, payload: &[u8]| {
            assert_eq!(symbol, "__wasm_udf_exported");
            assert_eq!(payload, expected.as_slice());
            CallOutcome::Returned(encode(&pack_result(floats(&[None, None]))))
        },
        args,
    );
    assert_eq!(result, Ok(floats(&[None, None])));
}

#[test]
fn what_comes_back_is_classified() {
    let one = pack_result(floats(&[Some(1.5)]));
    assert_eq!(complete(CallOutcome::Returned(encode(&one))), Ok(one.clone()));
    assert_eq!(
        complete(CallOutcome::Returned(vec![1, 2, 3])),
        Err(InvocationError::Codec(CodecError::Truncated))
    );
    assert_eq!(
        complete(CallOutcome::Returned(vec![1, 2, 3, 4])),
        Err(InvocationError::Codec(CodecError::BadMagic))
    );
    let none = RecordBatch::try_new(Schema::new(vec![]), vec![]).unwrap();
    assert_eq!(
        complete(CallOutcome::Returned(encode(&none))),
        Err(InvocationError::ResultShape)
    );
    let two = RecordBatch::try_new(
        Schema::new(vec![
            Field::new(String::from("a"), DataType::Int8, true),
            Field::new(String::from("b"), DataType::Int8, true),
        ]),
        vec![
            Column::try_new(DataType::Int8, vec![None]).unwrap(),
            Column::try_new(DataType::Int8, vec![None]).unwrap(),
        ],
    )
    .unwrap();
    assert_eq!(complete(CallOutcome::Returned(encode(&two))), Err(InvocationError::ResultShape));
    assert_eq!(
        complete(CallOutcome::Reported(String::from("no"))),
        Err(InvocationError::GuestReportedError(String::from("no")))
    );
    assert_eq!(
        complete(CallOutcome::Trapped(String::from("out of bounds memory access"))),
        Err(InvocationError::GuestPanic(String::from("out of bounds memory access")))
    );
}

#[test]
fn the_bridge_makes_one_call_with_the_encoded_batch() {
    let batch = pack_result(floats(&[Some(2.0)]));
    let expected = encode(&batch);
    let calls = Cell::new(0);
    let result = invoke(
        |symbol: &str, payload: &[u8]| {
            calls.set(calls.get() + 1);
            assert_eq!(symbol, "anything");
            assert_eq!(payload, expected.as_slice());
            CallOutcome::Returned(payload.to_vec())
        },
        "anything",
        &batch,
    );
    assert_eq!(result, Ok(batch.clone()));
    assert_eq!(calls.get(), 1);
    let failed = invoke(
        |_: &str, _: &[u8]| {
            calls.set(calls.get() + 1);
            CallOutcome::Trapped(String::from("unreachable"))
        },
        "anything",
        &batch,
    );
    assert_eq!(failed, Err(InvocationError::GuestPanic(String::from("unreachable"))));
    assert_eq!(calls.get(), 2);
}

#[test]
fn every_invocation_failure_has_its_mark() {
    assert_eq!(
        InvocationError::Signature(BatchError::ColumnCount).message(),
        "[Wasm Signature] wrong number of columns"
    );
    assert_eq!(
        InvocationError::Signature(BatchError::ColumnType).message(),
        "[Wasm Signature] column of another type than declared"
    );
    assert_eq!(
        InvocationError::Codec(CodecError::TrailingBytes).message(),
        "[Wasm Codec] bytes follow the end of the batch"
    );
    assert_eq!(
        InvocationError::ResultShape.message(),
        "[Wasm Codec] result batch must hold exactly one column"
    );
    assert_eq!(
        InvocationError::GuestReportedError(String::new()).message(),
        "[Wasm Invocation] "
    );
    assert_eq!(
        InvocationError::GuestPanic(String::from("unreachable")).message(),
        "[Wasm Invocation Panic] unreachable"
    );
}

#[test]
fn load_failures_have_their_text() {
    assert_eq!(
        WasmFunctionError::WasmEdgeError(String::from("module not found")).message(),
        "WasmEdge Error: module not found"
    );
    assert_eq!(
        WasmFunctionError::Execution(String::from("no project root")).message(),
        "Execution Error: no project root"
    );
}

#[test]
fn the_entry_point_decodes_calls_and_encodes() {
    let args = RecordBatch::try_new(
        Schema::for_arguments(&vec![DataType::Float64, DataType::Float64]),
        vec![floats(&[Some(3.0), None]), floats(&[Some(2.0), Some(1.0)])],
    )
    .unwrap();
    let reply = export_udf(power, &encode(&args)).unwrap();
    let result = decode(&reply).unwrap();
    assert_eq!(result, pack_result(floats(&[Some(9.0), None])));
    assert_eq!(result.schema().fields.len(), 1);
    assert_eq!(result.schema().fields[0].name, "c0");
    assert_eq!(result.schema().fields[0].data_type, DataType::Float64);
    assert!(result.schema().fields[0].nullable);
}

#[test]
fn the_entry_point_reports_bytes_that_are_no_batch() {
    let called = Cell::new(false);
    let reply = export_udf(
        |_: &[Column]| {
            called.set(true);
            Err(String::new())
        },
        &[0x57, 0x55],
    );
    assert_eq!(reply, Err(String::from("[Wasm Codec] batch bytes end early")));
    assert!(!called.get());
}

#[test]
fn the_entry_point_hands_a_reported_failure_on() {
    let args = pack_result(floats(&[]));
    assert_eq!(
        export_udf(returns_error, &encode(&args)),
        Err(String::from("wasm function returned error"))
    );
    let one = pack_result(floats(&[Some(1.0)]));
    assert_eq!(
        export_udf(power, &encode(&one)),
        Err(String::from("two arguments expected"))
    );
}

#[test]
fn columns_are_combined_row_by_row() {
    let left = Column::try_new(DataType::UInt8, vec![Some(200), None, Some(3), None]).unwrap();
    let right = Column::try_new(DataType::UInt8, vec![Some(55), Some(1), None, None]).unwrap();
    let sum = zip_with(&left, &right, DataType::UInt8, |a, b| Some(a + b)).unwrap();
    assert_eq!(sum.data_type(), DataType::UInt8);
    assert_eq!(sum.values(), &vec![Some(255), None, None, None]);
    let wide = zip_with(&left, &right, DataType::UInt16, |a, b| Some(a + b + 1)).unwrap();
    assert_eq!(wide.data_type(), DataType::UInt16);
    assert_eq!(wide.values(), &vec![Some(256), None, None, None]);
    assert_eq!(
        zip_with(&left, &right, DataType::UInt8, |a, b| Some(a + b + 1)),
        Err(BatchError::ValueOutOfRange)
    );
    let short = Column::try_new(DataType::UInt8, vec![Some(1)]).unwrap();
    assert_eq!(
        zip_with(&left, &short, DataType::UInt8, |a, b| Some(a + b)),
        Err(BatchError::ColumnLength)
    );
    let empty = Column::try_new(DataType::UInt8, vec![]).unwrap();
    assert_eq!(zip_with(&empty, &empty, DataType::Int64, |a, _| Some(a)).unwrap().len(), 0);
}

#[test]
fn a_row_without_a_value_to_give_is_null() {
    let left = Column::try_new(DataType::UInt32, vec![Some(6), Some(7), None, Some(9)]).unwrap();
    let right = Column::try_new(DataType::UInt32, vec![Some(3), Some(0), Some(0), Some(2)]).unwrap();
    let quotient = zip_with(&left, &right, DataType::UInt32, |a, b| a.checked_div(b)).unwrap();
    assert_eq!(quotient.values(), &vec![Some(2), None, None, Some(4)]);
}
