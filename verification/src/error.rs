//! The failure taxonomy of the bridge, and the text under which each failure
//! is shown to the host.

use vstd::prelude::*;
use crate::text::join;

verus! {

/// Why a function definition was refused at registration time.
#[derive(Clone, Copy, Debug, PartialEq, Eq, Structural)]
pub enum DefinitionError {
    /// The definition string holds no `!`.
    MissingSeparator,
    /// The definition string holds more than one `!`.
    DuplicatedSeparator,
    /// Nothing stands before the `!`.
    EmptyModule,
    /// Nothing stands after the `!`.
    EmptyMethod,
    /// The statement carries no definition at all.
    NotDefined,
    /// The statement carries a definition in a form other than a quoted string.
    UnsupportedDefinition,
    /// The statement declares no return type.
    MissingReturnType,
}

impl DefinitionError {
    /// The text of the failure.
    pub open spec fn spec_describe(self) -> Seq<char> {
        match self {
            DefinitionError::MissingSeparator
            | DefinitionError::DuplicatedSeparator
            | DefinitionError::EmptyModule
            | DefinitionError::EmptyMethod => "bad module/method format"@,
            DefinitionError::NotDefined => "wasm function not defined"@,
            DefinitionError::UnsupportedDefinition => "wasm function incorrect"@,
            DefinitionError::MissingReturnType => "return type expected"@,
        }
    }

    /// The text of the failure.
    pub fn describe(self) -> (r: &'static str)
        ensures
            r@ == self.spec_describe(),
    {
        match self {
            DefinitionError::MissingSeparator
            | DefinitionError::DuplicatedSeparator
            | DefinitionError::EmptyModule
            | DefinitionError::EmptyMethod => "bad module/method format",
            DefinitionError::NotDefined => "wasm function not defined",
            DefinitionError::UnsupportedDefinition => "wasm function incorrect",
            DefinitionError::MissingReturnType => "return type expected",
        }
    }
}

/// Why columns were refused as a column or as a batch.
#[derive(Clone, Copy, Debug, PartialEq, Eq, Structural)]
pub enum BatchError {
    /// A value is no bit pattern of the column's type.
    ValueOutOfRange,
    /// The number of columns differs from the number of fields.
    ColumnCount,
    /// A column's type differs from the type of its field.
    ColumnType,
    /// A column's length differs from the length of the first column.
    ColumnLength,
}

impl BatchError {
    /// The text of the failure.
    pub open spec fn spec_describe(self) -> Seq<char> {
        match self {
            BatchError::ValueOutOfRange => "value does not fit the column type"@,
            BatchError::ColumnCount => "wrong number of columns"@,
            BatchError::ColumnType => "column of another type than declared"@,
            BatchError::ColumnLength => "columns of different lengths"@,
        }
    }

    /// The text of the failure.
    pub fn describe(self) -> (r: &'static str)
        ensures
            r@ == self.spec_describe(),
    {
        match self {
            BatchError::ValueOutOfRange => "value does not fit the column type",
            BatchError::ColumnCount => "wrong number of columns",
            BatchError::ColumnType => "column of another type than declared",
            BatchError::ColumnLength => "columns of different lengths",
        }
    }
}

/// Why bytes were refused as the encoding of a batch.
#[derive(Clone, Copy, Debug, PartialEq, Eq, Structural)]
pub enum CodecError {
    /// The bytes end before the batch does.
    Truncated,
    /// The bytes do not start with the format's mark.
    BadMagic,
    /// Rows are announced for a batch without columns.
    InvalidRowCount,
    /// A field name is not UTF-8.
    InvalidName,
    /// A field's type byte stands for no type.
    UnknownType,
    /// A byte that must be 0 or 1 is neither.
    InvalidFlag,
    /// Bytes follow the end of the batch.
    TrailingBytes,
}

impl CodecError {
    /// The text of the failure.
    pub open spec fn spec_describe(self) -> Seq<char> {
        match self {
            CodecError::Truncated => "batch bytes end early"@,
            CodecError::BadMagic => "batch bytes do not start with the format mark"@,
            CodecError::InvalidRowCount => "rows announced for a batch without columns"@,
            CodecError::InvalidName => "field name is not UTF-8"@,
            CodecError::UnknownType => "unknown column type"@,
            CodecError::InvalidFlag => "flag byte is neither 0 nor 1"@,
            CodecError::TrailingBytes => "bytes follow the end of the batch"@,
        }
    }

    /// The text of the failure.
    pub fn describe(self) -> (r: &'static str)
        ensures
            r@ == self.spec_describe(),
    {
        match self {
            CodecError::Truncated => "batch bytes end early",
            CodecError::BadMagic => "batch bytes do not start with the format mark",
            CodecError::InvalidRowCount => "rows announced for a batch without columns",
            CodecError::InvalidName => "field name is not UTF-8",
            CodecError::UnknownType => "unknown column type",
            CodecError::InvalidFlag => "flag byte is neither 0 nor 1",
            CodecError::TrailingBytes => "bytes follow the end of the batch",
        }
    }
}

/// Why an invocation gave no result column.
#[derive(Debug, PartialEq, Eq)]
pub enum InvocationError {
    /// The arguments do not fit the declared signature; no guest call was made.
    Signature(BatchError),
    /// The bytes that came back are no batch.
    Codec(CodecError),
    /// The batch that came back does not hold exactly one column.
    ResultShape,
    /// The guest completed the call and reported a failure of its own.
    GuestReportedError(String),
    /// The guest did not complete the call: the sandbox trapped.
    GuestPanic(String),
}

/// The mark of a failure that the guest reported.
pub open spec fn invocation_prefix() -> Seq<char> {
    "[Wasm Invocation] "@
}

/// The mark of a call that the sandbox aborted.
pub open spec fn panic_prefix() -> Seq<char> {
    "[Wasm Invocation Panic] "@
}

/// The mark of arguments that do not fit the signature.
pub open spec fn signature_prefix() -> Seq<char> {
    "[Wasm Signature] "@
}

/// The mark of bytes that do not follow the wire format.
pub open spec fn codec_prefix() -> Seq<char> {
    "[Wasm Codec] "@
}

/// The text of a result batch with the wrong number of columns.
pub open spec fn result_shape_text() -> Seq<char> {
    "result batch must hold exactly one column"@
}

impl InvocationError {
    /// The text under which the failure is shown to the host: a mark for
    /// the kind of failure, and then what failed.
    pub open spec fn spec_message(self) -> Seq<char> {
        match self {
            InvocationError::Signature(e) => signature_prefix() + e.spec_describe(),
            InvocationError::Codec(e) => codec_prefix() + e.spec_describe(),
            InvocationError::ResultShape => codec_prefix() + result_shape_text(),
            InvocationError::GuestReportedError(message) => invocation_prefix() + message@,
            InvocationError::GuestPanic(reason) => panic_prefix() + reason@,
        }
    }

    /// The text under which the failure is shown to the host.
    pub fn message(&self) -> (r: String)
        ensures
            r@ == self.spec_message(),
    {
        match self {
            InvocationError::Signature(e) => join("[Wasm Signature] ", e.describe()),
            InvocationError::Codec(e) => join("[Wasm Codec] ", e.describe()),
            InvocationError::ResultShape => join(
                "[Wasm Codec] ",
                "result batch must hold exactly one column",
            ),
            InvocationError::GuestReportedError(message) => join(
                "[Wasm Invocation] ",
                message.as_str(),
            ),
            InvocationError::GuestPanic(reason) => join(
                "[Wasm Invocation Panic] ",
                reason.as_str(),
            ),
        }
    }
}

/// Why a guest module could not be made ready to run.
#[derive(Debug, PartialEq, Eq)]
pub enum WasmFunctionError {
    /// The sandbox refused the module; the text is the sandbox's own.
    WasmEdgeError(String),
    /// The module could not be located or another step failed.
    Execution(String),
}

impl WasmFunctionError {
    /// The text of the failure.
    pub open spec fn spec_message(self) -> Seq<char> {
        match self {
            WasmFunctionError::WasmEdgeError(text) => "WasmEdge Error: "@ + text@,
            WasmFunctionError::Execution(text) => "Execution Error: "@ + text@,
        }
    }

    /// The text of the failure.
    pub fn message(&self) -> (r: String)
        ensures
            r@ == self.spec_message(),
    {
        match self {
            WasmFunctionError::WasmEdgeError(text) => join("WasmEdge Error: ", text.as_str()),
            WasmFunctionError::Execution(text) => join("Execution Error: ", text.as_str()),
        }
    }
}

} // verus!
