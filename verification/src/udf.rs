//! The function adapter: a guest export presented as a scalar function of
//! the query engine.

use vstd::prelude::*;
use crate::batch::{batch_fault, column_views, BatchView, Column, ColumnView, RecordBatch};
use crate::bridge::{invoke, outcome_failure, CallOutcome};
use crate::codec::{encode_batch, parse_batch};
use crate::error::InvocationError;
use crate::schema::{argument_fields, DataType, Schema};
use crate::text::join;

verus! {

/// How far a function's result may change between calls on the same input.
#[derive(Clone, Copy, Debug, PartialEq, Eq, Structural)]
pub enum Volatility {
    /// The same input always gives the same result.
    Immutable,
    /// The same input gives the same result within one query.
    Stable,
    /// The result may change from call to call.
    Volatile,
}

/// The exact argument types of a function, and its volatility.
#[derive(Debug, PartialEq, Eq)]
pub struct Signature {
    pub argument_types: Vec<DataType>,
    pub volatility: Volatility,
}

/// What every exported guest symbol starts with.
pub open spec fn symbol_prefix() -> Seq<char> {
    "__wasm_udf_"@
}

/// The symbol under which the guest exports the function `method`.
pub open spec fn exported_symbol(method: Seq<char>) -> Seq<char> {
    symbol_prefix() + method
}

/// Two guest functions are exported under one symbol only where they are
/// one function.
pub proof fn lemma_symbols_do_not_collide(a: Seq<char>, b: Seq<char>)
    requires
        exported_symbol(a) == exported_symbol(b),
    ensures
        a == b,
{
    let n = symbol_prefix().len() as int;
    assert(exported_symbol(a).skip(n) =~= a);
    assert(exported_symbol(b).skip(n) =~= b);
}

/// The symbol under which the guest exports the function `method`.
pub fn export_name(method: &str) -> (symbol: String)
    ensures
        symbol@ == exported_symbol(method@),
{
    join("__wasm_udf_", method)
}

/// What a declared function is, as a mathematical value.
pub struct FunctionView {
    pub name: Seq<char>,
    pub symbol: Seq<char>,
    pub argument_types: Seq<DataType>,
    pub return_type: DataType,
}

/// The batch that carries `columns` as the arguments of a function with the
/// given argument types.
pub open spec fn argument_batch(types: Seq<DataType>, columns: Seq<ColumnView>) -> BatchView {
    BatchView { fields: argument_fields(types), columns }
}

/// Whether `result` is the single column of what `outcome` gives, or the
/// failure of the outcome.
pub open spec fn yields(outcome: CallOutcome, result: Result<Column, InvocationError>) -> bool {
    match result {
        Ok(column) => {
            &&& outcome_failure(outcome) is None
            &&& outcome matches CallOutcome::Returned(bytes)
            &&& parse_batch(bytes@) matches Ok(batch)
            &&& batch.columns[0] == column@
        },
        Err(e) => outcome_failure(outcome) == Some(e),
    }
}

/// A scalar function whose body is a guest export.
#[derive(Debug)]
pub struct WasmFunctionWrapper {
    name: String,
    wasm_method: String,
    argument_schema: Schema,
    signature: Signature,
    return_type: DataType,
}

impl View for WasmFunctionWrapper {
    type V = FunctionView;

    closed spec fn view(&self) -> FunctionView {
        FunctionView {
            name: self.name@,
            symbol: self.wasm_method@,
            argument_types: self.signature.argument_types@,
            return_type: self.return_type,
        }
    }
}

impl WasmFunctionWrapper {
    #[verifier::type_invariant]
    spec fn well_formed(&self) -> bool {
        &&& self.argument_schema@ == argument_fields(self.signature.argument_types@)
        &&& self.signature.volatility == Volatility::Volatile
    }

    /// The function declared as `name`, bound to the guest function `method`.
    pub fn new(
        name: String,
        method: &str,
        argument_types: Vec<DataType>,
        return_type: DataType,
    ) -> (f: WasmFunctionWrapper)
        ensures
            f@ == (FunctionView {
                name: name@,
                symbol: exported_symbol(method@),
                argument_types: argument_types@,
                return_type,
            }),
    {
        let argument_schema = Schema::for_arguments(&argument_types);
        WasmFunctionWrapper {
            wasm_method: export_name(method),
            name,
            signature: Signature { argument_types, volatility: Volatility::Volatile },
            return_type,
            argument_schema,
        }
    }

    /// The name under which the function was declared.
    pub fn name(&self) -> (name: &str)
        ensures
            name@ == self@.name,
    {
        self.name.as_str()
    }

    /// The symbol that the guest exports the function under.
    pub fn wasm_method(&self) -> (symbol: &str)
        ensures
            symbol@ == self@.symbol,
    {
        self.wasm_method.as_str()
    }

    /// The signature: exactly the declared argument types, and volatile.
    pub fn signature(&self) -> (s: &Signature)
        ensures
            s.argument_types@ == self@.argument_types,
            s.volatility == Volatility::Volatile,
    {
        proof {
            use_type_invariant(self);
        }
        &self.signature
    }

    /// The declared return type, whatever the types of the arguments.
    pub fn return_type(&self, _arg_types: &[DataType]) -> (t: DataType)
        ensures
            t == self@.return_type,
    {
        self.return_type
    }

    /// The schema under which the arguments travel.
    pub fn argument_schema(&self) -> (s: &Schema)
        ensures
            s@ == argument_fields(self@.argument_types),
    {
        proof {
            use_type_invariant(self);
        }
        &self.argument_schema
    }

    /// Packs the arguments of one call into a batch, refused where they do
    /// not fit the signature.
    pub fn pack(&self, args: Vec<Column>) -> (r: Result<RecordBatch, InvocationError>)
        ensures
            match r {
                Ok(batch) => {
                    &&& batch@ == argument_batch(self@.argument_types, column_views(args@))
                    &&& batch@.valid()
                    &&& batch_fault(argument_fields(self@.argument_types), column_views(args@))
                        is None
                },
                Err(e) => batch_fault(
                    argument_fields(self@.argument_types),
                    column_views(args@),
                ) matches Some(fault) && e == InvocationError::Signature(fault),
            },
    {
        proof {
            use_type_invariant(self);
        }
        match RecordBatch::try_new(self.argument_schema.clone(), args) {
            Ok(batch) => Ok(batch),
            Err(fault) => Err(InvocationError::Signature(fault)),
        }
    }

    /// Invokes the function on `args`. Arguments that do not fit the
    /// signature are refused before the sandbox is called; else `call`, which
    /// stands for the sandbox, is called once with the exported symbol and
    /// the encoded arguments, and the single column of the batch that comes
    /// back is the result.
    pub fn invoke<F>(&self, call: F, args: Vec<Column>) -> (r: Result<
        Column,
        InvocationError,
    >) where F: FnOnce(&str, &[u8]) -> CallOutcome
        requires
            forall|symbol: &str, payload: &[u8]| call.requires((symbol, payload)),
        ensures
            match batch_fault(argument_fields(self@.argument_types), column_views(args@)) {
                Some(fault) => r == Err::<Column, InvocationError>(
                    InvocationError::Signature(fault),
                ),
                None => exists|symbol: &str, payload: &[u8], outcome: CallOutcome|
                    {
                        &&& symbol@ == self@.symbol
                        &&& payload@ == encode_batch(
                            argument_batch(self@.argument_types, column_views(args@)),
                        )
                        &&& #[trigger] call.ensures((symbol, payload), outcome)
                        &&& yields(outcome, r)
                    },
            },
    {
        let batch = match self.pack(args) {
            Err(e) => {
                return Err(e);
            },
            Ok(batch) => batch,
        };
        match invoke(call, self.wasm_method.as_str(), &batch) {
            Err(e) => Err(e),
            Ok(result) => {
                let (_, mut columns) = result.into_parts();
                let column = columns.pop();
                Ok(column.unwrap())
            },
        }
    }
}

/// A call that the sandbox aborted leaves nothing behind in the bridge: it
/// gives the panic failure with the sandbox's reason, and what a later call
/// gives is decided by that call's own outcome alone. Where the later call
/// hands back bytes that decode to a batch of one column, that column is
/// the result.
pub proof fn lemma_panic_is_isolated(
    reason: String,
    first: Result<Column, InvocationError>,
    bytes: Vec<u8>,
    later: Result<Column, InvocationError>,
)
    requires
        yields(CallOutcome::Trapped(reason), first),
        yields(CallOutcome::Returned(bytes), later),
        parse_batch(bytes@) matches Ok(batch) && batch.columns.len() == 1,
    ensures
        first == Err::<Column, InvocationError>(InvocationError::GuestPanic(reason)),
        later matches Ok(result) && result@ == parse_batch(bytes@)->Ok_0.columns[0],
{
}

} // verus!
