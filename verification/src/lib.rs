//! Host/guest invocation bridge for user-defined scalar functions that run
//! inside a sandboxed guest module.
//!
//! The crate holds the rules of the bridge: how a function definition is
//! parsed, how argument and result batches are laid out on the wire, how a
//! declared function is presented to the query engine, how a guest function
//! becomes an entry point and how the outcome of a guest call is classified.
//! Every function is verified against the contract it carries; the one step
//! that is taken on trust is the standard library's reading of UTF-8 text.

pub mod batch;
pub mod bridge;
pub mod codec;
pub mod codec_laws;
pub mod error;
pub mod factory;
pub mod guest;
pub mod schema;
pub mod text;
pub mod udf;
pub mod wire;

pub use batch::{Column, RecordBatch};
pub use bridge::{complete, invoke, CallOutcome};
pub use codec::{decode, encode};
pub use error::{BatchError, CodecError, DefinitionError, InvocationError, WasmFunctionError};
pub use factory::{CreateFunction, DefinitionStatement, FunctionPlan, WasmFunctionFactory};
pub use guest::{export_udf, pack_result, zip_with};
pub use schema::{DataType, Field, Schema};
pub use udf::{export_name, Signature, Volatility, WasmFunctionWrapper};
