//! The invocation bridge: one guest call per invocation, and the
//! classification of what came of it.

use vstd::prelude::*;
use crate::batch::{BatchView, RecordBatch};
use crate::codec::{decode, encode, encode_batch, parse_batch};
use crate::error::{CodecError, InvocationError};

verus! {

/// What came of one call into the sandbox.
#[derive(Debug, PartialEq, Eq)]
pub enum CallOutcome {
    /// The guest completed the call and handed back bytes.
    Returned(Vec<u8>),
    /// The guest completed the call and reported a failure of its own.
    Reported(String),
    /// The sandbox aborted the call; the text says why.
    Trapped(String),
}

/// Why an outcome gives no result batch, or `None` where it gives one.
pub open spec fn outcome_failure(outcome: CallOutcome) -> Option<InvocationError> {
    match outcome {
        CallOutcome::Returned(bytes) => match parse_batch(bytes@) {
            Err(e) => Some(InvocationError::Codec(e)),
            Ok(batch) => if batch.columns.len() == 1 {
                None
            } else {
                Some(InvocationError::ResultShape)
            },
        },
        CallOutcome::Reported(message) => Some(InvocationError::GuestReportedError(message)),
        CallOutcome::Trapped(reason) => Some(InvocationError::GuestPanic(reason)),
    }
}

/// Whether `result` is what the bridge makes of `outcome`: the batch that the
/// returned bytes encode, where it holds exactly one column, and else the
/// failure of the outcome.
pub open spec fn completes(
    outcome: CallOutcome,
    result: Result<RecordBatch, InvocationError>,
) -> bool {
    match result {
        Ok(batch) => {
            &&& outcome_failure(outcome) is None
            &&& outcome matches CallOutcome::Returned(bytes)
            &&& parse_batch(bytes@) == Ok::<BatchView, CodecError>(batch@)
            &&& batch@.valid()
            &&& batch@.columns.len() == 1
        },
        Err(e) => outcome_failure(outcome) == Some(e),
    }
}

/// Classifies what came of a guest call.
pub fn complete(outcome: CallOutcome) -> (r: Result<RecordBatch, InvocationError>)
    ensures
        completes(outcome, r),
{
    match outcome {
        CallOutcome::Returned(bytes) => match decode(bytes.as_slice()) {
            Err(e) => Err(InvocationError::Codec(e)),
            Ok(batch) => {
                if batch.num_columns() == 1 {
                    Ok(batch)
                } else {
                    Err(InvocationError::ResultShape)
                }
            },
        },
        CallOutcome::Reported(message) => Err(InvocationError::GuestReportedError(message)),
        CallOutcome::Trapped(reason) => Err(InvocationError::GuestPanic(reason)),
    }
}

/// Invokes the guest function exported as `symbol` on `batch`: encodes the
/// batch, makes the one call and classifies what came of it. `call` stands
/// for the sandbox; it is consumed by the call, so that no second call can
/// follow, whatever the first one gave.
pub fn invoke<F>(call: F, symbol: &str, batch: &RecordBatch) -> (r: Result<
    RecordBatch,
    InvocationError,
>) where F: FnOnce(&str, &[u8]) -> CallOutcome
    requires
        forall|payload: &[u8]|
            payload@ == encode_batch(batch@) ==> call.requires((symbol, payload)),
    ensures
        exists|payload: &[u8], outcome: CallOutcome|
            payload@ == encode_batch(batch@) && #[trigger] call.ensures(
                (symbol, payload),
                outcome,
            ) && completes(outcome, r),
{
    let payload = encode(batch);
    let bytes = payload.as_slice();
    let outcome = call(symbol, bytes);
    let ghost seen = outcome;
    let r = complete(outcome);
    assert(call.ensures((symbol, bytes), seen) && completes(seen, r));
    r
}

} // verus!
