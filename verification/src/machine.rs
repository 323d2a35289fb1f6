//! The contract execution contract: a pluggable state machine, and the
//! driver that turns one execution into a canonical output record.

use vstd::prelude::*;

verus! {

use crate::errors::ExecError;
use crate::model::{Calldata, OutputRecord, StateDigest, flat_blobs, flatten_blobs};

/// A contract's deterministic transition function over its own state and a
/// whole transaction.
///
/// `execute` is all-or-nothing: on any error the state is exactly what it
/// was, so a failing transaction can never move the committed digest.
/// `commit` is a function of the state alone, so re-executing the same
/// transition elsewhere commits the same digest.
pub trait ContractStateMachine: Sized {
    /// The state's internal invariant, established at genesis and kept by
    /// every transition.
    spec fn wf(self) -> bool;

    /// The digest `commit` serializes this state to.
    spec fn digest_spec(self) -> Seq<u8>;

    /// The machine's transition relation: what `execute` returns and does
    /// to the state, for every state and calldata.
    spec fn execute_ens(
        pre: Self,
        post: Self,
        calldata: Calldata,
        r: Result<String, ExecError>,
    ) -> bool;

    /// Runs this contract's action from the transaction against the
    /// current state.  Returns the outcome message, or the error that left
    /// the state untouched.
    fn execute(&mut self, calldata: &Calldata) -> (r: Result<String, ExecError>)
        requires
            (*old(self)).wf(),
        ensures
            (*final(self)).wf(),
            r is Err ==> *final(self) == *old(self),
            Self::execute_ens(*old(self), *final(self), *calldata, r),
    ;

    /// Serializes the state into its on-chain digest.
    fn commit(&self) -> (d: StateDigest)
        requires
            self.wf(),
        ensures
            d@ == self.digest_spec(),
    ;
}

/// Runs one contract against one transaction and assembles the canonical
/// output record: prior and resulting digests, the acting identity, the
/// executed blob index, the flattened blobs, and the outcome.
///
/// A failed execution leaves the state as it was, so the record then
/// carries the same digest twice and running the same failing transaction
/// again can never move it.
pub fn run_transaction<C: ContractStateMachine>(state: &mut C, calldata: &Calldata) -> (out:
    OutputRecord)
    requires
        (*old(state)).wf(),
    ensures
        (*final(state)).wf(),
        out.version == 1,
        out.initial_state@ == (*old(state)).digest_spec(),
        out.next_state@ == (*final(state)).digest_spec(),
        !out.success ==> *final(state) == *old(state) && out.next_state@ == out.initial_state@,
        out.identity@ == calldata.identity@,
        out.tx_hash@ == calldata.tx_hash@,
        out.blob_index == calldata.index,
        out.flattened_blobs@ == flat_blobs(calldata.blobs@),
        exists|r: Result<String, ExecError>|
            {
                &&& #[trigger] C::execute_ens(*old(state), *final(state), *calldata, r)
                &&& (out.success <==> r is Ok)
                &&& out.message@ == (match r {
                    Ok(m) => m@,
                    Err(e) => e.text_spec(),
                })
            },
{
    let initial_state = state.commit();
    let result = state.execute(calldata);
    let ghost gresult = result;
    let next_state = state.commit();
    let flattened_blobs = flatten_blobs(&calldata.blobs);
    match result {
        Ok(message) => OutputRecord {
            version: 1,
            initial_state,
            next_state,
            identity: crate::model::Identity(calldata.identity.0.clone()),
            tx_hash: crate::model::TxHash(calldata.tx_hash.0.clone()),
            blob_index: calldata.index,
            flattened_blobs,
            success: true,
            message,
        },
        Err(e) => OutputRecord {
            version: 1,
            initial_state,
            next_state,
            identity: crate::model::Identity(calldata.identity.0.clone()),
            tx_hash: crate::model::TxHash(calldata.tx_hash.0.clone()),
            blob_index: calldata.index,
            flattened_blobs,
            success: false,
            message: e.text(),
        },
    }
}

} // verus!
