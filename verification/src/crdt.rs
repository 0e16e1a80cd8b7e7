//! Trusted boundary to the CRDT library (yrs).
//!
//! A document's replica is opaque to verification: these wrappers carry
//! state vectors, diffs and updates as plain byte vectors, and promise only
//! what holds of every outcome of a replica operation.

use vstd::prelude::*;
use yrs::updates::decoder::Decode;
use yrs::updates::encoder::Encode;
use yrs::{ReadTxn, Transact};

verus! {

#[verifier::external_type_specification]
#[verifier::external_body]
pub struct ExYrsDoc(yrs::Doc);

/// Relies on yrs::Doc::new: a fresh, empty CRDT replica.
#[verifier::external_body]
pub fn new_ydoc() -> yrs::Doc {
    yrs::Doc::new()
}

/// Relies on yrs ReadTxn::state_vector and Encode::encode_v1, under a read
/// transaction from Transact::transact: the replica's current state vector.
#[verifier::external_body]
pub fn ydoc_state_vector(doc: &yrs::Doc) -> Vec<u8> {
    doc.transact().state_vector().encode_v1()
}

/// Whether the bytes decode as a version-1 encoded state vector: what
/// yrs StateVector::decode_v1 answers, a pure function of the bytes.
pub uninterp spec fn sv_decodes_v1(bytes: Seq<u8>) -> bool;

/// Whether the bytes decode as a version-1 encoded update: what yrs
/// Update::decode_v1 answers, a pure function of the bytes.
pub uninterp spec fn update_decodes_v1(bytes: Seq<u8>) -> bool;

/// Relies on yrs StateVector::decode_v1 and ReadTxn::encode_state_as_update_v1:
/// the update a peer at the given state vector is missing. decode_v1 is a
/// pure parser of the bytes, and encoding the diff is total, so the call
/// succeeds exactly when the state vector bytes decode.
#[verifier::external_body]
pub fn ydoc_diff(doc: &yrs::Doc, state_vector: &[u8]) -> (r: Result<Vec<u8>, String>)
    ensures
        r is Ok <==> sv_decodes_v1(state_vector@),
{
    match yrs::StateVector::decode_v1(state_vector) {
        Ok(sv) => Ok(doc.transact().encode_state_as_update_v1(&sv)),
        Err(e) => Err(e.to_string()),
    }
}

/// Relies on yrs Update::decode_v1 and TransactionMut::apply_update through
/// Transact::transact_mut: merges the update into the replica. Bytes that
/// do not decode always fail; a decoded update may still be refused on
/// grounds of the replica's state, so success is not promised.
#[verifier::external_body]
pub fn ydoc_apply_update(doc: &yrs::Doc, update: &[u8]) -> (r: Result<(), String>)
    ensures
        !update_decodes_v1(update@) ==> r is Err,
{
    let u = match yrs::Update::decode_v1(update) {
        Ok(u) => u,
        Err(e) => {
            return Err(e.to_string());
        },
    };
    match doc.transact_mut().apply_update(u) {
        Ok(()) => Ok(()),
        Err(e) => Err(e.to_string()),
    }
}

}
