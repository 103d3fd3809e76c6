//! The metered ed25519 natives: public key validation and signature
//! verification. Each charges gas in proportion to the length of its input,
//! and reports malformed input as a failure of the native, never by a fault.

use crate::ed25519::{
    public_key_is_valid, signature_is_well_formed, strictly_verifies, validate_public_key,
    verification_outcome, verify_signature,
};
use crate::native::{
    gas_charge, native_gas, pop_bytes, pop_bytes_argument, CostTable, NativeCostIndex,
    NativeResult, PartialVMError, StatusCode, Type, Value,
};
use std::collections::VecDeque;
use vstd::prelude::*;

verus! {

/// The sub-status that marks malformed cryptographic input.
pub const DEFAULT_ERROR_CODE: u64 = 0x0ED2_5519;

/// The failure reported for a malformed key or signature.
pub open spec fn malformed_input() -> PartialVMError {
    PartialVMError::new(StatusCode::NativeFunctionError).with_sub_status(DEFAULT_ERROR_CODE)
}

/// The arguments of a key validation: the key, taken from the end.
pub open spec fn validation_arguments(arguments: Seq<Value>) -> Result<Seq<u8>, PartialVMError> {
    match pop_bytes(arguments) {
        Ok((key, _)) => Ok(key),
        Err(e) => Err(e),
    }
}

/// The arguments of a signature verification, taken from the end: the
/// message, before it the public key, before that the signature.
pub open spec fn verification_arguments(arguments: Seq<Value>) -> Result<
    (Seq<u8>, Seq<u8>, Seq<u8>),
    PartialVMError,
> {
    match pop_bytes(arguments) {
        Ok((message, before_message)) => match pop_bytes(before_message) {
            Ok((public_key, before_key)) => match pop_bytes(before_key) {
                Ok((signature, _)) => Ok((message, public_key, signature)),
                Err(e) => Err(e),
            },
            Err(e) => Err(e),
        },
        Err(e) => Err(e),
    }
}

/// The result of a key validation that charged `cost` and found the key
/// valid or not: always a success, returning that one boolean.
pub fn publickey_validation_result(cost: u64, valid: bool) -> (result: NativeResult)
    ensures
        result.is_ok_with(cost as nat, seq![Value::Bool(valid)]),
{
    let mut values: Vec<Value> = Vec::new();
    values.push(Value::Bool(valid));
    assert(values@ =~= seq![Value::Bool(valid)]);
    NativeResult::ok(cost, values)
}

/// The result of a signature verification that charged `cost`: for malformed
/// input the failure with the fixed sub-status, and else a success returning
/// whether the signature was accepted.
pub fn signature_verification_result(cost: u64, outcome: Option<bool>) -> (result: NativeResult)
    ensures
        match outcome {
            Some(accepted) => result.is_ok_with(cost as nat, seq![Value::Bool(accepted)]),
            None => result.is_err_with(cost as nat, malformed_input()),
        },
{
    match outcome {
        Some(accepted) => {
            let mut values: Vec<Value> = Vec::new();
            values.push(Value::Bool(accepted));
            assert(values@ =~= seq![Value::Bool(accepted)]);
            NativeResult::ok(cost, values)
        },
        None => NativeResult::err(
            cost,
            PartialVMError::new(StatusCode::NativeFunctionError).with_sub_status(
                DEFAULT_ERROR_CODE,
            ),
        ),
    }
}

/// Validates the public key that is the last argument. Charges the price of
/// a key validation for each byte of the key, and returns whether the key is
/// valid. Fails only when the argument is missing or no byte string. The
/// native takes no type arguments and reads none. The charge has to fit in
/// gas units; `charge_fits` tells.
pub fn native_ed25519_publickey_validation(
    cost_table: &CostTable,
    _ty_args: Vec<Type>,
    arguments: VecDeque<Value>,
) -> (r: Result<NativeResult, PartialVMError>)
    requires
        validation_arguments(arguments@) matches Ok(key) ==> gas_charge(
            *cost_table,
            NativeCostIndex::Ed25519ValidateKey,
            key.len(),
        ) <= u64::MAX,
    ensures
        match validation_arguments(arguments@) {
            Ok(key) => r matches Ok(result) && result.is_ok_with(
                gas_charge(*cost_table, NativeCostIndex::Ed25519ValidateKey, key.len()),
                seq![Value::Bool(public_key_is_valid(key))],
            ),
            Err(e) => r == Err::<NativeResult, PartialVMError>(e),
        },
{
    let mut arguments = arguments;
    let key_bytes = match pop_bytes_argument(&mut arguments) {
        Ok(bytes) => bytes,
        Err(e) => { return Err(e); },
    };
    let cost = native_gas(cost_table, NativeCostIndex::Ed25519ValidateKey, key_bytes.len());
    let valid = validate_public_key(key_bytes.as_slice());
    Ok(publickey_validation_result(cost, valid))
}

/// Verifies a signature. The arguments are, from the end: the message, the
/// public key, the signature. Charges the price of a verification for each
/// byte of the message. A malformed signature or an invalid key gives the
/// failure with the fixed sub-status; otherwise the native returns whether
/// the signature is accepted. Fails only when an argument is missing or no
/// byte string. The native takes no type arguments and reads none. The
/// charge has to fit in gas units; `charge_fits` tells.
pub fn native_ed25519_signature_verification(
    cost_table: &CostTable,
    _ty_args: Vec<Type>,
    arguments: VecDeque<Value>,
) -> (r: Result<NativeResult, PartialVMError>)
    requires
        verification_arguments(arguments@) matches Ok((message, _, _)) ==> gas_charge(
            *cost_table,
            NativeCostIndex::Ed25519Verify,
            message.len(),
        ) <= u64::MAX,
    ensures
        match verification_arguments(arguments@) {
            Ok((message, public_key, signature)) => {
                let cost = gas_charge(*cost_table, NativeCostIndex::Ed25519Verify, message.len());
                &&& r matches Ok(result)
                &&& match verification_outcome(
                    signature_is_well_formed(signature),
                    public_key_is_valid(public_key),
                    strictly_verifies(message, public_key, signature),
                ) {
                    Some(accepted) => result.is_ok_with(cost, seq![Value::Bool(accepted)]),
                    None => result.is_err_with(cost, malformed_input()),
                }
            },
            Err(e) => r == Err::<NativeResult, PartialVMError>(e),
        },
{
    let mut arguments = arguments;
    let msg = match pop_bytes_argument(&mut arguments) {
        Ok(bytes) => bytes,
        Err(e) => { return Err(e); },
    };
    let pubkey = match pop_bytes_argument(&mut arguments) {
        Ok(bytes) => bytes,
        Err(e) => { return Err(e); },
    };
    let signature = match pop_bytes_argument(&mut arguments) {
        Ok(bytes) => bytes,
        Err(e) => { return Err(e); },
    };
    let cost = native_gas(cost_table, NativeCostIndex::Ed25519Verify, msg.len());
    let outcome = verify_signature(signature.as_slice(), pubkey.as_slice(), msg.as_slice());
    Ok(signature_verification_result(cost, outcome))
}

} // verus!
