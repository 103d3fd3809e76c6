use execution_correctness::ed25519::{
    check_signature_encoding, validate_public_key, verify_signature, PrivateKey, GROUP_ORDER,
};
use execution_correctness::native::{
    charge_fits, native_gas, pop_bytes_argument, CostTable, GasCost, NativeCostIndex,
    NativeResult, PartialVMError, StatusCode, Type, Value,
};
use execution_correctness::signature::{
    native_ed25519_publickey_validation, native_ed25519_signature_verification,
    publickey_validation_result, signature_verification_result, DEFAULT_ERROR_CODE,
};
use std::collections::VecDeque;

const SECRET: [u8; 32] = [
    0x9d, 0x61, 0xb1, 0x9d, 0xef, 0xfd, 0x5a, 0x60, 0xba, 0x84, 0x4a, 0xf4, 0x92, 0xec, 0x2c, 0xc4,
    0x44, 0x49, 0xc5, 0x69, 0x7b, 0x32, 0x69, 0x19, 0x70, 0x3b, 0xac, 0x03, 0x1c, 0xae, 0x7f, 0x60,
];

const PUBLIC: [u8; 32] = [
    0xd7, 0x5a, 0x98, 0x01, 0x82, 0xb1, 0x0a, 0xb7, 0xd5, 0x4b, 0xfe, 0xd3, 0xc9, 0x64, 0x07, 0x3a,
    0x0e, 0xe1, 0x72, 0xf3, 0xda, 0xa6, 0x23, 0x25, 0xaf, 0x02, 0x1a, 0x68, 0xf7, 0x07, 0x51, 0x1a,
];

const SIGNATURE_OF_HELLO: [u8; 64] = [
    81, 28, 164, 151, 196, 212, 39, 11, 9, 139, 26, 253, 90, 228, 227, 185, 81, 165, 218, 44, 157,
    166, 233, 192, 82, 143, 87, 97, 136, 54, 118, 231, 223, 110, 76, 15, 14, 27, 90, 10, 68, 68,
    244, 41, 139, 24, 130, 221, 130, 47, 177, 19, 60, 189, 73, 171, 251, 153, 108, 135, 205, 91,
    133, 6,
];

fn table() -> CostTable {
    CostTable {
        ed25519_validate_key: GasCost { instruction_gas: 3, memory_gas: 1 },
        ed25519_verify: GasCost { instruction_gas: 5, memory_gas: 2 },
    }
}

fn malformed() -> PartialVMError {
    PartialVMError {
        major_status: StatusCode::NativeFunctionError,
        sub_status: Some(DEFAULT_ERROR_CODE),
    }
}

fn validate(key: &[u8]) -> Result<NativeResult, PartialVMError> {
    let mut arguments = VecDeque::new();
    arguments.push_back(Value::Bytes(key.to_vec()));
    native_ed25519_publickey_validation(&table(), vec![], arguments)
}

fn verify(signature: &[u8], key: &[u8], message: &[u8]) -> Result<NativeResult, PartialVMError> {
    let mut arguments = VecDeque::new();
    arguments.push_back(Value::Bytes(signature.to_vec()));
    arguments.push_back(Value::Bytes(key.to_vec()));
    arguments.push_back(Value::Bytes(message.to_vec()));
    native_ed25519_signature_verification(&table(), vec![], arguments)
}

fn returned(cost: u64, value: bool) -> Result<NativeResult, PartialVMError> {
    Ok(NativeResult { cost, result: Ok(vec![Value::Bool(value)]) })
}

fn rejected(cost: u64) -> Result<NativeResult, PartialVMError> {
    Ok(NativeResult { cost, result: Err(malformed()) })
}

#[test]
fn valid_public_key_is_accepted() {
    assert_eq!(validate(&PUBLIC), returned(4 * 32, true));
    assert!(validate_public_key(&PUBLIC));
}

#[test]
fn invalid_public_key_encodings_are_rejected_without_a_fault() {
    let mut off_curve = [0u8; 32];
    off_curve[0] = 2;
    assert_eq!(validate(&off_curve), returned(4 * 32, false));
    assert_eq!(validate(&PUBLIC[..31]), returned(4 * 31, false));
    let mut long = PUBLIC.to_vec();
    long.push(0);
    assert_eq!(validate(&long), returned(4 * 33, false));
    assert_eq!(validate(&[]), returned(0, false));
}

#[test]
fn public_key_in_the_small_subgroup_is_rejected() {
    let mut identity = [0u8; 32];
    identity[0] = 1;
    assert_eq!(validate(&identity), returned(4 * 32, false));
    assert_eq!(validate(&[0u8; 32]), returned(4 * 32, false));
}

#[test]
fn signature_by_the_matching_key_verifies() {
    assert_eq!(verify(&SIGNATURE_OF_HELLO, &PUBLIC, b"hello"), returned(7 * 5, true));
    let message = vec![0x5au8; 1000];
    let signature = PrivateKey::new(SECRET).sign(&message);
    assert_eq!(verify(&signature, &PUBLIC, &message), returned(7 * 1000, true));
    let signature = PrivateKey::new(SECRET).sign(&[]);
    assert_eq!(verify(&signature, &PUBLIC, &[]), returned(0, true));
}

#[test]
fn flipped_bit_in_the_signature_does_not_verify() {
    let mut signature = SIGNATURE_OF_HELLO;
    signature[0] ^= 1;
    assert_eq!(verify(&signature, &PUBLIC, b"hello"), returned(35, false));
    let mut signature = SIGNATURE_OF_HELLO;
    signature[40] ^= 0x10;
    assert_eq!(verify(&signature, &PUBLIC, b"hello"), returned(35, false));
}

#[test]
fn flipped_bit_in_the_message_does_not_verify() {
    assert_eq!(verify(&SIGNATURE_OF_HELLO, &PUBLIC, b"hellp"), returned(35, false));
    assert_eq!(verify(&SIGNATURE_OF_HELLO, &PUBLIC, b"hello!"), returned(42, false));
}

#[test]
fn flipped_bit_in_the_key_does_not_verify() {
    let mut key = PUBLIC;
    key[0] ^= 2;
    assert!(validate_public_key(&key));
    assert_eq!(verify(&SIGNATURE_OF_HELLO, &key, b"hello"), returned(35, false));
}

#[test]
fn malformed_signature_is_a_native_failure() {
    assert_eq!(verify(&SIGNATURE_OF_HELLO[..63], &PUBLIC, b"hello"), rejected(35));
    assert_eq!(verify(&[], &PUBLIC, b"hello"), rejected(35));
    let mut signature = SIGNATURE_OF_HELLO;
    signature[63] |= 0x80;
    assert_eq!(verify(&signature, &PUBLIC, b"hello"), rejected(35));
    let mut signature = SIGNATURE_OF_HELLO;
    signature[32..].copy_from_slice(&GROUP_ORDER);
    assert_eq!(verify(&signature, &PUBLIC, b"hello"), rejected(35));
}

#[test]
fn malformed_key_is_a_native_failure() {
    let mut off_curve = PUBLIC;
    off_curve[0] ^= 1;
    assert!(!validate_public_key(&off_curve));
    assert_eq!(verify(&SIGNATURE_OF_HELLO, &off_curve, b"hello"), rejected(35));
    assert_eq!(verify(&SIGNATURE_OF_HELLO, &PUBLIC[..16], b"hello"), rejected(35));
    assert_eq!(verify(&SIGNATURE_OF_HELLO, &[0u8; 32], b"hello"), rejected(35));
}

#[test]
fn verification_outcomes() {
    assert_eq!(verify_signature(&SIGNATURE_OF_HELLO, &PUBLIC, b"hello"), Some(true));
    assert_eq!(verify_signature(&SIGNATURE_OF_HELLO, &PUBLIC, b"world"), Some(false));
    assert_eq!(verify_signature(&SIGNATURE_OF_HELLO[..10], &PUBLIC, b"hello"), None);
    assert_eq!(verify_signature(&SIGNATURE_OF_HELLO, &[2u8; 3], b"hello"), None);
}

#[test]
fn scalar_must_be_below_the_group_order() {
    let mut signature = [0u8; 64];
    assert!(check_signature_encoding(&signature));
    signature[32..].copy_from_slice(&GROUP_ORDER);
    assert!(!check_signature_encoding(&signature));
    signature[32] -= 1;
    assert!(check_signature_encoding(&signature));
    signature[32] += 2;
    assert!(!check_signature_encoding(&signature));
    signature[32] -= 1;
    signature[63] -= 1;
    signature[62] = 0xff;
    assert!(check_signature_encoding(&signature));
    signature[63] += 1;
    signature[62] = 0;
    signature[48] = 1;
    assert!(!check_signature_encoding(&signature));
    assert!(!check_signature_encoding(&[0u8; 63]));
    assert!(!check_signature_encoding(&[0u8; 65]));
    assert!(!check_signature_encoding(&[0xff; 64]));
    assert!(check_signature_encoding(&SIGNATURE_OF_HELLO));
}

#[test]
fn gas_is_proportional_to_the_input_length() {
    let table = table();
    assert_eq!(native_gas(&table, NativeCostIndex::Ed25519Verify, 0), 0);
    assert_eq!(native_gas(&table, NativeCostIndex::Ed25519Verify, 1), 7);
    assert_eq!(native_gas(&table, NativeCostIndex::Ed25519Verify, 1000), 7000);
    assert_eq!(native_gas(&table, NativeCostIndex::Ed25519ValidateKey, 32), 128);
    assert_eq!(table.native_cost(NativeCostIndex::Ed25519Verify), table.ed25519_verify);
    assert_eq!(table.native_cost(NativeCostIndex::Ed25519ValidateKey), table.ed25519_validate_key);
    for length in [0usize, 1, 2, 17, 64, 500] {
        let message = vec![1u8; length];
        let result = verify(&SIGNATURE_OF_HELLO, &PUBLIC, &message).unwrap();
        assert_eq!(result.cost, 7 * length as u64);
    }
}

#[test]
fn charge_that_does_not_fit_is_detected() {
    let steep = CostTable {
        ed25519_validate_key: GasCost { instruction_gas: u64::MAX, memory_gas: u64::MAX },
        ed25519_verify: GasCost { instruction_gas: u64::MAX, memory_gas: 0 },
    };
    assert!(charge_fits(&steep, NativeCostIndex::Ed25519Verify, 0));
    assert!(charge_fits(&steep, NativeCostIndex::Ed25519Verify, 1));
    assert!(!charge_fits(&steep, NativeCostIndex::Ed25519Verify, 2));
    assert!(charge_fits(&steep, NativeCostIndex::Ed25519ValidateKey, 0));
    assert!(!charge_fits(&steep, NativeCostIndex::Ed25519ValidateKey, 1));
    assert_eq!(native_gas(&steep, NativeCostIndex::Ed25519Verify, 1), u64::MAX);
    assert_eq!(native_gas(&steep, NativeCostIndex::Ed25519ValidateKey, 0), 0);
    let free = CostTable {
        ed25519_validate_key: GasCost { instruction_gas: 0, memory_gas: 0 },
        ed25519_verify: GasCost { instruction_gas: 1 << 32, memory_gas: 0 },
    };
    assert!(charge_fits(&free, NativeCostIndex::Ed25519ValidateKey, usize::MAX));
    assert!(charge_fits(&free, NativeCostIndex::Ed25519Verify, (1 << 32) - 1));
    assert!(!charge_fits(&free, NativeCostIndex::Ed25519Verify, 1 << 32));
}

#[test]
fn missing_argument_is_an_invariant_violation() {
    let missing = PartialVMError {
        major_status: StatusCode::UnknownInvariantViolationError,
        sub_status: None,
    };
    assert_eq!(native_ed25519_publickey_validation(&table(), vec![], VecDeque::new()), Err(missing));
    assert_eq!(native_ed25519_signature_verification(&table(), vec![], VecDeque::new()), Err(missing));
    let mut arguments = VecDeque::new();
    arguments.push_back(Value::Bytes(PUBLIC.to_vec()));
    arguments.push_back(Value::Bytes(b"hello".to_vec()));
    assert_eq!(native_ed25519_signature_verification(&table(), vec![], arguments), Err(missing));
}

#[test]
fn argument_of_another_type_is_a_type_error() {
    let ill_typed =
        PartialVMError { major_status: StatusCode::InternalTypeError, sub_status: None };
    for value in [Value::Bool(true), Value::U8(1), Value::U64(2), Value::U128(3)] {
        let mut arguments = VecDeque::new();
        arguments.push_back(value.clone());
        assert_eq!(native_ed25519_publickey_validation(&table(), vec![], arguments), Err(ill_typed));
        let mut arguments = VecDeque::new();
        arguments.push_back(Value::Bytes(SIGNATURE_OF_HELLO.to_vec()));
        arguments.push_back(value);
        arguments.push_back(Value::Bytes(b"hello".to_vec()));
        assert_eq!(native_ed25519_signature_verification(&table(), vec![], arguments), Err(ill_typed));
    }
}

#[test]
fn arguments_are_taken_from_the_end() {
    let mut arguments = VecDeque::new();
    arguments.push_back(Value::U64(1));
    arguments.push_back(Value::Bytes(vec![1, 2]));
    assert_eq!(pop_bytes_argument(&mut arguments), Ok(vec![1, 2]));
    assert_eq!(arguments.len(), 1);
    assert_eq!(
        pop_bytes_argument(&mut arguments),
        Err(PartialVMError::new(StatusCode::InternalTypeError))
    );
    assert_eq!(
        pop_bytes_argument(&mut arguments),
        Err(PartialVMError::new(StatusCode::UnknownInvariantViolationError))
    );
    let mut arguments = VecDeque::new();
    arguments.push_back(Value::Bool(false));
    arguments.push_back(Value::Bytes(PUBLIC.to_vec()));
    assert_eq!(
        native_ed25519_publickey_validation(&table(), vec![Type::Vector(Box::new(Type::U8))], arguments),
        returned(128, true)
    );
}

#[test]
fn results_are_built_from_the_outcome() {
    assert_eq!(publickey_validation_result(9, true), NativeResult::ok(9, vec![Value::Bool(true)]));
    assert_eq!(Ok(publickey_validation_result(0, false)), returned(0, false));
    assert_eq!(Ok(signature_verification_result(4, Some(true))), returned(4, true));
    assert_eq!(Ok(signature_verification_result(4, Some(false))), returned(4, false));
    assert_eq!(Ok(signature_verification_result(4, None)), rejected(4));
    assert_eq!(signature_verification_result(4, None), NativeResult::err(4, malformed()));
    assert_eq!(DEFAULT_ERROR_CODE, 0x0ed2_5519);
    assert_eq!(
        PartialVMError::new(StatusCode::NativeFunctionError).with_sub_status(DEFAULT_ERROR_CODE),
        malformed()
    );
}
