//! What a native function of the virtual machine sees and gives back:
//! argument values, the gas schedule it is metered by, and its result.

use std::collections::VecDeque;
use vstd::prelude::*;

verus! {

/// A value on the operand stack, as far as natives read it.
#[derive(Clone, Debug, PartialEq, Eq)]
pub enum Value {
    Bool(bool),
    U8(u8),
    U64(u64),
    U128(u128),
    Bytes(Vec<u8>),
}

/// The type of a value, as a type argument names it.
#[derive(Debug, PartialEq, Eq)]
pub enum Type {
    Bool,
    U8,
    U64,
    U128,
    Address,
    Signer,
    Vector(Box<Type>),
}

/// The major status of a failure inside the virtual machine.
#[derive(Clone, Copy, Debug, PartialEq, Eq, Structural)]
pub enum StatusCode {
    /// A native function rejected its input.
    NativeFunctionError,
    /// The machine found its own state broken: an argument is missing.
    UnknownInvariantViolationError,
    /// An argument is not of the type the native takes.
    InternalTypeError,
}

/// A failure inside the virtual machine, not yet placed in a module.
#[derive(Clone, Copy, Debug, PartialEq, Eq)]
pub struct PartialVMError {
    pub major_status: StatusCode,
    pub sub_status: Option<u64>,
}

impl PartialVMError {
    pub open spec fn spec_new(major_status: StatusCode) -> PartialVMError {
        PartialVMError { major_status, sub_status: None }
    }

    /// A failure of the given major status, without a sub-status.
    #[verifier::when_used_as_spec(spec_new)]
    pub fn new(major_status: StatusCode) -> (error: PartialVMError)
        ensures
            error == PartialVMError::spec_new(major_status),
    {
        PartialVMError { major_status, sub_status: None }
    }

    pub open spec fn spec_with_sub_status(self, sub_status: u64) -> PartialVMError {
        PartialVMError { major_status: self.major_status, sub_status: Some(sub_status) }
    }

    /// The same failure, carrying `sub_status`.
    #[verifier::when_used_as_spec(spec_with_sub_status)]
    pub fn with_sub_status(self, sub_status: u64) -> (error: PartialVMError)
        ensures
            error == self.spec_with_sub_status(sub_status),
    {
        PartialVMError { major_status: self.major_status, sub_status: Some(sub_status) }
    }
}

/// What a native gives back: the gas it charges, and the values it returns or
/// the failure it reports.
#[derive(Debug, PartialEq, Eq)]
pub struct NativeResult {
    pub cost: u64,
    pub result: Result<Vec<Value>, PartialVMError>,
}

impl NativeResult {
    /// Whether this is a success that charges `cost` and returns `values`.
    pub open spec fn is_ok_with(self, cost: nat, values: Seq<Value>) -> bool {
        &&& self.cost == cost
        &&& self.result matches Ok(returned)
        &&& returned@ == values
    }

    /// Whether this is a failure that charges `cost` and reports `error`.
    pub open spec fn is_err_with(self, cost: nat, error: PartialVMError) -> bool {
        &&& self.cost == cost
        &&& self.result == Err::<Vec<Value>, PartialVMError>(error)
    }

    /// A success that charges `cost` and returns `values`.
    pub fn ok(cost: u64, values: Vec<Value>) -> (result: NativeResult)
        ensures
            result.is_ok_with(cost as nat, values@),
    {
        NativeResult { cost, result: Ok(values) }
    }

    /// A failure that charges `cost` and reports `error`.
    pub fn err(cost: u64, error: PartialVMError) -> (result: NativeResult)
        ensures
            result.is_err_with(cost as nat, error),
    {
        NativeResult { cost, result: Err(error) }
    }
}

/// The price of one unit of work.
#[derive(Clone, Copy, Debug, PartialEq, Eq)]
pub struct GasCost {
    pub instruction_gas: u64,
    pub memory_gas: u64,
}

impl GasCost {
    /// Both parts of the price together.
    pub open spec fn total(self) -> nat {
        (self.instruction_gas + self.memory_gas) as nat
    }
}

/// The natives that the schedule prices.
#[derive(Clone, Copy, Debug, PartialEq, Eq, Structural)]
pub enum NativeCostIndex {
    Ed25519ValidateKey,
    Ed25519Verify,
}

/// The gas schedule: the price per byte of input of each native.
#[derive(Clone, Copy, Debug, PartialEq, Eq)]
pub struct CostTable {
    pub ed25519_validate_key: GasCost,
    pub ed25519_verify: GasCost,
}

impl CostTable {
    pub open spec fn spec_native_cost(&self, key: NativeCostIndex) -> GasCost {
        match key {
            NativeCostIndex::Ed25519ValidateKey => self.ed25519_validate_key,
            NativeCostIndex::Ed25519Verify => self.ed25519_verify,
        }
    }

    /// The price per byte of the native `key`.
    #[verifier::when_used_as_spec(spec_native_cost)]
    pub fn native_cost(&self, key: NativeCostIndex) -> (cost: GasCost)
        ensures
            cost == self.spec_native_cost(key),
    {
        match key {
            NativeCostIndex::Ed25519ValidateKey => self.ed25519_validate_key,
            NativeCostIndex::Ed25519Verify => self.ed25519_verify,
        }
    }
}

/// The gas that the native `key` charges for an input of `size` bytes: its
/// price per byte times the size.
pub open spec fn gas_charge(table: CostTable, key: NativeCostIndex, size: nat) -> nat {
    table.native_cost(key).total() * size
}

/// Whether the charge for an input of `size` bytes can be expressed in gas
/// units.
pub fn charge_fits(table: &CostTable, key: NativeCostIndex, size: usize) -> (fits: bool)
    ensures
        fits == (gas_charge(*table, key, size as nat) <= u64::MAX),
{
    let price = table.native_cost(key);
    let total: u128 = price.instruction_gas as u128 + price.memory_gas as u128;
    if size == 0 || total == 0 {
        assert(total * size == 0) by (nonlinear_arith)
            requires
                size == 0 || total == 0,
        ;
        return true;
    }
    let limit: u128 = 0xffff_ffff_ffff_ffff / (size as u128);
    proof {
        lemma_bounded_product(total as nat, size as nat, 0xffff_ffff_ffff_ffff);
    }
    total <= limit
}

/// A product stays within a bound exactly when one factor stays within the
/// bound divided by the other.
pub proof fn lemma_bounded_product(a: nat, b: nat, bound: nat)
    requires
        b > 0,
    ensures
        a * b <= bound <==> a <= bound / b,
{
    assert(a * b <= bound <==> a <= bound / b) by (nonlinear_arith)
        requires
            b > 0,
    ;
}

/// The gas that the native `key` charges for an input of `size` bytes.
pub fn native_gas(table: &CostTable, key: NativeCostIndex, size: usize) -> (cost: u64)
    requires
        gas_charge(*table, key, size as nat) <= u64::MAX,
    ensures
        cost == gas_charge(*table, key, size as nat),
{
    let price = table.native_cost(key);
    let total: u128 = price.instruction_gas as u128 + price.memory_gas as u128;
    if size == 0 {
        assert(total * size == 0) by (nonlinear_arith)
            requires
                size == 0,
        ;
        return 0;
    }
    assert(total <= total * size) by (nonlinear_arith)
        requires
            size >= 1,
            total >= 0,
    ;
    let charge: u128 = total * (size as u128);
    charge as u64
}

/// What taking the last argument as a byte string gives: the bytes and the
/// arguments before it, or the failure for a missing or ill-typed argument.
pub open spec fn pop_bytes(arguments: Seq<Value>) -> Result<(Seq<u8>, Seq<Value>), PartialVMError> {
    if arguments.len() == 0 {
        Err(PartialVMError::new(StatusCode::UnknownInvariantViolationError))
    } else {
        match arguments.last() {
            Value::Bytes(bytes) => Ok((bytes@, arguments.drop_last())),
            _ => Err(PartialVMError::new(StatusCode::InternalTypeError)),
        }
    }
}

/// Takes the last argument off `arguments` as a byte string.
pub fn pop_bytes_argument(arguments: &mut VecDeque<Value>) -> (r: Result<Vec<u8>, PartialVMError>)
    ensures
        match r {
            Ok(bytes) => pop_bytes(old(arguments)@) == Ok::<(Seq<u8>, Seq<Value>), PartialVMError>(
                (bytes@, final(arguments)@),
            ),
            Err(e) => pop_bytes(old(arguments)@) == Err::<(Seq<u8>, Seq<Value>), PartialVMError>(e),
        },
{
    match arguments.pop_back() {
        None => Err(PartialVMError::new(StatusCode::UnknownInvariantViolationError)),
        Some(Value::Bytes(bytes)) => Ok(bytes),
        Some(_) => Err(PartialVMError::new(StatusCode::InternalTypeError)),
    }
}

} // verus!
