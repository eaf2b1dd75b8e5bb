use vstd::prelude::*;
use crate::error::Error;
use crate::keys::StorageKey;

verus! {

broadcast use vstd::array::group_array_axioms;

/// An address: the hash of an account, or the hash of a contract package.
#[derive(Clone, Copy, Debug, PartialEq, Eq)]
pub enum Address {
    Account([u8; 32]),
    Contract([u8; 32]),
}

/// The origin of a sub-call, as the host reports it on the call stack.
#[derive(Clone, Copy, Debug, PartialEq, Eq)]
pub enum CallStackElement {
    Session { account_hash: [u8; 32] },
    StoredSession { account_hash: [u8; 32], contract_package_hash: [u8; 32], contract_hash: [u8; 32] },
    StoredContract { contract_package_hash: [u8; 32], contract_hash: [u8; 32] },
}

fn hash_eq(a: &[u8; 32], b: &[u8; 32]) -> (same: bool)
    ensures
        same == (*a == *b),
{
    let mut i: usize = 0;
    while i < 32
        invariant
            i <= 32,
            forall|j: int| 0 <= j < i ==> a[j] == b[j],
        decreases 32 - i,
    {
        if a[i] != b[i] {
            return false;
        }
        i = i + 1;
    }
    assert(*a =~= *b);
    true
}

impl Address {
    /// The contract package hash of a contract address; `None` for an account.
    pub fn as_contract_package_hash(&self) -> (hash: Option<[u8; 32]>)
        ensures
            hash == match *self {
                Address::Contract(h) => Some(h),
                Address::Account(_) => None::<[u8; 32]>,
            },
    {
        match self {
            Address::Contract(h) => Some(*h),
            Address::Account(_) => None,
        }
    }

    /// The account hash of an account address; `None` for a contract.
    pub fn as_account_hash(&self) -> (hash: Option<[u8; 32]>)
        ensures
            hash == match *self {
                Address::Account(h) => Some(h),
                Address::Contract(_) => None::<[u8; 32]>,
            },
    {
        match self {
            Address::Account(h) => Some(*h),
            Address::Contract(_) => None,
        }
    }
}

impl StorageKey for Address {
    fn key_eq(&self, other: &Self) -> (same: bool) {
        match (self, other) {
            (Address::Account(a), Address::Account(b)) => hash_eq(a, b),
            (Address::Contract(a), Address::Contract(b)) => hash_eq(a, b),
            _ => false,
        }
    }
}

/// The address that a call stack element stands for: the account for session code,
/// also when the session is stored (it acts in the account's context), and the
/// contract package for a stored contract.
pub open spec fn spec_element_address(element: CallStackElement) -> Address {
    match element {
        CallStackElement::Session { account_hash } => Address::Account(account_hash),
        CallStackElement::StoredSession { account_hash, .. } => Address::Account(account_hash),
        CallStackElement::StoredContract { contract_package_hash, .. } => Address::Contract(
            contract_package_hash,
        ),
    }
}

/// Returns the address based on a [`CallStackElement`].
pub fn call_stack_element_to_address(element: CallStackElement) -> (address: Address)
    ensures
        address == spec_element_address(element),
{
    match element {
        CallStackElement::Session { account_hash } => Address::Account(account_hash),
        CallStackElement::StoredSession { account_hash, .. } => Address::Account(account_hash),
        CallStackElement::StoredContract { contract_package_hash, .. } => Address::Contract(
            contract_package_hash,
        ),
    }
}

/// The `n`-th element of the call stack counted from its end (0 is the last); fails
/// with `VMInternalError` when the stack is not that deep.
pub fn take_call_stack_elem(stack: &Vec<CallStackElement>, n: usize) -> (element: Result<
    CallStackElement,
    Error,
>)
    ensures
        match element {
            Ok(e) => n < stack@.len() && e == stack@[stack@.len() - 1 - n],
            Err(err) => n >= stack@.len() && err == Error::VMInternalError,
        },
{
    if n < stack.len() {
        Ok(stack[stack.len() - 1 - n])
    } else {
        Err(Error::VMInternalError)
    }
}

/// The immediate session caller of the current execution: the account of the second
/// element from the end of `stack`. Only session code may call: a stored session or a
/// stored contract there is refused with `InvalidContext`, and a stack shallower than
/// two elements with `VMInternalError`.
pub fn caller(stack: &Vec<CallStackElement>) -> (address: Result<Address, Error>)
    ensures
        match address {
            Ok(a) => stack@.len() >= 2 && (stack@[stack@.len() - 2] matches
                CallStackElement::Session { account_hash } && a == Address::Account(account_hash)),
            Err(err) => if stack@.len() < 2 {
                err == Error::VMInternalError
            } else {
                err == Error::InvalidContext && !(stack@[stack@.len() - 2] is Session)
            },
        },
{
    let element = take_call_stack_elem(stack, 1)?;
    match element {
        CallStackElement::Session { account_hash } => Ok(Address::Account(account_hash)),
        _ => Err(Error::InvalidContext),
    }
}

/// The address of the currently run contract: the address of the last element of
/// `stack`.
pub fn self_address(stack: &Vec<CallStackElement>) -> (address: Result<Address, Error>)
    ensures
        match address {
            Ok(a) => stack@.len() >= 1 && a == spec_element_address(stack@[stack@.len() - 1]),
            Err(err) => stack@.len() < 1 && err == Error::VMInternalError,
        },
{
    let element = take_call_stack_elem(stack, 0)?;
    Ok(call_stack_element_to_address(element))
}

} // verus!
