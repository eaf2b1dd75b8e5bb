use casper_dao::address::{caller, self_address, call_stack_element_to_address, Address, CallStackElement};
use casper_dao::dictionary_key::to_dictionary_key;
use casper_dao::error::Error;
use casper_dao::numeric::{Uint256, Uint512};
use casper_dao::slashing::{SlashCall, SlashingVoterContract};

#[test]
fn u512_arithmetic() {
    let a = Uint512::from_u64(1_000);
    let b = Uint512::from_u64(300);
    assert_eq!(a.add(b), Uint512::from_u64(1_300));
    assert_eq!(a.sub(b), Uint512::from_u64(700));
    assert_eq!(a.mul(b), Uint512::from_u64(300_000));
    assert_eq!(a.div(b), Uint512::from_u64(3));
    assert_eq!(b.abs_diff(a), Uint512::from_u64(700));
    assert_eq!(a.abs_diff(b), Uint512::from_u64(700));
    assert!(b.less_than(a));
    assert!(!a.less_than(b));
    assert!(Uint512::zero().is_zero());
    assert!(!a.is_zero());
    assert_eq!(a.saturating_mul(b), Uint512::from_u64(300_000));
    let big = Uint512 { limbs: [u64::MAX; 8] };
    assert_eq!(big.saturating_mul(b), big);
    // carries cross limbs
    let max64 = Uint512::from_u64(u64::MAX);
    let sum = max64.add(Uint512::from_u64(1));
    assert_eq!(sum.limbs, [0, 1, 0, 0, 0, 0, 0, 0]);
}

#[test]
fn u256_arithmetic() {
    let r = Uint256::from_u64(5_000);
    assert_eq!(r.mul_u32(250), Uint256::from_u64(1_250_000));
    assert_eq!(r.div_u32(1000), Uint256::from_u64(5));
}

#[test]
fn call_stack_addresses() {
    let session = CallStackElement::Session { account_hash: [1; 32] };
    let stored = CallStackElement::StoredSession {
        account_hash: [2; 32],
        contract_package_hash: [3; 32],
        contract_hash: [4; 32],
    };
    let contract = CallStackElement::StoredContract { contract_package_hash: [5; 32], contract_hash: [6; 32] };
    assert_eq!(call_stack_element_to_address(session), Address::Account([1; 32]));
    assert_eq!(call_stack_element_to_address(stored), Address::Account([2; 32]));
    assert_eq!(call_stack_element_to_address(contract), Address::Contract([5; 32]));
    let stack = vec![session, contract];
    assert_eq!(caller(&stack), Ok(Address::Account([1; 32])));
    assert_eq!(self_address(&stack), Ok(Address::Contract([5; 32])));
    let short = vec![contract];
    assert_eq!(caller(&short), Err(Error::VMInternalError));
    assert_eq!(self_address(&Vec::new()), Err(Error::VMInternalError));
    // only session code may call
    assert_eq!(caller(&vec![contract, session]), Err(Error::InvalidContext));
    assert_eq!(caller(&vec![stored, session]), Err(Error::InvalidContext));
}

#[test]
fn dictionary_key_is_lowercase_hex() {
    let mut digest = [0u8; 32];
    digest[0] = 0xab;
    digest[1] = 0x0f;
    digest[31] = 0x10;
    let key = to_dictionary_key(&digest);
    assert_eq!(key.len(), 64);
    assert!(key.starts_with("ab0f00"));
    assert!(key.ends_with("0010"));
}

#[test]
fn slashing_calls() {
    let token = Address::Contract([9; 32]);
    let target = Address::Account([7; 32]);
    let c = SlashingVoterContract::new(token);
    assert_eq!(c.reputation_token_address(), token);
    let rep = Uint256::from_u64(2_000);
    assert_eq!(c.slashing_call(target, 1000, rep), Ok(SlashCall::BurnAll { token, owner: target }));
    assert_eq!(
        c.slashing_call(target, 250, rep),
        Ok(SlashCall::Burn { token, owner: target, amount: Uint256::from_u64(500) })
    );
    assert_eq!(
        c.slashing_call(target, 333, Uint256::from_u64(10)),
        Ok(SlashCall::Burn { token, owner: target, amount: Uint256::from_u64(3) })
    );
    assert_eq!(c.slashing_call(target, 1001, rep), Err(Error::InvalidSlashRatio));
}
