use casper_dao::mapping::Mapping;
use casper_dao::vec_mapping::VecMapping;
use casper_dao::error::Error;
use casper_dao::address::Address;

#[test]
fn mapping_set_get_and_override() {
    let mut m: Mapping<u32, u64> = Mapping::new("balances".to_string());
    assert_eq!(m.get(&1), None);
    m.set(&1, 10);
    m.set(&2, 20);
    assert_eq!(m.get(&1), Some(10));
    m.set(&1, 11);
    assert_eq!(m.get(&1), Some(11));
    assert_eq!(m.get_or_none(&2), Some(20));
    assert_eq!(m.get_or_revert(&3), Err(Error::ValueNotAvailable));
    assert_eq!(m.path(), "balances");
}

#[test]
fn vec_mapping_add_get_replace() {
    let mut vm: VecMapping<u32, u64> = VecMapping::new("voters".to_string());
    assert_eq!(vm.len(7), 0);
    vm.add(7, 100);
    vm.add(7, 200);
    vm.add(8, 300);
    assert_eq!(vm.len(7), 2);
    assert_eq!(vm.get(7, 1), Some(200));
    assert_eq!(vm.get(7, 2), None);
    assert_eq!(vm.get_all(7), vec![100, 200]);
    assert_eq!(vm.replace(7, 0, 101), Ok(()));
    assert_eq!(vm.replace(7, 2, 1), Err(Error::MappingIndexDoesNotExist));
    assert_eq!(vm.get_or_revert(7, 0), Ok(101));
    assert_eq!(vm.get_or_revert(9, 0), Err(Error::ValueNotAvailable));
    assert_eq!(vm.get_all(8), vec![300]);
}

#[test]
fn instances_are_named_after_their_namespace() {
    let m: Mapping<u32, u32> = Mapping::instance("dao");
    assert_eq!(m.path(), "dao");
    let mut vm: VecMapping<u32, u32> = VecMapping::instance("dao");
    vm.add(1, 5);
    assert_eq!(vm.get_all(1), vec![5]);
    let im: casper_dao::indexed::IndexedMapping<u32> = casper_dao::indexed::IndexedMapping::instance("dao");
    assert_eq!(im.path(), "dao:mapping");
    let idx = casper_dao::indexed::Index::instance("dao");
    assert_eq!(idx.get(&1u32), None);
}

#[test]
fn address_hashes() {
    assert_eq!(Address::Contract([3; 32]).as_contract_package_hash(), Some([3; 32]));
    assert_eq!(Address::Account([3; 32]).as_contract_package_hash(), None);
    assert_eq!(Address::Account([4; 32]).as_account_hash(), Some([4; 32]));
    assert_eq!(Address::Contract([4; 32]).as_account_hash(), None);
}

#[test]
fn vec_mapping_length_counts_adds() {
    let mut vm: VecMapping<u32, u32> = VecMapping::new("lists".to_string());
    assert_eq!(vm.len(1), 0);
    vm.add(1, 10);
    vm.add(2, 20);
    vm.add(1, 11);
    assert_eq!(vm.replace(1, 0, 12), Ok(()));
    assert_eq!(vm.replace(2, 5, 13), Err(Error::MappingIndexDoesNotExist));
    vm.add(1, 14);
    assert_eq!(vm.len(1), 3);
    assert_eq!(vm.len(2), 1);
    assert_eq!(vm.len(3), 0);
    assert_eq!(vm.get_all(1), vec![12, 11, 14]);
}
