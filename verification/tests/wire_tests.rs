//! Tests of the byte format.
use stable_accounts::accounts_store::{
    Account, NamedCanister, NamedHardwareWalletAccount, NamedSubAccount,
};
use stable_accounts::wire::text::{put_bytes, take_bytes};
use stable_accounts::wire::{put_u64, take_u64, Wire};
use std::collections::HashMap;

fn written<T: Wire>(value: &T) -> Vec<u8> {
    let mut out = vec![0xee];
    value.write(&mut out);
    assert_eq!(out[0], 0xee);
    out[1..].to_vec()
}

#[test]
fn numbers_are_written_most_significant_byte_first() {
    assert_eq!(written(&0x0102_0304_0506_0708u64), vec![1, 2, 3, 4, 5, 6, 7, 8]);
    assert_eq!(written(&0u64), vec![0; 8]);
    assert_eq!(written(&u64::MAX), vec![255; 8]);
    assert_eq!(written(&258u64), 258u64.to_be_bytes().to_vec());
    assert_eq!(written(&0x1234u16), vec![0x12, 0x34]);
    assert_eq!(written(&u16::MAX), vec![255, 255]);
    assert_eq!(written(&7u8), vec![7]);
    let mut out = Vec::new();
    put_u64(0xdead_beef, &mut out);
    assert_eq!(out, vec![0, 0, 0, 0, 0xde, 0xad, 0xbe, 0xef]);
}

#[test]
fn numbers_are_read_back() {
    for x in [0u64, 1, 255, 256, 0x0102_0304_0506_0708, u64::MAX - 1, u64::MAX] {
        let bytes = written(&x);
        assert_eq!(u64::read(&bytes, 0), Some((x, 8)));
        assert_eq!(take_u64(&bytes, 0), Some((x, 8)));
    }
    for x in [0u16, 1, 255, 256, 0xabcd, u16::MAX] {
        assert_eq!(u16::read(&written(&x), 0), Some((x, 2)));
    }
    assert_eq!(u64::read(&[9, 0, 0, 0, 0, 0, 0, 1, 2, 7], 1), Some((258, 9)));
    assert_eq!(u64::read(&[0; 7], 0), None);
    assert_eq!(u64::read(&[0; 8], 1), None);
    assert_eq!(u16::read(&[1], 0), None);
    assert_eq!(u8::read(&[], 0), None);
    assert_eq!(u8::read(&[5], 0), Some((5, 1)));
}

#[test]
fn lists_are_written_behind_their_count() {
    assert_eq!(written(&vec![7u8, 8, 9]), vec![0, 0, 0, 0, 0, 0, 0, 3, 7, 8, 9]);
    assert_eq!(written(&Vec::<u8>::new()), vec![0; 8]);
    assert_eq!(
        written(&vec![1u64, 2]),
        vec![0, 0, 0, 0, 0, 0, 0, 2, 0, 0, 0, 0, 0, 0, 0, 1, 0, 0, 0, 0, 0, 0, 0, 2]
    );
    let mut out = Vec::new();
    put_bytes(&[7, 8, 9], &mut out);
    assert_eq!(out, written(&vec![7u8, 8, 9]));
}

#[test]
fn lists_are_read_back() {
    let list = vec![3u64, 0, u64::MAX];
    let bytes = written(&list);
    assert_eq!(Vec::<u64>::read(&bytes, 0), Some((list, 32)));
    assert_eq!(Vec::<u64>::read(&bytes[..31], 0), None);
    let bytes = written(&vec![7u8, 8, 9]);
    assert_eq!(Vec::<u8>::read(&bytes, 0), Some((vec![7, 8, 9], 11)));
    assert_eq!(take_bytes(&bytes, 0), Some((vec![7, 8, 9], 11)));
    assert_eq!(take_bytes(&bytes[..10], 0), None);
    // A count that the input cannot hold is refused without reading on.
    assert_eq!(Vec::<u8>::read(&[255; 8], 0), None);
    assert_eq!(take_bytes(&[255; 8], 0), None);
    assert_eq!(Vec::<u64>::read(&[255; 16], 0), None);
}

#[test]
fn strings_are_written_as_their_utf8_bytes() {
    assert_eq!(written(&"ab".to_string()), vec![0, 0, 0, 0, 0, 0, 0, 2, b'a', b'b']);
    let text = "gr\u{fc}\u{df}e \u{1f600}".to_string();
    let bytes = written(&text);
    assert_eq!(&bytes[8..], text.as_bytes());
    assert_eq!(String::read(&bytes, 0), Some((text, bytes.len())));
    assert_eq!(String::read(&[0; 8], 0), Some((String::new(), 8)));
}

#[test]
fn bytes_that_are_not_utf8_are_no_string() {
    assert_eq!(String::read(&[0, 0, 0, 0, 0, 0, 0, 1, 0xff], 0), None);
    assert_eq!(String::read(&[0, 0, 0, 0, 0, 0, 0, 2, 0xc3, 0x28], 0), None);
    assert_eq!(String::read(&[0, 0, 0, 0, 0, 0, 0, 2, b'a'], 0), None);
}

#[test]
fn options_are_written_behind_a_tag() {
    assert_eq!(written(&None::<u16>), vec![0]);
    assert_eq!(written(&Some(0x0102u16)), vec![1, 1, 2]);
    assert_eq!(Option::<u16>::read(&[0], 0), Some((None, 1)));
    assert_eq!(Option::<u16>::read(&[1, 1, 2], 0), Some((Some(0x0102), 3)));
    assert_eq!(Option::<u16>::read(&[2, 1, 2], 0), None);
    assert_eq!(Option::<u16>::read(&[1, 1], 0), None);
    assert_eq!(Option::<u16>::read(&[], 0), None);
}

#[test]
fn tables_are_written_in_the_order_of_their_keys() {
    let mut table: HashMap<u8, u16> = HashMap::new();
    table.insert(200, 2);
    table.insert(3, 1);
    table.insert(255, 3);
    table.insert(0, 0);
    assert_eq!(
        written(&table),
        vec![1, 0, 0, 0, 1, 3, 0, 1, 1, 200, 0, 2, 1, 255, 0, 3, 0]
    );
    assert_eq!(HashMap::<u8, u16>::read(&written(&table), 0), Some((table, 17)));
    assert_eq!(written(&HashMap::<u8, u16>::new()), vec![0]);
    assert_eq!(HashMap::<u8, u16>::read(&[0], 0), Some((HashMap::new(), 1)));
}

#[test]
fn tables_whose_keys_do_not_rise_are_refused() {
    assert!(HashMap::<u8, u16>::read(&[1, 3, 0, 1, 1, 4, 0, 2, 0], 0).is_some());
    assert_eq!(HashMap::<u8, u16>::read(&[1, 4, 0, 1, 1, 3, 0, 2, 0], 0), None);
    assert_eq!(HashMap::<u8, u16>::read(&[1, 3, 0, 1, 1, 3, 0, 2, 0], 0), None);
    assert_eq!(HashMap::<u8, u16>::read(&[1, 255, 0, 1, 1, 255, 0, 2, 0], 0), None);
    assert_eq!(HashMap::<u8, u16>::read(&[1, 3, 0, 1], 0), None);
    assert_eq!(HashMap::<u8, u16>::read(&[2], 0), None);
    assert_eq!(HashMap::<u8, u16>::read(&[], 0), None);
}

#[test]
fn pairs_are_written_one_after_the_other() {
    let pair = (0x0102u16, vec![9u8]);
    assert_eq!(written(&pair), vec![1, 2, 0, 0, 0, 0, 0, 0, 0, 1, 9]);
    assert_eq!(<(u16, Vec<u8>)>::read(&written(&pair), 0), Some((pair, 11)));
}

fn full_account() -> Account {
    let mut sub_accounts = HashMap::new();
    sub_accounts.insert(
        1,
        NamedSubAccount {
            name: "one".to_string(),
            account_identifier: vec![1; 28],
            transactions: vec![10, 11],
        },
    );
    sub_accounts.insert(
        255,
        NamedSubAccount {
            name: "last".to_string(),
            account_identifier: vec![2; 28],
            transactions: vec![],
        },
    );
    Account {
        principal: Some(vec![1, 2, 3]),
        account_identifier: vec![4; 28],
        default_account_transactions: vec![1, 2, 3],
        sub_accounts,
        hardware_wallet_accounts: vec![NamedHardwareWalletAccount {
            name: "wallet".to_string(),
            principal: vec![5; 29],
            transactions: vec![8],
        }],
        canisters: vec![
            NamedCanister { name: "twice".to_string(), canister_id: vec![6; 10] },
            NamedCanister { name: "twice".to_string(), canister_id: vec![6; 10] },
        ],
    }
}

#[test]
fn an_account_is_written_field_by_field() {
    let account = Account {
        principal: None,
        account_identifier: vec![0xaa],
        default_account_transactions: vec![],
        sub_accounts: HashMap::new(),
        hardware_wallet_accounts: vec![],
        canisters: vec![NamedCanister { name: "c".to_string(), canister_id: vec![1, 2] }],
    };
    let mut expected = vec![0u8];
    expected.extend([0, 0, 0, 0, 0, 0, 0, 1, 0xaa]);
    expected.extend([0; 8]);
    expected.push(0);
    expected.extend([0; 8]);
    expected.extend([0, 0, 0, 0, 0, 0, 0, 1]);
    expected.extend([0, 0, 0, 0, 0, 0, 0, 1, b'c']);
    expected.extend([0, 0, 0, 0, 0, 0, 0, 2, 1, 2]);
    assert_eq!(account.to_bytes(), expected);
    assert_eq!(written(&account), expected);
    assert_eq!(Account::from_bytes(&expected), Some(account));
}

#[test]
fn an_account_with_every_field_is_read_back() {
    let account = full_account();
    let bytes = account.to_bytes();
    assert_eq!(Account::from_bytes(&bytes), Some(account.clone()));
    assert_eq!(Account::read(&bytes, 0), Some((account, bytes.len())));
}

#[test]
fn damaged_accounts_are_refused() {
    let bytes = full_account().to_bytes();
    for cut in 0..bytes.len() {
        assert_eq!(Account::from_bytes(&bytes[..cut]), None);
    }
    let mut longer = bytes.clone();
    longer.push(0);
    assert_eq!(Account::from_bytes(&longer), None);
    let mut tagged = bytes.clone();
    tagged[0] = 2;
    assert_eq!(Account::from_bytes(&tagged), None);
    assert_eq!(Account::from_bytes(&[]), None);
}
