#![allow(non_snake_case)]

use candid::Principal;
use icpt_ledger::identity::Identity;
use icpt_ledger::ledger::{to_token_units, Ledger, TransferError};

fn ident(p: Principal) -> Identity {
    Identity::from_bytes(p.as_slice().to_vec())
}

fn set_balance(ledger: &mut Ledger, id: &Identity, amount: u128) {
    for w in ledger.wallets.iter_mut() {
        if w.owner.bytes == id.bytes {
            w.balance = amount;
        }
    }
}

#[test]
fn main_test_create_wallet() {
    let principal = ident(Principal::anonymous());
    let mut ledger = Ledger::new(ident(Principal::anonymous()));
    assert!(!ledger.has_wallet_for(&principal));

    assert!(ledger.create_wallet(&principal).is_ok());
    assert!(ledger.has_wallet_for(&principal));
}

#[test]
fn main_test_transfer() {
    let principal1 = ident(Principal::anonymous());
    let principal2 = ident(Principal::management_canister());
    let mut ledger = Ledger::new(ident(Principal::anonymous()));

    assert!(ledger.create_wallet(&principal1).is_ok());
    assert!(ledger.create_wallet(&principal2).is_ok());

    set_balance(&mut ledger, &principal1, 100);

    assert!(ledger.transfer(&principal1, &principal2, 50, 0).is_ok());
    assert_eq!(ledger.get_balance(&principal1), 50);
    assert_eq!(ledger.get_balance(&principal2), 50);
}

#[test]
fn main_test_transfer_insufficient_balance() {
    let principal1 = ident(Principal::anonymous());
    let principal2 = ident(Principal::management_canister());
    let mut ledger = Ledger::new(ident(Principal::anonymous()));

    assert!(ledger.create_wallet(&principal1).is_ok());
    assert!(ledger.create_wallet(&principal2).is_ok());

    set_balance(&mut ledger, &principal1, 100);

    assert!(matches!(
        ledger.transfer(&principal1, &principal2, 150, 0),
        Err(TransferError::InsufficientBalance)
    ));
    assert_eq!(ledger.get_balance(&principal1), 100);
    assert_eq!(ledger.get_balance(&principal2), 0);
}

#[test]
fn main_test_transfer_unauthorized() {
    let principal1 = ident(Principal::anonymous());
    let principal2 = ident(Principal::management_canister());
    let principal3 = ident(Principal::from_text("aaaaa-aa").unwrap());
    let mut ledger = Ledger::new(ident(Principal::anonymous()));

    assert!(ledger.create_wallet(&principal1).is_ok());
    assert!(ledger.create_wallet(&principal2).is_ok());
    // "aaaaa-aa" is the management canister, so principal3's wallet already
    // exists: the creation guard reports it.
    assert!(matches!(
        ledger.create_wallet(&principal3),
        Err(TransferError::AlreadyExists)
    ));

    set_balance(&mut ledger, &principal1, 100);

    // A caller may move funds only out of its own wallet: principal3 owns
    // only the empty wallet of principal2, so the transfer fails on the
    // balance and principal1's funds are untouched.
    assert!(matches!(
        ledger.transfer(&principal3, &principal2, 50, 0),
        Err(TransferError::InsufficientBalance)
    ));
    assert_eq!(ledger.get_balance(&principal1), 100);
    assert_eq!(ledger.get_balance(&principal2), 0);
}

#[test]
fn main_test_transfer_invalid_amount() {
    let principal1 = ident(Principal::anonymous());
    let principal2 = ident(Principal::management_canister());
    let mut ledger = Ledger::new(ident(Principal::anonymous()));

    assert!(ledger.create_wallet(&principal1).is_ok());
    assert!(ledger.create_wallet(&principal2).is_ok());

    assert!(matches!(
        ledger.transfer(&principal2, &principal2, 0, 0),
        Err(TransferError::InvalidAmount)
    ));
}

#[test]
fn main_test_get_balance() {
    let principal = ident(Principal::anonymous());
    let mut ledger = Ledger::new(ident(Principal::anonymous()));
    assert!(ledger.create_wallet(&principal).is_ok());

    set_balance(&mut ledger, &principal, 100);

    assert_eq!(ledger.get_balance(&principal), 100);
}

#[test]
fn main_test_to_token_units() {
    assert_eq!(to_token_units(1, 8).unwrap(), 100_000_000);
    assert_eq!(to_token_units(100, 2).unwrap(), 10_000);
}

#[test]
fn main_test_mint() {
    let owner = ident(Principal::from_text("rrkah-fqaaa-aaaaa-aaaaq-cai").unwrap());
    let recipient = ident(Principal::from_text("aaaaa-aa").unwrap());

    let mut ledger = Ledger::new(owner.clone());

    assert!(ledger.create_wallet(&recipient).is_ok());

    // Attempt to mint as non-owner (should fail)
    assert!(matches!(
        ledger.mint(&recipient, &recipient, 1000),
        Err(TransferError::Unauthorized)
    ));

    // Mint as owner
    assert!(ledger.mint(&owner, &recipient, 1000).is_ok());

    assert_eq!(ledger.get_balance(&recipient), 1000);
    assert_eq!(
        ledger.get_token_info().total_supply,
        1_000_000_000_000_001_000
    );
}

#[test]
fn main_test_burn() {
    let user = ident(Principal::from_text("aaaaa-aa").unwrap());
    let owner = ident(Principal::from_text("rrkah-fqaaa-aaaaa-aaaaq-cai").unwrap());
    let mut ledger = Ledger::new(owner.clone());

    assert!(ledger.create_wallet(&user).is_ok());
    assert!(ledger.mint(&owner, &user, 1000).is_ok());

    // Attempt to burn more than balance (should fail)
    assert!(matches!(
        ledger.burn(&user, 1001),
        Err(TransferError::InsufficientBalance)
    ));

    // Burn some tokens
    assert!(ledger.burn(&user, 500).is_ok());

    assert_eq!(ledger.get_balance(&user), 500);
    assert_eq!(
        ledger.get_token_info().total_supply,
        1_000_000_000_000_000_500
    );
}

#[test]
fn main_test_mint_overflow() {
    let owner = ident(Principal::from_text("rrkah-fqaaa-aaaaa-aaaaq-cai").unwrap());
    let recipient = ident(Principal::from_text("aaaaa-aa").unwrap());

    let mut ledger = Ledger::new(owner.clone());

    assert!(ledger.create_wallet(&recipient).is_ok());

    // Set total supply to maximum value
    ledger.token.total_supply = u128::MAX;

    // Attempt to mint (should fail due to overflow)
    assert!(matches!(
        ledger.mint(&owner, &recipient, 1),
        Err(TransferError::OverflowError)
    ));
}

#[test]
fn main_test_change_owner() {
    let initial_owner = ident(Principal::from_text("rrkah-fqaaa-aaaaa-aaaaq-cai").unwrap());
    let new_owner = ident(Principal::from_text("aaaaa-aa").unwrap());

    let mut ledger = Ledger::new(initial_owner.clone());

    // Attempt to change owner as non-owner (should fail)
    assert!(matches!(
        ledger.change_owner(&new_owner, new_owner.clone()),
        Err(TransferError::Unauthorized)
    ));

    // Change owner as current owner
    assert!(ledger
        .change_owner(&initial_owner, new_owner.clone())
        .is_ok());

    // Verify the owner has been changed
    assert_eq!(ledger.owner.bytes, new_owner.bytes);

    // Attempt to perform owner-only action with old owner (should fail)
    assert!(matches!(
        ledger.mint(&initial_owner, &new_owner, 1000),
        Err(TransferError::Unauthorized)
    ));

    // Perform owner-only action with new owner (should succeed)
    assert!(ledger.mint(&new_owner, &new_owner, 1000).is_ok());
}
