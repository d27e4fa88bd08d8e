use ed25519_dalek::{Signer, SigningKey};
use plasma_ovm::error::Error;
use plasma_ovm::predicate::{check_signature, OwnershipPredicate, Signature};
use plasma_ovm::primitives::{
    encode_transaction, is_intersects, is_sub_range, Checkpoint, Range, StateObject, StateUpdate,
    Transaction, TransactionBody,
};

const PREDICATE: [u8; 32] = [3u8; 32];
const TOKEN: [u8; 32] = [4u8; 32];
const DEPOSIT_CONTRACT: [u8; 32] = [2u8; 32];

fn key(seed: u8) -> SigningKey {
    SigningKey::from_bytes(&[seed; 32])
}

fn owner_of(k: &SigningKey) -> [u8; 32] {
    k.verifying_key().to_bytes()
}

fn state(owner: [u8; 32], start: u64, end: u64, block: u64) -> StateUpdate {
    StateUpdate {
        range: Range { start, end },
        state_object: StateObject { predicate: PREDICATE, data: owner },
        plasma_block_number: block,
    }
}

fn transfer(to: [u8; 32], start: u64, end: u64, origin: u64, max: u64) -> Transaction {
    Transaction {
        deposit_contract: DEPOSIT_CONTRACT,
        range: Range { start, end },
        body: TransactionBody {
            new_state: StateObject { predicate: PREDICATE, data: to },
            origin_block: origin,
            max_block: max,
        },
    }
}

fn sign(k: &SigningKey, tx: &Transaction) -> Signature {
    Signature(k.sign(&encode_transaction(tx)).to_bytes())
}

#[test]
fn signed_transfer_is_valid() {
    let alice = key(1);
    let bob = key(2);
    let pred = OwnershipPredicate { address: PREDICATE };
    let pre = state(owner_of(&alice), 0, 100, 3);
    let tx = transfer(owner_of(&bob), 0, 100, 3, 10);
    let post = state(owner_of(&bob), 0, 100, 10);
    assert!(pred.verify_transaction(&pre, &tx, &sign(&alice, &tx), &post));
}

#[test]
fn signature_of_another_key_is_rejected() {
    let alice = key(1);
    let bob = key(2);
    let pred = OwnershipPredicate { address: PREDICATE };
    let pre = state(owner_of(&alice), 0, 100, 3);
    let tx = transfer(owner_of(&bob), 0, 100, 3, 10);
    let post = state(owner_of(&bob), 0, 100, 10);
    assert!(!pred.verify_transaction(&pre, &tx, &sign(&bob, &tx), &post));
    assert!(!pred.verify_transaction(&pre, &tx, &Signature([0u8; 64]), &post));
}

#[test]
fn block_bounds_and_new_state_are_checked() {
    let alice = key(1);
    let bob = key(2);
    let pred = OwnershipPredicate { address: PREDICATE };
    let tx = transfer(owner_of(&bob), 0, 100, 3, 10);
    let sig = sign(&alice, &tx);
    let late_pre = state(owner_of(&alice), 0, 100, 4);
    assert!(!pred.verify_transaction(&late_pre, &tx, &sig, &state(owner_of(&bob), 0, 100, 10)));
    let pre = state(owner_of(&alice), 0, 100, 3);
    assert!(!pred.verify_transaction(&pre, &tx, &sig, &state(owner_of(&bob), 0, 100, 11)));
    assert!(!pred.verify_transaction(&pre, &tx, &sig, &state(owner_of(&alice), 0, 100, 10)));
}

#[test]
fn transition_checks_without_signature() {
    let pre = state([1u8; 32], 0, 10, 5);
    let tx = transfer([2u8; 32], 0, 10, 5, 8);
    assert!(OwnershipPredicate::check_transition(true, &pre, &tx, &state([2u8; 32], 0, 10, 8)));
    assert!(!OwnershipPredicate::check_transition(false, &pre, &tx, &state([2u8; 32], 0, 10, 8)));
    assert!(!OwnershipPredicate::check_transition(true, &pre, &tx, &state([2u8; 32], 0, 10, 9)));
    let mut other_predicate = state([2u8; 32], 0, 10, 8);
    other_predicate.state_object.predicate = [7u8; 32];
    assert!(!OwnershipPredicate::check_transition(true, &pre, &tx, &other_predicate));
}

#[test]
fn check_signature_matches_ed25519() {
    let alice = key(1);
    let msg = b"exit".to_vec();
    let sig = Signature(alice.sign(&msg).to_bytes());
    assert!(check_signature(&msg, &owner_of(&alice), &sig));
    assert!(!check_signature(b"exi", &owner_of(&alice), &sig));
    assert!(!check_signature(&msg, &owner_of(&key(2)), &sig));
}

#[test]
fn deprecate_exit_with_a_signed_later_transaction() {
    let alice = key(1);
    let bob = key(2);
    let (pred, mut dep) = OwnershipPredicate::deploy(PREDICATE, TOKEN, 10, 5);
    let alice_id = owner_of(&alice);
    dep.deposit(100, StateObject { predicate: PREDICATE, data: alice_id }).unwrap();
    let exit = Checkpoint { state_update: state(alice_id, 0, 100, 1), sub_range: Range { start: 0, end: 100 } };
    dep.start_checkpoint(&exit, true, 0, 1).unwrap();
    pred.start_exit(&mut dep, &alice_id, &exit, 2).unwrap();
    let tx = transfer(owner_of(&bob), 0, 100, 1, 5);
    let post = state(owner_of(&bob), 0, 100, 5);
    let forged = sign(&bob, &tx);
    assert_eq!(pred._deprecate_exit(&exit, &tx, &forged, &post), Err(Error::VerificationFailure));
    assert_eq!(pred.deprecate_exit(&mut dep, &exit, &tx, &forged, &post), Err(Error::VerificationFailure));
    let apart = state(owner_of(&bob), 100, 200, 5);
    assert_eq!(pred._deprecate_exit(&exit, &tx, &sign(&alice, &tx), &apart), Err(Error::RangeViolation));
    let foreign = OwnershipPredicate { address: [7u8; 32] };
    assert_eq!(foreign._deprecate_exit(&exit, &tx, &sign(&alice, &tx), &post), Err(Error::StateMismatch));
    assert_eq!(pred.deprecate_exit(&mut dep, &exit, &tx, &sign(&alice, &tx), &post), Ok(()));
    assert_eq!(pred.deprecate_exit(&mut dep, &exit, &tx, &sign(&alice, &tx), &post), Err(Error::NotFound));
}

#[test]
fn range_algebra() {
    let a = Range { start: 0, end: 10 };
    let b = Range { start: 9, end: 20 };
    let c = Range { start: 10, end: 20 };
    assert!(is_intersects(&a, &b));
    assert!(!is_intersects(&a, &c));
    assert!(!is_intersects(&a, &Range { start: 5, end: 5 }));
    assert!(is_sub_range(&a, &Range { start: 2, end: 10 }));
    assert!(is_sub_range(&a, &Range { start: 3, end: 3 }));
    assert!(!is_sub_range(&a, &Range { start: 3, end: 2 }));
    assert!(!is_sub_range(&a, &b));
}
