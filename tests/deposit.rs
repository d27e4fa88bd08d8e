use plasma_ovm::deposit::{Deposit, ExitFinalized};
use plasma_ovm::error::Error;
use plasma_ovm::predicate::OwnershipPredicate;
use plasma_ovm::primitives::{Challenge, Checkpoint, Range, StateObject, StateUpdate};

const PREDICATE: [u8; 32] = [3u8; 32];
const TOKEN: [u8; 32] = [4u8; 32];
const OWNER: [u8; 32] = [5u8; 32];
const OTHER: [u8; 32] = [6u8; 32];

fn owned(owner: [u8; 32]) -> StateObject {
    StateObject { predicate: PREDICATE, data: owner }
}

fn checkpoint(start: u64, end: u64, block: u64, owner: [u8; 32]) -> Checkpoint {
    Checkpoint {
        state_update: StateUpdate {
            range: Range { start, end },
            state_object: owned(owner),
            plasma_block_number: block,
        },
        sub_range: Range { start, end },
    }
}

fn deployed() -> (OwnershipPredicate, Deposit) {
    OwnershipPredicate::deploy(PREDICATE, TOKEN, 10, 5)
}

#[test]
fn deposit_checkpoint_exit_and_finalize() {
    let (pred, mut dep) = deployed();
    let d = dep.deposit(100, owned(OWNER)).unwrap();
    assert_eq!(d.range_id, 0);
    assert_eq!((d.range.start, d.range.end), (0, 100));
    let cp = checkpoint(0, 100, 1, OWNER);
    let started = dep.start_checkpoint(&cp, true, 0, 1).unwrap();
    assert_eq!(started.challengeable_until, 11);
    let exit = pred.start_exit(&mut dep, &OWNER, &cp, 12).unwrap();
    assert_eq!(exit.redeemable_after, 17);
    assert_eq!(exit.exit_id, Deposit::checkpoint_hash(&cp));
    assert_eq!(pred.finalize_exit(&mut dep, &OWNER, &cp, 0, 17).unwrap_err(), Error::TimingViolation);
    let done: ExitFinalized = pred.finalize_exit(&mut dep, &OWNER, &cp, 0, 18).unwrap();
    assert_eq!(done.amount, 100);
    assert_eq!(done.recipient, PREDICATE);
    assert!(dep.deposited_range(0).is_none());
    assert!(dep.checkpoint_status(&exit.exit_id).is_none());
    assert!(dep.redeemable_after(&exit.exit_id).is_none());
}

#[test]
fn challenged_checkpoint_cannot_exit_until_challenge_removed() {
    let (pred, mut dep) = deployed();
    dep.deposit(100, owned(OWNER)).unwrap();
    let older = checkpoint(0, 100, 1, OTHER);
    let newer = checkpoint(0, 100, 2, OWNER);
    dep.start_checkpoint(&older, true, 0, 1).unwrap();
    pred.start_exit(&mut dep, &OTHER, &older, 3).unwrap();
    dep.start_checkpoint(&newer, true, 0, 2).unwrap();
    let challenge = Challenge { challenged_checkpoint: newer, challenging_checkpoint: older };
    assert_eq!(dep.challenge_checkpoint(&challenge, 5), Ok(()));
    assert_eq!(dep.challenge_checkpoint(&challenge, 6), Err(Error::DuplicateEntry));
    let newer_id = Deposit::checkpoint_hash(&newer);
    assert_eq!(dep.checkpoint_status(&newer_id).unwrap().outstanding_challenges, 1);
    assert!(dep.is_challenged(&Deposit::challenge_hash(&challenge)));
    pred.start_exit(&mut dep, &OWNER, &newer, 13).unwrap();
    assert_eq!(pred.finalize_exit(&mut dep, &OWNER, &newer, 0, 30).unwrap_err(), Error::TimingViolation);
    // the challenging exit is still pending
    assert_eq!(dep.remove_challenge(&challenge), Err(Error::StateMismatch));
    assert_eq!(dep.deprecate_exit(&PREDICATE, &older), Ok(()));
    assert_eq!(dep.remove_challenge(&challenge), Ok(()));
    assert_eq!(dep.remove_challenge(&challenge), Err(Error::NotFound));
    assert_eq!(dep.checkpoint_status(&newer_id).unwrap().outstanding_challenges, 0);
    let done = pred.finalize_exit(&mut dep, &OWNER, &newer, 0, 30).unwrap();
    assert_eq!(done.amount, 100);
}

#[test]
fn challenge_after_window_is_rejected() {
    let (pred, mut dep) = deployed();
    dep.deposit(100, owned(OWNER)).unwrap();
    let older = checkpoint(0, 100, 1, OTHER);
    let newer = checkpoint(0, 100, 2, OWNER);
    dep.start_checkpoint(&older, true, 0, 1).unwrap();
    pred.start_exit(&mut dep, &OTHER, &older, 3).unwrap();
    dep.start_checkpoint(&newer, true, 0, 2).unwrap();
    let challenge = Challenge { challenged_checkpoint: newer, challenging_checkpoint: older };
    assert_eq!(dep.challenge_checkpoint(&challenge, 13), Err(Error::TimingViolation));
    let st = dep.checkpoint_status(&Deposit::checkpoint_hash(&newer)).unwrap();
    assert_eq!(st.outstanding_challenges, 0);
    assert_eq!(st.challengeable_until, 12);
}

#[test]
fn challenge_needs_an_older_intersecting_exit() {
    let (pred, mut dep) = deployed();
    dep.deposit(100, owned(OWNER)).unwrap();
    let a = checkpoint(0, 50, 1, OTHER);
    let b = checkpoint(50, 100, 1, OTHER);
    let newer = checkpoint(0, 50, 2, OWNER);
    dep.start_checkpoint(&a, true, 0, 1).unwrap();
    dep.start_checkpoint(&b, true, 0, 1).unwrap();
    dep.start_checkpoint(&newer, true, 0, 2).unwrap();
    let no_exit = Challenge { challenged_checkpoint: newer, challenging_checkpoint: a };
    assert_eq!(dep.challenge_checkpoint(&no_exit, 3), Err(Error::NotFound));
    pred.start_exit(&mut dep, &OTHER, &a, 3).unwrap();
    pred.start_exit(&mut dep, &OTHER, &b, 3).unwrap();
    let apart = Challenge { challenged_checkpoint: newer, challenging_checkpoint: b };
    assert_eq!(dep.challenge_checkpoint(&apart, 3), Err(Error::RangeViolation));
    let reversed = Challenge { challenged_checkpoint: a, challenging_checkpoint: newer };
    pred.start_exit(&mut dep, &OWNER, &newer, 3).unwrap();
    assert_eq!(dep.challenge_checkpoint(&reversed, 3), Err(Error::StateMismatch));
    let unknown = Challenge { challenged_checkpoint: checkpoint(0, 10, 9, OWNER), challenging_checkpoint: a };
    assert_eq!(dep.challenge_checkpoint(&unknown, 3), Err(Error::NotFound));
}

#[test]
fn start_checkpoint_checks_proof_ranges_and_duplicates() {
    let (_pred, mut dep) = deployed();
    dep.deposit(100, owned(OWNER)).unwrap();
    let cp = checkpoint(10, 20, 1, OWNER);
    assert_eq!(dep.start_checkpoint(&cp, false, 0, 1).unwrap_err(), Error::VerificationFailure);
    let mut outside = cp;
    outside.sub_range = Range { start: 5, end: 20 };
    assert_eq!(dep.start_checkpoint(&outside, true, 0, 1).unwrap_err(), Error::RangeViolation);
    let mut inverted = cp;
    inverted.sub_range = Range { start: 15, end: 12 };
    assert_eq!(dep.start_checkpoint(&inverted, true, 0, 1).unwrap_err(), Error::RangeViolation);
    assert_eq!(dep.start_checkpoint(&cp, true, 7, 1).unwrap_err(), Error::NotFound);
    let beyond = checkpoint(90, 120, 1, OWNER);
    assert_eq!(dep.start_checkpoint(&beyond, true, 0, 1).unwrap_err(), Error::RangeViolation);
    assert!(dep.start_checkpoint(&cp, true, 0, 1).is_ok());
    assert_eq!(dep.start_checkpoint(&cp, true, 0, 2).unwrap_err(), Error::DuplicateEntry);
}

#[test]
fn partial_exit_splits_the_slot() {
    let (pred, mut dep) = deployed();
    dep.deposit(100, owned(OWNER)).unwrap();
    dep.deposit(50, owned(OTHER)).unwrap();
    assert_eq!(dep.total_deposited().end, 150);
    let cp = checkpoint(30, 60, 1, OWNER);
    dep.start_checkpoint(&cp, true, 0, 1).unwrap();
    pred.start_exit(&mut dep, &OWNER, &cp, 1).unwrap();
    let done = pred.finalize_exit(&mut dep, &OWNER, &cp, 0, 12).unwrap();
    assert_eq!(done.amount, 30);
    let left = dep.deposited_range(0).unwrap();
    assert_eq!((left.start, left.end), (0, 30));
    let second = dep.deposited_range(1).unwrap();
    assert_eq!((second.start, second.end), (100, 150));
    let right = dep.deposited_range(2).unwrap();
    assert_eq!((right.start, right.end), (60, 100));
    // the exited ordinals are gone from every slot
    let again = checkpoint(30, 60, 2, OWNER);
    assert_eq!(dep.start_checkpoint(&again, true, 0, 20).unwrap_err(), Error::RangeViolation);
    assert_eq!(dep.start_checkpoint(&again, true, 2, 20).unwrap_err(), Error::RangeViolation);
}

#[test]
fn exit_at_the_slot_edge_leaves_one_slot() {
    let (pred, mut dep) = deployed();
    dep.deposit(100, owned(OWNER)).unwrap();
    let cp = checkpoint(0, 40, 1, OWNER);
    dep.start_checkpoint(&cp, true, 0, 1).unwrap();
    pred.start_exit(&mut dep, &OWNER, &cp, 1).unwrap();
    pred.finalize_exit(&mut dep, &OWNER, &cp, 0, 12).unwrap();
    assert!(dep.deposited_range(0).is_none());
    let right = dep.deposited_range(1).unwrap();
    assert_eq!((right.start, right.end), (40, 100));
}

#[test]
fn finalize_checks_window_exit_and_slot() {
    let (pred, mut dep) = deployed();
    dep.deposit(100, owned(OWNER)).unwrap();
    let cp = checkpoint(0, 100, 1, OWNER);
    assert_eq!(pred.finalize_exit(&mut dep, &OWNER, &cp, 0, 50).unwrap_err(), Error::NotFound);
    dep.start_checkpoint(&cp, true, 0, 1).unwrap();
    assert_eq!(pred.finalize_exit(&mut dep, &OWNER, &cp, 0, 11).unwrap_err(), Error::TimingViolation);
    assert_eq!(pred.finalize_exit(&mut dep, &OWNER, &cp, 0, 12).unwrap_err(), Error::NotFound);
    pred.start_exit(&mut dep, &OWNER, &cp, 12).unwrap();
    assert_eq!(pred.start_exit(&mut dep, &OWNER, &cp, 12).unwrap_err(), Error::DuplicateEntry);
    assert_eq!(pred.finalize_exit(&mut dep, &OWNER, &cp, 0, 17).unwrap_err(), Error::TimingViolation);
    assert_eq!(pred.finalize_exit(&mut dep, &OWNER, &cp, 4, 18).unwrap_err(), Error::NotFound);
    assert_eq!(pred.finalize_exit(&mut dep, &OTHER, &cp, 0, 18).unwrap_err(), Error::AuthorizationError);
    assert_eq!(dep.finalize_exit(&OTHER, &cp, 0, 18).unwrap_err(), Error::AuthorizationError);
    assert!(pred.finalize_exit(&mut dep, &OWNER, &cp, 0, 18).is_ok());
}

#[test]
fn only_the_owner_starts_an_exit() {
    let (pred, mut dep) = deployed();
    dep.deposit(100, owned(OWNER)).unwrap();
    let cp = checkpoint(0, 100, 1, OWNER);
    dep.start_checkpoint(&cp, true, 0, 1).unwrap();
    assert_eq!(pred.start_exit(&mut dep, &OTHER, &cp, 2).unwrap_err(), Error::AuthorizationError);
    assert_eq!(dep.start_exit(&OWNER, &cp, 2).unwrap_err(), Error::AuthorizationError);
    let unknown = checkpoint(0, 10, 1, OWNER);
    assert_eq!(pred.start_exit(&mut dep, &OWNER, &unknown, 2).unwrap_err(), Error::NotFound);
    assert_eq!(dep.deprecate_exit(&PREDICATE, &cp), Err(Error::NotFound));
    assert_eq!(dep.deprecate_exit(&OWNER, &cp), Err(Error::AuthorizationError));
}

#[test]
fn outdated_exit_is_deleted_by_a_newer_final_checkpoint() {
    let (pred, mut dep) = deployed();
    dep.deposit(100, owned(OWNER)).unwrap();
    let older = checkpoint(0, 100, 1, OTHER);
    let newer = checkpoint(0, 100, 2, OWNER);
    dep.start_checkpoint(&older, true, 0, 1).unwrap();
    pred.start_exit(&mut dep, &OTHER, &older, 2).unwrap();
    dep.start_checkpoint(&newer, true, 0, 2).unwrap();
    assert_eq!(dep.delete_exit_outdated(&older, &newer, 12), Err(Error::TimingViolation));
    assert_eq!(dep.delete_exit_outdated(&newer, &older, 13), Err(Error::StateMismatch));
    let apart = checkpoint(50, 50, 2, OWNER);
    assert_eq!(dep.delete_exit_outdated(&older, &apart, 13), Err(Error::RangeViolation));
    assert_eq!(dep.delete_exit_outdated(&older, &newer, 13), Ok(()));
    assert!(dep.redeemable_after(&Deposit::checkpoint_hash(&older)).is_none());
    assert_eq!(dep.delete_exit_outdated(&older, &newer, 13), Err(Error::NotFound));
}

#[test]
fn deposit_overflow_is_rejected() {
    let (_pred, mut dep) = deployed();
    dep.deposit(u64::MAX - 1, owned(OWNER)).unwrap();
    assert_eq!(dep.deposit(2, owned(OWNER)).unwrap_err(), Error::Overflow);
    let d = dep.deposit(1, owned(OWNER)).unwrap();
    assert_eq!((d.range.start, d.range.end), (u64::MAX - 1, u64::MAX));
    assert_eq!(d.range_id, 1);
    assert_eq!(dep.total_deposited().end, u64::MAX);
}

#[test]
fn windows_saturate_at_the_last_block() {
    let (_pred, mut dep) = deployed();
    dep.deposit(10, owned(OWNER)).unwrap();
    let cp = checkpoint(0, 10, 1, OWNER);
    let started = dep.start_checkpoint(&cp, true, 0, u64::MAX - 3).unwrap();
    assert_eq!(started.challengeable_until, u64::MAX);
}

#[test]
fn deploy_sets_the_parameters() {
    let dep = Deposit::deploy(TOKEN, 7, 9);
    assert_eq!(dep.token_address(), TOKEN);
    assert_eq!(dep.challenge_period(), 7);
    assert_eq!(dep.exit_period(), 9);
    assert_eq!((dep.total_deposited().start, dep.total_deposited().end), (0, 0));
    assert!(dep.deposited_range(0).is_none());
}

#[test]
fn checkpoint_hash_is_keccak_of_the_encoding() {
    let cp = checkpoint(1, 2, 3, OWNER);
    let bytes = plasma_ovm::primitives::encode_checkpoint(&cp);
    assert_eq!(bytes.len(), 104);
    assert_eq!(&bytes[0..8], &1u64.to_le_bytes());
    assert_eq!(&bytes[16..48], &PREDICATE);
    assert_eq!(Deposit::checkpoint_hash(&cp), sp_core_hashing::keccak_256(&bytes));
    let ch = Challenge { challenged_checkpoint: cp, challenging_checkpoint: checkpoint(1, 2, 2, OWNER) };
    let ch_bytes = plasma_ovm::primitives::encode_challenge(&ch);
    assert_eq!(ch_bytes.len(), 208);
    assert_eq!(Deposit::challenge_hash(&ch), sp_core_hashing::keccak_256(&ch_bytes));
    assert_ne!(Deposit::challenge_hash(&ch), Deposit::checkpoint_hash(&cp));
}

#[test]
fn keccak256_of_empty_input() {
    let h = plasma_ovm::hashing::keccak256(&[]);
    assert_eq!(h[0..4], [0xc5, 0xd2, 0x46, 0x01]);
    assert_eq!(h[28..32], [0x5d, 0x85, 0xa4, 0x70]);
}
