use vstd::prelude::*;

use crate::deposit::{
    checkpoint_id, deadline, deprecate_exit_rejection, finalize_exit_rejection, next_after_exit,
    slots_after_exit, start_exit_rejection, Deposit, DepositState, ExitFinalized, ExitStarted,
};
use crate::error::Error;
use crate::primitives::{
    bytes32_eq, encode_transaction, intersects, is_intersects, same_state_object, state_object_eq,
    transaction_bytes, AccountId, BlockNumber, Checkpoint, StateUpdate, Transaction,
};

verus! {

/// An Ed25519 signature.
#[derive(Clone, Copy, Debug)]
pub struct Signature(pub [u8; 64]);

/// Whether `signature` is a valid Ed25519 signature of `message` under `public_key`.
pub uninterp spec fn ed25519_accepts(message: Seq<u8>, public_key: Seq<u8>, signature: Seq<u8>) -> bool;

/// Relies on `ed25519_dalek::VerifyingKey::verify_strict`: whether the
/// signature is valid depends on the message, the key and the signature
/// alone; a key that is not a curve point verifies nothing.
#[verifier::external_body]
pub fn check_signature(data: &[u8], pubkey: &AccountId, signature: &Signature) -> (r: bool)
    ensures
        r == ed25519_accepts(data@, pubkey@, signature.0@),
{
    match ed25519_dalek::VerifyingKey::from_bytes(pubkey) {
        Ok(key) => key.verify_strict(data, &ed25519_dalek::Signature::from_bytes(&signature.0)).is_ok(),
        Err(_) => false,
    }
}

/// The block and state conditions of an ownership transition, given whether
/// the owner of `pre_state` signed the transaction.
pub open spec fn transition_allowed(
    owner_signed: bool,
    pre_state: StateUpdate,
    transaction: Transaction,
    post_state: StateUpdate,
) -> bool {
    &&& owner_signed
    &&& pre_state.plasma_block_number <= transaction.body.origin_block
    &&& post_state.plasma_block_number <= transaction.body.max_block
    &&& same_state_object(post_state.state_object, transaction.body.new_state)
}

/// Whether `witness` authorises `transaction` from `pre_state` to `post_state`.
pub open spec fn transaction_valid(
    pre_state: StateUpdate,
    transaction: Transaction,
    witness: Signature,
    post_state: StateUpdate,
) -> bool {
    transition_allowed(
        ed25519_accepts(transaction_bytes(transaction), pre_state.state_object.data@, witness.0@),
        pre_state,
        transaction,
        post_state,
    )
}

/// Why a deprecation by the predicate at `address` is rejected, if it is.
pub open spec fn deprecation_rejection(
    address: AccountId,
    deprecated_exit: Checkpoint,
    transaction: Transaction,
    witness: Signature,
    post_state: StateUpdate,
) -> Option<Error> {
    if deprecated_exit.state_update.state_object.predicate@ != address@
        || post_state.state_object.predicate@ != address@ {
        Some(Error::StateMismatch)
    } else if !intersects(deprecated_exit.sub_range, post_state.range) {
        Some(Error::RangeViolation)
    } else if !transaction_valid(deprecated_exit.state_update, transaction, witness, post_state) {
        Some(Error::VerificationFailure)
    } else {
        None
    }
}

/// The predicate of single-owner state: the owner recorded in a state
/// object's data signs transactions, starts and finalizes exits.
#[derive(Clone, Copy, Debug)]
pub struct OwnershipPredicate {
    pub address: AccountId,
}

impl OwnershipPredicate {
    /// The predicate at `address` and the exit game it serves, deployed together.
    pub fn deploy(address: AccountId, token_address: AccountId, challenge_period: u64, exit_period: u64) -> (r: (
        Self,
        Deposit,
    ))
        ensures
            r.0.address == address,
            r.1.wf(),
            r.1.token() == token_address,
            r.1.challenge_window() == challenge_period,
            r.1.exit_window() == exit_period,
            r.1@.total_deposited.start == 0,
            r.1@.total_deposited.end == 0,
            r.1@.next_range_id == 0,
            r.1@.checkpoints.is_empty(),
            r.1@.deposited_ranges.is_empty(),
            r.1@.exit_redeemable_after.is_empty(),
            r.1@.challenges.is_empty(),
    {
        let deposit = Deposit::deploy(token_address, challenge_period, exit_period);
        (OwnershipPredicate { address }, deposit)
    }

    /// The block and state checks of a transition, given whether the owner signed it.
    pub fn check_transition(
        owner_signed: bool,
        pre_state: &StateUpdate,
        transaction: &Transaction,
        post_state: &StateUpdate,
    ) -> (r: bool)
        ensures
            r == transition_allowed(owner_signed, *pre_state, *transaction, *post_state),
    {
        owner_signed && pre_state.plasma_block_number <= transaction.body.origin_block
            && post_state.plasma_block_number <= transaction.body.max_block && state_object_eq(
            &post_state.state_object,
            &transaction.body.new_state,
        )
    }

    /// Whether `witness`, the signature of `pre_state`'s owner, authorises
    /// `transaction` to produce `post_state`.
    pub fn verify_transaction(
        &self,
        pre_state: &StateUpdate,
        transaction: &Transaction,
        witness: &Signature,
        post_state: &StateUpdate,
    ) -> (r: bool)
        ensures
            r == transaction_valid(*pre_state, *transaction, *witness, *post_state),
    {
        let message = encode_transaction(transaction);
        let signed = check_signature(message.as_slice(), &pre_state.state_object.data, witness);
        Self::check_transition(signed, pre_state, transaction, post_state)
    }

    /// Starts an exit from `checkpoint`, which its owner `caller` asks for.
    pub fn start_exit(&self, deposit: &mut Deposit, caller: &AccountId, checkpoint: &Checkpoint, now: BlockNumber) -> (r: Result<ExitStarted, Error>)
        requires
            old(deposit).wf(),
        ensures
            final(deposit).wf(),
            final(deposit).same_settings(old(deposit)),
            caller@ != checkpoint.state_update.state_object.data@ ==> r == Err::<ExitStarted, Error>(Error::AuthorizationError)
                && final(deposit)@ == old(deposit)@,
            caller@ == checkpoint.state_update.state_object.data@ ==> match start_exit_rejection(old(deposit)@, self.address, *checkpoint) {
                Some(e) => r == Err::<ExitStarted, Error>(e) && final(deposit)@ == old(deposit)@,
                None => {
                    let s = old(deposit)@;
                    let after = deadline(now, old(deposit).exit_window());
                    &&& r is Ok
                    &&& r->Ok_0.exit_id@ == checkpoint_id(*checkpoint)
                    &&& r->Ok_0.redeemable_after == after
                    &&& final(deposit)@ == DepositState {
                        exit_redeemable_after: s.exit_redeemable_after.insert(checkpoint_id(*checkpoint), after),
                        ..s
                    }
                },
            },
    {
        if !bytes32_eq(caller, &checkpoint.state_update.state_object.data) {
            return Err(Error::AuthorizationError);
        }
        deposit.start_exit(&self.address, checkpoint, now)
    }

    /// Finalizes the exit from `exit`, which its owner `caller` asks for.
    pub fn finalize_exit(
        &self,
        deposit: &mut Deposit,
        caller: &AccountId,
        exit: &Checkpoint,
        deposited_range_id: u64,
        now: BlockNumber,
    ) -> (r: Result<ExitFinalized, Error>)
        requires
            old(deposit).wf(),
        ensures
            final(deposit).wf(),
            final(deposit).same_settings(old(deposit)),
            caller@ != exit.state_update.state_object.data@ ==> r == Err::<ExitFinalized, Error>(Error::AuthorizationError)
                && final(deposit)@ == old(deposit)@,
            caller@ == exit.state_update.state_object.data@ ==> match finalize_exit_rejection(old(deposit)@, self.address, *exit, deposited_range_id, now) {
                Some(e) => r == Err::<ExitFinalized, Error>(e) && final(deposit)@ == old(deposit)@,
                None => {
                    let s = old(deposit)@;
                    let id = checkpoint_id(*exit);
                    &&& r is Ok
                    &&& r->Ok_0.exit_id@ == id
                    &&& r->Ok_0.amount == exit.sub_range.end - exit.sub_range.start
                    &&& r->Ok_0.recipient == exit.state_update.state_object.predicate
                    &&& final(deposit)@ == DepositState {
                        checkpoints: s.checkpoints.remove(id),
                        exit_redeemable_after: s.exit_redeemable_after.remove(id),
                        deposited_ranges: slots_after_exit(s.deposited_ranges, deposited_range_id, exit.sub_range, s.next_range_id),
                        next_range_id: next_after_exit(s.deposited_ranges, deposited_range_id, exit.sub_range, s.next_range_id),
                        ..s
                    }
                },
            },
    {
        if !bytes32_eq(caller, &exit.state_update.state_object.data) {
            return Err(Error::AuthorizationError);
        }
        deposit.finalize_exit(&self.address, exit, deposited_range_id, now)
    }

    /// Checks that `transaction`, signed by the owner, moved an intersecting
    /// range of `deprecated_exit` to `post_state` under this predicate.
    pub fn _deprecate_exit(
        &self,
        deprecated_exit: &Checkpoint,
        transaction: &Transaction,
        witness: &Signature,
        post_state: &StateUpdate,
    ) -> (r: Result<(), Error>)
        ensures
            r == match deprecation_rejection(self.address, *deprecated_exit, *transaction, *witness, *post_state) {
                Some(e) => Err::<(), Error>(e),
                None => Ok(()),
            },
    {
        if !bytes32_eq(&deprecated_exit.state_update.state_object.predicate, &self.address)
            || !bytes32_eq(&post_state.state_object.predicate, &self.address) {
            return Err(Error::StateMismatch);
        }
        if !is_intersects(&deprecated_exit.sub_range, &post_state.range) {
            return Err(Error::RangeViolation);
        }
        if !self.verify_transaction(&deprecated_exit.state_update, transaction, witness, post_state) {
            return Err(Error::VerificationFailure);
        }
        Ok(())
    }

    /// Cancels the exit from `deprecated_exit` by showing a later, signed
    /// transaction of its range.
    pub fn deprecate_exit(
        &self,
        deposit: &mut Deposit,
        deprecated_exit: &Checkpoint,
        transaction: &Transaction,
        witness: &Signature,
        post_state: &StateUpdate,
    ) -> (r: Result<(), Error>)
        requires
            old(deposit).wf(),
        ensures
            final(deposit).wf(),
            final(deposit).same_settings(old(deposit)),
            match deprecation_rejection(self.address, *deprecated_exit, *transaction, *witness, *post_state) {
                Some(e) => r == Err::<(), Error>(e) && final(deposit)@ == old(deposit)@,
                None => match deprecate_exit_rejection(old(deposit)@, self.address, *deprecated_exit) {
                    Some(e) => r == Err::<(), Error>(e) && final(deposit)@ == old(deposit)@,
                    None => r is Ok && final(deposit)@ == (DepositState {
                        exit_redeemable_after: old(deposit)@.exit_redeemable_after.remove(checkpoint_id(*deprecated_exit)),
                        ..old(deposit)@
                    }),
                },
            },
    {
        match self._deprecate_exit(deprecated_exit, transaction, witness, post_state) {
            Ok(()) => {},
            Err(e) => {
                return Err(e);
            },
        }
        deposit.deprecate_exit(&self.address, deprecated_exit)
    }
}

} // verus!
