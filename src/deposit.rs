use vstd::prelude::*;

use std::collections::HashMap;

use crate::error::Error;
use crate::hashing::{keccak256, keccak_of};
use crate::primitives::{
    bytes32_eq, challenge_bytes, checkpoint_bytes, contains, encode_challenge, encode_checkpoint,
    intersects, is_intersects, is_sub_range, AccountId, BlockNumber, Challenge, Checkpoint, H256,
    Range, StateObject,
};
use crate::table::HashTable;

verus! {

broadcast use vstd::std_specs::hash::group_hash_axioms;

/// The id of a checkpoint: the Keccak-256 digest of its encoding.
pub open spec fn checkpoint_id(c: Checkpoint) -> Seq<u8> {
    keccak_of(checkpoint_bytes(c))
}

/// The id of a challenge: the Keccak-256 digest of its encoding.
pub open spec fn challenge_id(c: Challenge) -> Seq<u8> {
    keccak_of(challenge_bytes(c))
}

/// The block `period` blocks after `now`, or the last block where that is later.
pub open spec fn deadline(now: BlockNumber, period: u64) -> BlockNumber {
    if now + period <= u64::MAX {
        (now + period) as u64
    } else {
        u64::MAX
    }
}

/// The challenge window of a checkpoint and how many challenges are open against it.
#[derive(Clone, Copy, Debug)]
pub struct CheckpointStatus {
    pub challengeable_until: BlockNumber,
    pub outstanding_challenges: u64,
}

/// A new range slot, owned by `initial_state`.
#[derive(Clone, Copy, Debug)]
pub struct Deposited {
    pub range_id: u64,
    pub range: Range,
    pub initial_state: StateObject,
}

/// A checkpoint was started; it can be challenged until `challengeable_until`.
#[derive(Clone, Copy, Debug)]
pub struct CheckpointStarted {
    pub checkpoint: Checkpoint,
    pub challengeable_until: BlockNumber,
}

/// An exit was started; it can be finalized after `redeemable_after`.
#[derive(Clone, Copy, Debug)]
pub struct ExitStarted {
    pub exit_id: H256,
    pub redeemable_after: BlockNumber,
}

/// An exit was finalized: `amount` tokens are owed to `recipient`.
#[derive(Clone, Copy, Debug)]
pub struct ExitFinalized {
    pub exit_id: H256,
    pub amount: u64,
    pub recipient: AccountId,
}

/// The state of the exit game, as the rules see it.
pub struct DepositState {
    pub total_deposited: Range,
    pub checkpoints: Map<Seq<u8>, CheckpointStatus>,
    pub deposited_ranges: Map<u64, Range>,
    pub next_range_id: u64,
    pub exit_redeemable_after: Map<Seq<u8>, BlockNumber>,
    /// Each open challenge, by id, with the id of the checkpoint it challenges.
    pub challenges: Map<Seq<u8>, Seq<u8>>,
}

/// No two slots share an ordinal.
pub open spec fn slots_disjoint(ranges: Map<u64, Range>) -> bool {
    forall|a: u64, b: u64|
        #[trigger] ranges.contains_key(a) && #[trigger] ranges.contains_key(b) && a != b
            ==> !intersects(ranges[a], ranges[b])
}

/// Every slot is well formed and lies below `end`, and its id is below `next`.
pub open spec fn slots_within(ranges: Map<u64, Range>, end: u64, next: u64) -> bool {
    forall|a: u64|
        #[trigger] ranges.contains_key(a) ==> ranges[a].start <= ranges[a].end && ranges[a].end <= end
            && a < next
}

/// The slots after `sub` is taken out of slot `id`: what lies left of it keeps
/// the id, what lies right of it gets the id `next`.
pub open spec fn slots_after_exit(ranges: Map<u64, Range>, id: u64, sub: Range, next: u64) -> Map<u64, Range> {
    let slot = ranges[id];
    let rest = ranges.remove(id);
    let with_left = if slot.start < sub.start {
        rest.insert(id, Range { start: slot.start, end: sub.start })
    } else {
        rest
    };
    if sub.end < slot.end {
        with_left.insert(next, Range { start: sub.end, end: slot.end })
    } else {
        with_left
    }
}

/// The next free slot id after `sub` is taken out of slot `id`.
pub open spec fn next_after_exit(ranges: Map<u64, Range>, id: u64, sub: Range, next: u64) -> u64 {
    if sub.end < ranges[id].end {
        (next + 1) as u64
    } else {
        next
    }
}

/// A checkpoint whose window had closed by `now` keeps its window, and its
/// count of open challenges does not grow.
pub open spec fn closed_windows_kept(before: DepositState, after: DepositState, now: BlockNumber) -> bool {
    forall|k: Seq<u8>|
        #[trigger] before.checkpoints.contains_key(k) && now > before.checkpoints[k].challengeable_until
            && after.checkpoints.contains_key(k) ==> after.checkpoints[k].challengeable_until
            == before.checkpoints[k].challengeable_until
            && after.checkpoints[k].outstanding_challenges
            <= before.checkpoints[k].outstanding_challenges
}

/// No checkpoint that stays changes its window or gains open challenges.
pub open spec fn checkpoints_not_raised(before: DepositState, after: DepositState) -> bool {
    forall|k: Seq<u8>|
        #[trigger] before.checkpoints.contains_key(k) && after.checkpoints.contains_key(k)
            ==> after.checkpoints[k].challengeable_until == before.checkpoints[k].challengeable_until
            && after.checkpoints[k].outstanding_challenges <= before.checkpoints[k].outstanding_challenges
}

/// The open challenges against the checkpoint `k`.
pub open spec fn challenges_against(challenges: Map<Seq<u8>, Seq<u8>>, k: Seq<u8>) -> Set<Seq<u8>> {
    Set::new(|c: Seq<u8>| challenges.contains_key(c) && challenges[c] == k)
}

/// How many open challenges are against the checkpoint `k`.
pub open spec fn challenge_count(challenges: Map<Seq<u8>, Seq<u8>>, k: Seq<u8>) -> nat {
    challenges_against(challenges, k).len()
}

/// Every open challenge is against an existing checkpoint, and each
/// checkpoint's count of open challenges is the number of them against it.
pub open spec fn challenges_counted(s: DepositState) -> bool {
    &&& s.challenges.dom().finite()
    &&& forall|c: Seq<u8>| #[trigger] s.challenges.contains_key(c) ==> s.checkpoints.contains_key(s.challenges[c])
    &&& forall|k: Seq<u8>|
        #[trigger] s.checkpoints.contains_key(k) ==> s.checkpoints[k].outstanding_challenges as nat
            == challenge_count(s.challenges, k)
}

/// Why `deposit` rejects, if it does.
pub open spec fn deposit_rejection(s: DepositState, amount: u64) -> Option<Error> {
    if s.total_deposited.end + amount > u64::MAX || s.next_range_id == u64::MAX {
        Some(Error::Overflow)
    } else {
        None
    }
}

/// Why `start_checkpoint` rejects, if it does.
pub open spec fn start_checkpoint_rejection(
    s: DepositState,
    c: Checkpoint,
    inclusion_verified: bool,
    range_id: u64,
) -> Option<Error> {
    if !inclusion_verified {
        Some(Error::VerificationFailure)
    } else if !contains(c.state_update.range, c.sub_range) {
        Some(Error::RangeViolation)
    } else if !s.deposited_ranges.contains_key(range_id) {
        Some(Error::NotFound)
    } else if !contains(s.deposited_ranges[range_id], c.sub_range) {
        Some(Error::RangeViolation)
    } else if s.checkpoints.contains_key(checkpoint_id(c)) {
        Some(Error::DuplicateEntry)
    } else {
        None
    }
}

/// Why `challenge_checkpoint` rejects, if it does.
pub open spec fn challenge_checkpoint_rejection(s: DepositState, c: Challenge, now: BlockNumber) -> Option<Error> {
    let challenged = checkpoint_id(c.challenged_checkpoint);
    if !s.checkpoints.contains_key(challenged) {
        Some(Error::NotFound)
    } else if now > s.checkpoints[challenged].challengeable_until {
        Some(Error::TimingViolation)
    } else if !s.exit_redeemable_after.contains_key(checkpoint_id(c.challenging_checkpoint)) {
        Some(Error::NotFound)
    } else if !intersects(c.challenging_checkpoint.sub_range, c.challenged_checkpoint.sub_range) {
        Some(Error::RangeViolation)
    } else if c.challenging_checkpoint.state_update.plasma_block_number
        >= c.challenged_checkpoint.state_update.plasma_block_number {
        Some(Error::StateMismatch)
    } else if s.challenges.contains_key(challenge_id(c)) {
        Some(Error::DuplicateEntry)
    } else if s.checkpoints[challenged].outstanding_challenges == u64::MAX {
        Some(Error::Overflow)
    } else {
        None
    }
}

/// Why `remove_challenge` rejects, if it does.
pub open spec fn remove_challenge_rejection(s: DepositState, c: Challenge) -> Option<Error> {
    if !s.challenges.contains_key(challenge_id(c)) {
        Some(Error::NotFound)
    } else if s.exit_redeemable_after.contains_key(checkpoint_id(c.challenging_checkpoint)) {
        Some(Error::StateMismatch)
    } else {
        None
    }
}

/// Why `delete_exit_outdated` rejects, if it does.
pub open spec fn delete_exit_outdated_rejection(
    s: DepositState,
    older_exit: Checkpoint,
    newer_checkpoint: Checkpoint,
    now: BlockNumber,
) -> Option<Error> {
    let newer = checkpoint_id(newer_checkpoint);
    if !intersects(older_exit.sub_range, newer_checkpoint.sub_range) {
        Some(Error::RangeViolation)
    } else if older_exit.state_update.plasma_block_number
        >= newer_checkpoint.state_update.plasma_block_number {
        Some(Error::StateMismatch)
    } else if !s.checkpoints.contains_key(newer) {
        Some(Error::NotFound)
    } else if s.checkpoints[newer].outstanding_challenges != 0 {
        Some(Error::StateMismatch)
    } else if now <= s.checkpoints[newer].challengeable_until {
        Some(Error::TimingViolation)
    } else if !s.exit_redeemable_after.contains_key(checkpoint_id(older_exit)) {
        Some(Error::NotFound)
    } else {
        None
    }
}

/// Why `start_exit` rejects, if it does.
pub open spec fn start_exit_rejection(s: DepositState, caller: AccountId, c: Checkpoint) -> Option<Error> {
    if caller@ != c.state_update.state_object.predicate@ {
        Some(Error::AuthorizationError)
    } else if !s.checkpoints.contains_key(checkpoint_id(c)) {
        Some(Error::NotFound)
    } else if s.exit_redeemable_after.contains_key(checkpoint_id(c)) {
        Some(Error::DuplicateEntry)
    } else {
        None
    }
}

/// Why `deprecate_exit` rejects, if it does.
pub open spec fn deprecate_exit_rejection(s: DepositState, caller: AccountId, c: Checkpoint) -> Option<Error> {
    if caller@ != c.state_update.state_object.predicate@ {
        Some(Error::AuthorizationError)
    } else if !s.exit_redeemable_after.contains_key(checkpoint_id(c)) {
        Some(Error::NotFound)
    } else {
        None
    }
}

/// Why `finalize_exit` rejects, if it does.
pub open spec fn finalize_exit_rejection(
    s: DepositState,
    caller: AccountId,
    exit: Checkpoint,
    range_id: u64,
    now: BlockNumber,
) -> Option<Error> {
    let id = checkpoint_id(exit);
    if caller@ != exit.state_update.state_object.predicate@ {
        Some(Error::AuthorizationError)
    } else if !s.checkpoints.contains_key(id) {
        Some(Error::NotFound)
    } else if now <= s.checkpoints[id].challengeable_until || s.checkpoints[id].outstanding_challenges
        != 0 {
        Some(Error::TimingViolation)
    } else if !s.exit_redeemable_after.contains_key(id) {
        Some(Error::NotFound)
    } else if now <= s.exit_redeemable_after[id] {
        Some(Error::TimingViolation)
    } else if !s.deposited_ranges.contains_key(range_id) {
        Some(Error::NotFound)
    } else if !contains(s.deposited_ranges[range_id], exit.sub_range) {
        Some(Error::RangeViolation)
    } else if exit.sub_range.end < s.deposited_ranges[range_id].end && s.next_range_id == u64::MAX {
        Some(Error::Overflow)
    } else {
        None
    }
}

/// The checkpoint / challenge / exit game over deposited ranges.
pub struct Deposit {
    token_address: AccountId,
    challenge_period: u64,
    exit_period: u64,
    total_deposited: Range,
    checkpoints: HashTable<CheckpointStatus>,
    deposited_ranges: HashMap<u64, Range>,
    next_range_id: u64,
    exit_redeemable_after: HashTable<BlockNumber>,
    challenges: HashTable<H256>,
}

impl Deposit {
    /// The exit game's state.
    pub closed spec fn view(&self) -> DepositState {
        DepositState {
            total_deposited: self.total_deposited,
            checkpoints: self.checkpoints@,
            deposited_ranges: self.deposited_ranges@,
            next_range_id: self.next_range_id,
            exit_redeemable_after: self.exit_redeemable_after@,
            challenges: self.challenges@.map_values(|h: H256| h@),
        }
    }

    /// The token that deposits are made in.
    pub closed spec fn token(&self) -> AccountId {
        self.token_address
    }

    /// Blocks during which a new checkpoint can be challenged.
    pub closed spec fn challenge_window(&self) -> u64 {
        self.challenge_period
    }

    /// Blocks that a started exit waits before it can be finalized.
    pub closed spec fn exit_window(&self) -> u64 {
        self.exit_period
    }

    /// The tables are consistent, the deposited total starts at zero, and the
    /// slots are well formed, lie within it and do not overlap.
    pub closed spec fn wf(&self) -> bool {
        &&& self.checkpoints.wf()
        &&& self.exit_redeemable_after.wf()
        &&& self.challenges.wf()
        &&& self.total_deposited.start == 0
        &&& slots_within(self.deposited_ranges@, self.total_deposited.end, self.next_range_id)
        &&& slots_disjoint(self.deposited_ranges@)
        &&& challenges_counted(self@)
    }

    /// The settings stay as deployed.
    pub open spec fn same_settings(&self, other: &Deposit) -> bool {
        &&& self.token() == other.token()
        &&& self.challenge_window() == other.challenge_window()
        &&& self.exit_window() == other.exit_window()
    }

    /// A fresh exit game for `token_address`, with nothing deposited.
    pub fn deploy(token_address: AccountId, challenge_period: u64, exit_period: u64) -> (d: Self)
        ensures
            d.wf(),
            d.token() == token_address,
            d.challenge_window() == challenge_period,
            d.exit_window() == exit_period,
            d@.total_deposited.start == 0 && d@.total_deposited.end == 0,
            d@.checkpoints == Map::<Seq<u8>, CheckpointStatus>::empty(),
            d@.deposited_ranges == Map::<u64, Range>::empty(),
            d@.next_range_id == 0,
            d@.exit_redeemable_after == Map::<Seq<u8>, BlockNumber>::empty(),
            d@.challenges == Map::<Seq<u8>, Seq<u8>>::empty(),
    {
        let d = Deposit {
            token_address,
            challenge_period,
            exit_period,
            total_deposited: Range { start: 0, end: 0 },
            checkpoints: HashTable::new(),
            deposited_ranges: HashMap::new(),
            next_range_id: 0,
            exit_redeemable_after: HashTable::new(),
            challenges: HashTable::new(),
        };
        assert(d@.challenges =~= Map::<Seq<u8>, Seq<u8>>::empty());
        proof { d.challenges.lemma_finite(); }
        d
    }

    /// The id of a checkpoint.
    pub fn checkpoint_hash(c: &Checkpoint) -> (r: H256)
        ensures
            r@ == checkpoint_id(*c),
    {
        let bytes = encode_checkpoint(c);
        keccak256(bytes.as_slice())
    }

    /// The id of a challenge.
    pub fn challenge_hash(c: &Challenge) -> (r: H256)
        ensures
            r@ == challenge_id(*c),
    {
        let bytes = encode_challenge(c);
        keccak256(bytes.as_slice())
    }

    /// Takes in `amount` tokens: the deposited total grows by `amount`, and the
    /// new ordinals become a slot of their own.
    pub fn deposit(&mut self, amount: u64, initial_state: StateObject) -> (r: Result<Deposited, Error>)
        requires
            old(self).wf(),
        ensures
            final(self).wf(),
            final(self).same_settings(old(self)),
            match deposit_rejection(old(self)@, amount) {
                Some(e) => r == Err::<Deposited, Error>(e) && final(self)@ == old(self)@,
                None => {
                    let s = old(self)@;
                    let slot = Range { start: s.total_deposited.end, end: (s.total_deposited.end + amount) as u64 };
                    &&& r == Ok::<Deposited, Error>(Deposited { range_id: s.next_range_id, range: slot, initial_state })
                    &&& final(self)@ == DepositState {
                        total_deposited: Range { start: s.total_deposited.start, end: slot.end },
                        deposited_ranges: s.deposited_ranges.insert(s.next_range_id, slot),
                        next_range_id: (s.next_range_id + 1) as u64,
                        ..s
                    }
                },
            },
    {
        if amount > u64::MAX - self.total_deposited.end || self.next_range_id == u64::MAX {
            return Err(Error::Overflow);
        }
        let start = self.total_deposited.end;
        let end = start + amount;
        let slot = Range { start, end };
        let range_id = self.next_range_id;
        self.deposited_ranges.insert(range_id, slot);
        self.total_deposited = Range { start: 0, end };
        self.next_range_id = range_id + 1;
        assert forall|a: u64, b: u64|
            #[trigger] self.deposited_ranges@.contains_key(a) && #[trigger] self.deposited_ranges@.contains_key(b) && a != b
            implies !intersects(self.deposited_ranges@[a], self.deposited_ranges@[b]) by {
            if a != range_id && b != range_id {
                assert(old(self).deposited_ranges@.contains_key(a));
                assert(old(self).deposited_ranges@.contains_key(b));
            } else if a == range_id {
                assert(old(self).deposited_ranges@.contains_key(b));
            } else {
                assert(old(self).deposited_ranges@.contains_key(a));
            }
        }
        assert forall|a: u64| #[trigger] self.deposited_ranges@.contains_key(a) implies self.deposited_ranges@[a].start
            <= self.deposited_ranges@[a].end && self.deposited_ranges@[a].end <= end && a < range_id + 1 by {
            if a != range_id {
                assert(old(self).deposited_ranges@.contains_key(a));
            }
        }
        Ok(Deposited { range_id, range: slot, initial_state })
    }

    /// Starts a checkpoint of `checkpoint.state_update` over `checkpoint.sub_range`.
    /// `inclusion_verified` is the commitment verifier's answer on whether the
    /// state update was included in the committed state.
    pub fn start_checkpoint(
        &mut self,
        checkpoint: &Checkpoint,
        inclusion_verified: bool,
        deposited_range_id: u64,
        now: BlockNumber,
    ) -> (r: Result<CheckpointStarted, Error>)
        requires
            old(self).wf(),
        ensures
            final(self).wf(),
            final(self).same_settings(old(self)),
            closed_windows_kept(old(self)@, final(self)@, now),
            match start_checkpoint_rejection(old(self)@, *checkpoint, inclusion_verified, deposited_range_id) {
                Some(e) => r == Err::<CheckpointStarted, Error>(e) && final(self)@ == old(self)@,
                None => {
                    let s = old(self)@;
                    let until = deadline(now, old(self).challenge_window());
                    &&& r == Ok::<CheckpointStarted, Error>(CheckpointStarted { checkpoint: *checkpoint, challengeable_until: until })
                    &&& final(self)@ == DepositState {
                        checkpoints: s.checkpoints.insert(
                            checkpoint_id(*checkpoint),
                            CheckpointStatus { challengeable_until: until, outstanding_challenges: 0 },
                        ),
                        ..s
                    }
                },
            },
    {
        if !inclusion_verified {
            return Err(Error::VerificationFailure);
        }
        if !is_sub_range(&checkpoint.state_update.range, &checkpoint.sub_range) {
            return Err(Error::RangeViolation);
        }
        match self.deposited_ranges.get(&deposited_range_id) {
            Some(exitable) => {
                if !is_sub_range(exitable, &checkpoint.sub_range) {
                    return Err(Error::RangeViolation);
                }
            },
            None => {
                return Err(Error::NotFound);
            },
        }
        let id = Self::checkpoint_hash(checkpoint);
        if self.checkpoints.contains(&id) {
            return Err(Error::DuplicateEntry);
        }
        let until = now.saturating_add(self.challenge_period);
        self.checkpoints.insert(id, CheckpointStatus { challengeable_until: until, outstanding_challenges: 0 });
        proof {
            let s0 = old(self)@;
            assert forall|c: Seq<u8>| #[trigger] s0.challenges.contains_key(c) implies s0.challenges[c] != id@ by {
                assert(s0.checkpoints.contains_key(s0.challenges[c]));
            }
            lemma_count_none(s0.challenges, id@);
            assert forall|c: Seq<u8>| #[trigger] self@.challenges.contains_key(c) implies self@.checkpoints.contains_key(
                self@.challenges[c],
            ) by {
                assert(s0.checkpoints.contains_key(s0.challenges[c]));
            }
            assert forall|k: Seq<u8>| #[trigger] self@.checkpoints.contains_key(k) implies self@.checkpoints[k].outstanding_challenges as nat
                == challenge_count(self@.challenges, k) by {
                if k != id@ {
                    assert(s0.checkpoints.contains_key(k));
                }
            }
        }
        Ok(CheckpointStarted { checkpoint: *checkpoint, challengeable_until: until })
    }

    /// Challenges the checkpoint `challenge.challenged_checkpoint` by the older,
    /// intersecting exit `challenge.challenging_checkpoint`, at block `now`.
    pub fn challenge_checkpoint(&mut self, challenge: &Challenge, now: BlockNumber) -> (r: Result<(), Error>)
        requires
            old(self).wf(),
        ensures
            final(self).wf(),
            final(self).same_settings(old(self)),
            closed_windows_kept(old(self)@, final(self)@, now),
            match challenge_checkpoint_rejection(old(self)@, *challenge, now) {
                Some(e) => r == Err::<(), Error>(e) && final(self)@ == old(self)@,
                None => {
                    let s = old(self)@;
                    let id = checkpoint_id(challenge.challenged_checkpoint);
                    let st = s.checkpoints[id];
                    &&& r is Ok
                    &&& final(self)@ == DepositState {
                        checkpoints: s.checkpoints.insert(
                            id,
                            CheckpointStatus {
                                challengeable_until: st.challengeable_until,
                                outstanding_challenges: (st.outstanding_challenges + 1) as u64,
                            },
                        ),
                        challenges: s.challenges.insert(challenge_id(*challenge), id),
                        ..s
                    }
                },
            },
    {
        let challenged_id = Self::checkpoint_hash(&challenge.challenged_checkpoint);
        let status = match self.checkpoints.get(&challenged_id) {
            Some(st) => *st,
            None => {
                return Err(Error::NotFound);
            },
        };
        if now > status.challengeable_until {
            return Err(Error::TimingViolation);
        }
        let challenging_id = Self::checkpoint_hash(&challenge.challenging_checkpoint);
        if !self.exit_redeemable_after.contains(&challenging_id) {
            return Err(Error::NotFound);
        }
        if !is_intersects(&challenge.challenging_checkpoint.sub_range, &challenge.challenged_checkpoint.sub_range) {
            return Err(Error::RangeViolation);
        }
        if challenge.challenging_checkpoint.state_update.plasma_block_number
            >= challenge.challenged_checkpoint.state_update.plasma_block_number {
            return Err(Error::StateMismatch);
        }
        let challenge_id = Self::challenge_hash(challenge);
        if self.challenges.contains(&challenge_id) {
            return Err(Error::DuplicateEntry);
        }
        if status.outstanding_challenges == u64::MAX {
            return Err(Error::Overflow);
        }
        self.checkpoints.insert(
            challenged_id,
            CheckpointStatus {
                challengeable_until: status.challengeable_until,
                outstanding_challenges: status.outstanding_challenges + 1,
            },
        );
        self.challenges.insert(challenge_id, challenged_id);
        proof {
            let s0 = old(self)@;
            old(self).challenges.lemma_finite();
            self.challenges.lemma_finite();
            assert(self@.challenges =~= s0.challenges.insert(challenge_id@, challenged_id@));
            assert forall|k: Seq<u8>| #[trigger] self@.checkpoints.contains_key(k) implies self@.checkpoints[k].outstanding_challenges as nat
                == challenge_count(self@.challenges, k) by {
                lemma_count_insert(s0.challenges, challenge_id@, challenged_id@, k);
            }
        }
        Ok(())
    }

    /// Withdraws a challenge whose challenging exit has since been removed.
    pub fn remove_challenge(&mut self, challenge: &Challenge) -> (r: Result<(), Error>)
        requires
            old(self).wf(),
        ensures
            final(self).wf(),
            final(self).same_settings(old(self)),
            checkpoints_not_raised(old(self)@, final(self)@),
            match remove_challenge_rejection(old(self)@, *challenge) {
                Some(e) => r == Err::<(), Error>(e) && final(self)@ == old(self)@,
                None => {
                    let s = old(self)@;
                    let id = s.challenges[challenge_id(*challenge)];
                    let st = s.checkpoints[id];
                    &&& r is Ok
                    &&& s.checkpoints.contains_key(id)
                    &&& st.outstanding_challenges > 0
                    &&& final(self)@ == DepositState {
                        checkpoints: s.checkpoints.insert(
                            id,
                            CheckpointStatus {
                                challengeable_until: st.challengeable_until,
                                outstanding_challenges: (st.outstanding_challenges - 1) as u64,
                            },
                        ),
                        challenges: s.challenges.remove(challenge_id(*challenge)),
                        ..s
                    }
                },
            },
    {
        let challenge_id = Self::challenge_hash(challenge);
        let challenged_id = match self.challenges.get(&challenge_id) {
            Some(target) => *target,
            None => {
                return Err(Error::NotFound);
            },
        };
        let challenging_id = Self::checkpoint_hash(&challenge.challenging_checkpoint);
        if self.exit_redeemable_after.contains(&challenging_id) {
            return Err(Error::StateMismatch);
        }
        proof {
            let s0 = old(self)@;
            assert(s0.challenges.contains_key(challenge_id@));
            assert(s0.challenges[challenge_id@] == challenged_id@);
            assert(s0.checkpoints.contains_key(challenged_id@));
            lemma_count_positive(s0.challenges, challenge_id@);
        }
        let status = match self.checkpoints.get(&challenged_id) {
            Some(st) => *st,
            None => {
                return Err(Error::NotFound);
            },
        };
        self.checkpoints.insert(
            challenged_id,
            CheckpointStatus {
                challengeable_until: status.challengeable_until,
                outstanding_challenges: status.outstanding_challenges - 1,
            },
        );
        self.challenges.remove(&challenge_id);
        proof {
            let s0 = old(self)@;
            self.challenges.lemma_finite();
            assert(self@.challenges =~= s0.challenges.remove(challenge_id@));
            assert forall|c: Seq<u8>| #[trigger] self@.challenges.contains_key(c) implies self@.checkpoints.contains_key(
                self@.challenges[c],
            ) by {
                assert(s0.challenges.contains_key(c));
            }
            assert forall|k: Seq<u8>| #[trigger] self@.checkpoints.contains_key(k) implies self@.checkpoints[k].outstanding_challenges as nat
                == challenge_count(self@.challenges, k) by {
                lemma_count_remove(s0.challenges, challenge_id@, k);
            }
        }
        Ok(())
    }

    /// Cancels the exit `older_exit` at once by pointing to `newer_checkpoint`,
    /// a finalized, unchallenged checkpoint of a later plasma block over an
    /// intersecting range.
    pub fn delete_exit_outdated(&mut self, older_exit: &Checkpoint, newer_checkpoint: &Checkpoint, now: BlockNumber) -> (r: Result<(), Error>)
        requires
            old(self).wf(),
        ensures
            final(self).wf(),
            final(self).same_settings(old(self)),
            closed_windows_kept(old(self)@, final(self)@, now),
            match delete_exit_outdated_rejection(old(self)@, *older_exit, *newer_checkpoint, now) {
                Some(e) => r == Err::<(), Error>(e) && final(self)@ == old(self)@,
                None => {
                    let s = old(self)@;
                    &&& r is Ok
                    &&& final(self)@ == DepositState {
                        exit_redeemable_after: s.exit_redeemable_after.remove(checkpoint_id(*older_exit)),
                        ..s
                    }
                },
            },
    {
        if !is_intersects(&older_exit.sub_range, &newer_checkpoint.sub_range) {
            return Err(Error::RangeViolation);
        }
        if older_exit.state_update.plasma_block_number >= newer_checkpoint.state_update.plasma_block_number {
            return Err(Error::StateMismatch);
        }
        let newer_id = Self::checkpoint_hash(newer_checkpoint);
        let status = match self.checkpoints.get(&newer_id) {
            Some(st) => *st,
            None => {
                return Err(Error::NotFound);
            },
        };
        if status.outstanding_challenges != 0 {
            return Err(Error::StateMismatch);
        }
        if now <= status.challengeable_until {
            return Err(Error::TimingViolation);
        }
        let older_id = Self::checkpoint_hash(older_exit);
        if !self.exit_redeemable_after.contains(&older_id) {
            return Err(Error::NotFound);
        }
        self.exit_redeemable_after.remove(&older_id);
        Ok(())
    }

    /// Starts an exit from `checkpoint`, on behalf of its predicate `caller`.
    pub fn start_exit(&mut self, caller: &AccountId, checkpoint: &Checkpoint, now: BlockNumber) -> (r: Result<ExitStarted, Error>)
        requires
            old(self).wf(),
        ensures
            final(self).wf(),
            final(self).same_settings(old(self)),
            closed_windows_kept(old(self)@, final(self)@, now),
            match start_exit_rejection(old(self)@, *caller, *checkpoint) {
                Some(e) => r == Err::<ExitStarted, Error>(e) && final(self)@ == old(self)@,
                None => {
                    let s = old(self)@;
                    let after = deadline(now, old(self).exit_window());
                    &&& r is Ok
                    &&& r->Ok_0.exit_id@ == checkpoint_id(*checkpoint)
                    &&& r->Ok_0.redeemable_after == after
                    &&& final(self)@ == DepositState {
                        exit_redeemable_after: s.exit_redeemable_after.insert(checkpoint_id(*checkpoint), after),
                        ..s
                    }
                },
            },
    {
        if !bytes32_eq(caller, &checkpoint.state_update.state_object.predicate) {
            return Err(Error::AuthorizationError);
        }
        let id = Self::checkpoint_hash(checkpoint);
        if !self.checkpoints.contains(&id) {
            return Err(Error::NotFound);
        }
        if self.exit_redeemable_after.contains(&id) {
            return Err(Error::DuplicateEntry);
        }
        let redeemable_after = now.saturating_add(self.exit_period);
        self.exit_redeemable_after.insert(id, redeemable_after);
        Ok(ExitStarted { exit_id: id, redeemable_after })
    }

    /// Cancels the exit from `checkpoint`, on behalf of its predicate `caller`.
    pub fn deprecate_exit(&mut self, caller: &AccountId, checkpoint: &Checkpoint) -> (r: Result<(), Error>)
        requires
            old(self).wf(),
        ensures
            final(self).wf(),
            final(self).same_settings(old(self)),
            match deprecate_exit_rejection(old(self)@, *caller, *checkpoint) {
                Some(e) => r == Err::<(), Error>(e) && final(self)@ == old(self)@,
                None => {
                    let s = old(self)@;
                    &&& r is Ok
                    &&& final(self)@ == DepositState {
                        exit_redeemable_after: s.exit_redeemable_after.remove(checkpoint_id(*checkpoint)),
                        ..s
                    }
                },
            },
    {
        if !bytes32_eq(caller, &checkpoint.state_update.state_object.predicate) {
            return Err(Error::AuthorizationError);
        }
        let id = Self::checkpoint_hash(checkpoint);
        if !self.exit_redeemable_after.contains(&id) {
            return Err(Error::NotFound);
        }
        self.exit_redeemable_after.remove(&id);
        Ok(())
    }

    /// The token that deposits are made in.
    pub fn token_address(&self) -> (r: AccountId)
        ensures
            r == self.token(),
    {
        self.token_address
    }

    /// Blocks during which a new checkpoint can be challenged.
    pub fn challenge_period(&self) -> (r: u64)
        ensures
            r == self.challenge_window(),
    {
        self.challenge_period
    }

    /// Blocks that a started exit waits before it can be finalized.
    pub fn exit_period(&self) -> (r: u64)
        ensures
            r == self.exit_window(),
    {
        self.exit_period
    }

    /// All ordinals deposited so far.
    pub fn total_deposited(&self) -> (r: Range)
        ensures
            r == self@.total_deposited,
    {
        self.total_deposited
    }

    /// The status of the checkpoint with id `id`, if it exists.
    pub fn checkpoint_status(&self, id: &H256) -> (r: Option<CheckpointStatus>)
        requires
            self.wf(),
        ensures
            r == (if self@.checkpoints.contains_key(id@) {
                Some(self@.checkpoints[id@])
            } else {
                None
            }),
    {
        match self.checkpoints.get(id) {
            Some(st) => Some(*st),
            None => None,
        }
    }

    /// The slot `range_id`, if it exists.
    pub fn deposited_range(&self, range_id: u64) -> (r: Option<Range>)
        ensures
            r == (if self@.deposited_ranges.contains_key(range_id) {
                Some(self@.deposited_ranges[range_id])
            } else {
                None
            }),
    {
        match self.deposited_ranges.get(&range_id) {
            Some(range) => Some(*range),
            None => None,
        }
    }

    /// The block after which the exit from the checkpoint `id` can be finalized, if one is pending.
    pub fn redeemable_after(&self, id: &H256) -> (r: Option<BlockNumber>)
        requires
            self.wf(),
        ensures
            r == (if self@.exit_redeemable_after.contains_key(id@) {
                Some(self@.exit_redeemable_after[id@])
            } else {
                None
            }),
    {
        match self.exit_redeemable_after.get(id) {
            Some(b) => Some(*b),
            None => None,
        }
    }

    /// Whether the challenge with id `id` is open.
    pub fn is_challenged(&self, id: &H256) -> (r: bool)
        requires
            self.wf(),
        ensures
            r == self@.challenges.contains_key(id@),
    {
        self.challenges.contains(id)
    }

    /// No two deposited range slots ever share an ordinal; each lies within
    /// the deposited total, which starts at zero, and has an id below the next
    /// free one.
    pub proof fn lemma_deposited_ranges_disjoint(&self, a: u64, b: u64)
        requires
            self.wf(),
            self@.deposited_ranges.contains_key(a),
            self@.deposited_ranges.contains_key(b),
        ensures
            a != b ==> !intersects(self@.deposited_ranges[a], self@.deposited_ranges[b]),
            self@.deposited_ranges[a].start <= self@.deposited_ranges[a].end,
            self@.deposited_ranges[a].end <= self@.total_deposited.end,
            a < self@.next_range_id,
            self@.total_deposited.start == 0,
    {
    }

    /// Every open challenge is against an existing checkpoint, and each
    /// checkpoint's count of open challenges is the number of them against it.
    pub proof fn lemma_challenges_counted(&self)
        requires
            self.wf(),
        ensures
            challenges_counted(self@),
    {
    }

    /// Finalizes the exit from `exit`, on behalf of its predicate `caller`: the
    /// exited sub-range leaves slot `deposited_range_id`, the exit and its
    /// checkpoint are deleted, and the sub-range's width in tokens is owed to
    /// the predicate.
    pub fn finalize_exit(&mut self, caller: &AccountId, exit: &Checkpoint, deposited_range_id: u64, now: BlockNumber) -> (r: Result<ExitFinalized, Error>)
        requires
            old(self).wf(),
        ensures
            final(self).wf(),
            final(self).same_settings(old(self)),
            closed_windows_kept(old(self)@, final(self)@, now),
            r is Ok ==> {
                let st = old(self)@.checkpoints[checkpoint_id(*exit)];
                &&& old(self)@.checkpoints.contains_key(checkpoint_id(*exit))
                &&& st.outstanding_challenges == 0
                &&& now > st.challengeable_until
                &&& old(self)@.exit_redeemable_after.contains_key(checkpoint_id(*exit))
                &&& now > old(self)@.exit_redeemable_after[checkpoint_id(*exit)]
            },
            match finalize_exit_rejection(old(self)@, *caller, *exit, deposited_range_id, now) {
                Some(e) => r == Err::<ExitFinalized, Error>(e) && final(self)@ == old(self)@,
                None => {
                    let s = old(self)@;
                    let id = checkpoint_id(*exit);
                    &&& r is Ok
                    &&& r->Ok_0.exit_id@ == id
                    &&& r->Ok_0.amount == exit.sub_range.end - exit.sub_range.start
                    &&& r->Ok_0.recipient == exit.state_update.state_object.predicate
                    &&& final(self)@ == DepositState {
                        checkpoints: s.checkpoints.remove(id),
                        exit_redeemable_after: s.exit_redeemable_after.remove(id),
                        deposited_ranges: slots_after_exit(s.deposited_ranges, deposited_range_id, exit.sub_range, s.next_range_id),
                        next_range_id: next_after_exit(s.deposited_ranges, deposited_range_id, exit.sub_range, s.next_range_id),
                        ..s
                    }
                },
            },
    {
        if !bytes32_eq(caller, &exit.state_update.state_object.predicate) {
            return Err(Error::AuthorizationError);
        }
        let id = Self::checkpoint_hash(exit);
        let status = match self.checkpoints.get(&id) {
            Some(st) => *st,
            None => {
                return Err(Error::NotFound);
            },
        };
        if now <= status.challengeable_until || status.outstanding_challenges != 0 {
            return Err(Error::TimingViolation);
        }
        let redeemable_after = match self.exit_redeemable_after.get(&id) {
            Some(b) => *b,
            None => {
                return Err(Error::NotFound);
            },
        };
        if now <= redeemable_after {
            return Err(Error::TimingViolation);
        }
        let slot = match self.deposited_ranges.get(&deposited_range_id) {
            Some(r) => *r,
            None => {
                return Err(Error::NotFound);
            },
        };
        let sub = exit.sub_range;
        if !is_sub_range(&slot, &sub) {
            return Err(Error::RangeViolation);
        }
        if sub.end < slot.end && self.next_range_id == u64::MAX {
            return Err(Error::Overflow);
        }
        let ghost ranges0 = self.deposited_ranges@;
        let ghost next0 = self.next_range_id;
        self.deposited_ranges.remove(&deposited_range_id);
        if slot.start < sub.start {
            self.deposited_ranges.insert(deposited_range_id, Range { start: slot.start, end: sub.start });
        }
        if sub.end < slot.end {
            let right_id = self.next_range_id;
            self.deposited_ranges.insert(right_id, Range { start: sub.end, end: slot.end });
            self.next_range_id = right_id + 1;
        }
        proof {
            lemma_slots_after_exit(ranges0, deposited_range_id, sub, next0, self.total_deposited.end);
            assert(self.deposited_ranges@ =~= slots_after_exit(ranges0, deposited_range_id, sub, next0));
        }
        self.exit_redeemable_after.remove(&id);
        self.checkpoints.remove(&id);
        proof {
            let s0 = old(self)@;
            assert forall|c: Seq<u8>| #[trigger] self@.challenges.contains_key(c) implies self@.checkpoints.contains_key(
                self@.challenges[c],
            ) by {
                assert(s0.checkpoints.contains_key(s0.challenges[c]));
                if s0.challenges[c] == id@ {
                    lemma_count_positive(s0.challenges, c);
                }
            }
            assert forall|k: Seq<u8>| #[trigger] self@.checkpoints.contains_key(k) implies self@.checkpoints[k].outstanding_challenges as nat
                == challenge_count(self@.challenges, k) by {
                assert(s0.checkpoints.contains_key(k));
            }
        }
        Ok(ExitFinalized { exit_id: id, amount: sub.end - sub.start, recipient: exit.state_update.state_object.predicate })
    }
}

/// Taking a sub-range out of a slot keeps the slots well formed, within the
/// deposited total, and pairwise disjoint.
proof fn lemma_slots_after_exit(ranges: Map<u64, Range>, id: u64, sub: Range, next: u64, end: u64)
    requires
        slots_within(ranges, end, next),
        slots_disjoint(ranges),
        ranges.contains_key(id),
        contains(ranges[id], sub),
        sub.end < ranges[id].end ==> next < u64::MAX,
    ensures
        slots_within(slots_after_exit(ranges, id, sub, next), end, next_after_exit(ranges, id, sub, next)),
        slots_disjoint(slots_after_exit(ranges, id, sub, next)),
{
    let after = slots_after_exit(ranges, id, sub, next);
    let slot = ranges[id];
    assert forall|a: u64| #[trigger] after.contains_key(a) implies after[a].start <= after[a].end
        && after[a].end <= end && a < next_after_exit(ranges, id, sub, next) by {
        if a != id && a != next {
            assert(ranges.contains_key(a));
        }
    }
    assert forall|a: u64, b: u64|
        #[trigger] after.contains_key(a) && #[trigger] after.contains_key(b) && a != b
        implies !intersects(after[a], after[b]) by {
        // Each new slot lies within the old slot `id`, and the left and right
        // parts are separated by `sub`.
        if a != id && a != next {
            assert(ranges.contains_key(a));
        }
        if b != id && b != next {
            assert(ranges.contains_key(b));
        }
        if (a == id || a == next) && b != id && b != next {
            assert(!intersects(slot, ranges[b]));
        }
        if (b == id || b == next) && a != id && a != next {
            assert(!intersects(ranges[a], slot));
        }
    }
}

/// The challenges against any checkpoint are finitely many.
proof fn lemma_against_finite(m: Map<Seq<u8>, Seq<u8>>, k: Seq<u8>)
    requires
        m.dom().finite(),
    ensures
        challenges_against(m, k).finite(),
{
    assert(challenges_against(m, k).subset_of(m.dom()));
    vstd::set_lib::lemma_set_subset_finite(m.dom(), challenges_against(m, k));
}

/// Recording one more challenge against `t` raises `t`'s count by one.
proof fn lemma_count_insert(m: Map<Seq<u8>, Seq<u8>>, c: Seq<u8>, t: Seq<u8>, k: Seq<u8>)
    requires
        m.dom().finite(),
        !m.contains_key(c),
    ensures
        challenge_count(m.insert(c, t), k) == challenge_count(m, k) + (if t == k { 1nat } else { 0nat }),
{
    lemma_against_finite(m, k);
    if t == k {
        assert(challenges_against(m.insert(c, t), k) =~= challenges_against(m, k).insert(c));
    } else {
        assert(challenges_against(m.insert(c, t), k) =~= challenges_against(m, k));
    }
}

/// Dropping the challenge `c` lowers its checkpoint's count by one.
proof fn lemma_count_remove(m: Map<Seq<u8>, Seq<u8>>, c: Seq<u8>, k: Seq<u8>)
    requires
        m.dom().finite(),
        m.contains_key(c),
    ensures
        challenge_count(m.remove(c), k) + (if m[c] == k { 1nat } else { 0nat }) == challenge_count(m, k),
{
    lemma_against_finite(m, k);
    if m[c] == k {
        assert(challenges_against(m.remove(c), k) =~= challenges_against(m, k).remove(c));
    } else {
        assert(challenges_against(m.remove(c), k) =~= challenges_against(m, k));
    }
}

/// A recorded challenge counts against its checkpoint.
proof fn lemma_count_positive(m: Map<Seq<u8>, Seq<u8>>, c: Seq<u8>)
    requires
        m.dom().finite(),
        m.contains_key(c),
    ensures
        challenge_count(m, m[c]) >= 1,
{
    lemma_count_remove(m, c, m[c]);
}

/// A checkpoint that no challenge is against has a count of zero.
proof fn lemma_count_none(m: Map<Seq<u8>, Seq<u8>>, k: Seq<u8>)
    requires
        forall|c: Seq<u8>| #[trigger] m.contains_key(c) ==> m[c] != k,
    ensures
        challenge_count(m, k) == 0,
{
    assert(challenges_against(m, k) =~= Set::<Seq<u8>>::empty());
}

} // verus!
