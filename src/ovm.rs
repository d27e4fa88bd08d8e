use vstd::prelude::*;

use crate::error::Error;
use crate::hashing::{blake2_256, blake2_of, byte_lists_fit, encode_byte_lists, scale_of_byte_lists};
use crate::primitives::{bytes32_eq, AccountId, BlockNumber, H256};
use crate::table::HashTable;

verus! {

/// A claim adjudicated by the dispute game: opaque inputs that the predicate
/// at `predicate_address` interprets.
#[derive(Clone, Debug)]
pub struct Property {
    pub predicate_address: AccountId,
    pub inputs: Vec<Vec<u8>>,
}

/// The outcome of a game. `True` and `False` are terminal.
#[derive(Clone, Copy, Debug, PartialEq, Eq, Structural)]
pub enum Decision {
    Undecided,
    True,
    False,
}

/// One game per claimed property, keyed by the property's content hash.
#[derive(Clone, Debug)]
pub struct ChallengeGame {
    pub property_hash: H256,
    /// Ids of the games that currently contest this one, without repetition.
    pub challenges: Vec<H256>,
    pub decision: Decision,
    pub created_block: BlockNumber,
}

/// What a game is, as far as the rules go.
pub struct GameState {
    pub challenges: Seq<Seq<u8>>,
    pub decision: Decision,
    pub created_block: BlockNumber,
}

/// The bytes that a property's id is taken over.
pub open spec fn property_bytes(p: Property) -> Seq<u8> {
    p.predicate_address@ + scale_of_byte_lists(p.inputs.deep_view())
}

/// The property's inputs can be encoded: there are at most `u32::MAX` of
/// them, each at most `u32::MAX` bytes long.
pub open spec fn property_fits(p: Property) -> bool {
    byte_lists_fit(p.inputs.deep_view())
}

/// The id of the game of a property: the BLAKE2b-256 digest of its encoding.
pub open spec fn property_id(p: Property) -> Seq<u8> {
    blake2_of(property_bytes(p))
}

/// The ids in `s`, as byte sequences.
pub open spec fn hash_views(s: Seq<H256>) -> Seq<Seq<u8>> {
    s.map_values(|h: H256| h@)
}

/// The rule-relevant part of a stored game.
pub open spec fn game_state(g: ChallengeGame) -> GameState {
    GameState { challenges: hash_views(g.challenges@), decision: g.decision, created_block: g.created_block }
}

/// A game just claimed at block `now`.
pub open spec fn fresh_game(now: BlockNumber) -> GameState {
    GameState { challenges: Seq::empty(), decision: Decision::Undecided, created_block: now }
}

/// The dispute period of a game created at `created` has elapsed by `now`.
pub open spec fn period_elapsed(created: BlockNumber, period: u64, now: BlockNumber) -> bool {
    created + period <= now
}

/// Every game that was decided in `before` still exists in `after` with the same decision.
pub open spec fn decisions_kept(before: Map<Seq<u8>, GameState>, after: Map<Seq<u8>, GameState>) -> bool {
    forall|k: Seq<u8>|
        #[trigger] before.contains_key(k) && before[k].decision != Decision::Undecided
            ==> after.contains_key(k) && after[k].decision == before[k].decision
}

/// A decided game stays decided the same way over any run of operations:
/// what holds from one state to the next holds from the first to the last.
pub proof fn lemma_decisions_final(
    a: Map<Seq<u8>, GameState>,
    b: Map<Seq<u8>, GameState>,
    c: Map<Seq<u8>, GameState>,
)
    requires
        decisions_kept(a, b),
        decisions_kept(b, c),
    ensures
        decisions_kept(a, c),
{
    assert forall|k: Seq<u8>| #[trigger] a.contains_key(k) && a[k].decision != Decision::Undecided implies c.contains_key(k)
        && c[k].decision == a[k].decision by {
        assert(b.contains_key(k) && b[k].decision == a[k].decision);
    }
}

/// Some game among `ids` has decision `d`.
pub open spec fn some_child_is(games: Map<Seq<u8>, GameState>, ids: Seq<Seq<u8>>, d: Decision) -> bool {
    exists|i: int| 0 <= i < ids.len() && #[trigger] games[ids[i]].decision == d
}

/// Every game among `ids` exists and has decision `False`.
pub open spec fn all_children_false(games: Map<Seq<u8>, GameState>, ids: Seq<Seq<u8>>) -> bool {
    forall|i: int| 0 <= i < ids.len() ==> games.contains_key(ids[i]) && #[trigger] games[ids[i]].decision == Decision::False
}

/// Whether the game `id` can be settled to `True` at block `now`.
pub open spec fn decidable(games: Map<Seq<u8>, GameState>, id: Seq<u8>, period: u64, now: BlockNumber) -> bool {
    &&& games.contains_key(id)
    &&& period_elapsed(games[id].created_block, period, now)
    &&& all_children_false(games, games[id].challenges)
}

/// The decision that `set_game_result` records for `result`.
pub open spec fn decision_of(result: bool) -> Decision {
    if result { Decision::True } else { Decision::False }
}

/// Why `claim` rejects, if it does.
pub open spec fn claim_rejection(games: Map<Seq<u8>, GameState>, caller: AccountId, property: Property) -> Option<Error> {
    if caller@ != property.predicate_address@ {
        Some(Error::AuthorizationError)
    } else if !property_fits(property) {
        Some(Error::Overflow)
    } else if games.contains_key(property_id(property)) {
        Some(Error::DuplicateEntry)
    } else {
        None
    }
}

/// Why `challenge` rejects, if it does.
pub open spec fn challenge_rejection(
    games: Map<Seq<u8>, GameState>,
    caller: AccountId,
    property: Property,
    challenge_property: Property,
) -> Option<Error> {
    if caller@ != property.predicate_address@ {
        Some(Error::AuthorizationError)
    } else if !property_fits(property) || !property_fits(challenge_property) {
        Some(Error::Overflow)
    } else if !games.contains_key(property_id(property)) {
        Some(Error::NotFound)
    } else if games.contains_key(property_id(challenge_property)) {
        Some(Error::DuplicateEntry)
    } else {
        None
    }
}

/// Why `remove_challenge` rejects, if it does.
pub open spec fn remove_challenge_rejection(
    games: Map<Seq<u8>, GameState>,
    caller: AccountId,
    property: Property,
    challenge_property: Property,
) -> Option<Error> {
    let id = property_id(property);
    let cid = property_id(challenge_property);
    if caller@ != property.predicate_address@ {
        Some(Error::AuthorizationError)
    } else if !property_fits(property) || !property_fits(challenge_property) {
        Some(Error::Overflow)
    } else if !games.contains_key(id) || !games.contains_key(cid) {
        Some(Error::NotFound)
    } else if !games[id].challenges.contains(cid) {
        Some(Error::NotFound)
    } else if games[cid].decision != Decision::False {
        Some(Error::StateMismatch)
    } else {
        None
    }
}

/// Why `set_game_result` rejects, if it does.
pub open spec fn set_game_result_rejection(games: Map<Seq<u8>, GameState>, caller: AccountId, property: Property) -> Option<Error> {
    let id = property_id(property);
    if caller@ != property.predicate_address@ {
        Some(Error::AuthorizationError)
    } else if !property_fits(property) {
        Some(Error::Overflow)
    } else if !games.contains_key(id) {
        Some(Error::NotFound)
    } else if games[id].challenges.len() != 0 || games[id].decision != Decision::Undecided {
        Some(Error::StateMismatch)
    } else {
        None
    }
}

/// Why `settle_game` rejects, if it does.
pub open spec fn settle_rejection(
    games: Map<Seq<u8>, GameState>,
    period: u64,
    caller: AccountId,
    property: Property,
    now: BlockNumber,
) -> Option<Error> {
    let id = property_id(property);
    if caller@ != property.predicate_address@ {
        Some(Error::AuthorizationError)
    } else if !property_fits(property) {
        Some(Error::Overflow)
    } else if !games.contains_key(id) {
        Some(Error::NotFound)
    } else if games[id].decision != Decision::Undecided {
        Some(Error::StateMismatch)
    } else if !period_elapsed(games[id].created_block, period, now) {
        Some(Error::TimingViolation)
    } else if !some_child_is(games, games[id].challenges, Decision::True) && some_child_is(
        games,
        games[id].challenges,
        Decision::Undecided,
    ) {
        Some(Error::StateMismatch)
    } else {
        None
    }
}

/// The same game with another decision.
pub open spec fn with_decision(g: GameState, d: Decision) -> GameState {
    GameState { challenges: g.challenges, decision: d, created_block: g.created_block }
}

/// The same game with another list of challenges.
pub open spec fn with_challenges(g: GameState, c: Seq<Seq<u8>>) -> GameState {
    GameState { challenges: c, decision: g.decision, created_block: g.created_block }
}

/// The claim / challenge / settle engine: every game, and the dispute period.
pub struct Module {
    games: HashTable<ChallengeGame>,
    dispute_period: u64,
}

impl Module {
    /// Every game by id.
    pub closed spec fn view(&self) -> Map<Seq<u8>, GameState> {
        self.games@.map_values(|g: ChallengeGame| game_state(g))
    }

    /// The number of blocks a claim stays open to challenges.
    pub closed spec fn period(&self) -> u64 {
        self.dispute_period
    }

    /// Each game is stored under its own id, and its challenges are distinct
    /// ids of existing games.
    pub closed spec fn wf(&self) -> bool {
        &&& self.games.wf()
        &&& forall|k: Seq<u8>| #[trigger] self.games@.contains_key(k) ==> self.games@[k].property_hash@ == k
        &&& forall|k: Seq<u8>| #[trigger] self.games@.contains_key(k) ==> hash_views(self.games@[k].challenges@).no_duplicates()
        &&& forall|k: Seq<u8>, i: int|
            #[trigger] self.games@.contains_key(k) && 0 <= i < self.games@[k].challenges@.len()
                ==> self.games@.contains_key(#[trigger] self.games@[k].challenges@[i]@)
    }

    /// Each game's challenges are distinct, and each names an existing game.
    pub proof fn lemma_challenges_wf(&self, k: Seq<u8>)
        requires
            self.wf(),
            self@.contains_key(k),
        ensures
            self@[k].challenges.no_duplicates(),
            forall|i: int| 0 <= i < self@[k].challenges.len() ==> self@.contains_key(#[trigger] self@[k].challenges[i]),
    {
        assert(self.games@.contains_key(k));
        assert forall|i: int| 0 <= i < self@[k].challenges.len() implies self@.contains_key(#[trigger] self@[k].challenges[i]) by {
            assert(self.games@.contains_key(self.games@[k].challenges@[i]@));
        }
    }

    /// An engine with no games.
    pub fn new(dispute_period: u64) -> (m: Self)
        ensures
            m.wf(),
            m@ == Map::<Seq<u8>, GameState>::empty(),
            m.period() == dispute_period,
    {
        let m = Module { games: HashTable::new(), dispute_period };
        assert(m@ =~= Map::<Seq<u8>, GameState>::empty());
        m
    }

    /// The number of blocks a claim stays open to challenges.
    pub fn dispute_period(&self) -> (r: u64)
        ensures
            r == self.period(),
    {
        self.dispute_period
    }

    /// Whether `property`'s inputs can be encoded.
    pub fn fits(property: &Property) -> (r: bool)
        ensures
            r == property_fits(*property),
    {
        let n = property.inputs.len();
        if n as u64 > u32::MAX as u64 {
            return false;
        }
        let mut i: usize = 0;
        while i < n
            invariant
                n == property.inputs.len(),
                n <= u32::MAX,
                0 <= i <= n,
                forall|j: int| 0 <= j < i ==> #[trigger] property.inputs.deep_view()[j].len() <= u32::MAX,
            decreases n - i,
        {
            assert(property.inputs.deep_view()[i as int] =~= property.inputs@[i as int]@);
            if property.inputs[i].len() as u64 > u32::MAX as u64 {
                return false;
            }
            i = i + 1;
        }
        true
    }

    /// The id of the game of `property`.
    pub fn get_property_id(property: &Property) -> (r: H256)
        requires
            property_fits(*property),
        ensures
            r@ == property_id(*property),
    {
        let mut bytes: Vec<u8> = Vec::new();
        let mut i: usize = 0;
        while i < 32
            invariant
                0 <= i <= 32,
                bytes@ == property.predicate_address@.subrange(0, i as int),
            decreases 32 - i,
        {
            bytes.push(property.predicate_address[i]);
            i = i + 1;
            assert(bytes@ =~= property.predicate_address@.subrange(0, i as int));
        }
        let mut encoded = encode_byte_lists(&property.inputs);
        bytes.append(&mut encoded);
        assert(bytes@ =~= property_bytes(*property));
        blake2_256(bytes.as_slice())
    }

    /// Whether a game with id `id` exists.
    pub fn started(&self, id: &H256) -> (r: bool)
        requires
            self.wf(),
        ensures
            r == self@.contains_key(id@),
    {
        self.games.contains(id)
    }

    /// The game with id `claim_id`, if any.
    pub fn get_game(&self, claim_id: &H256) -> (r: Option<&ChallengeGame>)
        requires
            self.wf(),
        ensures
            match r {
                Some(g) => self@.contains_key(claim_id@) && game_state(*g) == self@[claim_id@]
                    && g.property_hash@ == claim_id@,
                None => !self@.contains_key(claim_id@),
            },
    {
        self.games.get(claim_id)
    }

    /// The decision of the game with id `id`; `Undecided` where there is none.
    pub fn is_decided_by_id(&self, id: &H256) -> (r: Decision)
        requires
            self.wf(),
        ensures
            r == (if self@.contains_key(id@) { self@[id@].decision } else { Decision::Undecided }),
    {
        match self.games.get(id) {
            Some(g) => g.decision,
            None => Decision::Undecided,
        }
    }

    /// The decision of the game of `property`; `Undecided` where there is none.
    pub fn is_decided(&self, property: &Property) -> (r: Decision)
        requires
            self.wf(),
            property_fits(*property),
        ensures
            r == (if self@.contains_key(property_id(*property)) {
                self@[property_id(*property)].decision
            } else {
                Decision::Undecided
            }),
    {
        let id = Self::get_property_id(property);
        self.is_decided_by_id(&id)
    }

    fn find_index(ids: &Vec<H256>, id: &H256) -> (r: Option<usize>)
        ensures
            match r {
                Some(i) => i < ids.len() && ids@[i as int]@ == id@
                    && forall|j: int| 0 <= j < i ==> ids@[j]@ != id@,
                None => !hash_views(ids@).contains(id@),
            },
    {
        let mut i: usize = 0;
        while i < ids.len()
            invariant
                0 <= i <= ids.len(),
                forall|j: int| 0 <= j < i ==> ids@[j]@ != id@,
            decreases ids.len() - i,
        {
            if bytes32_eq(&ids[i], id) {
                return Some(i);
            }
            i = i + 1;
        }
        proof {
            if hash_views(ids@).contains(id@) {
                let j = choose|j: int| 0 <= j < hash_views(ids@).len() && hash_views(ids@)[j] == id@;
                assert(ids@[j]@ == id@);
            }
        }
        None
    }

    /// A game for `id`, claimed at block `now`.
    fn create_game(id: H256, now: BlockNumber) -> (g: ChallengeGame)
        ensures
            g.property_hash == id,
            g.challenges@.len() == 0,
            game_state(g) == fresh_game(now),
            hash_views(g.challenges@).no_duplicates(),
    {
        let g = ChallengeGame { property_hash: id, challenges: Vec::new(), decision: Decision::Undecided, created_block: now };
        assert(hash_views(g.challenges@) =~= Seq::<Seq<u8>>::empty());
        g
    }

    /// The decision recorded for a predicate's `result`.
    fn get_decision(result: bool) -> (d: Decision)
        ensures
            d == decision_of(result),
    {
        if result {
            Decision::True
        } else {
            Decision::False
        }
    }

    /// Whether `caller` is the predicate that `property` names.
    fn only_from_dispute_contract(caller: &AccountId, property: &Property) -> (r: bool)
        ensures
            r == (caller@ == property.predicate_address@),
    {
        bytes32_eq(caller, &property.predicate_address)
    }

    /// Whether `challenge_property`'s game currently contests `property`'s game.
    pub fn is_challenge_of(&self, property: &Property, challenge_property: &Property) -> (r: bool)
        requires
            self.wf(),
            property_fits(*property),
            property_fits(*challenge_property),
        ensures
            r == (self@.contains_key(property_id(*property))
                && self@[property_id(*property)].challenges.contains(property_id(*challenge_property))),
    {
        let id = Self::get_property_id(property);
        let challenge_id = Self::get_property_id(challenge_property);
        match self.games.get(&id) {
            Some(g) => {
                match Self::find_index(&g.challenges, &challenge_id) {
                    Some(i) => {
                        assert(hash_views(g.challenges@)[i as int] == challenge_id@);
                        true
                    },
                    None => false,
                }
            },
            None => false,
        }
    }

    /// Whether any game among `ids` is decided `True`, and whether any is `Undecided`.
    fn scan_children(&self, ids: &Vec<H256>) -> (r: (bool, bool))
        requires
            self.wf(),
            forall|i: int| 0 <= i < ids.len() ==> self@.contains_key(#[trigger] ids@[i]@),
        ensures
            r.0 == some_child_is(self@, hash_views(ids@), Decision::True),
            r.1 == some_child_is(self@, hash_views(ids@), Decision::Undecided),
    {
        let ghost hs = hash_views(ids@);
        let mut has_true = false;
        let mut has_undecided = false;
        let mut i: usize = 0;
        while i < ids.len()
            invariant
                self.wf(),
                0 <= i <= ids.len(),
                hs == hash_views(ids@),
                forall|j: int| 0 <= j < ids.len() ==> self@.contains_key(#[trigger] ids@[j]@),
                has_true == exists|j: int| 0 <= j < i && #[trigger] self@[hs[j]].decision == Decision::True,
                has_undecided == exists|j: int| 0 <= j < i && #[trigger] self@[hs[j]].decision == Decision::Undecided,
            decreases ids.len() - i,
        {
            let d = self.is_decided_by_id(&ids[i]);
            assert(hs[i as int] == ids@[i as int]@);
            if d == Decision::True {
                has_true = true;
            }
            if d == Decision::Undecided {
                has_undecided = true;
            }
            i = i + 1;
        }
        (has_true, has_undecided)
    }

    /// Whether the game `property_id` would settle to `True` at block `now`.
    pub fn is_decidable(&self, property_id: &H256, now: BlockNumber) -> (r: bool)
        requires
            self.wf(),
        ensures
            r == decidable(self@, property_id@, self.period(), now),
    {
        match self.games.get(property_id) {
            Some(g) => {
                if now < g.created_block || now - g.created_block < self.dispute_period {
                    return false;
                }
                assert forall|i: int| 0 <= i < g.challenges.len() implies self@.contains_key(#[trigger] g.challenges@[i]@) by {
                    assert(self.games@.contains_key(property_id@));
                }
                let (has_true, has_undecided) = self.scan_children(&g.challenges);
                let ghost hs = hash_views(g.challenges@);
                proof {
                    if !has_true && !has_undecided {
                        assert forall|i: int| 0 <= i < hs.len() implies #[trigger] self@[hs[i]].decision == Decision::False by {
                            if self@[hs[i]].decision == Decision::True {
                                assert(some_child_is(self@, hs, Decision::True));
                            }
                            if self@[hs[i]].decision == Decision::Undecided {
                                assert(some_child_is(self@, hs, Decision::Undecided));
                            }
                        }
                    }
                    if has_true {
                        let j = choose|j: int| 0 <= j < hs.len() && #[trigger] self@[hs[j]].decision == Decision::True;
                        assert(self@[hs[j]].decision != Decision::False);
                    }
                    if has_undecided {
                        let j = choose|j: int| 0 <= j < hs.len() && #[trigger] self@[hs[j]].decision == Decision::Undecided;
                        assert(self@[hs[j]].decision != Decision::False);
                    }
                }
                !has_true && !has_undecided
            },
            None => false,
        }
    }

    /// Stores `g` under its own id.
    fn put_game(&mut self, g: ChallengeGame)
        requires
            old(self).wf(),
            hash_views(g.challenges@).no_duplicates(),
            forall|i: int| 0 <= i < g.challenges.len() ==> old(self)@.contains_key(#[trigger] g.challenges@[i]@),
        ensures
            final(self).wf(),
            final(self)@ == old(self)@.insert(g.property_hash@, game_state(g)),
            final(self).period() == old(self).period(),
    {
        let ghost k = g.property_hash@;
        let ghost gs = game_state(g);
        self.games.insert(g.property_hash, g);
        assert(self@ =~= old(self)@.insert(k, gs));
        assert forall|k2: Seq<u8>, i: int|
            #[trigger] self.games@.contains_key(k2) && 0 <= i < self.games@[k2].challenges@.len()
                implies self.games@.contains_key(#[trigger] self.games@[k2].challenges@[i]@) by {
            if k2 != k {
                assert(old(self).games@.contains_key(k2));
                assert(old(self).games@.contains_key(old(self).games@[k2].challenges@[i]@));
            } else {
                assert(old(self)@.contains_key(g.challenges@[i]@));
            }
        }
    }

    /// Claims `property`: starts its game at block `now`.
    pub fn claim(&mut self, caller: &AccountId, property: &Property, now: BlockNumber) -> (r: Result<H256, Error>)
        requires
            old(self).wf(),
        ensures
            final(self).wf(),
            final(self).period() == old(self).period(),
            decisions_kept(old(self)@, final(self)@),
            match claim_rejection(old(self)@, *caller, *property) {
                Some(e) => r == Err::<H256, Error>(e) && final(self)@ == old(self)@,
                None => r is Ok && r->Ok_0@ == property_id(*property)
                    && final(self)@ == old(self)@.insert(property_id(*property), fresh_game(now)),
            },
    {
        if !Self::only_from_dispute_contract(caller, property) {
            return Err(Error::AuthorizationError);
        }
        if !Self::fits(property) {
            return Err(Error::Overflow);
        }
        let id = Self::get_property_id(property);
        if self.games.contains(&id) {
            return Err(Error::DuplicateEntry);
        }
        let game = Self::create_game(id, now);
        self.put_game(game);
        Ok(id)
    }

    /// Challenges `property`'s game with a new game for `challenge_property`,
    /// started at block `now`.
    pub fn challenge(
        &mut self,
        caller: &AccountId,
        property: &Property,
        challenge_property: &Property,
        now: BlockNumber,
    ) -> (r: Result<H256, Error>)
        requires
            old(self).wf(),
        ensures
            final(self).wf(),
            final(self).period() == old(self).period(),
            decisions_kept(old(self)@, final(self)@),
            match challenge_rejection(old(self)@, *caller, *property, *challenge_property) {
                Some(e) => r == Err::<H256, Error>(e) && final(self)@ == old(self)@,
                None => {
                    let id = property_id(*property);
                    let cid = property_id(*challenge_property);
                    &&& r is Ok
                    &&& r->Ok_0@ == cid
                    &&& final(self)@[id].challenges.no_duplicates()
                    &&& final(self)@ == old(self)@.insert(cid, fresh_game(now)).insert(
                        id,
                        with_challenges(old(self)@[id], old(self)@[id].challenges.push(cid)),
                    )
                },
            },
    {
        if !Self::only_from_dispute_contract(caller, property) {
            return Err(Error::AuthorizationError);
        }
        if !Self::fits(property) || !Self::fits(challenge_property) {
            return Err(Error::Overflow);
        }
        let id = Self::get_property_id(property);
        if !self.games.contains(&id) {
            return Err(Error::NotFound);
        }
        let challenge_id = Self::get_property_id(challenge_property);
        if self.games.contains(&challenge_id) {
            return Err(Error::DuplicateEntry);
        }
        let parent = match self.games.get(&id) {
            Some(g) => ChallengeGame {
                property_hash: g.property_hash,
                challenges: copy_ids(&g.challenges),
                decision: g.decision,
                created_block: g.created_block,
            },
            None => {
                return Err(Error::NotFound);
            },
        };
        let ghost before = self@;
        let child = Self::create_game(challenge_id, now);
        self.put_game(child);
        let mut parent = parent;
        let ghost pc = parent.challenges@;
        parent.challenges.push(challenge_id);
        proof {
            assert(hash_views(parent.challenges@) =~= hash_views(pc).push(challenge_id@));
            assert(!hash_views(pc).contains(challenge_id@)) by {
                if hash_views(pc).contains(challenge_id@) {
                    let j = choose|j: int| 0 <= j < hash_views(pc).len() && hash_views(pc)[j] == challenge_id@;
                    assert(old(self).games@.contains_key(id@));
                    assert(old(self).games@.contains_key(pc[j]@));
                }
            }
            assert forall|i: int| 0 <= i < parent.challenges.len() implies self@.contains_key(#[trigger] parent.challenges@[i]@) by {
                if i < pc.len() {
                    assert(old(self).games@.contains_key(id@));
                    assert(old(self).games@.contains_key(pc[i]@));
                }
            }
        }
        self.put_game(parent);
        Ok(challenge_id)
    }

    /// Removes `challenge_property`'s game, decided `False`, from the
    /// challenges of `property`'s game.
    pub fn remove_challenge(&mut self, caller: &AccountId, property: &Property, challenge_property: &Property) -> (r: Result<(), Error>)
        requires
            old(self).wf(),
        ensures
            final(self).wf(),
            final(self).period() == old(self).period(),
            decisions_kept(old(self)@, final(self)@),
            match remove_challenge_rejection(old(self)@, *caller, *property, *challenge_property) {
                Some(e) => r == Err::<(), Error>(e) && final(self)@ == old(self)@,
                None => {
                    let id = property_id(*property);
                    let cid = property_id(*challenge_property);
                    let cs = old(self)@[id].challenges;
                    &&& r is Ok
                    &&& !final(self)@[id].challenges.contains(cid)
                    &&& exists|i: int|
                        0 <= i < cs.len() && cs[i] == cid && final(self)@ == old(self)@.insert(
                            id,
                            with_challenges(old(self)@[id], #[trigger] cs.remove(i)),
                        )
                },
            },
    {
        if !Self::only_from_dispute_contract(caller, property) {
            return Err(Error::AuthorizationError);
        }
        if !Self::fits(property) || !Self::fits(challenge_property) {
            return Err(Error::Overflow);
        }
        let id = Self::get_property_id(property);
        let challenge_id = Self::get_property_id(challenge_property);
        if !self.games.contains(&id) || !self.games.contains(&challenge_id) {
            return Err(Error::NotFound);
        }
        let mut parent = match self.games.get(&id) {
            Some(g) => ChallengeGame {
                property_hash: g.property_hash,
                challenges: copy_ids(&g.challenges),
                decision: g.decision,
                created_block: g.created_block,
            },
            None => {
                return Err(Error::NotFound);
            },
        };
        let index = match Self::find_index(&parent.challenges, &challenge_id) {
            Some(i) => i,
            None => {
                return Err(Error::NotFound);
            },
        };
        assert(hash_views(parent.challenges@)[index as int] == challenge_id@);
        assert(old(self)@[id@].challenges.contains(challenge_id@));
        if self.is_decided_by_id(&challenge_id) != Decision::False {
            return Err(Error::StateMismatch);
        }
        let ghost pc = parent.challenges@;
        parent.challenges.remove(index);
        proof {
            assert(hash_views(pc)[index as int] == challenge_id@);
            assert(hash_views(pc).contains(challenge_id@));
            assert(hash_views(parent.challenges@) =~= hash_views(pc).remove(index as int));
            assert(old(self).games@.contains_key(id@));
            let hv = hash_views(pc);
            assert(hv.no_duplicates());
            assert forall|a: int, b: int| 0 <= a < hv.remove(index as int).len() && 0 <= b < hv.remove(index as int).len() && a != b implies hv.remove(index as int)[a] != hv.remove(index as int)[b] by {
                let a2 = if a < index { a } else { a + 1 };
                let b2 = if b < index { b } else { b + 1 };
                assert(hv.remove(index as int)[a] == hv[a2]);
                assert(hv.remove(index as int)[b] == hv[b2]);
            }
            assert forall|i: int| 0 <= i < parent.challenges.len() implies self@.contains_key(#[trigger] parent.challenges@[i]@) by {
                let i2 = if i < index { i } else { i + 1 };
                assert(parent.challenges@[i] == pc[i2]);
                assert(old(self).games@.contains_key(pc[i2]@));
            }
        }
        self.put_game(parent);
        assert(self@ == old(self)@.insert(id@, with_challenges(old(self)@[id@], hash_views(pc).remove(index as int))));
        Ok(())
    }

    /// Records `result` as the decision of `property`'s game, which has no challenges.
    pub fn set_game_result(&mut self, caller: &AccountId, property: &Property, result: bool) -> (r: Result<(), Error>)
        requires
            old(self).wf(),
        ensures
            final(self).wf(),
            final(self).period() == old(self).period(),
            decisions_kept(old(self)@, final(self)@),
            match set_game_result_rejection(old(self)@, *caller, *property) {
                Some(e) => r == Err::<(), Error>(e) && final(self)@ == old(self)@,
                None => r is Ok && final(self)@ == old(self)@.insert(
                    property_id(*property),
                    with_decision(old(self)@[property_id(*property)], decision_of(result)),
                ),
            },
    {
        if !Self::only_from_dispute_contract(caller, property) {
            return Err(Error::AuthorizationError);
        }
        if !Self::fits(property) {
            return Err(Error::Overflow);
        }
        let id = Self::get_property_id(property);
        let game = match self.games.get(&id) {
            Some(g) => {
                if g.challenges.len() != 0 || g.decision != Decision::Undecided {
                    return Err(Error::StateMismatch);
                }
                ChallengeGame {
                    property_hash: g.property_hash,
                    challenges: Vec::new(),
                    decision: Self::get_decision(result),
                    created_block: g.created_block,
                }
            },
            None => {
                return Err(Error::NotFound);
            },
        };
        assert(hash_views(game.challenges@) =~= Seq::<Seq<u8>>::empty());
        assert(old(self).games@.contains_key(id@));
        assert(hash_views(old(self).games@[id@].challenges@) =~= Seq::<Seq<u8>>::empty());
        self.put_game(game);
        Ok(())
    }

    /// Settles `property`'s game once its dispute period has passed: `False`
    /// if one of its challenges was decided `True`, `True` if all were
    /// decided `False`; rejected while a challenge is undecided.
    pub fn settle_game(&mut self, caller: &AccountId, property: &Property, now: BlockNumber) -> (r: Result<bool, Error>)
        requires
            old(self).wf(),
        ensures
            final(self).wf(),
            final(self).period() == old(self).period(),
            decisions_kept(old(self)@, final(self)@),
            r == Ok::<bool, Error>(true) ==> all_children_false(old(self)@, old(self)@[property_id(*property)].challenges),
            r == Ok::<bool, Error>(false) ==> some_child_is(old(self)@, old(self)@[property_id(*property)].challenges, Decision::True),
            match settle_rejection(old(self)@, old(self).period(), *caller, *property, now) {
                Some(e) => r == Err::<bool, Error>(e) && final(self)@ == old(self)@,
                None => {
                    let id = property_id(*property);
                    let defeated = some_child_is(old(self)@, old(self)@[id].challenges, Decision::True);
                    &&& r == Ok::<bool, Error>(!defeated)
                    &&& final(self)@ == old(self)@.insert(id, with_decision(old(self)@[id], decision_of(!defeated)))
                },
            },
    {
        if !Self::only_from_dispute_contract(caller, property) {
            return Err(Error::AuthorizationError);
        }
        if !Self::fits(property) {
            return Err(Error::Overflow);
        }
        let id = Self::get_property_id(property);
        let mut game = match self.games.get(&id) {
            Some(g) => ChallengeGame {
                property_hash: g.property_hash,
                challenges: copy_ids(&g.challenges),
                decision: g.decision,
                created_block: g.created_block,
            },
            None => {
                return Err(Error::NotFound);
            },
        };
        if game.decision != Decision::Undecided {
            return Err(Error::StateMismatch);
        }
        if now < game.created_block || now - game.created_block < self.dispute_period {
            return Err(Error::TimingViolation);
        }
        assert(old(self).games@.contains_key(id@));
        assert forall|i: int| 0 <= i < game.challenges.len() implies self@.contains_key(#[trigger] game.challenges@[i]@) by {
            assert(old(self).games@.contains_key(old(self).games@[id@].challenges@[i]@));
        }
        let (has_true, has_undecided) = self.scan_children(&game.challenges);
        if !has_true && has_undecided {
            return Err(Error::StateMismatch);
        }
        game.decision = if has_true { Decision::False } else { Decision::True };
        self.put_game(game);
        Ok(!has_true)
    }
}

/// A copy of a list of ids.
fn copy_ids(v: &Vec<H256>) -> (r: Vec<H256>)
    ensures
        r@ == v@,
{
    let mut out: Vec<H256> = Vec::new();
    let mut i: usize = 0;
    while i < v.len()
        invariant
            0 <= i <= v.len(),
            out@ == v@.subrange(0, i as int),
        decreases v.len() - i,
    {
        out.push(v[i]);
        i = i + 1;
        assert(out@ =~= v@.subrange(0, i as int));
    }
    assert(v@.subrange(0, v.len() as int) =~= v@);
    out
}

} // verus!
