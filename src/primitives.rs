use vstd::prelude::*;

verus! {

/// An account, as its 32-byte public key.
pub type AccountId = [u8; 32];

/// A 32-byte content hash.
pub type H256 = [u8; 32];

/// A block height.
pub type BlockNumber = u64;

/// A half-open interval `[start, end)` of token ordinals.
#[derive(Clone, Copy, Debug)]
pub struct Range {
    pub start: u64,
    pub end: u64,
}

/// The authority over a slice of state (`predicate`) and its payload, the owner.
#[derive(Clone, Copy, Debug)]
pub struct StateObject {
    pub predicate: AccountId,
    pub data: AccountId,
}

/// A claim that `range` was owned by `state_object` as of `plasma_block_number`.
#[derive(Clone, Copy, Debug)]
pub struct StateUpdate {
    pub range: Range,
    pub state_object: StateObject,
    pub plasma_block_number: BlockNumber,
}

/// An assertion that `state_update` is final over `sub_range`.
#[derive(Clone, Copy, Debug)]
pub struct Checkpoint {
    pub state_update: StateUpdate,
    pub sub_range: Range,
}

/// What an ownership transaction asks for: the new state object and the block bounds.
#[derive(Clone, Copy, Debug)]
pub struct TransactionBody {
    pub new_state: StateObject,
    pub origin_block: BlockNumber,
    pub max_block: BlockNumber,
}

/// A transaction over `range` of the deposit contract `deposit_contract`.
#[derive(Clone, Copy, Debug)]
pub struct Transaction {
    pub deposit_contract: AccountId,
    pub range: Range,
    pub body: TransactionBody,
}

/// A challenge of `challenged_checkpoint` by the older exit `challenging_checkpoint`.
#[derive(Clone, Copy, Debug)]
pub struct Challenge {
    pub challenged_checkpoint: Checkpoint,
    pub challenging_checkpoint: Checkpoint,
}

// ---------------------------------------------------------------------------
// Range algebra
// ---------------------------------------------------------------------------

/// `a` and `b` share at least one ordinal.
pub open spec fn intersects(a: Range, b: Range) -> bool {
    let lo = if a.start < b.start { b.start } else { a.start };
    let hi = if a.end < b.end { a.end } else { b.end };
    lo < hi
}

/// `inner` is a well-formed range that lies within `outer`.
pub open spec fn contains(outer: Range, inner: Range) -> bool {
    outer.start <= inner.start && inner.start <= inner.end && inner.end <= outer.end
}

/// Whether two ranges intersect.
pub fn is_intersects(a: &Range, b: &Range) -> (r: bool)
    ensures
        r == intersects(*a, *b),
{
    let lo = if a.start < b.start { b.start } else { a.start };
    let hi = if a.end < b.end { a.end } else { b.end };
    lo < hi
}

/// Whether `inner` is a well-formed sub-range of `outer`.
pub fn is_sub_range(outer: &Range, inner: &Range) -> (r: bool)
    ensures
        r == contains(*outer, *inner),
{
    outer.start <= inner.start && inner.start <= inner.end && inner.end <= outer.end
}

// ---------------------------------------------------------------------------
// Byte comparison
// ---------------------------------------------------------------------------

/// Whether two 32-byte values are equal.
pub fn bytes32_eq(a: &[u8; 32], b: &[u8; 32]) -> (r: bool)
    ensures
        r == (a@ == b@),
        r == (*a == *b),
{
    let mut i: usize = 0;
    while i < 32
        invariant
            0 <= i <= 32,
            forall|j: int| 0 <= j < i ==> a@[j] == b@[j],
        decreases 32 - i,
    {
        if a[i] != b[i] {
            proof {
                assert(a@[i as int] != b@[i as int]);
            }
            return false;
        }
        i = i + 1;
    }
    proof {
        assert(a@ =~= b@);
        broadcast use vstd::array::group_array_axioms;
        assert(*a =~= *b);
    }
    true
}

/// Spec-level equality of state objects, field by field.
pub open spec fn same_state_object(a: StateObject, b: StateObject) -> bool {
    a.predicate@ == b.predicate@ && a.data@ == b.data@
}

/// Whether two state objects name the same predicate and the same payload.
pub fn state_object_eq(a: &StateObject, b: &StateObject) -> (r: bool)
    ensures
        r == same_state_object(*a, *b),
{
    bytes32_eq(&a.predicate, &b.predicate) && bytes32_eq(&a.data, &b.data)
}

// ---------------------------------------------------------------------------
// Canonical encodings
// ---------------------------------------------------------------------------

/// The eight little-endian bytes of `x`.
pub open spec fn u64_le(x: u64) -> Seq<u8> {
    seq![
        x as u8,
        (x >> 8u64) as u8,
        (x >> 16u64) as u8,
        (x >> 24u64) as u8,
        (x >> 32u64) as u8,
        (x >> 40u64) as u8,
        (x >> 48u64) as u8,
        (x >> 56u64) as u8,
    ]
}

/// A range as its start and end, eight little-endian bytes each.
pub open spec fn range_bytes(r: Range) -> Seq<u8> {
    u64_le(r.start) + u64_le(r.end)
}

/// A state object as its predicate's and its owner's 32 bytes.
pub open spec fn state_object_bytes(o: StateObject) -> Seq<u8> {
    o.predicate@ + o.data@
}

/// A state update as its range, its state object and its block.
pub open spec fn state_update_bytes(u: StateUpdate) -> Seq<u8> {
    range_bytes(u.range) + state_object_bytes(u.state_object) + u64_le(u.plasma_block_number)
}

/// The bytes that a checkpoint's content hash is taken over.
pub open spec fn checkpoint_bytes(c: Checkpoint) -> Seq<u8> {
    state_update_bytes(c.state_update) + range_bytes(c.sub_range)
}

/// The bytes that a challenge's content hash is taken over.
pub open spec fn challenge_bytes(c: Challenge) -> Seq<u8> {
    checkpoint_bytes(c.challenged_checkpoint) + checkpoint_bytes(c.challenging_checkpoint)
}

/// The bytes that an owner signs to authorise a transaction.
pub open spec fn transaction_bytes(t: Transaction) -> Seq<u8> {
    t.deposit_contract@ + range_bytes(t.range) + state_object_bytes(t.body.new_state) + u64_le(
        t.body.origin_block,
    ) + u64_le(t.body.max_block)
}

fn put_u64(out: &mut Vec<u8>, x: u64)
    ensures
        final(out)@ == old(out)@ + u64_le(x),
{
    out.push(x as u8);
    out.push((x >> 8u64) as u8);
    out.push((x >> 16u64) as u8);
    out.push((x >> 24u64) as u8);
    out.push((x >> 32u64) as u8);
    out.push((x >> 40u64) as u8);
    out.push((x >> 48u64) as u8);
    out.push((x >> 56u64) as u8);
    assert(final(out)@ =~= old(out)@ + u64_le(x));
}

fn put_bytes32(out: &mut Vec<u8>, b: &[u8; 32])
    ensures
        final(out)@ == old(out)@ + b@,
{
    let ghost start = out@;
    let mut i: usize = 0;
    while i < 32
        invariant
            0 <= i <= 32,
            out@ == start + b@.subrange(0, i as int),
        decreases 32 - i,
    {
        out.push(b[i]);
        i = i + 1;
        assert(out@ =~= start + b@.subrange(0, i as int));
    }
    assert(b@.subrange(0, 32) =~= b@);
}

fn put_range(out: &mut Vec<u8>, r: &Range)
    ensures
        final(out)@ == old(out)@ + range_bytes(*r),
{
    put_u64(out, r.start);
    put_u64(out, r.end);
    assert(out@ =~= old(out)@ + range_bytes(*r));
}

fn put_state_object(out: &mut Vec<u8>, o: &StateObject)
    ensures
        final(out)@ == old(out)@ + state_object_bytes(*o),
{
    put_bytes32(out, &o.predicate);
    put_bytes32(out, &o.data);
    assert(out@ =~= old(out)@ + state_object_bytes(*o));
}

fn put_checkpoint(out: &mut Vec<u8>, c: &Checkpoint)
    ensures
        final(out)@ == old(out)@ + checkpoint_bytes(*c),
{
    put_range(out, &c.state_update.range);
    put_state_object(out, &c.state_update.state_object);
    put_u64(out, c.state_update.plasma_block_number);
    put_range(out, &c.sub_range);
    assert(out@ =~= old(out)@ + checkpoint_bytes(*c));
}

/// The canonical encoding of a checkpoint.
pub fn encode_checkpoint(c: &Checkpoint) -> (r: Vec<u8>)
    ensures
        r@ == checkpoint_bytes(*c),
{
    let mut out: Vec<u8> = Vec::new();
    put_checkpoint(&mut out, c);
    assert(out@ =~= checkpoint_bytes(*c));
    out
}

/// The canonical encoding of a challenge.
pub fn encode_challenge(c: &Challenge) -> (r: Vec<u8>)
    ensures
        r@ == challenge_bytes(*c),
{
    let mut out: Vec<u8> = Vec::new();
    put_checkpoint(&mut out, &c.challenged_checkpoint);
    put_checkpoint(&mut out, &c.challenging_checkpoint);
    assert(out@ =~= challenge_bytes(*c));
    out
}

/// The canonical encoding of a transaction, which its owner signs.
pub fn encode_transaction(t: &Transaction) -> (r: Vec<u8>)
    ensures
        r@ == transaction_bytes(*t),
{
    let mut out: Vec<u8> = Vec::new();
    put_bytes32(&mut out, &t.deposit_contract);
    put_range(&mut out, &t.range);
    put_state_object(&mut out, &t.body.new_state);
    put_u64(&mut out, t.body.origin_block);
    put_u64(&mut out, t.body.max_block);
    assert(out@ =~= transaction_bytes(*t));
    out
}

} // verus!
