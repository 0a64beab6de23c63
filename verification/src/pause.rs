use vstd::prelude::*;

verus! {

/// The set of paused operations, one bit per operation.
pub struct PauseType(pub u32);

impl PauseType {
    pub const SWAP: u32 = 1;
    pub const DEPOSIT: u32 = 2;
    pub const WITHDRAW: u32 = 4;
    pub const TRANSFER: u32 = 8;
    pub const MINT: u32 = 16;
    pub const BURN: u32 = 32;
    pub const CREATE_PAIR: u32 = 64;
    /// Every operation that the guard knows of.
    pub const ALL: u32 = 127;

    /// Whether any operation of the mask `op` is paused in the bitmask `bits`.
    pub open spec fn paused_in(bits: u32, op: u32) -> bool {
        bits & op != 0
    }

    /// The bitmask after the operations of `op` have been paused or resumed.
    pub open spec fn set_in(bits: u32, op: u32, paused: bool) -> u32 {
        if paused { bits | op } else { bits & !op }
    }

    pub fn new(bits: u32) -> (r: PauseType)
        ensures r.0 == bits,
    {
        PauseType(bits)
    }

    /// Whether any of the operations in the mask `op` is paused.
    pub fn is_paused(&self, op: u32) -> (r: bool)
        ensures r == Self::paused_in(self.0, op),
    {
        self.0 & op != 0
    }

    /// Pauses (or resumes) every operation of the mask `op`; the others keep
    /// their state.
    pub fn set_paused(&mut self, op: u32, paused: bool)
        ensures final(self).0 == Self::set_in(old(self).0, op, paused),
    {
        if paused {
            self.0 = self.0 | op;
        } else {
            self.0 = self.0 & !op;
        }
    }

    /// Pauses every known operation.
    pub fn pause_all(&mut self)
        ensures final(self).0 == old(self).0 | Self::ALL,
    {
        self.0 = self.0 | Self::ALL;
    }

    /// Resumes every operation.
    pub fn unpause_all(&mut self)
        ensures final(self).0 == 0,
    {
        self.0 = 0;
    }
}

/// Once the operations of a non-empty mask are set to `paused`, querying that
/// mask answers `paused`.
pub proof fn lemma_query_after_set(bits: u32, op: u32, paused: bool)
    requires
        op != 0,
    ensures
        PauseType::paused_in(PauseType::set_in(bits, op, paused), op) == paused,
{
    if paused {
        assert((bits | op) & op != 0) by (bit_vector)
            requires op != 0;
    } else {
        assert((bits & !op) & op == 0) by (bit_vector);
    }
}

/// Pausing or resuming the operations of one mask does not change whether an
/// operation outside that mask is paused.
pub proof fn lemma_set_leaves_other_operations(bits: u32, op: u32, other: u32, paused: bool)
    requires
        op & other == 0,
    ensures
        PauseType::paused_in(PauseType::set_in(bits, op, paused), other)
            == PauseType::paused_in(bits, other),
{
    assert((bits | op) & other == bits & other) by (bit_vector)
        requires op & other == 0;
    assert((bits & !op) & other == bits & other) by (bit_vector)
        requires op & other == 0;
}

/// Setting the same mask to the same state twice is the same as setting it once.
pub proof fn lemma_set_idempotent(bits: u32, op: u32, paused: bool)
    ensures
        PauseType::set_in(PauseType::set_in(bits, op, paused), op, paused)
            == PauseType::set_in(bits, op, paused),
{
    assert((bits | op) | op == bits | op) by (bit_vector);
    assert((bits & !op) & !op == bits & !op) by (bit_vector);
}

/// After pausing everything, every operation that the guard knows of is paused.
pub proof fn lemma_all_paused(bits: u32, op: u32)
    requires
        op & PauseType::ALL != 0,
    ensures
        PauseType::paused_in(bits | PauseType::ALL, op),
{
    assert((bits | 127u32) & op != 0) by (bit_vector)
        requires op & 127u32 != 0;
}

/// After resuming everything, no operation is paused.
pub proof fn lemma_none_paused(op: u32)
    ensures
        !PauseType::paused_in(0, op),
{
    assert(0u32 & op == 0) by (bit_vector);
}

} // verus!
