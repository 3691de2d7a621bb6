//! Typed identifiers: `u32` newtypes. Tables keyed by them iterate in id order.
use vstd::prelude::*;

verus! {

/// A citizen (human or householder) within one society.
#[derive(Clone, Copy, Debug, PartialEq, Eq, Structural)]
pub struct CitizenId(pub u32);

impl CitizenId {
    /// The next id in sequence.
    pub fn next(self) -> (n: Self)
        requires
            self.0 < u32::MAX,
        ensures
            n.0 == self.0 + 1,
    {
        CitizenId(self.0 + 1)
    }
}

/// An organization: firm, cooperative, collective, state enterprise, union, association.
#[derive(Clone, Copy, Debug, PartialEq, Eq, Structural)]
pub struct OrgId(pub u32);

impl OrgId {
    /// The next id in sequence.
    pub fn next(self) -> (n: Self)
        requires
            self.0 < u32::MAX,
        ensures
            n.0 == self.0 + 1,
    {
        OrgId(self.0 + 1)
    }
}

/// A production unit owned by an org.
#[derive(Clone, Copy, Debug, PartialEq, Eq, Structural)]
pub struct WorkplaceId(pub u32);

impl WorkplaceId {
    /// The next id in sequence.
    pub fn next(self) -> (n: Self)
        requires
            self.0 < u32::MAX,
        ensures
            n.0 == self.0 + 1,
    {
        WorkplaceId(self.0 + 1)
    }
}

/// A dwelling asset with identity (not a fungible good).
#[derive(Clone, Copy, Debug, PartialEq, Eq, Structural)]
pub struct DwellingId(pub u32);

impl DwellingId {
    /// The next id in sequence.
    pub fn next(self) -> (n: Self)
        requires
            self.0 < u32::MAX,
        ensures
            n.0 == self.0 + 1,
    {
        DwellingId(self.0 + 1)
    }
}

/// A land slot for a slot-limited workplace kind.
#[derive(Clone, Copy, Debug, PartialEq, Eq, Structural)]
pub struct SlotId(pub u32);

impl SlotId {
    /// The next id in sequence.
    pub fn next(self) -> (n: Self)
        requires
            self.0 < u32::MAX,
        ensures
            n.0 == self.0 + 1,
    {
        SlotId(self.0 + 1)
    }
}

/// A contract of any kind.
#[derive(Clone, Copy, Debug, PartialEq, Eq, Structural)]
pub struct ContractId(pub u32);

impl ContractId {
    /// The next id in sequence.
    pub fn next(self) -> (n: Self)
        requires
            self.0 < u32::MAX,
        ensures
            n.0 == self.0 + 1,
    {
        ContractId(self.0 + 1)
    }
}

/// A notice-board offer that becomes a contract on acceptance.
#[derive(Clone, Copy, Debug, PartialEq, Eq, Structural)]
pub struct OfferId(pub u32);

impl OfferId {
    /// The next id in sequence.
    pub fn next(self) -> (n: Self)
        requires
            self.0 < u32::MAX,
        ensures
            n.0 == self.0 + 1,
    {
        OfferId(self.0 + 1)
    }
}

/// An order resting on an order book.
#[derive(Clone, Copy, Debug, PartialEq, Eq, Structural)]
pub struct OrderId(pub u32);

impl OrderId {
    /// The next id in sequence.
    pub fn next(self) -> (n: Self)
        requires
            self.0 < u32::MAX,
        ensures
            n.0 == self.0 + 1,
    {
        OrderId(self.0 + 1)
    }
}

/// A governance proposal.
#[derive(Clone, Copy, Debug, PartialEq, Eq, Structural)]
pub struct ProposalId(pub u32);

impl ProposalId {
    /// The next id in sequence.
    pub fn next(self) -> (n: Self)
        requires
            self.0 < u32::MAX,
        ensures
            n.0 == self.0 + 1,
    {
        ProposalId(self.0 + 1)
    }
}

/// Tick counter, 0-based within an epoch. `cycle = tick / ticks_per_cycle`.
pub type Tick = u32;

/// Cycle index, 0-based within an epoch.
pub type Cycle = u32;

/// Epoch index, 0-based within a society.
pub type Epoch = u32;

} // verus!
