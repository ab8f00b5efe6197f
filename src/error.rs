use vstd::prelude::*;

verus! {

/// Why the ownership check turned a caller away.
#[derive(Debug, Clone, Copy, PartialEq, Eq, Structural)]
pub enum OwnershipError {
    /// There is an owner, and the caller is someone else.
    NotOwner,
    /// Ownership was renounced: nobody holds the owner role.
    NoOwner,
}

/// Every way an operation of the registry can be rejected.
#[derive(Debug, Clone, Copy, PartialEq, Eq, Structural)]
pub enum ContractError {
    /// The operation needs the owner, and the caller is not the owner.
    Ownable(OwnershipError),
    /// The caller is neither the owner nor the assigner.
    Unauthorized,
    /// The identifier or address holds no assignment.
    NoCheckmark,
    /// The identifier is on the ban list.
    CheckmarkBanned,
    /// The identifier is already held by an address.
    AlreadyAssigned,
    /// The address already holds an identifier.
    AlreadyHasCheckmark,
    /// The address validator rejected the supplied address.
    InvalidAddress,
}

} // verus!
