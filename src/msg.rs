use vstd::prelude::*;

verus! {

/// What a registry is set up with.
#[derive(Debug, Clone, PartialEq, Eq)]
pub struct InstantiateMsg {
    /// The owner can change the owner and assigner address.
    pub owner: Option<String>,
    /// The assigner can assign checkmarks.
    pub assigner: String,
}

/// The operations that change the registry. Ownership transfer is handled
/// by the ownership authority and is not among them.
#[derive(Debug, Clone, PartialEq, Eq)]
pub enum ExecuteMsg {
    /// Assign a checkmark; only the owner or the assigner may.
    Assign { checkmark_id: String, address: String },
    /// Delete the checkmark assigned to the sender; fails if it has none.
    Delete {},
    /// Delete the assignment of the checkmark; only the owner may.
    RevokeCheckmark { checkmark_id: String },
    /// Delete the checkmark assigned to the address; only the owner may.
    RevokeAddress { address: String },
    /// Ban and then unban checkmark identifiers; only the owner may.
    UpdateCheckmarkBan { ban_ids: Option<Vec<String>>, unban_ids: Option<Vec<String>> },
    /// Replace the assigner; only the owner may.
    UpdateAssigner { assigner: String },
}

/// The read-only questions the registry answers. The current owner is
/// answered by the ownership authority and is not among them.
#[derive(Debug, Clone, PartialEq, Eq)]
pub enum QueryMsg {
    /// The checkmark identifier assigned to the address, if any.
    GetCheckmark { address: String },
    /// The address the checkmark identifier is assigned to, if any.
    GetAddress { checkmark_id: String },
    /// How many checkmarks are assigned.
    Count {},
    /// Whether the checkmark identifier is banned.
    CheckmarkBanned { checkmark_id: String },
    /// Who can assign checkmarks.
    Assigner {},
}

/// Shows the checkmark ID assigned to the address, if any.
#[derive(Debug, Clone, PartialEq, Eq)]
pub struct GetCheckmarkResponse {
    pub checkmark_id: Option<String>,
}

/// Shows the address the checkmark ID is assigned to, if any.
#[derive(Debug, Clone, PartialEq, Eq)]
pub struct GetAddressResponse {
    pub address: Option<String>,
}

/// Shows count of checkmarks assigned.
#[derive(Debug, Clone, PartialEq, Eq)]
pub struct CountResponse {
    pub count: u64,
}

/// Shows whether the checkmark ID is banned.
#[derive(Debug, Clone, PartialEq, Eq)]
pub struct CheckmarkBannedResponse {
    pub banned: bool,
}

/// Shows who can assign checkmarks.
#[derive(Debug, Clone, PartialEq, Eq)]
pub struct AssignerResponse {
    pub assigner: String,
}

/// The answer to a query, one variant per question.
#[derive(Debug, Clone, PartialEq, Eq)]
pub enum QueryResponse {
    GetCheckmark(GetCheckmarkResponse),
    GetAddress(GetAddressResponse),
    Count(CountResponse),
    CheckmarkBanned(CheckmarkBannedResponse),
    Assigner(AssignerResponse),
}

/// What a successful operation did, with the values it reports.
#[derive(Debug, Clone, PartialEq, Eq)]
pub enum Event {
    /// The identifier was assigned to the address.
    Assigned { checkmark_id: String, address: String },
    /// The caller gave up the identifier it held.
    Deleted { checkmark_id: String, address: String },
    /// The owner took the identifier away from the address that held it.
    CheckmarkRevoked { checkmark_id: String, address: String },
    /// The owner took the identifier away from the given address.
    AddressRevoked { checkmark_id: String, address: String },
    /// The ban list was updated.
    BansUpdated,
    /// The assigner was replaced.
    AssignerUpdated { assigner: String },
}

} // verus!
