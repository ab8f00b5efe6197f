//! A registry that pairs checkmark identifiers with addresses one to one,
//! with an assigner role, an owner role and a ban list.

pub mod contract;
pub mod error;
pub mod msg;
pub mod ownership;
pub mod registry;

pub use contract::{execute, instantiate, query};
pub use error::{ContractError, OwnershipError};
pub use ownership::check_owner;
pub use msg::{
    AssignerResponse, CheckmarkBannedResponse, CountResponse, ExecuteMsg, GetAddressResponse,
    Event, GetCheckmarkResponse, InstantiateMsg, QueryMsg, QueryResponse,
};
pub use registry::{
    lemma_ban_idempotent, lemma_banned_unassigned, lemma_bijection, lemma_count_matches, Registry,
};
