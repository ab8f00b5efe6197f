use crate::error::ContractError;
use crate::msg::{
    AssignerResponse, CheckmarkBannedResponse, CountResponse, Event, ExecuteMsg,
    GetAddressResponse, GetCheckmarkResponse, QueryMsg, QueryResponse,
};
use crate::ownership::{owner_check, view_opt};
use crate::registry::{banned_after, opt_ids, same_outcome, update_assigner_outcome, Registry};
use vstd::prelude::*;

verus! {

/// Sets up a registry with no assignments and no bans. `assigner` is what
/// the address validator made of the assigner address given (`None` if it
/// was rejected); the registry is refused exactly then.
pub fn instantiate(assigner: Option<String>) -> (r: Result<Registry, ContractError>)
    ensures
        match r {
            Ok(reg) => {
                &&& assigner is Some
                &&& reg.wf()
                &&& reg.forward() == Map::<Seq<char>, Seq<char>>::empty()
                &&& reg.reverse() == Map::<Seq<char>, Seq<char>>::empty()
                &&& reg.banned_ids() == Set::<Seq<char>>::empty()
                &&& reg.assigner_id() == assigner->0@
                &&& reg.count_spec() == 0
            },
            Err(e) => assigner is None && e == ContractError::InvalidAddress,
        },
{
    match assigner {
        None => Err(ContractError::InvalidAddress),
        Some(a) => Ok(Registry::new(a)),
    }
}

/// Runs one operation on behalf of `caller` and reports what it did.
///
/// `owner` is the current owner (`None` once renounced). `validated` is
/// what the address validator made of the address that the message carries
/// (`Assign`, `RevokeAddress`, `UpdateAssigner`), `None` if it was
/// rejected; the other messages carry no address and ignore it. A failed
/// operation changes nothing.
pub fn execute(
    registry: &mut Registry,
    owner: &Option<String>,
    caller: &String,
    msg: ExecuteMsg,
    validated: Option<String>,
) -> (r: Result<Event, ContractError>)
    requires
        old(registry).wf(),
    ensures
        final(registry).wf(),
        r is Err ==> *final(registry) == *old(registry),
        match msg {
            ExecuteMsg::Assign { checkmark_id, address } => {
                &&& same_outcome(
                    r,
                    old(registry).assign_outcome(
                        view_opt(*owner),
                        caller@,
                        checkmark_id@,
                        view_opt(validated),
                    ),
                )
                &&& r is Ok ==> final(registry).assigned(
                    old(registry),
                    checkmark_id@,
                    validated->0@,
                )
                &&& r is Ok ==> r->Ok_0 == (Event::Assigned { checkmark_id, address })
            },
            ExecuteMsg::Delete {  } => {
                &&& same_outcome(r, old(registry).delete_outcome(caller@))
                &&& r is Ok ==> (r->Ok_0 matches Event::Deleted { checkmark_id: id, address: a }
                    && a == *caller && final(registry).unassigned(old(registry), id@, caller@))
            },
            ExecuteMsg::RevokeCheckmark { checkmark_id } => {
                &&& same_outcome(
                    r,
                    old(registry).revoke_checkmark_outcome(
                        view_opt(*owner),
                        caller@,
                        checkmark_id@,
                    ),
                )
                &&& r is Ok ==> (r->Ok_0 matches Event::CheckmarkRevoked {
                    checkmark_id: id,
                    address: a,
                } && id == checkmark_id && final(registry).unassigned(
                    old(registry),
                    checkmark_id@,
                    a@,
                ))
            },
            ExecuteMsg::RevokeAddress { address } => {
                &&& same_outcome(
                    r,
                    old(registry).revoke_address_outcome(
                        view_opt(*owner),
                        caller@,
                        view_opt(validated),
                    ),
                )
                &&& r is Ok ==> (r->Ok_0 matches Event::AddressRevoked {
                    checkmark_id: id,
                    address: a,
                } && a == validated->0 && final(registry).unassigned(old(registry), id@, a@))
            },
            ExecuteMsg::UpdateCheckmarkBan { ban_ids, unban_ids } => {
                &&& same_outcome(r, owner_check(view_opt(*owner), caller@))
                &&& r is Ok ==> {
                    &&& r->Ok_0 == Event::BansUpdated
                    &&& final(registry).forward() == old(registry).forward().remove_keys(
                        opt_ids(ban_ids),
                    )
                    &&& final(registry).banned_ids() == banned_after(
                        old(registry).banned_ids(),
                        opt_ids(ban_ids),
                        opt_ids(unban_ids),
                    )
                    &&& final(registry).assigner_id() == old(registry).assigner_id()
                }
            },
            ExecuteMsg::UpdateAssigner { assigner } => {
                &&& same_outcome(
                    r,
                    update_assigner_outcome(view_opt(*owner), caller@, view_opt(validated)),
                )
                &&& r is Ok ==> {
                    &&& r->Ok_0 == (Event::AssignerUpdated { assigner: validated->0 })
                    &&& final(registry).assigner_id() == validated->0@
                    &&& final(registry).forward() == old(registry).forward()
                    &&& final(registry).reverse() == old(registry).reverse()
                    &&& final(registry).banned_ids() == old(registry).banned_ids()
                }
            },
        },
{
    match msg {
        ExecuteMsg::Assign { checkmark_id, address } => {
            let id = checkmark_id.clone();
            match registry.assign(owner, caller, checkmark_id, validated) {
                Ok(()) => Ok(Event::Assigned { checkmark_id: id, address }),
                Err(e) => Err(e),
            }
        },
        ExecuteMsg::Delete {  } => match registry.delete(caller) {
            Ok(id) => Ok(Event::Deleted { checkmark_id: id, address: caller.clone() }),
            Err(e) => Err(e),
        },
        ExecuteMsg::RevokeCheckmark { checkmark_id } => {
            match registry.revoke_checkmark(owner, caller, &checkmark_id) {
                Ok(a) => Ok(Event::CheckmarkRevoked { checkmark_id, address: a }),
                Err(e) => Err(e),
            }
        },
        ExecuteMsg::RevokeAddress { address: _ } => {
            let canonical = match &validated {
                Some(a) => Some(a.clone()),
                None => None,
            };
            match registry.revoke_address(owner, caller, canonical) {
                Ok(id) => Ok(Event::AddressRevoked { checkmark_id: id, address: validated.unwrap() }),
                Err(e) => Err(e),
            }
        },
        ExecuteMsg::UpdateCheckmarkBan { ban_ids, unban_ids } => {
            match registry.update_checkmark_ban(owner, caller, ban_ids, unban_ids) {
                Ok(()) => Ok(Event::BansUpdated),
                Err(e) => Err(e),
            }
        },
        ExecuteMsg::UpdateAssigner { assigner: _ } => {
            let canonical = match &validated {
                Some(a) => Some(a.clone()),
                None => None,
            };
            match registry.update_assigner(owner, caller, canonical) {
                Ok(()) => Ok(Event::AssignerUpdated { assigner: validated.unwrap() }),
                Err(e) => Err(e),
            }
        },
    }
}

/// Answers one question about the registry; absence is an answer, not an
/// error. `validated` is what the address validator made of the address
/// that `GetCheckmark` carries (`None` if it was rejected, which is the one
/// way a query fails); the other questions ignore it.
pub fn query(registry: &Registry, msg: &QueryMsg, validated: Option<String>) -> (r: Result<
    QueryResponse,
    ContractError,
>)
    requires
        registry.wf(),
    ensures
        match *msg {
            QueryMsg::GetCheckmark { address: _ } => match validated {
                None => r == Err::<QueryResponse, ContractError>(ContractError::InvalidAddress),
                Some(a) => r matches Ok(QueryResponse::GetCheckmark(resp)) && view_opt(
                    resp.checkmark_id,
                ) == (if registry.reverse().contains_key(a@) {
                    Some(registry.reverse()[a@])
                } else {
                    None
                }),
            },
            QueryMsg::GetAddress { checkmark_id } => r matches Ok(QueryResponse::GetAddress(resp))
                && view_opt(resp.address) == (if registry.forward().contains_key(checkmark_id@) {
                Some(registry.forward()[checkmark_id@])
            } else {
                None
            }),
            QueryMsg::Count {  } => r matches Ok(QueryResponse::Count(resp)) && resp.count
                == registry.count_spec(),
            QueryMsg::CheckmarkBanned { checkmark_id } => r matches Ok(
                QueryResponse::CheckmarkBanned(resp),
            ) && resp.banned == registry.banned_ids().contains(checkmark_id@),
            QueryMsg::Assigner {  } => r matches Ok(QueryResponse::Assigner(resp))
                && resp.assigner@ == registry.assigner_id(),
        },
{
    match msg {
        QueryMsg::GetCheckmark { address: _ } => match validated {
            None => Err(ContractError::InvalidAddress),
            Some(a) => Ok(
                QueryResponse::GetCheckmark(
                    GetCheckmarkResponse { checkmark_id: registry.get_checkmark(&a) },
                ),
            ),
        },
        QueryMsg::GetAddress { checkmark_id } => Ok(
            QueryResponse::GetAddress(
                GetAddressResponse { address: registry.get_address(checkmark_id) },
            ),
        ),
        QueryMsg::Count {  } => Ok(QueryResponse::Count(CountResponse { count: registry.count() })),
        QueryMsg::CheckmarkBanned { checkmark_id } => Ok(
            QueryResponse::CheckmarkBanned(
                CheckmarkBannedResponse { banned: registry.is_banned(checkmark_id) },
            ),
        ),
        QueryMsg::Assigner {  } => Ok(
            QueryResponse::Assigner(AssignerResponse { assigner: registry.assigner() }),
        ),
    }
}

} // verus!
