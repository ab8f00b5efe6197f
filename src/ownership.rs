use crate::error::{ContractError, OwnershipError};
use vstd::prelude::*;

verus! {

/// An optional string, seen as its characters.
pub open spec fn view_opt(o: Option<String>) -> Option<Seq<char>> {
    match o {
        Some(s) => Some(s@),
        None => None,
    }
}

/// The outcome of asking whether `caller` is the owner, where `owner` is the
/// current owner, or `None` once ownership has been renounced.
pub open spec fn owner_check(owner: Option<Seq<char>>, caller: Seq<char>) -> Result<
    (),
    ContractError,
> {
    match owner {
        None => Err(ContractError::Ownable(OwnershipError::NoOwner)),
        Some(o) => if o == caller {
            Ok(())
        } else {
            Err(ContractError::Ownable(OwnershipError::NotOwner))
        },
    }
}

/// Succeeds exactly when `caller` is the current owner.
pub fn check_owner(owner: &Option<String>, caller: &String) -> (r: Result<(), ContractError>)
    ensures
        r == owner_check(view_opt(*owner), caller@),
{
    match owner {
        None => Err(ContractError::Ownable(OwnershipError::NoOwner)),
        Some(o) => {
            if *o == *caller {
                Ok(())
            } else {
                Err(ContractError::Ownable(OwnershipError::NotOwner))
            }
        },
    }
}

} // verus!
