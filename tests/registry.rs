use cw_checkmark::{
    check_owner, execute, instantiate, query, ContractError, Event, ExecuteMsg, OwnershipError,
    QueryMsg, QueryResponse, Registry,
};

fn s(x: &str) -> String {
    x.to_string()
}

fn owner() -> Option<String> {
    Some(s("owner"))
}

fn fresh() -> Registry {
    Registry::new(s("assigner"))
}

fn assign(r: &mut Registry, caller: &str, id: &str, address: &str) -> Result<(), ContractError> {
    r.assign(&owner(), &s(caller), s(id), Some(s(address)))
}

fn ban(r: &mut Registry, ban_ids: &[&str], unban_ids: &[&str]) -> Result<(), ContractError> {
    r.update_checkmark_ban(
        &owner(),
        &s("owner"),
        Some(ban_ids.iter().map(|x| s(x)).collect()),
        Some(unban_ids.iter().map(|x| s(x)).collect()),
    )
}

/// Both lookups agree for every pair the registry answers about.
fn assert_tables_agree(r: &Registry, ids: &[&str], addresses: &[&str]) {
    for id in ids {
        if let Some(a) = r.get_address(&s(id)) {
            assert_eq!(r.get_checkmark(&a), Some(s(id)));
        }
    }
    for a in addresses {
        if let Some(id) = r.get_checkmark(&s(a)) {
            assert_eq!(r.get_address(&id), Some(s(a)));
        }
    }
}

#[test]
fn scenario_assign_by_assigner() {
    let mut r = fresh();
    assert_eq!(assign(&mut r, "assigner", "alice_check", "alice"), Ok(()));
    assert_eq!(r.count(), 1);
    assert_eq!(r.get_checkmark(&s("alice")), Some(s("alice_check")));
    assert_eq!(r.get_address(&s("alice_check")), Some(s("alice")));
}

#[test]
fn scenario_assign_held_identifier() {
    let mut r = fresh();
    assign(&mut r, "assigner", "alice_check", "alice").unwrap();
    assert_eq!(
        assign(&mut r, "assigner", "alice_check", "bob"),
        Err(ContractError::AlreadyAssigned)
    );
    assert_eq!(r.count(), 1);
    assert_eq!(r.get_address(&s("alice_check")), Some(s("alice")));
    assert_eq!(r.get_checkmark(&s("bob")), None);
}

#[test]
fn scenario_ban_held_identifier() {
    let mut r = fresh();
    assign(&mut r, "assigner", "alice_check", "alice").unwrap();
    assert_eq!(ban(&mut r, &["alice_check"], &[]), Ok(()));
    assert_eq!(r.count(), 0);
    assert!(r.is_banned(&s("alice_check")));
    assert_eq!(r.get_checkmark(&s("alice")), None);
    assert_eq!(r.get_address(&s("alice_check")), None);
    assert_eq!(
        assign(&mut r, "assigner", "alice_check", "alice"),
        Err(ContractError::CheckmarkBanned)
    );
    assert_eq!(
        assign(&mut r, "assigner", "alice_check", "bob"),
        Err(ContractError::CheckmarkBanned)
    );
}

#[test]
fn scenario_stranger_cannot_assign() {
    let mut r = fresh();
    assert_eq!(
        assign(&mut r, "stranger", "alice_check", "alice"),
        Err(ContractError::Unauthorized)
    );
    assert_eq!(r.count(), 0);
    assert_eq!(r.get_checkmark(&s("alice")), None);
    assert_eq!(r.get_address(&s("alice_check")), None);
}

#[test]
fn scenario_delete_without_assignment() {
    let mut r = fresh();
    assert_eq!(r.delete(&s("alice")), Err(ContractError::NoCheckmark));
}

#[test]
fn scenario_revoke_address_then_reassign() {
    let mut r = fresh();
    assign(&mut r, "assigner", "alice_check", "alice").unwrap();
    assert_eq!(
        r.revoke_address(&owner(), &s("owner"), Some(s("alice"))),
        Ok(s("alice_check"))
    );
    assert_eq!(r.count(), 0);
    assert_eq!(assign(&mut r, "assigner", "alice_new", "alice"), Ok(()));
    assert_eq!(assign(&mut r, "assigner", "alice_check", "bob"), Ok(()));
    assert_eq!(r.get_checkmark(&s("alice")), Some(s("alice_new")));
    assert_eq!(r.get_address(&s("alice_check")), Some(s("bob")));
    assert_eq!(r.count(), 2);
}

#[test]
fn tables_stay_inverse_and_count_matches() {
    let mut r = fresh();
    let ids = ["a_check", "b_check", "c_check", "d_check"];
    let addresses = ["alice", "bob", "carol", "dave"];
    assign(&mut r, "assigner", "a_check", "alice").unwrap();
    assign(&mut r, "owner", "b_check", "bob").unwrap();
    assign(&mut r, "assigner", "c_check", "carol").unwrap();
    assert_tables_agree(&r, &ids, &addresses);
    assert_eq!(r.count(), 3);

    assert!(assign(&mut r, "assigner", "d_check", "bob").is_err());
    assert_tables_agree(&r, &ids, &addresses);
    assert_eq!(r.count(), 3);

    assert_eq!(r.delete(&s("bob")), Ok(s("b_check")));
    assert_tables_agree(&r, &ids, &addresses);
    assert_eq!(r.count(), 2);

    assert_eq!(r.revoke_checkmark(&owner(), &s("owner"), &s("a_check")), Ok(s("alice")));
    assert_tables_agree(&r, &ids, &addresses);
    assert_eq!(r.count(), 1);

    ban(&mut r, &["c_check", "d_check"], &[]).unwrap();
    assert_tables_agree(&r, &ids, &addresses);
    assert_eq!(r.count(), 0);

    assign(&mut r, "assigner", "b_check", "dave").unwrap();
    assert_tables_agree(&r, &ids, &addresses);
    assert_eq!(r.count(), 1);
}

#[test]
fn unban_of_unbanned_and_ban_of_banned_change_nothing() {
    let mut r = fresh();
    assign(&mut r, "assigner", "kept", "alice").unwrap();
    assert_eq!(ban(&mut r, &[], &["never_banned"]), Ok(()));
    assert!(!r.is_banned(&s("never_banned")));
    assert_eq!(r.count(), 1);

    ban(&mut r, &["gone"], &[]).unwrap();
    assert_eq!(ban(&mut r, &["gone"], &[]), Ok(()));
    assert!(r.is_banned(&s("gone")));
    assert_eq!(r.count(), 1);
    assert_eq!(r.get_address(&s("kept")), Some(s("alice")));

    // One unban lifts the ban even after it was applied twice.
    ban(&mut r, &[], &["gone"]).unwrap();
    assert!(!r.is_banned(&s("gone")));
}

#[test]
fn ban_and_unban_in_one_call_ends_unbanned() {
    let mut r = fresh();
    assign(&mut r, "assigner", "both", "alice").unwrap();
    assert_eq!(ban(&mut r, &["both"], &["both"]), Ok(()));
    assert!(!r.is_banned(&s("both")));
    // The ban still removed the assignment.
    assert_eq!(r.get_checkmark(&s("alice")), None);
    assert_eq!(r.count(), 0);
}

#[test]
fn preemptive_ban_blocks_assignment() {
    let mut r = fresh();
    ban(&mut r, &["reserved"], &[]).unwrap();
    assert_eq!(r.count(), 0);
    assert_eq!(
        assign(&mut r, "owner", "reserved", "alice"),
        Err(ContractError::CheckmarkBanned)
    );
}

#[test]
fn ban_without_lists_is_accepted() {
    let mut r = fresh();
    assign(&mut r, "assigner", "x_check", "alice").unwrap();
    assert_eq!(r.update_checkmark_ban(&owner(), &s("owner"), None, None), Ok(()));
    assert_eq!(r.count(), 1);
}

#[test]
fn assign_checks_run_in_order() {
    let mut r = fresh();
    assign(&mut r, "assigner", "taken", "alice").unwrap();
    ban(&mut r, &["barred"], &[]).unwrap();
    // Invalid address comes first.
    assert_eq!(
        r.assign(&owner(), &s("stranger"), s("barred"), None),
        Err(ContractError::InvalidAddress)
    );
    // Then authorisation.
    assert_eq!(assign(&mut r, "stranger", "barred", "alice"), Err(ContractError::Unauthorized));
    // Then the ban.
    assert_eq!(assign(&mut r, "assigner", "barred", "alice"), Err(ContractError::CheckmarkBanned));
    // Then the identifier being held.
    assert_eq!(assign(&mut r, "assigner", "taken", "alice"), Err(ContractError::AlreadyAssigned));
    // Then the address holding one.
    assert_eq!(assign(&mut r, "assigner", "free", "alice"), Err(ContractError::AlreadyHasCheckmark));
    assert_eq!(r.count(), 1);
}

#[test]
fn owner_may_assign_and_renounced_owner_may_not() {
    let mut r = fresh();
    assert_eq!(assign(&mut r, "owner", "o_check", "alice"), Ok(()));
    assert_eq!(
        r.assign(&None, &s("owner"), s("p_check"), Some(s("bob"))),
        Err(ContractError::Unauthorized)
    );
    // The assigner still may.
    assert_eq!(r.assign(&None, &s("assigner"), s("p_check"), Some(s("bob"))), Ok(()));
}

#[test]
fn privileged_operations_without_owner() {
    let mut r = fresh();
    assign(&mut r, "assigner", "c1", "alice").unwrap();
    let no_owner = Err(ContractError::Ownable(OwnershipError::NoOwner));
    assert_eq!(r.revoke_checkmark(&None, &s("owner"), &s("c1")), no_owner.clone().map(|()| s("")));
    assert_eq!(r.revoke_address(&None, &s("owner"), Some(s("alice"))), no_owner.clone().map(|()| s("")));
    assert_eq!(r.update_checkmark_ban(&None, &s("owner"), Some(vec![s("c1")]), None), no_owner);
    assert_eq!(r.update_assigner(&None, &s("owner"), Some(s("next"))), no_owner);
    assert_eq!(r.count(), 1);
    assert!(!r.is_banned(&s("c1")));
    assert_eq!(r.assigner(), s("assigner"));
}

#[test]
fn invalid_addresses_are_rejected_after_the_owner_check() {
    let mut r = fresh();
    assert_eq!(
        r.update_assigner(&owner(), &s("owner"), None),
        Err(ContractError::InvalidAddress)
    );
    assert_eq!(
        r.update_assigner(&owner(), &s("stranger"), None),
        Err(ContractError::Ownable(OwnershipError::NotOwner))
    );
    assert_eq!(
        r.revoke_address(&owner(), &s("owner"), None),
        Err(ContractError::InvalidAddress)
    );
    assert_eq!(
        r.revoke_address(&owner(), &s("stranger"), None),
        Err(ContractError::Ownable(OwnershipError::NotOwner))
    );
    assert_eq!(r.assigner(), s("assigner"));
}

#[test]
fn check_owner_cases() {
    assert_eq!(check_owner(&owner(), &s("owner")), Ok(()));
    assert_eq!(
        check_owner(&owner(), &s("other")),
        Err(ContractError::Ownable(OwnershipError::NotOwner))
    );
    assert_eq!(
        check_owner(&None, &s("owner")),
        Err(ContractError::Ownable(OwnershipError::NoOwner))
    );
}

#[test]
fn instantiate_needs_a_valid_assigner() {
    assert!(matches!(instantiate(None), Err(ContractError::InvalidAddress)));
    let r = instantiate(Some(s("assigner"))).unwrap();
    assert_eq!(r.count(), 0);
    assert_eq!(r.assigner(), s("assigner"));
}

#[test]
fn execute_reports_events() {
    let mut r = fresh();
    let caller = s("assigner");
    let ev = execute(
        &mut r,
        &owner(),
        &caller,
        ExecuteMsg::Assign { checkmark_id: s("e_check"), address: s("alice") },
        Some(s("alice")),
    );
    assert_eq!(ev, Ok(Event::Assigned { checkmark_id: s("e_check"), address: s("alice") }));
    let ev = execute(
        &mut r,
        &owner(),
        &s("owner"),
        ExecuteMsg::RevokeCheckmark { checkmark_id: s("e_check") },
        None,
    );
    assert_eq!(ev, Ok(Event::CheckmarkRevoked { checkmark_id: s("e_check"), address: s("alice") }));
    execute(
        &mut r,
        &owner(),
        &caller,
        ExecuteMsg::Assign { checkmark_id: s("f_check"), address: s("bob") },
        Some(s("bob")),
    )
    .unwrap();
    let ev = execute(
        &mut r,
        &owner(),
        &s("owner"),
        ExecuteMsg::RevokeAddress { address: s("bob") },
        Some(s("bob")),
    );
    assert_eq!(ev, Ok(Event::AddressRevoked { checkmark_id: s("f_check"), address: s("bob") }));
    execute(
        &mut r,
        &owner(),
        &caller,
        ExecuteMsg::Assign { checkmark_id: s("g_check"), address: s("carol") },
        Some(s("carol")),
    )
    .unwrap();
    let ev = execute(&mut r, &owner(), &s("carol"), ExecuteMsg::Delete {}, None);
    assert_eq!(ev, Ok(Event::Deleted { checkmark_id: s("g_check"), address: s("carol") }));
    let ev = execute(
        &mut r,
        &owner(),
        &s("owner"),
        ExecuteMsg::UpdateCheckmarkBan { ban_ids: Some(vec![s("h_check")]), unban_ids: None },
        None,
    );
    assert_eq!(ev, Ok(Event::BansUpdated));
    let ev = execute(
        &mut r,
        &owner(),
        &s("owner"),
        ExecuteMsg::UpdateAssigner { assigner: s("next") },
        Some(s("next")),
    );
    assert_eq!(ev, Ok(Event::AssignerUpdated { assigner: s("next") }));
    assert_eq!(r.assigner(), s("next"));
}

#[test]
fn query_rejects_invalid_address_only_for_lookup_by_address() {
    let r = fresh();
    assert_eq!(
        query(&r, &QueryMsg::GetCheckmark { address: s("X") }, None),
        Err(ContractError::InvalidAddress)
    );
    assert!(matches!(
        query(&r, &QueryMsg::GetAddress { checkmark_id: s("nothing") }, None),
        Ok(QueryResponse::GetAddress(_))
    ));
}
