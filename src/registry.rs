use crate::error::ContractError;
use crate::ownership::{check_owner, owner_check, view_opt};
use vstd::prelude::*;

verus! {

/// A pair of keys and values, each a string seen as its characters.
pub type Entry = (Seq<char>, Seq<char>);

/// No key occurs twice among the pairs.
pub open spec fn keys_distinct(p: Seq<Entry>) -> bool {
    forall|i: int, j: int|
        0 <= i < p.len() && 0 <= j < p.len() && i != j ==> #[trigger] p[i].0 != #[trigger] p[j].0
}

/// The lookup table that a list of pairs stands for.
pub open spec fn table(p: Seq<Entry>) -> Map<Seq<char>, Seq<char>> {
    Map::new(
        |k: Seq<char>| exists|i: int| 0 <= i < p.len() && p[i].0 == k,
        |k: Seq<char>| p[choose|i: int| 0 <= i < p.len() && p[i].0 == k].1,
    )
}

/// Each pair with key and value exchanged.
pub open spec fn swapped(p: Seq<Entry>) -> Seq<Entry> {
    p.map_values(|e: Entry| (e.1, e.0))
}

/// The strings of a list, as a set of character sequences.
pub open spec fn id_set(ids: Seq<String>) -> Set<Seq<char>> {
    Set::new(|x: Seq<char>| exists|i: int| 0 <= i < ids.len() && ids[i]@ == x)
}

/// No string occurs twice in the list.
pub open spec fn strings_distinct(ids: Seq<String>) -> bool {
    forall|i: int, j: int|
        0 <= i < ids.len() && 0 <= j < ids.len() && i != j ==> #[trigger] ids[i]@ != #[trigger] ids[j]@
}

/// `r` maps each address to the identifier that `f` maps to it, and nothing else.
pub open spec fn is_inverse(f: Map<Seq<char>, Seq<char>>, r: Map<Seq<char>, Seq<char>>) -> bool {
    &&& forall|id: Seq<char>| #[trigger]
        f.contains_key(id) ==> r.contains_key(f[id]) && r[f[id]] == id
    &&& forall|a: Seq<char>| #[trigger]
        r.contains_key(a) ==> f.contains_key(r[a]) && f[r[a]] == a
}

proof fn lemma_table_at(p: Seq<Entry>, i: int)
    requires
        keys_distinct(p),
        0 <= i < p.len(),
    ensures
        table(p).contains_key(p[i].0),
        table(p)[p[i].0] == p[i].1,
{
    let k = p[i].0;
    assert(0 <= i < p.len() && p[i].0 == k);
    let j = choose|j: int| 0 <= j < p.len() && p[j].0 == k;
    assert(j == i);
}

proof fn lemma_table_push(p: Seq<Entry>, e: Entry)
    requires
        keys_distinct(p),
        !table(p).contains_key(e.0),
    ensures
        keys_distinct(p.push(e)),
        table(p.push(e)) == table(p).insert(e.0, e.1),
{
    let q = p.push(e);
    assert forall|i: int, j: int|
        0 <= i < q.len() && 0 <= j < q.len() && i != j implies #[trigger] q[i].0
        != #[trigger] q[j].0 by {
        if i == p.len() {
            assert(0 <= j < p.len() && p[j].0 == q[j].0);
        } else if j == p.len() {
            assert(0 <= i < p.len() && p[i].0 == q[i].0);
        }
    }
    assert forall|k: Seq<char>| #[trigger]
        table(q).contains_key(k) <==> table(p).insert(e.0, e.1).contains_key(k) by {
        if table(p).contains_key(k) {
            let i = choose|i: int| 0 <= i < p.len() && p[i].0 == k;
            assert(q[i].0 == k);
        }
        if k == e.0 {
            assert(q[p.len() as int].0 == k);
        }
    }
    assert forall|k: Seq<char>| #[trigger] table(q).contains_key(k) implies table(q)[k] == table(
        p,
    ).insert(e.0, e.1)[k] by {
        let i = choose|i: int| 0 <= i < q.len() && q[i].0 == k;
        lemma_table_at(q, i);
        if i < p.len() {
            lemma_table_at(p, i);
        }
    }
    assert(table(q) =~= table(p).insert(e.0, e.1));
}

proof fn lemma_table_remove(p: Seq<Entry>, i: int)
    requires
        keys_distinct(p),
        0 <= i < p.len(),
    ensures
        keys_distinct(p.remove(i)),
        table(p.remove(i)) == table(p).remove(p[i].0),
{
    let q = p.remove(i);
    assert forall|a: int, b: int|
        0 <= a < q.len() && 0 <= b < q.len() && a != b implies #[trigger] q[a].0
        != #[trigger] q[b].0 by {
        let a2 = if a < i { a } else { a + 1 };
        let b2 = if b < i { b } else { b + 1 };
        assert(q[a] == p[a2] && q[b] == p[b2]);
        assert(p[a2].0 != p[b2].0);
    }
    assert forall|k: Seq<char>| #[trigger]
        table(q).contains_key(k) <==> table(p).remove(p[i].0).contains_key(k) by {
        if table(q).contains_key(k) {
            let a = choose|a: int| 0 <= a < q.len() && q[a].0 == k;
            let a2 = if a < i { a } else { a + 1 };
            assert(q[a] == p[a2] && p[a2].0 == k);
            assert(p[a2].0 != p[i].0);
        }
        if table(p).remove(p[i].0).contains_key(k) {
            let a = choose|a: int| 0 <= a < p.len() && p[a].0 == k;
            assert(a != i);
            let a2 = if a < i { a } else { a - 1 };
            assert(q[a2] == p[a] && q[a2].0 == k);
        }
    }
    assert forall|k: Seq<char>| #[trigger] table(q).contains_key(k) implies table(q)[k] == table(
        p,
    ).remove(p[i].0)[k] by {
        let a = choose|a: int| 0 <= a < q.len() && q[a].0 == k;
        let a2 = if a < i { a } else { a + 1 };
        assert(q[a] == p[a2]);
        lemma_table_at(q, a);
        lemma_table_at(p, a2);
    }
    assert(table(q) =~= table(p).remove(p[i].0));
}

proof fn lemma_table_len(p: Seq<Entry>)
    requires
        keys_distinct(p),
    ensures
        table(p).dom().finite(),
        table(p).dom().len() == p.len(),
    decreases p.len(),
{
    if p.len() == 0 {
        assert(table(p).dom() =~= Set::empty());
    } else {
        let q = p.drop_last();
        let e = p.last();
        assert forall|i: int, j: int|
            0 <= i < q.len() && 0 <= j < q.len() && i != j implies #[trigger] q[i].0
            != #[trigger] q[j].0 by {
            assert(q[i] == p[i] && q[j] == p[j]);
        }
        lemma_table_len(q);
        if table(q).contains_key(e.0) {
            let i = choose|i: int| 0 <= i < q.len() && q[i].0 == e.0;
            assert(p[i].0 == p[p.len() - 1].0);
        }
        lemma_table_push(q, e);
        assert(q.push(e) =~= p);
    }
}

proof fn lemma_tables_inverse(p: Seq<Entry>)
    requires
        keys_distinct(p),
        keys_distinct(swapped(p)),
    ensures
        is_inverse(table(p), table(swapped(p))),
{
    let s = swapped(p);
    assert forall|id: Seq<char>| #[trigger] table(p).contains_key(id) implies table(s).contains_key(
        table(p)[id],
    ) && table(s)[table(p)[id]] == id by {
        let i = choose|i: int| 0 <= i < p.len() && p[i].0 == id;
        lemma_table_at(p, i);
        lemma_table_at(s, i);
    }
    assert forall|a: Seq<char>| #[trigger] table(s).contains_key(a) implies table(p).contains_key(
        table(s)[a],
    ) && table(p)[table(s)[a]] == a by {
        let i = choose|i: int| 0 <= i < s.len() && s[i].0 == a;
        lemma_table_at(s, i);
        lemma_table_at(p, i);
    }
}

proof fn lemma_id_set_push(ids: Seq<String>, x: String)
    ensures
        id_set(ids.push(x)) == id_set(ids).insert(x@),
{
    let q = ids.push(x);
    assert forall|v: Seq<char>| #[trigger] id_set(q).contains(v) <==> id_set(ids).insert(
        x@,
    ).contains(v) by {
        if id_set(ids).contains(v) {
            let i = choose|i: int| 0 <= i < ids.len() && ids[i]@ == v;
            assert(q[i]@ == v);
        }
        if v == x@ {
            assert(q[ids.len() as int]@ == v);
        }
        if id_set(q).contains(v) {
            let i = choose|i: int| 0 <= i < q.len() && q[i]@ == v;
            if i < ids.len() {
                assert(ids[i]@ == v);
            }
        }
    }
    assert(id_set(q) =~= id_set(ids).insert(x@));
}

proof fn lemma_id_set_remove(ids: Seq<String>, i: int)
    requires
        strings_distinct(ids),
        0 <= i < ids.len(),
    ensures
        strings_distinct(ids.remove(i)),
        id_set(ids.remove(i)) == id_set(ids).remove(ids[i]@),
{
    let q = ids.remove(i);
    assert forall|a: int, b: int|
        0 <= a < q.len() && 0 <= b < q.len() && a != b implies #[trigger] q[a]@
        != #[trigger] q[b]@ by {
        let a2 = if a < i { a } else { a + 1 };
        let b2 = if b < i { b } else { b + 1 };
        assert(q[a] == ids[a2] && q[b] == ids[b2]);
        assert(ids[a2]@ != ids[b2]@);
    }
    assert forall|v: Seq<char>| #[trigger] id_set(q).contains(v) <==> id_set(ids).remove(
        ids[i]@,
    ).contains(v) by {
        if id_set(q).contains(v) {
            let a = choose|a: int| 0 <= a < q.len() && q[a]@ == v;
            let a2 = if a < i { a } else { a + 1 };
            assert(q[a] == ids[a2] && ids[a2]@ != ids[i]@);
        }
        if id_set(ids).remove(ids[i]@).contains(v) {
            let a = choose|a: int| 0 <= a < ids.len() && ids[a]@ == v;
            let a2 = if a < i { a } else { a - 1 };
            assert(q[a2] == ids[a]);
        }
    }
    assert(id_set(q) =~= id_set(ids).remove(ids[i]@));
}

/// `r` succeeded exactly when `o` is `Ok`, and failed with the error of `o`
/// otherwise.
pub open spec fn same_outcome<T>(r: Result<T, ContractError>, o: Result<(), ContractError>) -> bool {
    match r {
        Ok(_) => o is Ok,
        Err(e) => o == Err::<(), ContractError>(e),
    }
}

/// The outcome of replacing the assigner: the owner check first, then
/// whether the validator accepted the new address.
pub open spec fn update_assigner_outcome(
    owner: Option<Seq<char>>,
    caller: Seq<char>,
    assigner: Option<Seq<char>>,
) -> Result<(), ContractError> {
    if owner_check(owner, caller) is Err {
        owner_check(owner, caller)
    } else if assigner is None {
        Err(ContractError::InvalidAddress)
    } else {
        Ok(())
    }
}

/// One held checkmark: the identifier and the address that holds it.
struct Assignment {
    checkmark_id: String,
    address: String,
}

/// The state of the registry: who holds which checkmark, which identifiers
/// are banned, and who may assign.
///
/// Assignments are kept as one list of pairs; the forward table (identifier
/// to address) and the reverse table (address to identifier) are two views
/// of that list, so they cannot drift apart.
pub struct Registry {
    assignments: Vec<Assignment>,
    banned: Vec<String>,
    assigner: String,
}

impl Registry {
    /// The assignments as (identifier, address) pairs.
    pub closed spec fn pairs(&self) -> Seq<Entry> {
        self.assignments@.map_values(|a: Assignment| (a.checkmark_id@, a.address@))
    }

    /// The forward table: identifier to the address that holds it.
    pub open spec fn forward(&self) -> Map<Seq<char>, Seq<char>> {
        table(self.pairs())
    }

    /// The reverse table: address to the identifier it holds.
    pub open spec fn reverse(&self) -> Map<Seq<char>, Seq<char>> {
        table(swapped(self.pairs()))
    }

    /// The identifiers that may not be assigned.
    pub closed spec fn banned_ids(&self) -> Set<Seq<char>> {
        id_set(self.banned@)
    }

    /// The address that may assign checkmarks besides the owner.
    pub closed spec fn assigner_id(&self) -> Seq<char> {
        self.assigner@
    }

    /// The number of assignments held.
    pub closed spec fn count_spec(&self) -> nat {
        self.assignments@.len()
    }

    /// Well-formedness: no identifier and no address occurs in two
    /// assignments, no identifier is listed twice as banned, and no banned
    /// identifier is assigned.
    pub closed spec fn wf(&self) -> bool {
        &&& keys_distinct(self.pairs())
        &&& keys_distinct(swapped(self.pairs()))
        &&& strings_distinct(self.banned@)
        &&& forall|id: Seq<char>| #[trigger]
            self.banned_ids().contains(id) ==> !self.forward().contains_key(id)
    }

    proof fn lemma_pairs_at(&self, i: int)
        requires
            0 <= i < self.assignments@.len(),
        ensures
            self.pairs()[i] == (self.assignments@[i].checkmark_id@, self.assignments@[i].address@),
            swapped(self.pairs())[i] == (
                self.assignments@[i].address@,
                self.assignments@[i].checkmark_id@,
            ),
            self.pairs().len() == self.assignments@.len(),
            swapped(self.pairs()).len() == self.assignments@.len(),
    {
    }

    /// A registry with no assignments, no bans, and the given assigner.
    pub fn new(assigner: String) -> (r: Registry)
        ensures
            r.wf(),
            r.forward() == Map::<Seq<char>, Seq<char>>::empty(),
            r.reverse() == Map::<Seq<char>, Seq<char>>::empty(),
            r.banned_ids() == Set::<Seq<char>>::empty(),
            r.assigner_id() == assigner@,
            r.count_spec() == 0,
    {
        let r = Registry { assignments: Vec::new(), banned: Vec::new(), assigner };
        proof {
            assert(r.forward() =~= Map::empty());
            assert(r.reverse() =~= Map::empty());
            assert(r.banned_ids() =~= Set::empty());
        }
        r
    }
}


impl Registry {
    /// The caller may create assignments: it is the owner or the assigner.
    pub open spec fn may_assign(&self, owner: Option<Seq<char>>, caller: Seq<char>) -> bool {
        owner == Some(caller) || caller == self.assigner_id()
    }

    /// The outcome of an assignment of `id` to `address`, where `address` is
    /// what the address validator made of the supplied address (`None` if it
    /// was rejected). The checks run in this order; the first that fails
    /// gives the error.
    pub open spec fn assign_outcome(
        &self,
        owner: Option<Seq<char>>,
        caller: Seq<char>,
        id: Seq<char>,
        address: Option<Seq<char>>,
    ) -> Result<(), ContractError> {
        match address {
            None => Err(ContractError::InvalidAddress),
            Some(a) => if !self.may_assign(owner, caller) {
                Err(ContractError::Unauthorized)
            } else if self.banned_ids().contains(id) {
                Err(ContractError::CheckmarkBanned)
            } else if self.forward().contains_key(id) {
                Err(ContractError::AlreadyAssigned)
            } else if self.reverse().contains_key(a) {
                Err(ContractError::AlreadyHasCheckmark)
            } else {
                Ok(())
            },
        }
    }

    /// The state of `self` and `other` is the same but for the assignments.
    pub open spec fn same_roles(&self, other: &Registry) -> bool {
        &&& self.banned_ids() == other.banned_ids()
        &&& self.assigner_id() == other.assigner_id()
    }

    /// `self` is `pre` with the pair of `id` and `address` added.
    pub open spec fn assigned(&self, pre: &Registry, id: Seq<char>, address: Seq<char>) -> bool {
        &&& self.forward() == pre.forward().insert(id, address)
        &&& self.reverse() == pre.reverse().insert(address, id)
        &&& self.count_spec() == pre.count_spec() + 1
        &&& self.same_roles(pre)
    }

    /// `self` is `pre` with the pair of `id` and `address`, which `pre`
    /// held, taken out.
    pub open spec fn unassigned(&self, pre: &Registry, id: Seq<char>, address: Seq<char>) -> bool {
        &&& pre.forward().contains_key(id)
        &&& pre.forward()[id] == address
        &&& pre.reverse().contains_key(address)
        &&& pre.reverse()[address] == id
        &&& self.forward() == pre.forward().remove(id)
        &&& self.reverse() == pre.reverse().remove(address)
        &&& self.count_spec() + 1 == pre.count_spec()
        &&& self.same_roles(pre)
    }

    /// The outcome of `caller` giving up the checkmark it holds.
    pub open spec fn delete_outcome(&self, caller: Seq<char>) -> Result<(), ContractError> {
        if self.reverse().contains_key(caller) {
            Ok(())
        } else {
            Err(ContractError::NoCheckmark)
        }
    }

    /// The outcome of revoking the assignment of `id`: the owner check
    /// first, then whether `id` is held.
    pub open spec fn revoke_checkmark_outcome(
        &self,
        owner: Option<Seq<char>>,
        caller: Seq<char>,
        id: Seq<char>,
    ) -> Result<(), ContractError> {
        if owner_check(owner, caller) is Err {
            owner_check(owner, caller)
        } else if !self.forward().contains_key(id) {
            Err(ContractError::NoCheckmark)
        } else {
            Ok(())
        }
    }

    /// The outcome of revoking what `address` holds: the owner check first,
    /// then whether the validator accepted the address, then whether it
    /// holds a checkmark.
    pub open spec fn revoke_address_outcome(
        &self,
        owner: Option<Seq<char>>,
        caller: Seq<char>,
        address: Option<Seq<char>>,
    ) -> Result<(), ContractError> {
        if owner_check(owner, caller) is Err {
            owner_check(owner, caller)
        } else {
            match address {
                None => Err(ContractError::InvalidAddress),
                Some(a) => if self.reverse().contains_key(a) {
                    Ok(())
                } else {
                    Err(ContractError::NoCheckmark)
                },
            }
        }
    }

    /// The position of the assignment of `id`, if it is assigned.
    fn find_id(&self, id: &String) -> (r: Option<usize>)
        requires
            self.wf(),
        ensures
            match r {
                Some(i) => {
                    &&& i < self.assignments@.len()
                    &&& self.assignments@[i as int].checkmark_id@ == id@
                    &&& self.forward().contains_key(id@)
                },
                None => !self.forward().contains_key(id@),
            },
    {
        let mut i: usize = 0;
        while i < self.assignments.len()
            invariant
                self.wf(),
                i <= self.assignments@.len(),
                forall|j: int| 0 <= j < i ==> self.assignments@[j].checkmark_id@ != id@,
            decreases self.assignments@.len() - i,
        {
            if self.assignments[i].checkmark_id == *id {
                proof {
                    self.lemma_pairs_at(i as int);
                    lemma_table_at(self.pairs(), i as int);
                }
                return Some(i);
            }
            i += 1;
        }
        proof {
            if self.forward().contains_key(id@) {
                let j = choose|j: int| 0 <= j < self.pairs().len() && self.pairs()[j].0 == id@;
                self.lemma_pairs_at(j);
            }
        }
        None
    }

    /// The position of the assignment held by `address`, if any.
    fn find_address(&self, address: &String) -> (r: Option<usize>)
        requires
            self.wf(),
        ensures
            match r {
                Some(i) => {
                    &&& i < self.assignments@.len()
                    &&& self.assignments@[i as int].address@ == address@
                    &&& self.reverse().contains_key(address@)
                },
                None => !self.reverse().contains_key(address@),
            },
    {
        let mut i: usize = 0;
        while i < self.assignments.len()
            invariant
                self.wf(),
                i <= self.assignments@.len(),
                forall|j: int| 0 <= j < i ==> self.assignments@[j].address@ != address@,
            decreases self.assignments@.len() - i,
        {
            if self.assignments[i].address == *address {
                proof {
                    self.lemma_pairs_at(i as int);
                    lemma_table_at(swapped(self.pairs()), i as int);
                }
                return Some(i);
            }
            i += 1;
        }
        proof {
            if self.reverse().contains_key(address@) {
                let s = swapped(self.pairs());
                let j = choose|j: int| 0 <= j < s.len() && s[j].0 == address@;
                self.lemma_pairs_at(j);
            }
        }
        None
    }

    /// Removes the assignment at position `i` and hands it back.
    fn remove_at(&mut self, i: usize) -> (a: Assignment)
        requires
            old(self).wf(),
            i < old(self).assignments@.len(),
        ensures
            final(self).wf(),
            a == old(self).assignments@[i as int],
            final(self).unassigned(old(self), a.checkmark_id@, a.address@),
    {
        let ghost p = self.pairs();
        proof {
            self.lemma_pairs_at(i as int);
            lemma_table_at(p, i as int);
            lemma_table_at(swapped(p), i as int);
            lemma_table_remove(p, i as int);
            lemma_table_remove(swapped(p), i as int);
        }
        let a = self.assignments.remove(i);
        proof {
            assert(self.pairs() =~= p.remove(i as int));
            assert(swapped(self.pairs()) =~= swapped(p).remove(i as int));
            assert forall|id: Seq<char>| #[trigger]
                self.banned_ids().contains(id) implies !self.forward().contains_key(id) by {
                assert(old(self).banned_ids().contains(id));
            }
        }
        a
    }

    /// Adds the assignment of `checkmark_id` to `address`.
    fn push_pair(&mut self, checkmark_id: String, address: String)
        requires
            old(self).wf(),
            !old(self).forward().contains_key(checkmark_id@),
            !old(self).reverse().contains_key(address@),
            !old(self).banned_ids().contains(checkmark_id@),
        ensures
            final(self).wf(),
            final(self).assigned(old(self), checkmark_id@, address@),
    {
        let ghost p = self.pairs();
        let ghost e = (checkmark_id@, address@);
        proof {
            lemma_table_push(p, e);
            lemma_table_push(swapped(p), (e.1, e.0));
        }
        self.assignments.push(Assignment { checkmark_id, address });
        proof {
            assert(self.pairs() =~= p.push(e));
            assert(swapped(self.pairs()) =~= swapped(p).push((e.1, e.0)));
        }
    }

    /// Assigns `checkmark_id` to `address` on behalf of `caller`.
    ///
    /// `owner` is the current owner (`None` once renounced); `address` is what
    /// the address validator made of the supplied address (`None` if it was
    /// rejected). Succeeds exactly when the address is valid, the caller is
    /// the owner or the assigner, the identifier is neither banned nor held,
    /// and the address holds nothing; then the pair enters both tables.
    /// On failure nothing changes.
    pub fn assign(
        &mut self,
        owner: &Option<String>,
        caller: &String,
        checkmark_id: String,
        address: Option<String>,
    ) -> (r: Result<(), ContractError>)
        requires
            old(self).wf(),
        ensures
            final(self).wf(),
            r == old(self).assign_outcome(view_opt(*owner), caller@, checkmark_id@, view_opt(address)),
            r is Ok ==> final(self).assigned(old(self), checkmark_id@, address->0@),
            r is Err ==> *final(self) == *old(self),
    {
        let addr = match address {
            Some(a) => a,
            None => {
                return Err(ContractError::InvalidAddress);
            },
        };
        let is_owner = match owner {
            Some(o) => *o == *caller,
            None => false,
        };
        if !is_owner && *caller != self.assigner {
            return Err(ContractError::Unauthorized);
        }
        if self.is_banned(&checkmark_id) {
            return Err(ContractError::CheckmarkBanned);
        }
        if self.find_id(&checkmark_id).is_some() {
            return Err(ContractError::AlreadyAssigned);
        }
        if self.find_address(&addr).is_some() {
            return Err(ContractError::AlreadyHasCheckmark);
        }
        self.push_pair(checkmark_id, addr);
        Ok(())
    }

    /// Removes the assignment that `caller` holds, and hands back the
    /// identifier it held. Fails with `NoCheckmark`, changing nothing, when
    /// the caller holds none.
    pub fn delete(&mut self, caller: &String) -> (r: Result<String, ContractError>)
        requires
            old(self).wf(),
        ensures
            final(self).wf(),
            same_outcome(r, old(self).delete_outcome(caller@)),
            r matches Ok(id) ==> final(self).unassigned(old(self), id@, caller@),
            r is Err ==> *final(self) == *old(self),
    {
        match self.find_address(caller) {
            None => Err(ContractError::NoCheckmark),
            Some(i) => {
                let a = self.remove_at(i);
                Ok(a.checkmark_id)
            },
        }
    }

    /// Removes the assignment of `checkmark_id`, on behalf of the owner, and
    /// hands back the address that held it. Fails, changing nothing, when
    /// the caller is not the owner, or else when the identifier is not held.
    pub fn revoke_checkmark(
        &mut self,
        owner: &Option<String>,
        caller: &String,
        checkmark_id: &String,
    ) -> (r: Result<String, ContractError>)
        requires
            old(self).wf(),
        ensures
            final(self).wf(),
            same_outcome(
                r,
                old(self).revoke_checkmark_outcome(view_opt(*owner), caller@, checkmark_id@),
            ),
            r matches Ok(a) ==> final(self).unassigned(old(self), checkmark_id@, a@),
            r is Err ==> *final(self) == *old(self),
    {
        match check_owner(owner, caller) {
            Err(e) => {
                return Err(e);
            },
            Ok(()) => {},
        }
        match self.find_id(checkmark_id) {
            None => Err(ContractError::NoCheckmark),
            Some(i) => {
                let a = self.remove_at(i);
                Ok(a.address)
            },
        }
    }

    /// Removes the assignment that `address` holds, on behalf of the owner,
    /// and hands back the identifier it held. `address` is what the address
    /// validator made of the supplied address (`None` if it was rejected).
    /// Fails, changing nothing, when the caller is not the owner, or else
    /// when the address is invalid, or else when it holds nothing.
    pub fn revoke_address(
        &mut self,
        owner: &Option<String>,
        caller: &String,
        address: Option<String>,
    ) -> (r: Result<String, ContractError>)
        requires
            old(self).wf(),
        ensures
            final(self).wf(),
            same_outcome(
                r,
                old(self).revoke_address_outcome(view_opt(*owner), caller@, view_opt(address)),
            ),
            r matches Ok(id) ==> final(self).unassigned(old(self), id@, address->0@),
            r is Err ==> *final(self) == *old(self),
    {
        match check_owner(owner, caller) {
            Err(e) => {
                return Err(e);
            },
            Ok(()) => {},
        }
        let addr = match address {
            Some(a) => a,
            None => {
                return Err(ContractError::InvalidAddress);
            },
        };
        match self.find_address(&addr) {
            None => Err(ContractError::NoCheckmark),
            Some(i) => {
                let a = self.remove_at(i);
                Ok(a.checkmark_id)
            },
        }
    }

    /// Whether `checkmark_id` is banned.
    pub fn is_banned(&self, checkmark_id: &String) -> (r: bool)
        requires
            self.wf(),
        ensures
            r == self.banned_ids().contains(checkmark_id@),
    {
        self.find_banned(checkmark_id).is_some()
    }

    /// The position of `checkmark_id` in the ban list, if it is there.
    fn find_banned(&self, checkmark_id: &String) -> (r: Option<usize>)
        requires
            self.wf(),
        ensures
            match r {
                Some(i) => i < self.banned@.len() && self.banned@[i as int]@ == checkmark_id@,
                None => !self.banned_ids().contains(checkmark_id@),
            },
    {
        let mut i: usize = 0;
        while i < self.banned.len()
            invariant
                i <= self.banned@.len(),
                forall|j: int| 0 <= j < i ==> self.banned@[j]@ != checkmark_id@,
            decreases self.banned@.len() - i,
        {
            if self.banned[i] == *checkmark_id {
                return Some(i);
            }
            i += 1;
        }
        None
    }
}


/// The identifiers of an optional list; an absent list holds none.
pub open spec fn opt_ids(o: Option<Vec<String>>) -> Set<Seq<char>> {
    match o {
        Some(v) => id_set(v@),
        None => Set::empty(),
    }
}

/// The ban set after banning `ban` and then unbanning `unban`: an
/// identifier in both lists ends unbanned.
pub open spec fn banned_after(
    banned: Set<Seq<char>>,
    ban: Set<Seq<char>>,
    unban: Set<Seq<char>>,
) -> Set<Seq<char>> {
    banned.union(ban).difference(unban)
}

impl Registry {
    /// Bans the identifiers of `ban_ids` and then unbans those of
    /// `unban_ids`, on behalf of the owner. Banning an identifier removes
    /// its assignment if it has one. Fails, changing nothing, exactly when
    /// the caller is not the owner.
    pub fn update_checkmark_ban(
        &mut self,
        owner: &Option<String>,
        caller: &String,
        ban_ids: Option<Vec<String>>,
        unban_ids: Option<Vec<String>>,
    ) -> (r: Result<(), ContractError>)
        requires
            old(self).wf(),
        ensures
            final(self).wf(),
            same_outcome(r, owner_check(view_opt(*owner), caller@)),
            r is Ok ==> {
                &&& final(self).forward() == old(self).forward().remove_keys(opt_ids(ban_ids))
                &&& final(self).banned_ids() == banned_after(
                    old(self).banned_ids(),
                    opt_ids(ban_ids),
                    opt_ids(unban_ids),
                )
                &&& final(self).assigner_id() == old(self).assigner_id()
            },
            r is Err ==> *final(self) == *old(self),
    {
        match check_owner(owner, caller) {
            Err(e) => {
                return Err(e);
            },
            Ok(()) => {},
        }
        let ghost ban_set = opt_ids(ban_ids);
        let ghost unban_set = opt_ids(unban_ids);
        let ban = match ban_ids {
            Some(v) => v,
            None => Vec::new(),
        };
        let unban = match unban_ids {
            Some(v) => v,
            None => Vec::new(),
        };
        proof {
            assert(id_set(ban@) =~= ban_set);
            assert(id_set(unban@) =~= unban_set);
        }
        let ghost f0 = self.forward();
        let ghost b0 = self.banned_ids();
        let ghost a0 = self.assigner_id();
        proof {
            assert(ban@.subrange(0, 0) =~= Seq::<String>::empty());
            assert(id_set(Seq::<String>::empty()) =~= Set::empty());
            assert(f0.remove_keys(Set::empty()) =~= f0);
            assert(b0.union(Set::empty()) =~= b0);
        }
        let mut i: usize = 0;
        while i < ban.len()
            invariant
                self.wf(),
                i <= ban@.len(),
                self.forward() == f0.remove_keys(id_set(ban@.subrange(0, i as int))),
                self.banned_ids() == b0.union(id_set(ban@.subrange(0, i as int))),
                self.assigner_id() == a0,
            decreases ban@.len() - i,
        {
            let id = &ban[i];
            let ghost f1 = self.forward();
            match self.find_id(id) {
                Some(j) => {
                    self.remove_at(j);
                },
                None => {
                    proof {
                        assert(f1.remove(id@) =~= f1);
                    }
                },
            }
            assert(self.forward() == f1.remove(id@));
            if self.find_banned(id).is_none() {
                let ghost b1 = self.banned@;
                proof {
                    lemma_id_set_push(b1, *id);
                    assert forall|x: int, y: int|
                        0 <= x < b1.push(*id).len() && 0 <= y < b1.push(*id).len() && x
                            != y implies #[trigger] b1.push(*id)[x]@ != #[trigger] b1.push(
                        *id,
                    )[y]@ by {
                        if x == b1.len() {
                            assert(id_set(b1).contains(b1[y]@));
                        } else if y == b1.len() {
                            assert(id_set(b1).contains(b1[x]@));
                        }
                    }
                }
                self.banned.push(id.clone());
            }
            proof {
                let done = ban@.subrange(0, i as int);
                assert(ban@.subrange(0, i + 1) =~= done.push(ban@[i as int]));
                lemma_id_set_push(done, ban@[i as int]);
                assert(self.forward() =~= f0.remove_keys(id_set(ban@.subrange(0, i + 1))));
                assert(self.banned_ids() =~= b0.union(id_set(ban@.subrange(0, i + 1))));
            }
            i += 1;
        }
        proof {
            assert(ban@.subrange(0, ban@.len() as int) =~= ban@);
            assert(unban@.subrange(0, 0) =~= Seq::<String>::empty());
        }
        let ghost b2 = self.banned_ids();
        proof {
            assert(b2.difference(id_set(Seq::<String>::empty())) =~= b2);
        }
        let mut k: usize = 0;
        while k < unban.len()
            invariant
                self.wf(),
                k <= unban@.len(),
                self.forward() == f0.remove_keys(id_set(ban@)),
                self.banned_ids() == b2.difference(id_set(unban@.subrange(0, k as int))),
                self.assigner_id() == a0,
            decreases unban@.len() - k,
        {
            let id = &unban[k];
            let ghost b3 = self.banned_ids();
            match self.find_banned(id) {
                Some(j) => {
                    proof {
                        lemma_id_set_remove(self.banned@, j as int);
                    }
                    self.banned.remove(j);
                },
                None => {
                    proof {
                        assert(b3.remove(id@) =~= b3);
                    }
                },
            }
            proof {
                let done = unban@.subrange(0, k as int);
                assert(unban@.subrange(0, k + 1) =~= done.push(unban@[k as int]));
                lemma_id_set_push(done, unban@[k as int]);
                assert(self.banned_ids() =~= b2.difference(id_set(unban@.subrange(0, k + 1))));
            }
            k += 1;
        }
        proof {
            assert(unban@.subrange(0, unban@.len() as int) =~= unban@);
        }
        Ok(())
    }

    /// Replaces the assigner, on behalf of the owner. `assigner` is what the
    /// address validator made of the supplied address (`None` if it was
    /// rejected). Fails, changing nothing, when the caller is not the owner,
    /// or else when the address is invalid.
    pub fn update_assigner(
        &mut self,
        owner: &Option<String>,
        caller: &String,
        assigner: Option<String>,
    ) -> (r: Result<(), ContractError>)
        requires
            old(self).wf(),
        ensures
            final(self).wf(),
            same_outcome(r, update_assigner_outcome(view_opt(*owner), caller@, view_opt(assigner))),
            r is Ok ==> {
                &&& final(self).assigner_id() == assigner->0@
                &&& final(self).forward() == old(self).forward()
                &&& final(self).reverse() == old(self).reverse()
                &&& final(self).banned_ids() == old(self).banned_ids()
                &&& final(self).count_spec() == old(self).count_spec()
            },
            r is Err ==> *final(self) == *old(self),
    {
        match check_owner(owner, caller) {
            Err(e) => {
                return Err(e);
            },
            Ok(()) => {},
        }
        match assigner {
            None => Err(ContractError::InvalidAddress),
            Some(a) => {
                self.assigner = a;
                proof {
                    assert(self.pairs() == old(self).pairs());
                    assert(self.banned_ids() == old(self).banned_ids());
                    assert forall|id: Seq<char>| #[trigger]
                        self.banned_ids().contains(id) implies !self.forward().contains_key(id) by {
                        assert(old(self).banned_ids().contains(id));
                    }
                }
                Ok(())
            },
        }
    }

    /// The identifier that `address` holds, if any.
    pub fn get_checkmark(&self, address: &String) -> (r: Option<String>)
        requires
            self.wf(),
        ensures
            view_opt(r) == (if self.reverse().contains_key(address@) {
                Some(self.reverse()[address@])
            } else {
                None
            }),
    {
        match self.find_address(address) {
            None => None,
            Some(i) => {
                proof {
                    self.lemma_pairs_at(i as int);
                    lemma_table_at(swapped(self.pairs()), i as int);
                }
                Some(self.assignments[i].checkmark_id.clone())
            },
        }
    }

    /// The address that holds `checkmark_id`, if any.
    pub fn get_address(&self, checkmark_id: &String) -> (r: Option<String>)
        requires
            self.wf(),
        ensures
            view_opt(r) == (if self.forward().contains_key(checkmark_id@) {
                Some(self.forward()[checkmark_id@])
            } else {
                None
            }),
    {
        match self.find_id(checkmark_id) {
            None => None,
            Some(i) => {
                proof {
                    self.lemma_pairs_at(i as int);
                    lemma_table_at(self.pairs(), i as int);
                }
                Some(self.assignments[i].address.clone())
            },
        }
    }

    /// The number of assignments held.
    pub fn count(&self) -> (r: u64)
        ensures
            r == self.count_spec(),
    {
        self.assignments.len() as u64
    }

    /// The assignments, as (identifier, address) pairs, in the order they
    /// are kept.
    pub fn assignment_list(&self) -> (r: Vec<(String, String)>)
        requires
            self.wf(),
        ensures
            r@.len() == self.pairs().len(),
            forall|j: int| 0 <= j < r@.len() ==> (#[trigger] r@[j].0@, r@[j].1@) == self.pairs()[j],
    {
        let mut r: Vec<(String, String)> = Vec::new();
        let mut i: usize = 0;
        while i < self.assignments.len()
            invariant
                i <= self.assignments@.len(),
                r@.len() == i,
                forall|j: int| 0 <= j < i ==> (#[trigger] r@[j].0@, r@[j].1@) == self.pairs()[j],
            decreases self.assignments@.len() - i,
        {
            proof {
                self.lemma_pairs_at(i as int);
            }
            let a = &self.assignments[i];
            r.push((a.checkmark_id.clone(), a.address.clone()));
            i += 1;
        }
        proof {
            if self.assignments@.len() > 0 {
                self.lemma_pairs_at(0);
            }
        }
        r
    }

    /// The banned identifiers, each once.
    pub fn banned_list(&self) -> (r: Vec<String>)
        requires
            self.wf(),
        ensures
            id_set(r@) == self.banned_ids(),
            strings_distinct(r@),
    {
        let mut r: Vec<String> = Vec::new();
        let mut i: usize = 0;
        while i < self.banned.len()
            invariant
                self.wf(),
                i <= self.banned@.len(),
                r@.len() == i,
                forall|j: int| 0 <= j < i ==> #[trigger] r@[j]@ == self.banned@[j]@,
            decreases self.banned@.len() - i,
        {
            r.push(self.banned[i].clone());
            i += 1;
        }
        proof {
            assert forall|x: Seq<char>| #[trigger] id_set(r@).contains(x) <==> self.banned_ids().contains(
                x,
            ) by {
                if id_set(r@).contains(x) {
                    let j = choose|j: int| 0 <= j < r@.len() && r@[j]@ == x;
                    assert(self.banned@[j]@ == x);
                }
                if self.banned_ids().contains(x) {
                    let j = choose|j: int| 0 <= j < self.banned@.len() && self.banned@[j]@ == x;
                    assert(r@[j]@ == x);
                }
            }
            assert(id_set(r@) =~= self.banned_ids());
        }
        r
    }

    /// The address that may assign checkmarks besides the owner.
    pub fn assigner(&self) -> (r: String)
        ensures
            r@ == self.assigner_id(),
    {
        self.assigner.clone()
    }
}

/// In every well-formed state, and so after every operation, the forward
/// and reverse tables are exact inverses: an identifier maps to an address
/// exactly when that address maps back to it.
pub proof fn lemma_bijection(r: &Registry)
    requires
        r.wf(),
    ensures
        is_inverse(r.forward(), r.reverse()),
{
    lemma_tables_inverse(r.pairs());
}

/// In every well-formed state the number of assignments equals the size
/// of the forward table.
pub proof fn lemma_count_matches(r: &Registry)
    requires
        r.wf(),
    ensures
        r.forward().dom().finite(),
        r.count_spec() == r.forward().dom().len(),
{
    lemma_table_len(r.pairs());
}

/// In every well-formed state no banned identifier is assigned.
pub proof fn lemma_banned_unassigned(r: &Registry, id: Seq<char>)
    requires
        r.wf(),
        r.banned_ids().contains(id),
    ensures
        !r.forward().contains_key(id),
{
}

/// Banning an identifier that is already banned, or unbanning one that is
/// not, leaves both the ban set and the assignments as they were.
pub proof fn lemma_ban_idempotent(r: &Registry, id: Seq<char>)
    requires
        r.wf(),
    ensures
        r.banned_ids().contains(id) ==> {
            &&& banned_after(r.banned_ids(), set![id], Set::empty()) == r.banned_ids()
            &&& r.forward().remove_keys(set![id]) == r.forward()
        },
        !r.banned_ids().contains(id) ==> {
            &&& banned_after(r.banned_ids(), Set::empty(), set![id]) == r.banned_ids()
            &&& r.forward().remove_keys(Set::empty()) == r.forward()
        },
{
    let b = r.banned_ids();
    let f = r.forward();
    if b.contains(id) {
        assert(banned_after(b, set![id], Set::empty()) =~= b);
        assert(f.remove_keys(set![id]) =~= f);
    } else {
        assert(banned_after(b, Set::empty(), set![id]) =~= b);
        assert(f.remove_keys(Set::empty()) =~= f);
    }
}

} // verus!
