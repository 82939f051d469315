//! Lists of addresses that are allowed to do something.
use crate::error::EngineError;
use crate::registry_edit::copy_bytes;
use crate::text::bytes_eq;
use vstd::prelude::*;

verus! {

/// The lists of addresses that a contract keeps.
#[derive(Clone, Copy, Debug, PartialEq, Eq, Structural)]
pub enum AddrType {
    Admin,
    Viewer,
    Minter,
}

/// The addresses of a list, as plain values.
pub open spec fn addresses(list: Seq<Vec<u8>>) -> Seq<Seq<u8>> {
    Seq::new(list.len(), |i: int| list[i]@)
}

/// Whether a list of addresses holds an address.
pub open spec fn has_address(list: Seq<Seq<u8>>, address: Seq<u8>) -> bool {
    exists|i: int| 0 <= i < list.len() && #[trigger] list[i] == address
}

/// A list with more addresses added at its end, in order, each unless the
/// list has it already.
pub open spec fn with_addresses(list: Seq<Seq<u8>>, more: Seq<Seq<u8>>) -> Seq<Seq<u8>>
    decreases more.len(),
{
    if more.len() == 0 {
        list
    } else {
        let head = with_addresses(list, more.drop_last());
        if has_address(head, more.last()) {
            head
        } else {
            head.push(more.last())
        }
    }
}

/// A list without the addresses of another list, the rest in their order.
pub open spec fn without_addresses(list: Seq<Seq<u8>>, less: Seq<Seq<u8>>) -> Seq<Seq<u8>>
    decreases list.len(),
{
    if list.len() == 0 {
        Seq::empty()
    } else {
        let head = without_addresses(list.drop_last(), less);
        if has_address(less, list.last()) {
            head
        } else {
            head.push(list.last())
        }
    }
}

/// Whether a list of addresses holds an address.
pub fn contains_address(list: &Vec<Vec<u8>>, address: &Vec<u8>) -> (found: bool)
    ensures
        found == has_address(addresses(list@), address@),
{
    let mut i: usize = 0;
    while i < list.len()
        invariant
            i <= list.len(),
            forall|k: int| 0 <= k < i ==> addresses(list@)[k] != address@,
        decreases list.len() - i,
    {
        if bytes_eq(&list[i], address) {
            assert(addresses(list@)[i as int] == address@);
            return true;
        }
        i += 1;
    }
    false
}

/// Adds addresses to a list, each unless the list has it already. Returns
/// whether the list changed.
pub fn add_addrs_to_auth(list: &mut Vec<Vec<u8>>, addrs_to_add: &Vec<Vec<u8>>) -> (changed: bool)
    ensures
        addresses(final(list)@) == with_addresses(addresses(old(list)@), addresses(addrs_to_add@)),
        changed == (final(list)@.len() != old(list)@.len()),
        final(list)@.len() >= old(list)@.len(),
{
    let mut changed = false;
    let mut i: usize = 0;
    let ghost start = addresses(list@);
    let ghost more = addresses(addrs_to_add@);
    assert(more.subrange(0, 0) =~= Seq::<Seq<u8>>::empty());
    while i < addrs_to_add.len()
        invariant
            i <= addrs_to_add.len(),
            more == addresses(addrs_to_add@),
            start == addresses(old(list)@),
            addresses(list@) == with_addresses(start, more.subrange(0, i as int)),
            list@.len() >= old(list)@.len(),
            changed == (list@.len() != old(list)@.len()),
        decreases addrs_to_add.len() - i,
    {
        let ghost head = addresses(list@);
        proof {
            assert(more.subrange(0, i + 1).drop_last() =~= more.subrange(0, i as int));
            assert(more.subrange(0, i + 1).last() == addrs_to_add@[i as int]@);
        }
        if !contains_address(list, &addrs_to_add[i]) {
            list.push(copy_bytes(&addrs_to_add[i]));
            changed = true;
            assert(addresses(list@) =~= head.push(addrs_to_add@[i as int]@));
        }
        i += 1;
    }
    assert(more.subrange(0, more.len() as int) =~= more);
    changed
}

/// Takes addresses out of a list. Returns whether the list changed.
pub fn remove_addrs_from_auth(list: &mut Vec<Vec<u8>>, addrs_to_remove: &Vec<Vec<u8>>) -> (changed:
    bool)
    ensures
        addresses(final(list)@) == without_addresses(
            addresses(old(list)@),
            addresses(addrs_to_remove@),
        ),
        changed == (final(list)@.len() != old(list)@.len()),
        final(list)@.len() <= old(list)@.len(),
{
    let ghost start = addresses(list@);
    let ghost less = addresses(addrs_to_remove@);
    let mut kept: Vec<Vec<u8>> = Vec::new();
    let mut i: usize = 0;
    assert(start.subrange(0, 0) =~= Seq::<Seq<u8>>::empty());
    assert(addresses(kept@) =~= Seq::<Seq<u8>>::empty());
    while i < list.len()
        invariant
            i <= list.len(),
            list@ == old(list)@,
            start == addresses(list@),
            less == addresses(addrs_to_remove@),
            kept@.len() <= i,
            addresses(kept@) == without_addresses(start.subrange(0, i as int), less),
        decreases list.len() - i,
    {
        let ghost head = addresses(kept@);
        proof {
            assert(start.subrange(0, i + 1).drop_last() =~= start.subrange(0, i as int));
            assert(start.subrange(0, i + 1).last() == list@[i as int]@);
        }
        if !contains_address(addrs_to_remove, &list[i]) {
            kept.push(copy_bytes(&list[i]));
            assert(addresses(kept@) =~= head.push(list@[i as int]@));
        }
        i += 1;
    }
    assert(start.subrange(0, start.len() as int) =~= start);
    let changed = kept.len() != list.len();
    *list = kept;
    changed
}

/// Refuses an address that is not on a list of admins.
pub fn check_admin(admins: &Vec<Vec<u8>>, address: &Vec<u8>) -> (allowed: Result<(), EngineError>)
    ensures
        allowed.is_ok() == has_address(addresses(admins@), address@),
        allowed matches Err(e) ==> e == EngineError::Unauthorized,
{
    if contains_address(admins, address) {
        Ok(())
    } else {
        Err(EngineError::Unauthorized)
    }
}

/// The admins, viewers and minters of a contract.
#[derive(Clone, Debug, PartialEq, Eq)]
pub struct AuthLists {
    pub admins: Vec<Vec<u8>>,
    pub viewers: Vec<Vec<u8>>,
    pub minters: Vec<Vec<u8>>,
}

impl AuthLists {
    /// The lists of a new contract: its creator is an admin, with the other
    /// admins named at its creation; there are no viewers and no minters.
    pub fn new(creator: &Vec<u8>, admins: &Vec<Vec<u8>>) -> (lists: AuthLists)
        ensures
            addresses(lists.admins@) == with_addresses(seq![creator@], addresses(admins@)),
            lists.viewers@.len() == 0,
            lists.minters@.len() == 0,
    {
        let mut list: Vec<Vec<u8>> = Vec::new();
        list.push(copy_bytes(creator));
        assert(addresses(list@) =~= seq![creator@]);
        add_addrs_to_auth(&mut list, admins);
        AuthLists { admins: list, viewers: Vec::new(), minters: Vec::new() }
    }

    /// Whether an address is an admin.
    pub open spec fn is_admin(&self, address: Seq<u8>) -> bool {
        has_address(addresses(self.admins@), address)
    }

    /// Whether an address may read token metadata: viewers, minters and
    /// admins may.
    pub open spec fn may_read(&self, address: Seq<u8>) -> bool {
        has_address(addresses(self.viewers@), address) || has_address(
            addresses(self.minters@),
            address,
        ) || has_address(addresses(self.admins@), address)
    }

    /// Whether an address may read token metadata.
    pub fn can_read(&self, address: &Vec<u8>) -> (allowed: bool)
        ensures
            allowed == self.may_read(address@),
    {
        contains_address(&self.viewers, address) || contains_address(&self.minters, address)
            || contains_address(&self.admins, address)
    }

    /// The list of a kind.
    pub open spec fn list(&self, kind: AddrType) -> Seq<Seq<u8>> {
        match kind {
            AddrType::Admin => addresses(self.admins@),
            AddrType::Viewer => addresses(self.viewers@),
            AddrType::Minter => addresses(self.minters@),
        }
    }

    /// Adds addresses to one of the lists, or takes them out of it. Only an
    /// admin may. Returns whether the list changed.
    pub fn process_auth_list(
        &mut self,
        sender: &Vec<u8>,
        update_list: &Vec<Vec<u8>>,
        is_add: bool,
        list: AddrType,
    ) -> (out: Result<bool, EngineError>)
        ensures
            match out {
                Ok(changed) => {
                    &&& old(self).is_admin(sender@)
                    &&& final(self).list(list) == (if is_add {
                        with_addresses(old(self).list(list), addresses(update_list@))
                    } else {
                        without_addresses(old(self).list(list), addresses(update_list@))
                    })
                    &&& changed == (final(self).list(list).len() != old(self).list(list).len())
                    &&& list != AddrType::Admin ==> final(self).admins == old(self).admins
                    &&& list != AddrType::Viewer ==> final(self).viewers == old(self).viewers
                    &&& list != AddrType::Minter ==> final(self).minters == old(self).minters
                },
                Err(e) => e == EngineError::Unauthorized && !old(self).is_admin(sender@)
                    && *final(self) == *old(self),
            },
    {
        if !contains_address(&self.admins, sender) {
            return Err(EngineError::Unauthorized);
        }
        let changed = match list {
            AddrType::Admin => if is_add {
                add_addrs_to_auth(&mut self.admins, update_list)
            } else {
                remove_addrs_from_auth(&mut self.admins, update_list)
            },
            AddrType::Viewer => if is_add {
                add_addrs_to_auth(&mut self.viewers, update_list)
            } else {
                remove_addrs_from_auth(&mut self.viewers, update_list)
            },
            AddrType::Minter => if is_add {
                add_addrs_to_auth(&mut self.minters, update_list)
            } else {
                remove_addrs_from_auth(&mut self.minters, update_list)
            },
        };
        Ok(changed)
    }
}

} // verus!
