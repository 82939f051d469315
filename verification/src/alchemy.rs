//! The settings of the staking contract: ingredients, ingredient sets,
//! staking tables, materials and halts.
use crate::auth::{
    add_addrs_to_auth, addresses, check_admin, has_address, remove_addrs_from_auth,
    with_addresses, without_addresses, AuthLists,
};
use crate::error::EngineError;
use crate::ledger::Alchemy;
use crate::registry::{StoredLayerId, VariantIdxName};
use crate::registry_query::SkullTypePlus;
use crate::reservoir::{contains_token, has_token, ids_of};
use crate::roller::{StoredIngrSet, StoredSetWeight};
use crate::staking::{AlchemyState, IngrSetWeight, IngredientSet, StakingState, StakingTable};
use vstd::prelude::*;

verus! {

/// A list of names with more names added at its end, in order, each unless
/// the list has it already.
pub open spec fn with_names(list: Seq<String>, more: Seq<String>) -> Seq<String>
    decreases more.len(),
{
    if more.len() == 0 {
        list
    } else {
        let head = with_names(list, more.drop_last());
        if has_token(ids_of(head), more.last()@) {
            head
        } else {
            head.push(more.last())
        }
    }
}

/// The first place of a name in a list of names.
pub open spec fn name_position(names: Seq<String>, name: Seq<char>) -> Option<int>
    decreases names.len(),
{
    if names.len() == 0 {
        None
    } else if names[0]@ == name {
        Some(0)
    } else {
        match name_position(names.drop_first(), name) {
            Some(i) => Some(i + 1),
            None => None,
        }
    }
}

/// `name_position` finds the first place of the name and no other.
pub proof fn lemma_name_position(names: Seq<String>, name: Seq<char>)
    ensures
        match name_position(names, name) {
            Some(i) => 0 <= i < names.len() && names[i]@ == name && forall|k: int|
                0 <= k < i ==> names[k]@ != name,
            None => forall|k: int| 0 <= k < names.len() ==> names[k]@ != name,
        },
    decreases names.len(),
{
    if names.len() > 0 && names[0]@ != name {
        let rest = names.drop_first();
        lemma_name_position(rest, name);
        match name_position(rest, name) {
            Some(i) => {
                assert forall|k: int| 0 <= k < i + 1 implies names[k]@ != name by {
                    if k > 0 {
                        assert(rest[k - 1]@ != name);
                    }
                }
            },
            None => {
                assert forall|k: int| 0 <= k < names.len() implies names[k]@ != name by {
                    if k > 0 {
                        assert(rest[k - 1]@ != name);
                    }
                }
            },
        }
    }
}

/// The first place of a name in a list of names.
pub fn find_name(names: &Vec<String>, name: &String) -> (found: Option<usize>)
    ensures
        match found {
            Some(i) => name_position(names@, name@) == Some(i as int) && i < names@.len(),
            None => name_position(names@, name@).is_none(),
        },
{
    let mut i: usize = 0;
    while i < names.len()
        invariant
            i <= names.len(),
            forall|k: int| 0 <= k < i ==> names@[k]@ != name@,
        decreases names.len() - i,
    {
        if names[i] == *name {
            proof {
                lemma_name_position(names@, name@);
            }
            return Some(i);
        }
        i += 1;
    }
    proof {
        lemma_name_position(names@, name@);
    }
    None
}

/// The names of a list of ingredient sets.
pub open spec fn set_names(sets: Seq<StoredIngrSet>) -> Seq<String> {
    Seq::new(sets.len(), |i: int| sets[i].name)
}

/// The first ingredient set of a name.
pub fn find_set(sets: &Vec<StoredIngrSet>, name: &String) -> (found: Option<usize>)
    ensures
        match found {
            Some(i) => name_position(set_names(sets@), name@) == Some(i as int) && i < sets@.len(),
            None => name_position(set_names(sets@), name@).is_none(),
        },
{
    let mut i: usize = 0;
    while i < sets.len()
        invariant
            i <= sets.len(),
            forall|k: int| 0 <= k < i ==> set_names(sets@)[k]@ != name@,
        decreases sets.len() - i,
    {
        if sets[i].name == *name {
            proof {
                assert(set_names(sets@)[i as int]@ == name@);
                lemma_name_position(set_names(sets@), name@);
            }
            return Some(i);
        }
        i += 1;
    }
    proof {
        lemma_name_position(set_names(sets@), name@);
    }
    None
}

/// Whether a list of ingredient indices holds an index.
pub open spec fn has_member(list: Seq<u8>, member: u8) -> bool {
    exists|i: int| 0 <= i < list.len() && #[trigger] list[i] == member
}

/// The indices of the members of an ingredient set, each once, in the order
/// of the names; an unknown name is refused, and so is one beyond index 255.
pub open spec fn member_indices(ingredients: Seq<String>, members: Seq<String>) -> Result<
    Seq<u8>,
    EngineError,
>
    decreases members.len(),
{
    if members.len() == 0 {
        Ok(Seq::empty())
    } else {
        match member_indices(ingredients, members.drop_last()) {
            Err(e) => Err(e),
            Ok(head) => match name_position(ingredients, members.last()@) {
                None => Err(EngineError::UnknownName),
                Some(pos) => if pos > u8::MAX {
                    Err(EngineError::LimitExceeded)
                } else if has_member(head, pos as u8) {
                    Ok(head)
                } else {
                    Ok(head.push(pos as u8))
                },
            },
        }
    }
}

/// Ingredient sets as names and members.
pub open spec fn set_pairs(sets: Seq<StoredIngrSet>) -> Seq<(Seq<char>, Seq<u8>)> {
    Seq::new(sets.len(), |i: int| (sets[i].name@, sets[i].list@))
}

/// Whether a list of ingredient indices holds an index.
fn holds_member(list: &Vec<u8>, member: u8) -> (found: bool)
    ensures
        found == has_member(list@, member),
{
    let mut i: usize = 0;
    while i < list.len()
        invariant
            i <= list.len(),
            forall|k: int| 0 <= k < i ==> list@[k] != member,
        decreases list.len() - i,
    {
        if list[i] == member {
            return true;
        }
        i += 1;
    }
    false
}

/// The indices of the members of an ingredient set.
pub fn members_of(ingredients: &Vec<String>, members: &Vec<String>) -> (out: Result<
    Vec<u8>,
    EngineError,
>)
    ensures
        match out {
            Ok(list) => member_indices(ingredients@, members@) == Ok::<Seq<u8>, EngineError>(list@),
            Err(e) => member_indices(ingredients@, members@) == Err::<Seq<u8>, EngineError>(e),
        },
{
    let mut list: Vec<u8> = Vec::new();
    let mut i: usize = 0;
    assert(members@.subrange(0, 0) =~= Seq::<String>::empty());
    while i < members.len()
        invariant
            i <= members.len(),
            member_indices(ingredients@, members@.subrange(0, i as int)) == Ok::<
                Seq<u8>,
                EngineError,
            >(list@),
        decreases members.len() - i,
    {
        proof {
            assert(members@.subrange(0, i + 1).drop_last() =~= members@.subrange(0, i as int));
            assert(members@.subrange(0, i + 1).last() == members@[i as int]);
            lemma_members_prefix(ingredients@, members@, i + 1);
        }
        let pos = match find_name(ingredients, &members[i]) {
            Some(p) => p,
            None => {
                return Err(EngineError::UnknownName);
            },
        };
        if pos > u8::MAX as usize {
            return Err(EngineError::LimitExceeded);
        }
        if !holds_member(&list, pos as u8) {
            list.push(pos as u8);
        }
        i += 1;
    }
    assert(members@.subrange(0, members@.len() as int) =~= members@);
    Ok(list)
}

/// Where the first members of a set are refused, the set is refused in the
/// same way.
pub proof fn lemma_members_prefix(ingredients: Seq<String>, members: Seq<String>, n: int)
    requires
        0 <= n <= members.len(),
    ensures
        member_indices(ingredients, members.subrange(0, n)) matches Err(e) ==> member_indices(
            ingredients,
            members,
        ) == Err::<Seq<u8>, EngineError>(e),
    decreases members.len() - n,
{
    if n < members.len() {
        assert(members.subrange(0, n + 1).drop_last() =~= members.subrange(0, n));
        lemma_members_prefix(ingredients, members, n + 1);
    } else {
        assert(members.subrange(0, n) =~= members);
    }
}

impl Alchemy {
    /// Whether an address is an admin.
    pub open spec fn is_admin(&self, address: Seq<u8>) -> bool {
        has_address(addresses(self.admins@), address)
    }

    /// Whether `after` differs from this contract in nothing but what the
    /// settings of ingredients, sets, tables, materials and halts hold.
    pub open spec fn same_records(&self, after: Alchemy) -> bool {
        &&& after.admins == self.admins
        &&& after.prng_seed == self.prng_seed
        &&& after.skull_stakes == self.skull_stakes
        &&& after.user_stakes == self.user_stakes
        &&& after.inventories == self.inventories
    }

    /// Adds ingredients, each unless the contract knows it; for an admin.
    /// Returns the number of ingredients.
    pub fn try_add_ingredients(&mut self, sender: &Vec<u8>, ingr_to_add: &Vec<String>) -> (out:
        Result<usize, EngineError>)
        ensures
            old(self).same_records(*final(self)),
            final(self).staking == old(self).staking,
            final(self).alchemy == old(self).alchemy,
            final(self).materials == old(self).materials,
            final(self).ingr_sets == old(self).ingr_sets,
            final(self).tables == old(self).tables,
            match out {
                Ok(count) => old(self).is_admin(sender@) && final(self).ingredients@ == with_names(
                    old(self).ingredients@,
                    ingr_to_add@,
                ) && count == final(self).ingredients@.len(),
                Err(e) => e == EngineError::Unauthorized && !old(self).is_admin(sender@)
                    && *final(self) == *old(self),
            },
    {
        match check_admin(&self.admins, sender) {
            Ok(_) => {},
            Err(e) => {
                return Err(e);
            },
        }
        let mut i: usize = 0;
        assert(ingr_to_add@.subrange(0, 0) =~= Seq::<String>::empty());
        while i < ingr_to_add.len()
            invariant
                i <= ingr_to_add.len(),
                old(self).same_records(*self),
                self.staking == old(self).staking,
                self.alchemy == old(self).alchemy,
                self.materials == old(self).materials,
                self.ingr_sets == old(self).ingr_sets,
                self.tables == old(self).tables,
                self.ingredients@ == with_names(
                    old(self).ingredients@,
                    ingr_to_add@.subrange(0, i as int),
                ),
            decreases ingr_to_add.len() - i,
        {
            proof {
                assert(ingr_to_add@.subrange(0, i + 1).drop_last() =~= ingr_to_add@.subrange(
                    0,
                    i as int,
                ));
                assert(ingr_to_add@.subrange(0, i + 1).last() == ingr_to_add@[i as int]);
            }
            if !contains_token(&self.ingredients, &ingr_to_add[i]) {
                self.ingredients.push(ingr_to_add[i].clone());
            }
            i += 1;
        }
        assert(ingr_to_add@.subrange(0, ingr_to_add@.len() as int) =~= ingr_to_add@);
        Ok(self.ingredients.len())
    }

    /// Sets the seconds that a charge takes, for an admin.
    pub fn try_set_charge_time(&mut self, sender: &Vec<u8>, charge_time: u64) -> (out: Result<
        u64,
        EngineError,
    >)
        ensures
            match out {
                Ok(set) => old(self).is_admin(sender@) && set == charge_time && *final(self) == (
                Alchemy {
                    staking: StakingState { cooldown: charge_time, ..old(self).staking },
                    ..*old(self)
                }),
                Err(e) => e == EngineError::Unauthorized && !old(self).is_admin(sender@)
                    && *final(self) == *old(self),
            },
    {
        match check_admin(&self.admins, sender) {
            Ok(_) => {},
            Err(e) => {
                return Err(e);
            },
        }
        self.staking.cooldown = charge_time;
        Ok(charge_time)
    }

    /// Whether every material has a staking table.
    pub open spec fn tables_complete(&self) -> bool {
        self.tables@.len() >= self.materials@.len() && forall|m: int|
            0 <= m < self.materials@.len() ==> (#[trigger] self.tables@[m]).is_some()
    }

    /// Why the halts cannot be set, if they cannot: staking is to go on
    /// while no materials are known, or while a material has no staking
    /// table.
    pub open spec fn halt_error(&self, staking: Option<bool>) -> Option<EngineError> {
        if staking == Some(false) && self.staking.halt {
            if self.materials@.len() == 0 {
                Some(EngineError::BadInput)
            } else if !self.tables_complete() {
                Some(EngineError::MissingTable)
            } else {
                None
            }
        } else {
            None
        }
    }

    /// Halts staking or alchemy, or lets them go on; for an admin. Staking
    /// goes on only where every material has a staking table. Returns the
    /// halts of staking and of alchemy.
    #[verifier::loop_isolation(false)]
    pub fn try_set_halt(&mut self, sender: &Vec<u8>, staking: Option<bool>, alchemy: Option<bool>) -> (out:
        Result<(bool, bool), EngineError>)
        ensures
            if !old(self).is_admin(sender@) {
                out == Err::<(bool, bool), EngineError>(EngineError::Unauthorized) && *final(self)
                    == *old(self)
            } else {
                match old(self).halt_error(staking) {
                    Some(e) => out == Err::<(bool, bool), EngineError>(e) && *final(self) == *old(self),
                    None => {
                        let stk = match staking {
                            Some(h) => h,
                            None => old(self).staking.halt,
                        };
                        let alc = match alchemy {
                            Some(h) => h,
                            None => old(self).alchemy.halt,
                        };
                        out == Ok::<(bool, bool), EngineError>((stk, alc)) && *final(self) == (
                        Alchemy {
                            staking: StakingState { halt: stk, ..old(self).staking },
                            alchemy: AlchemyState { halt: alc, ..old(self).alchemy },
                            ..*old(self)
                        })
                    },
                }
            },
    {
        match check_admin(&self.admins, sender) {
            Ok(_) => {},
            Err(e) => {
                return Err(e);
            },
        }
        if let Some(stk) = staking {
            if self.staking.halt != stk && !stk {
                if self.materials.len() == 0 {
                    return Err(EngineError::BadInput);
                }
                let mut m: usize = 0;
                while m < self.materials.len()
                    invariant
                        m <= self.materials.len(),
                        *self == *old(self),
                        m <= self.tables@.len(),
                        forall|k: int| 0 <= k < m ==> (#[trigger] self.tables@[k]).is_some(),
                    decreases self.materials.len() - m,
                {
                    if m >= self.tables.len() || self.tables[m].is_none() {
                        return Err(EngineError::MissingTable);
                    }
                    m += 1;
                }
            }
        }
        if let Some(stk) = staking {
            self.staking.halt = stk;
        }
        if let Some(alc) = alchemy {
            self.alchemy.halt = alc;
        }
        Ok((self.staking.halt, self.alchemy.halt))
    }
}

/// The first set of a name in a list of sets given as names and members.
pub open spec fn pair_position(pairs: Seq<(Seq<char>, Seq<u8>)>, name: Seq<char>) -> Option<int>
    decreases pairs.len(),
{
    if pairs.len() == 0 {
        None
    } else if pairs[0].0 == name {
        Some(0)
    } else {
        match pair_position(pairs.drop_first(), name) {
            Some(i) => Some(i + 1),
            None => None,
        }
    }
}

/// `pair_position` finds the first set of the name and no other.
pub proof fn lemma_pair_position(pairs: Seq<(Seq<char>, Seq<u8>)>, name: Seq<char>)
    ensures
        match pair_position(pairs, name) {
            Some(i) => 0 <= i < pairs.len() && pairs[i].0 == name && forall|k: int|
                0 <= k < i ==> pairs[k].0 != name,
            None => forall|k: int| 0 <= k < pairs.len() ==> pairs[k].0 != name,
        },
    decreases pairs.len(),
{
    if pairs.len() > 0 && pairs[0].0 != name {
        let rest = pairs.drop_first();
        lemma_pair_position(rest, name);
        match pair_position(rest, name) {
            Some(i) => {
                assert forall|k: int| 0 <= k < i + 1 implies pairs[k].0 != name by {
                    if k > 0 {
                        assert(rest[k - 1].0 != name);
                    }
                }
            },
            None => {
                assert forall|k: int| 0 <= k < pairs.len() implies pairs[k].0 != name by {
                    if k > 0 {
                        assert(rest[k - 1].0 != name);
                    }
                }
            },
        }
    }
}

/// The sets with one defined: the set of the name has the members, or a new
/// set is added at the end.
pub open spec fn define_set(pairs: Seq<(Seq<char>, Seq<u8>)>, name: Seq<char>, list: Seq<u8>) -> Seq<
    (Seq<char>, Seq<u8>),
> {
    match pair_position(pairs, name) {
        Some(i) => pairs.update(i, (name, list)),
        None => pairs.push((name, list)),
    }
}

/// The sets after the first `n` definitions of a list, in order. A set with
/// a member that is no known ingredient is refused.
pub open spec fn define_sets(
    ingredients: Seq<String>,
    pairs: Seq<(Seq<char>, Seq<u8>)>,
    sets: Seq<IngredientSet>,
    n: int,
) -> Result<Seq<(Seq<char>, Seq<u8>)>, EngineError>
    decreases n,
{
    if n <= 0 {
        Ok(pairs)
    } else {
        match define_sets(ingredients, pairs, sets, n - 1) {
            Err(e) => Err(e),
            Ok(defined) => match member_indices(ingredients, sets[n - 1].members@) {
                Err(e) => Err(e),
                Ok(list) => Ok(define_set(defined, sets[n - 1].name@, list)),
            },
        }
    }
}

/// Where the first definitions of a list are refused, the list is refused in
/// the same way.
pub proof fn lemma_define_sets_prefix(
    ingredients: Seq<String>,
    pairs: Seq<(Seq<char>, Seq<u8>)>,
    sets: Seq<IngredientSet>,
    n: int,
    k: int,
)
    requires
        0 <= n <= k,
    ensures
        define_sets(ingredients, pairs, sets, n) matches Err(e) ==> define_sets(
            ingredients,
            pairs,
            sets,
            k,
        ) == Err::<Seq<(Seq<char>, Seq<u8>)>, EngineError>(e),
    decreases k - n,
{
    if n < k {
        lemma_define_sets_prefix(ingredients, pairs, sets, n + 1, k);
    }
}

/// A copy of a list of ingredient sets.
pub fn copy_sets(sets: &Vec<StoredIngrSet>) -> (copy: Vec<StoredIngrSet>)
    ensures
        set_pairs(copy@) == set_pairs(sets@),
{
    let mut copy: Vec<StoredIngrSet> = Vec::new();
    let mut i: usize = 0;
    while i < sets.len()
        invariant
            i <= sets.len(),
            copy@.len() == i,
            forall|k: int|
                0 <= k < i ==> (#[trigger] copy@[k]).name@ == sets@[k].name@ && copy@[k].list@
                    == sets@[k].list@,
        decreases sets.len() - i,
    {
        copy.push(
            StoredIngrSet {
                name: sets[i].name.clone(),
                list: crate::registry_edit::copy_bytes(&sets[i].list),
            },
        );
        i += 1;
    }
    assert(set_pairs(copy@) =~= set_pairs(sets@));
    copy
}

/// The first ingredient set of a name.
fn find_pair(sets: &Vec<StoredIngrSet>, name: &String) -> (found: Option<usize>)
    ensures
        match found {
            Some(i) => pair_position(set_pairs(sets@), name@) == Some(i as int) && i < sets@.len(),
            None => pair_position(set_pairs(sets@), name@).is_none(),
        },
{
    let mut i: usize = 0;
    while i < sets.len()
        invariant
            i <= sets.len(),
            forall|k: int| 0 <= k < i ==> set_pairs(sets@)[k].0 != name@,
        decreases sets.len() - i,
    {
        if sets[i].name == *name {
            proof {
                assert(set_pairs(sets@)[i as int].0 == name@);
                lemma_pair_position(set_pairs(sets@), name@);
            }
            return Some(i);
        }
        i += 1;
    }
    proof {
        lemma_pair_position(set_pairs(sets@), name@);
    }
    None
}

/// A staking table as plain values.
pub open spec fn table_views(tables: Seq<Option<Vec<StoredSetWeight>>>) -> Seq<
    Option<Seq<StoredSetWeight>>,
> {
    Seq::new(
        tables.len(),
        |i: int|
            match tables[i] {
                Some(t) => Some(t@),
                None => None,
            },
    )
}

/// Whether a staking table names a set.
pub open spec fn names_set(weights: Seq<StoredSetWeight>, set: u8) -> bool {
    exists|i: int| 0 <= i < weights.len() && (#[trigger] weights[i]).set == set
}

/// The entries of a staking table, by indices: every set must be known, and
/// none may come twice.
pub open spec fn table_entries(sets: Seq<String>, weights: Seq<IngrSetWeight>) -> Result<
    Seq<StoredSetWeight>,
    EngineError,
>
    decreases weights.len(),
{
    if weights.len() == 0 {
        Ok(Seq::empty())
    } else {
        match table_entries(sets, weights.drop_last()) {
            Err(e) => Err(e),
            Ok(head) => match name_position(sets, weights.last().ingredient_set@) {
                None => Err(EngineError::UnknownName),
                Some(pos) => if pos > u8::MAX {
                    Err(EngineError::LimitExceeded)
                } else if names_set(head, pos as u8) {
                    Err(EngineError::DuplicateName)
                } else {
                    Ok(head.push(StoredSetWeight { set: pos as u8, weight: weights.last().weight }))
                },
            },
        }
    }
}

/// Where the first entries of a table are refused, the table is refused in
/// the same way.
pub proof fn lemma_entries_prefix(sets: Seq<String>, weights: Seq<IngrSetWeight>, n: int)
    requires
        0 <= n <= weights.len(),
    ensures
        table_entries(sets, weights.subrange(0, n)) matches Err(e) ==> table_entries(sets, weights)
            == Err::<Seq<StoredSetWeight>, EngineError>(e),
    decreases weights.len() - n,
{
    if n < weights.len() {
        assert(weights.subrange(0, n + 1).drop_last() =~= weights.subrange(0, n));
        lemma_entries_prefix(sets, weights, n + 1);
    } else {
        assert(weights.subrange(0, n) =~= weights);
    }
}

/// The tables with the table of material `m` set, the list made long enough
/// for it.
pub open spec fn with_table(
    tables: Seq<Option<Seq<StoredSetWeight>>>,
    m: int,
    table: Seq<StoredSetWeight>,
) -> Seq<Option<Seq<StoredSetWeight>>> {
    Seq::new(
        if m < tables.len() {
            tables.len()
        } else {
            (m + 1) as nat
        },
        |i: int|
            if i == m {
                Some(table)
            } else if i < tables.len() {
                tables[i]
            } else {
                None
            },
    )
}

/// The tables after the first `n` tables of a list were set, in order. The
/// material of a table must be known, and so must its sets.
pub open spec fn set_tables(
    materials: Seq<String>,
    sets: Seq<String>,
    tables: Seq<Option<Seq<StoredSetWeight>>>,
    list: Seq<StakingTable>,
    n: int,
) -> Result<Seq<Option<Seq<StoredSetWeight>>>, EngineError>
    decreases n,
{
    if n <= 0 {
        Ok(tables)
    } else {
        match set_tables(materials, sets, tables, list, n - 1) {
            Err(e) => Err(e),
            Ok(done) => match name_position(materials, list[n - 1].material@) {
                None => Err(EngineError::UnknownName),
                Some(m) => if m > u8::MAX {
                    Err(EngineError::LimitExceeded)
                } else {
                    match table_entries(sets, list[n - 1].ingredient_set_weights@) {
                        Err(e) => Err(e),
                        Ok(table) => Ok(with_table(done, m, table)),
                    }
                },
            },
        }
    }
}

/// Where the first tables of a list are refused, the list is refused in the
/// same way.
pub proof fn lemma_set_tables_prefix(
    materials: Seq<String>,
    sets: Seq<String>,
    tables: Seq<Option<Seq<StoredSetWeight>>>,
    list: Seq<StakingTable>,
    n: int,
    k: int,
)
    requires
        0 <= n <= k,
    ensures
        set_tables(materials, sets, tables, list, n) matches Err(e) ==> set_tables(
            materials,
            sets,
            tables,
            list,
            k,
        ) == Err::<Seq<Option<Seq<StoredSetWeight>>>, EngineError>(e),
    decreases k - n,
{
    if n < k {
        lemma_set_tables_prefix(materials, sets, tables, list, n + 1, k);
    }
}

/// Whether a table has an entry for an ingredient set.
fn table_names_set(weights: &Vec<StoredSetWeight>, set: u8) -> (found: bool)
    ensures
        found == names_set(weights@, set),
{
    let mut i: usize = 0;
    while i < weights.len()
        invariant
            i <= weights.len(),
            forall|k: int| 0 <= k < i ==> weights@[k].set != set,
        decreases weights.len() - i,
    {
        if weights[i].set == set {
            return true;
        }
        i += 1;
    }
    false
}

/// The entries of a staking table, by indices.
pub fn entries_of(sets: &Vec<StoredIngrSet>, weights: &Vec<IngrSetWeight>) -> (out: Result<
    Vec<StoredSetWeight>,
    EngineError,
>)
    ensures
        match out {
            Ok(table) => table_entries(set_names(sets@), weights@) == Ok::<
                Seq<StoredSetWeight>,
                EngineError,
            >(table@),
            Err(e) => table_entries(set_names(sets@), weights@) == Err::<
                Seq<StoredSetWeight>,
                EngineError,
            >(e),
        },
{
    let mut table: Vec<StoredSetWeight> = Vec::new();
    let mut i: usize = 0;
    assert(weights@.subrange(0, 0) =~= Seq::<IngrSetWeight>::empty());
    while i < weights.len()
        invariant
            i <= weights.len(),
            table_entries(set_names(sets@), weights@.subrange(0, i as int)) == Ok::<
                Seq<StoredSetWeight>,
                EngineError,
            >(table@),
        decreases weights.len() - i,
    {
        proof {
            assert(weights@.subrange(0, i + 1).drop_last() =~= weights@.subrange(0, i as int));
            assert(weights@.subrange(0, i + 1).last() == weights@[i as int]);
            lemma_entries_prefix(set_names(sets@), weights@, i + 1);
        }
        let pos = match find_set(sets, &weights[i].ingredient_set) {
            Some(p) => p,
            None => {
                return Err(EngineError::UnknownName);
            },
        };
        if pos > u8::MAX as usize {
            return Err(EngineError::LimitExceeded);
        }
        if table_names_set(&table, pos as u8) {
            return Err(EngineError::DuplicateName);
        }
        table.push(StoredSetWeight { set: pos as u8, weight: weights[i].weight });
        i += 1;
    }
    assert(weights@.subrange(0, weights@.len() as int) =~= weights@);
    Ok(table)
}

/// A copy of a list of staking tables.
pub fn copy_tables(tables: &Vec<Option<Vec<StoredSetWeight>>>) -> (copy: Vec<
    Option<Vec<StoredSetWeight>>,
>)
    ensures
        table_views(copy@) == table_views(tables@),
{
    let mut copy: Vec<Option<Vec<StoredSetWeight>>> = Vec::new();
    let mut i: usize = 0;
    while i < tables.len()
        invariant
            i <= tables.len(),
            copy@.len() == i,
            forall|k: int| 0 <= k < i ==> table_views(copy@)[k] == table_views(tables@)[k],
        decreases tables.len() - i,
    {
        let entry = match &tables[i] {
            Some(t) => {
                let mut c: Vec<StoredSetWeight> = Vec::new();
                let mut j: usize = 0;
                while j < t.len()
                    invariant
                        j <= t.len(),
                        c@ =~= t@.subrange(0, j as int),
                    decreases t.len() - j,
                {
                    c.push(t[j]);
                    j += 1;
                }
                assert(t@.subrange(0, t@.len() as int) =~= t@);
                Some(c)
            },
            None => None,
        };
        copy.push(entry);
        i += 1;
    }
    assert(table_views(copy@) =~= table_views(tables@));
    copy
}

/// The names of the materials that a list of skull variants gives, by
/// index. A variant beyond the list is refused, and so is a material
/// without a name.
pub open spec fn materials_of(variants: Seq<VariantIdxName>, n: int) -> Result<
    Seq<Seq<char>>,
    EngineError,
>
    decreases n,
{
    if n <= 0 {
        Ok(Seq::new(variants.len(), |i: int| Seq::<char>::empty()))
    } else {
        match materials_of(variants, n - 1) {
            Err(e) => Err(e),
            Ok(names) => if variants[n - 1].idx >= names.len() {
                Err(EngineError::StorageCorrupt)
            } else {
                Ok(names.update(variants[n - 1].idx as int, variants[n - 1].name@))
            },
        }
    }
}

/// Whether any name of a list is empty.
pub open spec fn has_blank(names: Seq<Seq<char>>) -> bool {
    exists|i: int| 0 <= i < names.len() && (#[trigger] names[i]).len() == 0
}

/// The names of the materials are as many as the variants.
pub proof fn lemma_materials_len(variants: Seq<VariantIdxName>, n: int)
    ensures
        materials_of(variants, n) matches Ok(names) ==> names.len() == variants.len(),
    decreases n,
{
    if n > 0 {
        lemma_materials_len(variants, n - 1);
    }
}

/// Where the first variants of a list are refused, the list is refused in
/// the same way.
pub proof fn lemma_materials_prefix(variants: Seq<VariantIdxName>, n: int, k: int)
    requires
        0 <= n <= k,
    ensures
        materials_of(variants, n) matches Err(e) ==> materials_of(variants, k) == Err::<
            Seq<Seq<char>>,
            EngineError,
        >(e),
    decreases k - n,
{
    if n < k {
        lemma_materials_prefix(variants, n + 1, k);
    }
}

impl Alchemy {
    /// Defines ingredient sets, for an admin: each set takes the place of
    /// the set of its name, or is added. The members of a set must be known
    /// ingredients. Returns the number of sets. Where a set is refused,
    /// nothing changes.
    #[verifier::loop_isolation(false)]
    pub fn try_set_ingred_set(&mut self, sender: &Vec<u8>, sets: &Vec<IngredientSet>) -> (out:
        Result<usize, EngineError>)
        ensures
            old(self).same_records(*final(self)),
            final(self).staking == old(self).staking,
            final(self).alchemy == old(self).alchemy,
            final(self).materials == old(self).materials,
            final(self).ingredients == old(self).ingredients,
            final(self).tables == old(self).tables,
            if !old(self).is_admin(sender@) {
                out == Err::<usize, EngineError>(EngineError::Unauthorized) && *final(self) == *old(self)
            } else {
                match define_sets(
                    old(self).ingredients@,
                    set_pairs(old(self).ingr_sets@),
                    sets@,
                    sets@.len() as int,
                ) {
                    Ok(defined) => out == Ok::<usize, EngineError>(defined.len() as usize)
                        && set_pairs(final(self).ingr_sets@) == defined,
                    Err(e) => out == Err::<usize, EngineError>(e) && *final(self) == *old(self),
                }
            },
    {
        match check_admin(&self.admins, sender) {
            Ok(_) => {},
            Err(e) => {
                return Err(e);
            },
        }
        let mut work = copy_sets(&self.ingr_sets);
        let ghost start = set_pairs(self.ingr_sets@);
        let mut i: usize = 0;
        while i < sets.len()
            invariant
                i <= sets.len(),
                *self == *old(self),
                define_sets(self.ingredients@, start, sets@, i as int) == Ok::<
                    Seq<(Seq<char>, Seq<u8>)>,
                    EngineError,
                >(set_pairs(work@)),
            decreases sets.len() - i,
        {
            proof {
                lemma_define_sets_prefix(
                    self.ingredients@,
                    start,
                    sets@,
                    i + 1,
                    sets@.len() as int,
                );
            }
            let list = match members_of(&self.ingredients, &sets[i].members) {
                Ok(l) => l,
                Err(e) => {
                    return Err(e);
                },
            };
            let ghost before = set_pairs(work@);
            match find_pair(&work, &sets[i].name) {
                Some(p) => {
                    proof {
                        lemma_pair_position(before, sets@[i as int].name@);
                    }
                    work[p].list = list;
                    assert(set_pairs(work@) =~= before.update(
                        p as int,
                        (sets@[i as int].name@, list@),
                    ));
                },
                None => {
                    work.push(StoredIngrSet { name: sets[i].name.clone(), list });
                    assert(set_pairs(work@) =~= before.push((sets@[i as int].name@, list@)));
                },
            }
            i += 1;
        }
        let count = work.len();
        self.ingr_sets = work;
        Ok(count)
    }

    /// Sets staking tables, for an admin: each table takes the place of the
    /// table of its material. The material must be known, and so must the
    /// sets of the table, none of which may come twice. Where a table is
    /// refused, nothing changes.
    #[verifier::loop_isolation(false)]
    pub fn try_stake_tbl(&mut self, sender: &Vec<u8>, tables: &Vec<StakingTable>) -> (out: Result<
        (),
        EngineError,
    >)
        ensures
            old(self).same_records(*final(self)),
            final(self).staking == old(self).staking,
            final(self).alchemy == old(self).alchemy,
            final(self).materials == old(self).materials,
            final(self).ingredients == old(self).ingredients,
            final(self).ingr_sets == old(self).ingr_sets,
            if !old(self).is_admin(sender@) {
                out == Err::<(), EngineError>(EngineError::Unauthorized) && *final(self) == *old(self)
            } else {
                match set_tables(
                    old(self).materials@,
                    set_names(old(self).ingr_sets@),
                    table_views(old(self).tables@),
                    tables@,
                    tables@.len() as int,
                ) {
                    Ok(set) => out.is_ok() && table_views(final(self).tables@) == set,
                    Err(e) => out == Err::<(), EngineError>(e) && *final(self) == *old(self),
                }
            },
    {
        match check_admin(&self.admins, sender) {
            Ok(_) => {},
            Err(e) => {
                return Err(e);
            },
        }
        let mut work = copy_tables(&self.tables);
        let ghost start = table_views(self.tables@);
        let mut i: usize = 0;
        while i < tables.len()
            invariant
                i <= tables.len(),
                *self == *old(self),
                set_tables(
                    self.materials@,
                    set_names(self.ingr_sets@),
                    start,
                    tables@,
                    i as int,
                ) == Ok::<Seq<Option<Seq<StoredSetWeight>>>, EngineError>(table_views(work@)),
            decreases tables.len() - i,
        {
            proof {
                lemma_set_tables_prefix(
                    self.materials@,
                    set_names(self.ingr_sets@),
                    start,
                    tables@,
                    i + 1,
                    tables@.len() as int,
                );
            }
            let m = match find_name(&self.materials, &tables[i].material) {
                Some(m) => m,
                None => {
                    return Err(EngineError::UnknownName);
                },
            };
            if m > u8::MAX as usize {
                return Err(EngineError::LimitExceeded);
            }
            let table = match entries_of(&self.ingr_sets, &tables[i].ingredient_set_weights) {
                Ok(t) => t,
                Err(e) => {
                    return Err(e);
                },
            };
            let ghost before = table_views(work@);
            while work.len() <= m
                invariant
                    work@.len() <= m + 1 || work@.len() == before.len(),
                    before.len() <= work@.len(),
                    forall|k: int|
                        0 <= k < work@.len() ==> #[trigger] table_views(work@)[k] == (if k
                            < before.len() {
                            before[k]
                        } else {
                            None
                        }),
                decreases m + 1 - work.len(),
            {
                let ghost prior = table_views(work@);
                work.push(None);
                proof {
                    assert forall|k: int| 0 <= k < work@.len() implies #[trigger] table_views(
                        work@,
                    )[k] == (if k < before.len() {
                        before[k]
                    } else {
                        None
                    }) by {
                        if k < prior.len() {
                            assert(table_views(work@)[k] == prior[k]);
                        }
                    }
                }
            }
            let ghost padded = table_views(work@);
            work[m] = Some(table);
            proof {
                let want = with_table(before, m as int, table@);
                assert(table_views(work@).len() == want.len());
                assert forall|k: int| 0 <= k < want.len() implies table_views(work@)[k]
                    == want[k] by {
                    if k != m {
                        assert(table_views(work@)[k] == padded[k]);
                    }
                }
                assert(table_views(work@) =~= want);
            }
            i += 1;
        }
        self.tables = work;
        Ok(())
    }

    /// Takes over what the trait server tells of skulls: the category of the
    /// skull material, the classifying layers, and the names of the
    /// materials. Only an admin may ask for it, or the contract itself.
    #[verifier::loop_isolation(false)]
    pub fn try_get_skull_info(&mut self, sender: &Vec<u8>, self_called: bool, info: &SkullTypePlus) -> (out:
        Result<(), EngineError>)
        ensures
            old(self).same_records(*final(self)),
            final(self).ingredients == old(self).ingredients,
            final(self).ingr_sets == old(self).ingr_sets,
            final(self).tables == old(self).tables,
            if !self_called && !old(self).is_admin(sender@) {
                out == Err::<(), EngineError>(EngineError::Unauthorized) && *final(self) == *old(self)
            } else {
                match materials_of(info.skull_variants@, info.skull_variants@.len() as int) {
                    Err(e) => out == Err::<(), EngineError>(e) && *final(self) == *old(self),
                    Ok(names) => if has_blank(names) {
                        out == Err::<(), EngineError>(EngineError::BadInput) && *final(self) == *old(self)
                    } else {
                        out.is_ok() && ids_of(final(self).materials@) == names && final(self).staking == (StakingState {
                            skull_idx: info.skull_idx,
                            ..old(self).staking
                        }) && final(self).alchemy == (AlchemyState {
                            cyclops: info.cyclops,
                            jawless: info.jawless,
                            ..old(self).alchemy
                        })
                    },
                }
            },
    {
        if !self_called {
            match check_admin(&self.admins, sender) {
                Ok(_) => {},
                Err(e) => {
                    return Err(e);
                },
            }
        }
        let n = info.skull_variants.len();
        let mut materials: Vec<String> = Vec::new();
        let mut k: usize = 0;
        while k < n
            invariant
                k <= n,
                materials@.len() == k,
                forall|j: int| 0 <= j < k ==> (#[trigger] materials@[j])@.len() == 0,
            decreases n - k,
        {
            materials.push(String::new());
            k += 1;
        }
        proof {
            let blank = materials_of(info.skull_variants@, 0).unwrap();
            assert forall|j: int| 0 <= j < n implies ids_of(materials@)[j] == blank[j] by {
                assert(materials@[j]@.len() == 0);
                assert(ids_of(materials@)[j] =~= Seq::<char>::empty());
            }
            assert(ids_of(materials@) =~= blank);
        }
        let mut i: usize = 0;
        while i < n
            invariant
                i <= n,
                *self == *old(self),
                materials@.len() == n,
                materials_of(info.skull_variants@, i as int) == Ok::<Seq<Seq<char>>, EngineError>(
                    ids_of(materials@),
                ),
            decreases n - i,
        {
            proof {
                lemma_materials_prefix(info.skull_variants@, i + 1, n as int);
                lemma_materials_len(info.skull_variants@, i as int);
            }
            let idx = info.skull_variants[i].idx as usize;
            if idx >= n {
                return Err(EngineError::StorageCorrupt);
            }
            let ghost before = ids_of(materials@);
            materials[idx] = info.skull_variants[i].name.clone();
            assert(ids_of(materials@) =~= before.update(
                idx as int,
                info.skull_variants@[i as int].name@,
            ));
            i += 1;
        }
        let mut b: usize = 0;
        while b < n
            invariant
                b <= n,
                *self == *old(self),
                materials@.len() == n,
                forall|j: int| 0 <= j < b ==> (#[trigger] ids_of(materials@)[j]).len() != 0,
            decreases n - b,
        {
            if materials[b].as_str().is_empty() {
                assert(ids_of(materials@)[b as int].len() == 0);
                return Err(EngineError::BadInput);
            }
            b += 1;
        }
        self.staking.skull_idx = info.skull_idx;
        self.alchemy.cyclops = info.cyclops;
        self.alchemy.jawless = info.jawless;
        self.materials = materials;
        Ok(())
    }
}

/// The names of the members of the first `n` sets of a page; `None` where
/// a set names an ingredient that is not known.
pub open spec fn named_members(ingredients: Seq<String>, list: Seq<u8>, n: int) -> Option<
    Seq<String>,
>
    decreases n,
{
    if n <= 0 {
        Some(Seq::empty())
    } else {
        match named_members(ingredients, list, n - 1) {
            None => None,
            Some(before) => if list[n - 1] >= ingredients.len() {
                None
            } else {
                Some(before.push(ingredients[list[n - 1] as int]))
            },
        }
    }
}

/// Where the first members of a set name an unknown ingredient, so does the
/// set.
pub proof fn lemma_named_members_prefix(ingredients: Seq<String>, list: Seq<u8>, n: int, k: int)
    requires
        0 <= n <= k,
    ensures
        named_members(ingredients, list, n).is_none() ==> named_members(ingredients, list, k).is_none(),
    decreases k - n,
{
    if n < k {
        lemma_named_members_prefix(ingredients, list, n + 1, k);
    }
}

impl Alchemy {
    /// Whether every member of set `k` is a known ingredient.
    pub open spec fn members_known(&self, k: int) -> bool {
        named_members(
            self.ingredients@,
            self.ingr_sets@[k].list@,
            self.ingr_sets@[k].list@.len() as int,
        ).is_some()
    }

    /// A new staking contract, with the seed that the entropy gives.
    /// Staking and alchemy are halted; the skull material is taken to be
    /// category 2, a cyclops to have variant 1 of category 5, and a skull
    /// without a jaw variant 0 of category 3, until the trait server tells.
    /// Its creator is an admin, with the other admins named.
    pub fn instantiate(
        creator: &Vec<u8>,
        admins: &Vec<Vec<u8>>,
        charge_time: u64,
        entropy: &Vec<u8>,
    ) -> (contract: Alchemy)
        requires
            entropy@.len() <= usize::MAX / 2,
        ensures
            contract.wf(),
            contract.prng_seed@ == crate::prng::sha256(crate::prng::base64_text(entropy@)),
            addresses(contract.admins@) == with_addresses(seq![creator@], addresses(admins@)),
            contract.staking == (StakingState { halt: true, skull_idx: 2, cooldown: charge_time }),
            contract.alchemy == (AlchemyState {
                halt: true,
                cyclops: StoredLayerId { category: 5, variant: 1 },
                jawless: StoredLayerId { category: 3, variant: 0 },
            }),
            contract.materials@.len() == 0,
            contract.ingredients@.len() == 0,
            contract.ingr_sets@.len() == 0,
            contract.tables@.len() == 0,
            contract.skull_stakes@.len() == 0,
            contract.user_stakes@.len() == 0,
            contract.inventories@.len() == 0,
    {
        let lists = AuthLists::new(creator, admins);
        Alchemy {
            admins: lists.admins,
            prng_seed: crate::ledger::seed_bytes(crate::prng::initial_seed(entropy)),
            staking: StakingState { halt: true, skull_idx: 2, cooldown: charge_time },
            alchemy: AlchemyState {
                halt: true,
                cyclops: StoredLayerId { category: 5, variant: 1 },
                jawless: StoredLayerId { category: 3, variant: 0 },
            },
            materials: Vec::new(),
            ingredients: Vec::new(),
            ingr_sets: Vec::new(),
            tables: Vec::new(),
            skull_stakes: Vec::new(),
            user_stakes: Vec::new(),
            inventories: Vec::new(),
        }
    }

    /// Adds admins, or takes admins out of the list; for an admin. Returns
    /// whether the list changed.
    pub fn try_process_auth_list(&mut self, sender: &Vec<u8>, update_list: &Vec<Vec<u8>>, is_add: bool) -> (out:
        Result<bool, EngineError>)
        ensures
            match out {
                Ok(changed) => {
                    &&& old(self).is_admin(sender@)
                    &&& addresses(final(self).admins@) == (if is_add {
                        with_addresses(addresses(old(self).admins@), addresses(update_list@))
                    } else {
                        without_addresses(addresses(old(self).admins@), addresses(update_list@))
                    })
                    &&& changed == (final(self).admins@.len() != old(self).admins@.len())
                    &&& final(self).staking == old(self).staking
                    &&& final(self).alchemy == old(self).alchemy
                    &&& final(self).materials == old(self).materials
                    &&& final(self).ingredients == old(self).ingredients
                    &&& final(self).ingr_sets == old(self).ingr_sets
                    &&& final(self).tables == old(self).tables
                    &&& final(self).skull_stakes == old(self).skull_stakes
                    &&& final(self).user_stakes == old(self).user_stakes
                    &&& final(self).inventories == old(self).inventories
                },
                Err(e) => e == EngineError::Unauthorized && !old(self).is_admin(sender@)
                    && *final(self) == *old(self),
            },
    {
        match check_admin(&self.admins, sender) {
            Ok(_) => {},
            Err(e) => {
                return Err(e);
            },
        }
        if is_add {
            Ok(add_addrs_to_auth(&mut self.admins, update_list))
        } else {
            Ok(remove_addrs_from_auth(&mut self.admins, update_list))
        }
    }

    /// The materials with their indices.
    pub fn query_mater(&self) -> (shown: Vec<VariantIdxName>)
        ensures
            shown@.len() == self.materials@.len(),
            forall|i: int|
                0 <= i < shown@.len() ==> (#[trigger] shown@[i]).name == self.materials@[i]
                    && shown@[i].idx == i % 256,
    {
        let mut shown: Vec<VariantIdxName> = Vec::new();
        let mut i: usize = 0;
        while i < self.materials.len()
            invariant
                i <= self.materials.len(),
                shown@.len() == i,
                forall|k: int|
                    0 <= k < i ==> (#[trigger] shown@[k]).name == self.materials@[k]
                        && shown@[k].idx == k % 256,
            decreases self.materials.len() - i,
        {
            shown.push(VariantIdxName { idx: (i % 256) as u8, name: self.materials[i].clone() });
            i += 1;
        }
        shown
    }

    /// A page of the ingredient sets, by names: `page_size` sets (else 30)
    /// from the start of page `page` (else the first), or as many as are
    /// left.
    #[verifier::loop_isolation(false)]
    pub fn query_ingr_sets(&self, page: Option<u16>, page_size: Option<u16>) -> (out: Result<
        Vec<IngredientSet>,
        EngineError,
    >)
        ensures
            ({
                let limit = match page_size {
                    Some(l) => l as int,
                    None => 30,
                };
                let start = (match page {
                    Some(p) => p as int,
                    None => 0,
                }) * limit;
                let end = crate::registry_query::page_end(
                    start,
                    limit,
                    self.ingr_sets@.len() as int,
                );
                if forall|k: int| start <= k < end ==> self.members_known(k) {
                    out matches Ok(shown) && shown@.len() == (if start < end {
                        end - start
                    } else {
                        0
                    }) && forall|k: int|
                        0 <= k < shown@.len() ==> (#[trigger] shown@[k]).name
                            == self.ingr_sets@[start + k].name && named_members(
                            self.ingredients@,
                            self.ingr_sets@[start + k].list@,
                            self.ingr_sets@[start + k].list@.len() as int,
                        ) == Some(shown@[k].members@)
                } else {
                    out == Err::<Vec<IngredientSet>, EngineError>(EngineError::StorageCorrupt)
                }
            }),
    {
        let limit: u32 = match page_size {
            Some(l) => l as u32,
            None => 30,
        };
        let page: u32 = match page {
            Some(p) => p as u32,
            None => 0,
        };
        assert(page * limit <= 65535 * 65535) by (nonlinear_arith)
            requires
                page <= 65535,
                limit <= 65535,
        ;
        let start: u64 = (page * limit) as u64;
        let total: u64 = self.ingr_sets.len() as u64;
        let end: u64 = if start + (limit as u64) < total {
            start + limit as u64
        } else {
            total
        };
        let mut shown: Vec<IngredientSet> = Vec::new();
        let mut idx: u64 = start;
        while idx < end
            invariant
                end <= self.ingr_sets@.len(),
                self.ingr_sets@.len() <= usize::MAX,
                start <= idx,
                start < end ==> idx <= end,
                start >= end ==> idx == start,
                shown@.len() == idx - start,
                forall|k: int| start <= k < idx ==> self.members_known(k),
                forall|k: int|
                    0 <= k < shown@.len() ==> (#[trigger] shown@[k]).name
                        == self.ingr_sets@[start + k].name && named_members(
                        self.ingredients@,
                        self.ingr_sets@[start + k].list@,
                        self.ingr_sets@[start + k].list@.len() as int,
                    ) == Some(shown@[k].members@),
            decreases end - idx,
        {
            let set = &self.ingr_sets[idx as usize];
            let mut members: Vec<String> = Vec::new();
            let mut m: usize = 0;
            while m < set.list.len()
                invariant
                    m <= set.list.len(),
                    named_members(self.ingredients@, set.list@, m as int) == Some(members@),
                decreases set.list.len() - m,
            {
                let i = set.list[m] as usize;
                proof {
                    lemma_named_members_prefix(
                        self.ingredients@,
                        set.list@,
                        m + 1,
                        set.list@.len() as int,
                    );
                }
                if i >= self.ingredients.len() {
                    assert(!self.members_known(idx as int));
                    return Err(EngineError::StorageCorrupt);
                }
                members.push(self.ingredients[i].clone());
                m += 1;
            }
            assert(self.members_known(idx as int));
            shown.push(IngredientSet { name: set.name.clone(), members });
            idx += 1;
        }
        Ok(shown)
    }
}

} // verus!
