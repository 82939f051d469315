//! What the staking contract tells a user: charges, bonus eligibility,
//! inventory and staking tables.
use crate::alchemy::{find_name, name_position, set_names};
use crate::error::EngineError;
use crate::ledger::{find_record, record_position, stake_records, Alchemy, StakeRecord};
use crate::ownership::{owned_spec, skull_pairs, verify_ownership, ImageAnswer, OwnedSkull};
use crate::reservoir::{contains_token, has_token, ids_of};
use crate::roller::StoredSetWeight;
use crate::staking::{
    accrued, accrued_charges, cooled_down, has_cooled_down, user_position, ChargeInfo,
    EligibilityInfo, IngrSetWeight, IngredientQty, StakingTable,
};
use crate::text::bytes_eq;
use vstd::prelude::*;

verus! {

/// What a user stakes and holds.
#[derive(Clone, Debug, PartialEq, Eq)]
pub struct MyStaking {
    /// Whether the user can still earn the first-stake bonus.
    pub first_stake_bonus_available: bool,
    /// The charges of the skulls that the user stakes and owns.
    pub charge_infos: Vec<ChargeInfo>,
    /// What the user holds of each ingredient.
    pub inventory: Vec<IngredientQty>,
    /// Whether staking is halted.
    pub staking_is_halted: bool,
}

/// What a user holds of each ingredient: the inventory, brought to the
/// number of ingredients.
pub open spec fn shown_inventory(ingredients: Seq<String>, held: Seq<u32>) -> Seq<IngredientQty> {
    Seq::new(
        ingredients.len(),
        |i: int|
            IngredientQty {
                ingredient: ingredients[i],
                quantity: if i < held.len() {
                    held[i]
                } else {
                    0
                },
            },
    )
}

/// The charges of the first `n` skulls of a list that a user stakes: a skull
/// counts where its stake record names the user.
pub open spec fn my_charges(
    records: Seq<StakeRecord>,
    skulls: Seq<OwnedSkull>,
    n: int,
    user: Seq<u8>,
    now: u64,
    cooldown: u64,
) -> Seq<ChargeInfo>
    decreases n,
{
    if n <= 0 {
        Seq::empty()
    } else {
        let before = my_charges(records, skulls, n - 1, user, now, cooldown);
        match record_position(records, skulls[n - 1].id@) {
            Some(i) => if records[i].info.addr == user {
                before.push(
                    ChargeInfo {
                        token_id: skulls[n - 1].id,
                        charge_start: records[i].info.stake,
                        charges: accrued(now, records[i].info.stake, cooldown),
                    },
                )
            } else {
                before
            },
            None => if user.len() == 0 {
                before.push(
                    ChargeInfo {
                        token_id: skulls[n - 1].id,
                        charge_start: 0,
                        charges: accrued(now, 0, cooldown),
                    },
                )
            } else {
                before
            },
        }
    }
}

/// Whether each of the first `n` tokens of a list may earn the first-stake
/// bonus. Nothing is known of a token that the user does not own; a token
/// that was never staked may; any other may once a cooldown has passed since
/// it last gave a reward.
pub open spec fn eligibility(
    records: Seq<StakeRecord>,
    not_owned: Seq<String>,
    tokens: Seq<String>,
    n: int,
    now: u64,
    cooldown: u64,
) -> Seq<EligibilityInfo>
    decreases n,
{
    if n <= 0 {
        Seq::empty()
    } else {
        let before = eligibility(records, not_owned, tokens, n - 1, now, cooldown);
        let token = tokens[n - 1];
        if has_token(ids_of(not_owned), token@) {
            before.push(EligibilityInfo { token_id: token, is_eligible: None, claimed_at: None })
        } else {
            let claim = match record_position(records, token@) {
                Some(i) => records[i].info.claim,
                None => 0,
            };
            if cooled_down(now, claim, cooldown) {
                before.push(
                    EligibilityInfo { token_id: token, is_eligible: Some(true), claimed_at: None },
                )
            } else {
                before.push(
                    EligibilityInfo {
                        token_id: token,
                        is_eligible: Some(false),
                        claimed_at: Some(claim),
                    },
                )
            }
        }
    }
}

/// The entries of a staking table, by names; where an entry names no known
/// set, `None`.
pub open spec fn named_entries(sets: Seq<String>, table: Seq<StoredSetWeight>, n: int) -> Option<
    Seq<IngrSetWeight>,
>
    decreases n,
{
    if n <= 0 {
        Some(Seq::empty())
    } else {
        match named_entries(sets, table, n - 1) {
            None => None,
            Some(before) => if table[n - 1].set >= sets.len() {
                None
            } else {
                Some(
                    before.push(
                        IngrSetWeight {
                            ingredient_set: sets[table[n - 1].set as int],
                            weight: table[n - 1].weight,
                        },
                    ),
                )
            },
        }
    }
}

/// Where the first entries of a table name an unknown set, so does the
/// table.
pub proof fn lemma_named_prefix(sets: Seq<String>, table: Seq<StoredSetWeight>, n: int, k: int)
    requires
        0 <= n <= k,
    ensures
        named_entries(sets, table, n).is_none() ==> named_entries(sets, table, k).is_none(),
    decreases k - n,
{
    if n < k {
        lemma_named_prefix(sets, table, n + 1, k);
    }
}

/// The material that a query names: the one of the name, else the one of
/// the index.
pub open spec fn asked_material(materials: Seq<String>, by_name: &Option<String>, by_index: Option<u8>) -> Result<
    int,
    EngineError,
> {
    match by_name {
        Some(name) => match name_position(materials, name@) {
            Some(m) => Ok(m),
            None => Err(EngineError::UnknownName),
        },
        None => match by_index {
            Some(i) => Ok(i as int),
            None => Err(EngineError::BadInput),
        },
    }
}

impl Alchemy {
    /// What a user holds of each ingredient.
    pub fn display_inventory(&self, user: &Vec<u8>) -> (shown: Vec<IngredientQty>)
        ensures
            shown@ == shown_inventory(self.ingredients@, self.holdings(user@)),
    {
        let held = self.inventory(user);
        let mut shown: Vec<IngredientQty> = Vec::new();
        let mut i: usize = 0;
        while i < self.ingredients.len()
            invariant
                i <= self.ingredients.len(),
                shown@.len() == i,
                forall|k: int|
                    0 <= k < i ==> shown@[k] == shown_inventory(self.ingredients@, held@)[k],
            decreases self.ingredients.len() - i,
        {
            let quantity = if i < held.len() {
                held[i]
            } else {
                0
            };
            shown.push(IngredientQty { ingredient: self.ingredients[i].clone(), quantity });
            i += 1;
        }
        assert(shown@ =~= shown_inventory(self.ingredients@, held@));
        shown
    }

    /// Whether a user can still earn the first-stake bonus: a user who has
    /// never staked can.
    pub fn query_user_bonus(&self, user: &Vec<u8>) -> (eligible: bool)
        ensures
            eligible == user_position(self.user_stakes@, user@).is_none(),
    {
        crate::staking::find_user(&self.user_stakes, user).is_none()
    }

    /// What a user stakes and holds. `answers` holds what the token contract
    /// says of each token of the user's staking list. While staking is
    /// halted no charges are shown.
    pub fn query_my_stake(&self, user: &Vec<u8>, user_addr: &String, answers: &Vec<ImageAnswer>, now: u64) -> (out:
        MyStaking)
        ensures
            out.first_stake_bonus_available == user_position(self.user_stakes@, user@).is_none(),
            out.staking_is_halted == self.staking.halt,
            out.inventory@ == shown_inventory(self.ingredients@, self.holdings(user@)),
            out.charge_infos@ == (if self.staking.halt {
                Seq::empty()
            } else {
                my_charges(
                    stake_records(self.skull_stakes@),
                    owned_spec(user_addr@, answers@).0,
                    owned_spec(user_addr@, answers@).0.len() as int,
                    user@,
                    now,
                    self.staking.cooldown,
                )
            }),
    {
        let first = crate::staking::find_user(&self.user_stakes, user).is_none();
        let mut charge_infos: Vec<ChargeInfo> = Vec::new();
        if !self.staking.halt {
            let (owned, _) = verify_ownership(user_addr, answers);
            let ghost records = stake_records(self.skull_stakes@);
            let mut i: usize = 0;
            while i < owned.len()
                invariant
                    i <= owned.len(),
                    records == stake_records(self.skull_stakes@),
                    charge_infos@ == my_charges(
                        records,
                        skull_pairs(owned@),
                        i as int,
                        user@,
                        now,
                        self.staking.cooldown,
                    ),
                decreases owned.len() - i,
            {
                let skull = &owned[i];
                assert(skull_pairs(owned@)[i as int].id == skull.id);
                match find_record(&self.skull_stakes, &skull.id) {
                    Some(r) => {
                        let info = &self.skull_stakes[r].info;
                        assert(records[r as int].info == info.model());
                        if bytes_eq(&info.addr, user) {
                            charge_infos.push(
                                ChargeInfo {
                                    token_id: skull.id.clone(),
                                    charge_start: info.stake,
                                    charges: accrued_charges(now, info.stake, self.staking.cooldown),
                                },
                            );
                        }
                    },
                    None => {
                        if user.len() == 0 {
                            charge_infos.push(
                                ChargeInfo {
                                    token_id: skull.id.clone(),
                                    charge_start: 0,
                                    charges: accrued_charges(now, 0, self.staking.cooldown),
                                },
                            );
                        }
                    },
                }
                i += 1;
            }
        }
        MyStaking {
            first_stake_bonus_available: first,
            charge_infos,
            inventory: self.display_inventory(user),
            staking_is_halted: self.staking.halt,
        }
    }

    /// Whether a user, and each token of a list, may earn the first-stake
    /// bonus. `answers` holds what the token contract says of each token.
    /// Where the user may not, nothing is said of the tokens.
    pub fn query_token_bonus(
        &self,
        user: &Vec<u8>,
        user_addr: &String,
        token_ids: &Vec<String>,
        answers: &Vec<ImageAnswer>,
        now: u64,
    ) -> (out: (bool, Vec<EligibilityInfo>))
        ensures
            out.0 == user_position(self.user_stakes@, user@).is_none(),
            out.1@ == (if out.0 {
                eligibility(
                    stake_records(self.skull_stakes@),
                    owned_spec(user_addr@, answers@).1,
                    token_ids@,
                    token_ids@.len() as int,
                    now,
                    self.staking.cooldown,
                )
            } else {
                Seq::empty()
            }),
    {
        let eligible = crate::staking::find_user(&self.user_stakes, user).is_none();
        let mut infos: Vec<EligibilityInfo> = Vec::new();
        if eligible {
            let (_, not_owned) = verify_ownership(user_addr, answers);
            let ghost records = stake_records(self.skull_stakes@);
            let mut i: usize = 0;
            while i < token_ids.len()
                invariant
                    i <= token_ids.len(),
                    records == stake_records(self.skull_stakes@),
                    infos@ == eligibility(
                        records,
                        not_owned@,
                        token_ids@,
                        i as int,
                        now,
                        self.staking.cooldown,
                    ),
                decreases token_ids.len() - i,
            {
                let token = &token_ids[i];
                if contains_token(&not_owned, token) {
                    infos.push(
                        EligibilityInfo {
                            token_id: token.clone(),
                            is_eligible: None,
                            claimed_at: None,
                        },
                    );
                } else {
                    let claim = match find_record(&self.skull_stakes, token) {
                        Some(r) => {
                            assert(records[r as int].info == self.skull_stakes@[r as int].info.model());
                            self.skull_stakes[r].info.claim
                        },
                        None => 0,
                    };
                    if has_cooled_down(now, claim, self.staking.cooldown) {
                        infos.push(
                            EligibilityInfo {
                                token_id: token.clone(),
                                is_eligible: Some(true),
                                claimed_at: None,
                            },
                        );
                    } else {
                        infos.push(
                            EligibilityInfo {
                                token_id: token.clone(),
                                is_eligible: Some(false),
                                claimed_at: Some(claim),
                            },
                        );
                    }
                }
                i += 1;
            }
        }
        (eligible, infos)
    }

    /// The staking table of a material, by names. The material is the one of
    /// the name, else the one of the index.
    #[verifier::loop_isolation(false)]
    pub fn query_stk_tbl(&self, by_name: &Option<String>, by_index: Option<u8>) -> (out: Result<
        StakingTable,
        EngineError,
    >)
        ensures
            match asked_material(self.materials@, by_name, by_index) {
                Err(e) => out == Err::<StakingTable, EngineError>(e),
                Ok(m) => {
                    let shown: Option<Seq<IngrSetWeight>> = if m < self.tables@.len() && m
                        < self.materials@.len() {
                        match self.tables@[m] {
                            Some(table) => named_entries(
                                set_names(self.ingr_sets@),
                                table@,
                                table@.len() as int,
                            ),
                            None => None,
                        }
                    } else {
                        None
                    };
                    match shown {
                        Some(weights) => out matches Ok(t) && t.material == self.materials@[m]
                            && t.ingredient_set_weights@ == weights,
                        None => out == Err::<StakingTable, EngineError>(
                            EngineError::StorageCorrupt,
                        ),
                    }
                },
            },
    {
        let m: usize = match by_name {
            Some(name) => match find_name(&self.materials, name) {
                Some(m) => m,
                None => {
                    return Err(EngineError::UnknownName);
                },
            },
            None => match by_index {
                Some(i) => i as usize,
                None => {
                    return Err(EngineError::BadInput);
                },
            },
        };
        if m >= self.tables.len() || m >= self.materials.len() {
            return Err(EngineError::StorageCorrupt);
        }
        let table = match &self.tables[m] {
            Some(t) => t,
            None => {
                return Err(EngineError::StorageCorrupt);
            },
        };
        let ghost names = set_names(self.ingr_sets@);
        let mut weights: Vec<IngrSetWeight> = Vec::new();
        let mut i: usize = 0;
        while i < table.len()
            invariant
                i <= table.len(),
                named_entries(names, table@, i as int) == Some(weights@),
            decreases table.len() - i,
        {
            let entry = table[i];
            proof {
                lemma_named_prefix(names, table@, i + 1, table@.len() as int);
            }
            if entry.set as usize >= self.ingr_sets.len() {
                return Err(EngineError::StorageCorrupt);
            }
            weights.push(
                IngrSetWeight {
                    ingredient_set: self.ingr_sets[entry.set as usize].name.clone(),
                    weight: entry.weight,
                },
            );
            i += 1;
        }
        Ok(StakingTable { material: self.materials[m].clone(), ingredient_set_weights: weights })
    }
}

} // verus!
