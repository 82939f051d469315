//! The staking ledger: which skulls a user stakes, since when, and the
//! charges they have accrued.
use crate::registry::StoredLayerId;
use crate::text::bytes_eq;
use vstd::prelude::*;

verus! {

/// The most skulls that a user stakes at a time.
pub const MAX_STAKED: usize = 5;

/// The most charges that a skull holds.
pub const MAX_CHARGES: u64 = 4;

/// The settings of staking.
#[derive(Clone, Copy, Debug, PartialEq, Eq, Structural)]
pub struct StakingState {
    /// Whether staking is halted.
    pub halt: bool,
    /// The category whose variant is the material of a skull.
    pub skull_idx: u8,
    /// The seconds that a charge takes.
    pub cooldown: u64,
}

/// The settings of alchemy.
#[derive(Clone, Copy, Debug, PartialEq, Eq, Structural)]
pub struct AlchemyState {
    /// Whether alchemy is halted.
    pub halt: bool,
    /// The layer that makes a skull a cyclops.
    pub cyclops: StoredLayerId,
    /// The layer that leaves a skull without a jaw.
    pub jawless: StoredLayerId,
}

/// Who stakes a skull, and since when.
#[derive(Clone, Debug, PartialEq, Eq)]
pub struct SkullStakeInfo {
    /// The user who stakes the skull.
    pub addr: Vec<u8>,
    /// When the charges of the skull started to accrue.
    pub stake: u64,
    /// When the skull last gave a reward.
    pub claim: u64,
}

/// The stake record of a skull.
#[derive(Clone, Debug, PartialEq, Eq)]
pub struct SkullStake {
    pub token_id: String,
    pub info: SkullStakeInfo,
}

/// The skulls that a user stakes.
#[derive(Clone, Debug, PartialEq, Eq)]
pub struct UserStake {
    pub user: Vec<u8>,
    pub tokens: Vec<String>,
}

/// The ingredients that a user holds, by ingredient index.
#[derive(Clone, Debug, PartialEq, Eq)]
pub struct UserInventory {
    pub user: Vec<u8>,
    pub quantities: Vec<u32>,
}

/// The charges of a staked skull.
#[derive(Clone, Debug, PartialEq, Eq)]
pub struct ChargeInfo {
    pub token_id: String,
    /// When the charges started to accrue.
    pub charge_start: u64,
    /// How many charges have accrued.
    pub charges: u8,
}

/// An ingredient and how much there is of it.
#[derive(Clone, Debug, PartialEq, Eq)]
pub struct IngredientQty {
    pub ingredient: String,
    pub quantity: u32,
}

/// A named set of ingredients, by their names.
#[derive(Clone, Debug, PartialEq, Eq)]
pub struct IngredientSet {
    pub name: String,
    pub members: Vec<String>,
}

/// An ingredient set of a staking table, by its name, and its weight.
#[derive(Clone, Debug, PartialEq, Eq)]
pub struct IngrSetWeight {
    pub ingredient_set: String,
    pub weight: u16,
}

/// The staking table of a material, by names.
#[derive(Clone, Debug, PartialEq, Eq)]
pub struct StakingTable {
    pub material: String,
    pub ingredient_set_weights: Vec<IngrSetWeight>,
}

/// Whether a token may earn the first-stake bonus, and if not, when it last
/// gave a reward. Both are unknown of a token that the user does not own.
#[derive(Clone, Debug, PartialEq, Eq)]
pub struct EligibilityInfo {
    pub token_id: String,
    pub is_eligible: Option<bool>,
    pub claimed_at: Option<u64>,
}

/// A skull that its owner sent: its token id and the material it is made of,
/// which is the variant that its natural image has in the skull category.
#[derive(Clone, Debug, PartialEq, Eq)]
pub struct IdImage {
    pub id: String,
    pub natural: Vec<u8>,
}

/// A stake record as plain values.
pub struct StakeModel {
    pub addr: Seq<u8>,
    pub stake: u64,
    pub claim: u64,
}

impl SkullStakeInfo {
    /// The record as plain values.
    pub open spec fn model(self) -> StakeModel {
        StakeModel { addr: self.addr@, stake: self.stake, claim: self.claim }
    }
}

/// The charges that a skull has accrued: one for each cooldown since its
/// charges started, and no more than four.
pub open spec fn accrued(now: u64, stake: u64, cooldown: u64) -> u8 {
    if now <= stake || cooldown == 0 {
        0
    } else if (now - stake) / (cooldown as int) >= MAX_CHARGES {
        MAX_CHARGES as u8
    } else {
        ((now - stake) / (cooldown as int)) as u8
    }
}

/// The charges that a skull has accrued.
pub fn accrued_charges(now: u64, stake: u64, cooldown: u64) -> (charges: u8)
    ensures
        charges == accrued(now, stake, cooldown),
        charges <= MAX_CHARGES,
{
    if now <= stake || cooldown == 0 {
        return 0;
    }
    let periods = (now - stake) / cooldown;
    if periods >= MAX_CHARGES {
        MAX_CHARGES as u8
    } else {
        periods as u8
    }
}

/// Whether a skull that last gave a reward at `claim` may give the
/// first-stake bonus at `now`: a full cooldown must have passed.
pub open spec fn cooled_down(now: u64, claim: u64, cooldown: u64) -> bool {
    claim + cooldown <= now
}

/// Whether a full cooldown has passed since a skull last gave a reward.
pub fn has_cooled_down(now: u64, claim: u64, cooldown: u64) -> (cooled: bool)
    ensures
        cooled == cooled_down(now, claim, cooldown),
{
    claim as u128 + cooldown as u128 <= now as u128
}

/// The first entry of a user in a list of users' stakes.
pub open spec fn user_position(users: Seq<UserStake>, user: Seq<u8>) -> Option<int>
    decreases users.len(),
{
    if users.len() == 0 {
        None
    } else if users[0].user@ == user {
        Some(0)
    } else {
        match user_position(users.drop_first(), user) {
            Some(i) => Some(i + 1),
            None => None,
        }
    }
}

/// `user_position` finds the first entry of the user and no other.
pub proof fn lemma_user_position(users: Seq<UserStake>, user: Seq<u8>)
    ensures
        match user_position(users, user) {
            Some(i) => 0 <= i < users.len() && users[i].user@ == user && forall|k: int|
                0 <= k < i ==> users[k].user@ != user,
            None => forall|k: int| 0 <= k < users.len() ==> users[k].user@ != user,
        },
    decreases users.len(),
{
    if users.len() > 0 && users[0].user@ != user {
        let rest = users.drop_first();
        lemma_user_position(rest, user);
        match user_position(rest, user) {
            Some(i) => {
                assert forall|k: int| 0 <= k < i + 1 implies users[k].user@ != user by {
                    if k > 0 {
                        assert(rest[k - 1].user@ != user);
                    }
                }
            },
            None => {
                assert forall|k: int| 0 <= k < users.len() implies users[k].user@ != user by {
                    if k > 0 {
                        assert(rest[k - 1].user@ != user);
                    }
                }
            },
        }
    }
}

/// The first entry of a user in a list of inventories.
pub open spec fn inventory_position(inventories: Seq<UserInventory>, user: Seq<u8>) -> Option<int>
    decreases inventories.len(),
{
    if inventories.len() == 0 {
        None
    } else if inventories[0].user@ == user {
        Some(0)
    } else {
        match inventory_position(inventories.drop_first(), user) {
            Some(i) => Some(i + 1),
            None => None,
        }
    }
}

/// `inventory_position` finds the first entry of the user and no other.
pub proof fn lemma_inventory_position(inventories: Seq<UserInventory>, user: Seq<u8>)
    ensures
        match inventory_position(inventories, user) {
            Some(i) => 0 <= i < inventories.len() && inventories[i].user@ == user && forall|k: int|
                0 <= k < i ==> inventories[k].user@ != user,
            None => forall|k: int| 0 <= k < inventories.len() ==> inventories[k].user@ != user,
        },
    decreases inventories.len(),
{
    if inventories.len() > 0 && inventories[0].user@ != user {
        let rest = inventories.drop_first();
        lemma_inventory_position(rest, user);
        match inventory_position(rest, user) {
            Some(i) => {
                assert forall|k: int| 0 <= k < i + 1 implies inventories[k].user@ != user by {
                    if k > 0 {
                        assert(rest[k - 1].user@ != user);
                    }
                }
            },
            None => {
                assert forall|k: int| 0 <= k < inventories.len() implies inventories[k].user@
                    != user by {
                    if k > 0 {
                        assert(rest[k - 1].user@ != user);
                    }
                }
            },
        }
    }
}

/// The first entry of a user in a list of users' stakes.
pub fn find_user(users: &Vec<UserStake>, user: &Vec<u8>) -> (found: Option<usize>)
    ensures
        match found {
            Some(i) => user_position(users@, user@) == Some(i as int) && i < users@.len(),
            None => user_position(users@, user@).is_none(),
        },
{
    let mut i: usize = 0;
    while i < users.len()
        invariant
            i <= users.len(),
            forall|k: int| 0 <= k < i ==> users@[k].user@ != user@,
        decreases users.len() - i,
    {
        if bytes_eq(&users[i].user, user) {
            proof {
                lemma_user_position(users@, user@);
            }
            return Some(i);
        }
        i += 1;
    }
    proof {
        lemma_user_position(users@, user@);
    }
    None
}

/// The first entry of a user in a list of inventories.
pub fn find_inventory(inventories: &Vec<UserInventory>, user: &Vec<u8>) -> (found: Option<usize>)
    ensures
        match found {
            Some(i) => inventory_position(inventories@, user@) == Some(i as int) && i
                < inventories@.len(),
            None => inventory_position(inventories@, user@).is_none(),
        },
{
    let mut i: usize = 0;
    while i < inventories.len()
        invariant
            i <= inventories.len(),
            forall|k: int| 0 <= k < i ==> inventories@[k].user@ != user@,
        decreases inventories.len() - i,
    {
        if bytes_eq(&inventories[i].user, user) {
            proof {
                lemma_inventory_position(inventories@, user@);
            }
            return Some(i);
        }
        i += 1;
    }
    proof {
        lemma_inventory_position(inventories@, user@);
    }
    None
}

/// The charges of a skull never exceed four, however long it was staked.
pub proof fn lemma_charges_capped(now: u64, stake: u64, cooldown: u64)
    ensures
        accrued(now, stake, cooldown) <= 4,
{
}

} // verus!
