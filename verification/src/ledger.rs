//! Staking and claiming: how the stake records change when a user stakes
//! skulls or claims their charges, and what the user earns.
use crate::error::EngineError;
use crate::ownership::{
    owned_spec, skull_ids, skull_pairs, verify_ownership, ImageAnswer, OwnedSkull,
};
use crate::prng::{extend_entropy, extended_entropy, Prng, PrngModel};
use crate::registry_edit::copy_bytes;
use crate::reservoir::{distinct, ids_of};
use crate::roller::{gen_resources, gen_resources_spec, StoredIngrSet, StoredSetWeight};
use crate::staking::{
    accrued, accrued_charges, cooled_down, find_inventory, find_user, has_cooled_down,
    inventory_position, lemma_inventory_position, lemma_user_position, user_position,
    AlchemyState, ChargeInfo, IdImage, IngredientQty, SkullStake, SkullStakeInfo, StakeModel,
    StakingState, UserInventory, UserStake, MAX_STAKED,
};
use crate::text::bytes_eq;
use vstd::prelude::*;

verus! {

/// A stake record as plain values, with the token it is of.
pub struct StakeRecord {
    pub token: Seq<char>,
    pub info: StakeModel,
}

/// A list of stake records as plain values.
pub open spec fn stake_records(stakes: Seq<SkullStake>) -> Seq<StakeRecord> {
    Seq::new(
        stakes.len(),
        |i: int| StakeRecord { token: stakes[i].token_id@, info: stakes[i].info.model() },
    )
}

/// The first record of a token.
pub open spec fn record_position(records: Seq<StakeRecord>, token: Seq<char>) -> Option<int>
    decreases records.len(),
{
    if records.len() == 0 {
        None
    } else if records[0].token == token {
        Some(0)
    } else {
        match record_position(records.drop_first(), token) {
            Some(i) => Some(i + 1),
            None => None,
        }
    }
}

/// `record_position` finds the first record of the token and no other.
pub proof fn lemma_record_position(records: Seq<StakeRecord>, token: Seq<char>)
    ensures
        match record_position(records, token) {
            Some(i) => 0 <= i < records.len() && records[i].token == token && forall|k: int|
                0 <= k < i ==> records[k].token != token,
            None => forall|k: int| 0 <= k < records.len() ==> records[k].token != token,
        },
    decreases records.len(),
{
    if records.len() > 0 && records[0].token != token {
        let rest = records.drop_first();
        lemma_record_position(rest, token);
        match record_position(rest, token) {
            Some(i) => {
                assert forall|k: int| 0 <= k < i + 1 implies records[k].token != token by {
                    if k > 0 {
                        assert(rest[k - 1].token != token);
                    }
                }
            },
            None => {
                assert forall|k: int| 0 <= k < records.len() implies records[k].token != token by {
                    if k > 0 {
                        assert(rest[k - 1].token != token);
                    }
                }
            },
        }
    }
}

/// The stake record of a token; where it has none, the record of a skull
/// that `user` starts to stake at `now`.
pub open spec fn record_of(records: Seq<StakeRecord>, token: Seq<char>, user: Seq<u8>, now: u64) -> StakeModel {
    match record_position(records, token) {
        Some(i) => records[i].info,
        None => StakeModel { addr: user, stake: now, claim: 0 },
    }
}

/// The records with the record of a token replaced, or added at the end
/// where the token had none.
pub open spec fn upsert(records: Seq<StakeRecord>, token: Seq<char>, info: StakeModel) -> Seq<
    StakeRecord,
> {
    match record_position(records, token) {
        Some(i) => records.update(i, StakeRecord { token, info }),
        None => records.push(StakeRecord { token, info }),
    }
}

/// Whether no token has two records.
pub open spec fn one_record_each(records: Seq<StakeRecord>) -> bool {
    forall|i: int, j: int|
        0 <= i < j < records.len() ==> (#[trigger] records[i]).token != (#[trigger] records[j]).token
}

/// Replacing or adding the record of a token leaves no token with two
/// records.
pub proof fn lemma_upsert(records: Seq<StakeRecord>, token: Seq<char>, info: StakeModel)
    requires
        one_record_each(records),
    ensures
        one_record_each(upsert(records, token, info)),
        record_position(upsert(records, token, info), token).is_some(),
        record_of(upsert(records, token, info), token, Seq::empty(), 0) == info,
{
    lemma_record_position(records, token);
    let after = upsert(records, token, info);
    assert forall|i: int, j: int| 0 <= i < j < after.len() implies (#[trigger] after[i]).token != (
    #[trigger] after[j]).token by {
        match record_position(records, token) {
            Some(p) => {
                assert(after[i].token == records[i].token);
                assert(after[j].token == records[j].token);
            },
            None => {
                assert(after[i] == records[i]);
                if j < records.len() {
                    assert(after[j] == records[j]);
                }
            },
        }
    }
    lemma_record_position(after, token);
    match record_position(records, token) {
        Some(p) => {
            assert(after[p].token == token);
            let q = record_position(after, token).unwrap();
            if q < p {
                assert(after[q].token == records[q].token);
            }
        },
        None => {
            assert(after[records.len() as int].token == token);
            let q = record_position(after, token).unwrap();
            if q < records.len() {
                assert(after[q] == records[q]);
            }
        },
    }
}

/// The material of a skull: the variant that its natural image has in the
/// skull category, which must be one of the known materials.
pub open spec fn material_of(natural: Seq<u8>, skull_idx: u8, materials: nat) -> Result<
    int,
    EngineError,
> {
    if skull_idx >= natural.len() {
        Err(EngineError::ImageTooShort)
    } else if natural[skull_idx as int] >= materials {
        Err(EngineError::StorageCorrupt)
    } else {
        Ok(natural[skull_idx as int] as int)
    }
}

/// What staking has come to after some of the skulls.
pub struct SetProgress {
    /// The stake records.
    pub records: Seq<StakeRecord>,
    /// The bonus charges, by material.
    pub charges: Seq<u8>,
    /// The charges of the skulls staked so far.
    pub infos: Seq<ChargeInfo>,
}

/// Staking one more skull at `now`. Where the user stakes for the first
/// time (`first`) and the skull has cooled down, the skull earns one bonus
/// charge of its material and counts as claimed now. A skull that another
/// user staked starts anew.
pub open spec fn set_step(
    p: SetProgress,
    skull: OwnedSkull,
    user: Seq<u8>,
    now: u64,
    staking: StakingState,
    first: bool,
) -> Result<SetProgress, EngineError> {
    let record = record_of(p.records, skull.id@, user, now);
    let bonus = first && cooled_down(now, record.claim, staking.cooldown);
    let charged: Result<Seq<u8>, EngineError> = if bonus {
        match material_of(skull.natural, staking.skull_idx, p.charges.len()) {
            Err(e) => Err(e),
            Ok(m) => if p.charges[m] == u8::MAX {
                Err(EngineError::LimitExceeded)
            } else {
                Ok(p.charges.update(m, (p.charges[m] + 1) as u8))
            },
        }
    } else {
        Ok(p.charges)
    };
    match charged {
        Err(e) => Err(e),
        Ok(charges) => {
            let claim = if bonus {
                now
            } else {
                record.claim
            };
            let moved = record.addr != user;
            let stake = if moved {
                now
            } else {
                record.stake
            };
            Ok(
                SetProgress {
                    records: upsert(
                        p.records,
                        skull.id@,
                        StakeModel { addr: user, stake, claim },
                    ),
                    charges,
                    infos: p.infos.push(
                        ChargeInfo {
                            token_id: skull.id,
                            charge_start: stake,
                            charges: accrued(now, stake, staking.cooldown),
                        },
                    ),
                },
            )
        },
    }
}

/// Staking the first `n` skulls of a list, in order.
pub open spec fn set_steps(
    start: SetProgress,
    skulls: Seq<OwnedSkull>,
    n: int,
    user: Seq<u8>,
    now: u64,
    staking: StakingState,
    first: bool,
) -> Result<SetProgress, EngineError>
    decreases n,
{
    if n <= 0 {
        Ok(start)
    } else {
        match set_steps(start, skulls, n - 1, user, now, staking, first) {
            Err(e) => Err(e),
            Ok(p) => set_step(p, skulls[n - 1], user, now, staking, first),
        }
    }
}

/// What claiming has come to after some of the skulls.
pub struct ClaimProgress {
    /// The stake records.
    pub records: Seq<StakeRecord>,
    /// The charges claimed, by material.
    pub charges: Seq<u8>,
    /// The skulls with charges, by material.
    pub quantities: Seq<u8>,
    /// The skulls that the user still stakes.
    pub infos: Seq<ChargeInfo>,
}

/// The start of the charge that a skull is accruing at `now`: the charges
/// before it are complete.
pub open spec fn maturity(now: u64, stake: u64, cooldown: u64) -> u64 {
    (now - ((now - stake) % (cooldown as int))) as u64
}

/// Claiming the charges of one more skull at `now`. A skull that another
/// user stakes is passed over. A skull with charges adds them to the charges
/// of its material, counts as one more skull of that material, and starts
/// its next charge where the last complete one ended.
pub open spec fn claim_step(
    p: ClaimProgress,
    skull: OwnedSkull,
    user: Seq<u8>,
    now: u64,
    staking: StakingState,
) -> Result<ClaimProgress, EngineError> {
    let record = record_of(p.records, skull.id@, user, now);
    if record.addr != user {
        Ok(p)
    } else {
        let earned = accrued(now, record.stake, staking.cooldown);
        if earned == 0 {
            Ok(
                ClaimProgress {
                    infos: p.infos.push(
                        ChargeInfo { token_id: skull.id, charge_start: record.stake, charges: 0 },
                    ),
                    ..p
                },
            )
        } else {
            match material_of(skull.natural, staking.skull_idx, p.charges.len()) {
                Err(e) => Err(e),
                Ok(m) => if m >= p.quantities.len() || p.quantities[m] == u8::MAX || p.charges[m]
                    + earned > u8::MAX {
                    Err(EngineError::LimitExceeded)
                } else {
                    let start = maturity(now, record.stake, staking.cooldown);
                    Ok(
                        ClaimProgress {
                            records: upsert(
                                p.records,
                                skull.id@,
                                StakeModel { addr: record.addr, stake: start, claim: start },
                            ),
                            charges: p.charges.update(m, (p.charges[m] + earned) as u8),
                            quantities: p.quantities.update(m, (p.quantities[m] + 1) as u8),
                            infos: p.infos.push(
                                ChargeInfo { token_id: skull.id, charge_start: start, charges: 0 },
                            ),
                        },
                    )
                },
            }
        }
    }
}

/// Claiming the charges of the first `n` skulls of a list, in order.
pub open spec fn claim_steps(
    start: ClaimProgress,
    skulls: Seq<OwnedSkull>,
    n: int,
    user: Seq<u8>,
    now: u64,
    staking: StakingState,
) -> Result<ClaimProgress, EngineError>
    decreases n,
{
    if n <= 0 {
        Ok(start)
    } else {
        match claim_steps(start, skulls, n - 1, user, now, staking) {
            Err(e) => Err(e),
            Ok(p) => claim_step(p, skulls[n - 1], user, now, staking),
        }
    }
}

/// Whether any material has a charge.
pub open spec fn any_charge(charges: Seq<u8>) -> bool {
    exists|i: int| 0 <= i < charges.len() && #[trigger] charges[i] > 0
}

/// The first `n` entries of an inventory with what was generated added to
/// them. What the inventory lacks counts as nothing.
pub open spec fn credited_upto(inventory: Seq<u32>, generated: Seq<u32>, n: int) -> Result<
    Seq<u32>,
    EngineError,
>
    decreases n,
{
    if n <= 0 {
        Ok(Seq::empty())
    } else {
        match credited_upto(inventory, generated, n - 1) {
            Err(e) => Err(e),
            Ok(head) => if n - 1 < inventory.len() {
                if inventory[n - 1] + generated[n - 1] > u32::MAX {
                    Err(EngineError::LimitExceeded)
                } else {
                    Ok(head.push((inventory[n - 1] + generated[n - 1]) as u32))
                }
            } else {
                Ok(head.push(generated[n - 1]))
            },
        }
    }
}

/// An inventory with what was generated added to it. The inventory is
/// brought to the number of ingredients: what it lacks counts as nothing.
pub open spec fn credited(inventory: Seq<u32>, generated: Seq<u32>) -> Result<
    Seq<u32>,
    EngineError,
> {
    credited_upto(inventory, generated, generated.len() as int)
}

/// Where crediting the first entries fails, crediting more of them fails in
/// the same way.
pub proof fn lemma_credited_prefix(inventory: Seq<u32>, generated: Seq<u32>, n: int, k: int)
    requires
        0 <= n <= k,
    ensures
        credited_upto(inventory, generated, n) matches Err(e) ==> credited_upto(
            inventory,
            generated,
            k,
        ) == Err::<Seq<u32>, EngineError>(e),
    decreases k - n,
{
    if n < k {
        lemma_credited_prefix(inventory, generated, n + 1, k);
    }
}

/// The rewards among the first `n` ingredients: every ingredient of which
/// something was generated, with how much.
pub open spec fn rewards_of(ingredients: Seq<String>, generated: Seq<u32>, n: int) -> Seq<
    IngredientQty,
>
    decreases n,
{
    if n <= 0 {
        Seq::empty()
    } else {
        let before = rewards_of(ingredients, generated, n - 1);
        if generated[n - 1] > 0 {
            before.push(
                IngredientQty { ingredient: ingredients[n - 1], quantity: generated[n - 1] },
            )
        } else {
            before
        }
    }
}

/// A refusal that names no token.
pub fn refused(error: EngineError) -> (refusal: StakeRefusal)
    ensures
        refusal.error == error,
        refusal.not_owned@.len() == 0,
{
    StakeRefusal { error, not_owned: Vec::new() }
}

/// The bytes of a seed as a list.
pub fn seed_bytes(seed: [u8; 32]) -> (bytes: Vec<u8>)
    ensures
        bytes@ == seed@,
{
    let mut bytes: Vec<u8> = Vec::new();
    let mut b: usize = 0;
    while b < 32
        invariant
            b <= 32,
            bytes@ =~= seed@.subrange(0, b as int),
        decreases 32 - b,
    {
        bytes.push(seed[b]);
        b += 1;
    }
    assert(seed@.subrange(0, 32) =~= seed@);
    bytes
}

/// A copy of a list of stake records.
pub fn copy_stakes(stakes: &Vec<SkullStake>) -> (copy: Vec<SkullStake>)
    ensures
        stake_records(copy@) == stake_records(stakes@),
{
    let mut copy: Vec<SkullStake> = Vec::new();
    let mut i: usize = 0;
    while i < stakes.len()
        invariant
            i <= stakes.len(),
            copy@.len() == i,
            forall|k: int|
                0 <= k < i ==> (#[trigger] copy@[k]).token_id@ == stakes@[k].token_id@
                    && copy@[k].info.model() == stakes@[k].info.model(),
        decreases stakes.len() - i,
    {
        let s = &stakes[i];
        copy.push(
            SkullStake {
                token_id: s.token_id.clone(),
                info: SkullStakeInfo {
                    addr: copy_bytes(&s.info.addr),
                    stake: s.info.stake,
                    claim: s.info.claim,
                },
            },
        );
        i += 1;
    }
    assert(stake_records(copy@) =~= stake_records(stakes@));
    copy
}

/// The first record of a token in a list of stake records.
pub fn find_record(stakes: &Vec<SkullStake>, token_id: &String) -> (found: Option<usize>)
    ensures
        match found {
            Some(i) => record_position(stake_records(stakes@), token_id@) == Some(i as int) && i
                < stakes@.len(),
            None => record_position(stake_records(stakes@), token_id@).is_none(),
        },
{
    let mut i: usize = 0;
    while i < stakes.len()
        invariant
            i <= stakes.len(),
            forall|k: int| 0 <= k < i ==> stake_records(stakes@)[k].token != token_id@,
        decreases stakes.len() - i,
    {
        if stakes[i].token_id == *token_id {
            proof {
                assert(stake_records(stakes@)[i as int].token == token_id@);
                lemma_record_position(stake_records(stakes@), token_id@);
            }
            return Some(i);
        }
        i += 1;
    }
    proof {
        lemma_record_position(stake_records(stakes@), token_id@);
    }
    None
}

/// Replaces the record of a token, or adds it where the token has none.
pub fn save_record(stakes: &mut Vec<SkullStake>, token_id: &String, info: SkullStakeInfo)
    ensures
        stake_records(final(stakes)@) == upsert(
            stake_records(old(stakes)@),
            token_id@,
            info.model(),
        ),
{
    let ghost before = stake_records(stakes@);
    match find_record(stakes, token_id) {
        Some(i) => {
            proof {
                lemma_record_position(before, token_id@);
                assert(before[i as int].token == stakes@[i as int].token_id@);
            }
            stakes[i].info = info;
            assert(stake_records(stakes@) =~= before.update(
                i as int,
                StakeRecord { token: token_id@, info: info.model() },
            ));
        },
        None => {
            stakes.push(SkullStake { token_id: token_id.clone(), info });
            assert(stake_records(stakes@) =~= before.push(
                StakeRecord { token: token_id@, info: info.model() },
            ));
        },
    }
}

/// The staking side of the alchemy contract: its settings, what it knows of
/// materials and ingredients, and its records.
#[derive(Clone, Debug, PartialEq, Eq)]
pub struct Alchemy {
    /// Who may change the settings.
    pub admins: Vec<Vec<u8>>,
    /// The seed of the next roll of rewards.
    pub prng_seed: Vec<u8>,
    pub staking: StakingState,
    pub alchemy: AlchemyState,
    /// The names of the skull materials, by material index.
    pub materials: Vec<String>,
    /// The names of the ingredients, by ingredient index.
    pub ingredients: Vec<String>,
    /// The ingredient sets, by set index.
    pub ingr_sets: Vec<StoredIngrSet>,
    /// The staking tables, by material index.
    pub tables: Vec<Option<Vec<StoredSetWeight>>>,
    /// The stake record of each skull that was ever staked.
    pub skull_stakes: Vec<SkullStake>,
    /// The skulls that each user stakes.
    pub user_stakes: Vec<UserStake>,
    /// The ingredients of each user.
    pub inventories: Vec<UserInventory>,
}

/// What a user earned, and the charges of the skulls that the user stakes.
#[derive(Clone, Debug, PartialEq, Eq)]
pub struct StakeOutcome {
    pub charge_infos: Vec<ChargeInfo>,
    pub rewards: Vec<IngredientQty>,
}

/// What staking or claiming leaves behind.
pub struct LedgerChange {
    /// The stake records.
    pub records: Seq<StakeRecord>,
    /// The charges of the skulls that the user stakes; their tokens are the
    /// user's new staking list.
    pub infos: Seq<ChargeInfo>,
    /// What the user earned.
    pub rewards: Seq<IngredientQty>,
    /// The inventory of the user, where the user earned anything.
    pub inventory: Option<Seq<u32>>,
    /// The seed that the roller left, where it rolled.
    pub seed: Option<Seq<u8>>,
}

/// Why staking was refused, and the tokens that a refusal names.
#[derive(Clone, Debug, PartialEq, Eq)]
pub struct StakeRefusal {
    pub error: EngineError,
    /// The tokens that the user sent and does not own, where that is why
    /// staking was refused; else empty.
    pub not_owned: Vec<String>,
}

/// The tokens that a refusal of staking names: those that the user sent and
/// does not own, once each in the order sent, where the refusal is
/// `NotOwned`; none for another refusal.
pub open spec fn named_tokens(
    error: EngineError,
    user_addr: Seq<char>,
    answers: Seq<ImageAnswer>,
) -> Seq<Seq<char>> {
    if error == EngineError::NotOwned {
        ids_of(owned_spec(user_addr, answers).1)
    } else {
        Seq::empty()
    }
}

/// The generator of a roll of rewards: it is made of the seed that the
/// contract keeps and of what the message brings.
pub open spec fn roller_of(
    seed: Seq<u8>,
    block_height: u64,
    now: u64,
    user: Seq<u8>,
    entropy: Seq<u8>,
) -> PrngModel {
    PrngModel { seed, entropy: extended_entropy(block_height, now, user, entropy), pos: 0 }
}

/// The skulls that a user stakes, where the user ever staked.
pub open spec fn list_of(users: Seq<UserStake>, user: Seq<u8>) -> Option<Seq<Seq<char>>> {
    match user_position(users, user) {
        Some(i) => Some(ids_of(users[i].tokens@)),
        None => None,
    }
}

/// Whether no user stakes a skull twice.
pub open spec fn stakes_once(users: Seq<UserStake>) -> bool {
    forall|user: Seq<u8>|
        (#[trigger] list_of(users, user)).is_some() ==> distinct(list_of(users, user).unwrap())
}

/// The inventory of a user, where the user has one.
pub open spec fn inventory_of(inventories: Seq<UserInventory>, user: Seq<u8>) -> Option<Seq<u32>> {
    match inventory_position(inventories, user) {
        Some(i) => Some(inventories[i].quantities@),
        None => None,
    }
}

/// The tokens of a list of charges.
pub open spec fn charge_tokens(infos: Seq<ChargeInfo>) -> Seq<Seq<char>> {
    Seq::new(infos.len(), |i: int| infos[i].token_id@)
}

/// A list of zeros.
pub open spec fn zeros(n: nat) -> Seq<u8> {
    Seq::new(n, |i: int| 0u8)
}

/// What the charges earn a user: the ingredients that the roller generates
/// go to the user's inventory, and each of which there is any is a reward.
pub open spec fn earned(
    a: Alchemy,
    prng: PrngModel,
    charges: Seq<u8>,
    quantities: Seq<u8>,
    inventory: Seq<u32>,
) -> Result<(Seq<u32>, Seq<IngredientQty>), EngineError> {
    match gen_resources_spec(
        prng,
        a.tables@,
        a.ingr_sets@,
        charges,
        quantities,
        a.ingredients@.len(),
    ) {
        Err(e) => Err(e),
        Ok((generated, _)) => match credited(inventory, generated) {
            Err(e) => Err(e),
            Ok(inv) => Ok((inv, rewards_of(a.ingredients@, generated, generated.len() as int))),
        },
    }
}

/// The seed that a roll of rewards leaves: the 32 bytes that its generator
/// gives after the draws of the roller.
pub open spec fn seed_after(a: Alchemy, prng: PrngModel, charges: Seq<u8>, quantities: Seq<u8>) -> Seq<
    u8,
> {
    match gen_resources_spec(
        prng,
        a.tables@,
        a.ingr_sets@,
        charges,
        quantities,
        a.ingredients@.len(),
    ) {
        Ok((_, after)) => after.peek_bytes(),
        Err(_) => a.prng_seed@,
    }
}

impl Alchemy {
    /// The invariant of the ledger: no skull has two stake records, and no
    /// user stakes a skull twice.
    pub open spec fn wf(&self) -> bool {
        &&& one_record_each(stake_records(self.skull_stakes@))
        &&& stakes_once(self.user_stakes@)
    }

    /// The inventory of a user; empty where the user has none.
    pub open spec fn holdings(&self, user: Seq<u8>) -> Seq<u32> {
        match inventory_of(self.inventories@, user) {
            Some(inv) => inv,
            None => Seq::empty(),
        }
    }

    /// What staking gives. `answers` holds, for each token that the user
    /// sent, what the token contract says of it; the block height and the
    /// entropy go into the generator of the roller, with the time and the
    /// user.
    pub open spec fn set_stake_spec(
        &self,
        user: Seq<u8>,
        user_addr: Seq<char>,
        answers: Seq<ImageAnswer>,
        now: u64,
        block_height: u64,
        entropy: Seq<u8>,
    ) -> Result<LedgerChange, EngineError> {
        let (owned, not_owned) = owned_spec(user_addr, answers);
        let first = user_position(self.user_stakes@, user).is_none();
        if self.staking.halt {
            Err(EngineError::Halted)
        } else if answers.len() > MAX_STAKED {
            Err(EngineError::ListTooLong)
        } else if not_owned.len() > 0 {
            Err(EngineError::NotOwned)
        } else if first && answers.len() == 0 {
            Err(EngineError::EmptyFirstStake)
        } else {
            let start = SetProgress {
                records: stake_records(self.skull_stakes@),
                charges: zeros(self.materials@.len()),
                infos: Seq::empty(),
            };
            match set_steps(start, owned, owned.len() as int, user, now, self.staking, first) {
                Err(e) => Err(e),
                Ok(p) => if any_charge(p.charges) {
                    let prng = roller_of(self.prng_seed@, block_height, now, user, entropy);
                    match earned(*self, prng, p.charges, p.charges, self.holdings(user)) {
                        Err(e) => Err(e),
                        Ok((inventory, rewards)) => Ok(
                            LedgerChange {
                                records: p.records,
                                infos: p.infos,
                                rewards,
                                inventory: Some(inventory),
                                seed: Some(seed_after(*self, prng, p.charges, p.charges)),
                            },
                        ),
                    }
                } else if first {
                    Err(EngineError::NoEligibleBonus)
                } else {
                    Ok(
                        LedgerChange {
                            records: p.records,
                            infos: p.infos,
                            rewards: Seq::empty(),
                            inventory: None,
                            seed: None,
                        },
                    )
                },
            }
        }
    }

    /// What claiming gives. `answers` holds, for each token of the user's
    /// staking list, what the token contract says of it.
    pub open spec fn claim_stake_spec(
        &self,
        user: Seq<u8>,
        user_addr: Seq<char>,
        answers: Seq<ImageAnswer>,
        now: u64,
        block_height: u64,
        entropy: Seq<u8>,
    ) -> Result<LedgerChange, EngineError> {
        let owned = owned_spec(user_addr, answers).0;
        if self.staking.halt {
            Err(EngineError::Halted)
        } else {
            match list_of(self.user_stakes@, user) {
                None => Err(EngineError::NeverStaked),
                Some(list) => if list.len() == 0 {
                    Err(EngineError::NothingStaked)
                } else if owned.len() == 0 {
                    Err(EngineError::NoneOwned)
                } else {
                    let start = ClaimProgress {
                        records: stake_records(self.skull_stakes@),
                        charges: zeros(self.materials@.len()),
                        quantities: zeros(self.materials@.len()),
                        infos: Seq::empty(),
                    };
                    match claim_steps(start, owned, owned.len() as int, user, now, self.staking) {
                        Err(e) => Err(e),
                        Ok(p) => if !any_charge(p.charges) {
                            Err(EngineError::NoCharges)
                        } else {
                            let prng = roller_of(self.prng_seed@, block_height, now, user, entropy);
                            match earned(*self, prng, p.charges, p.quantities, self.holdings(user)) {
                                Err(e) => Err(e),
                                Ok((inventory, rewards)) => Ok(
                                    LedgerChange {
                                        records: p.records,
                                        infos: p.infos,
                                        rewards,
                                        inventory: Some(inventory),
                                        seed: Some(seed_after(*self, prng, p.charges, p.quantities)),
                                    },
                                ),
                            }
                        },
                    }
                },
            }
        }
    }

    /// Whether `after` is this ledger with a change made for a user: the
    /// stake records are those of the change, the user stakes the tokens of
    /// the change, the user's inventory is that of the change where it has
    /// one, the seed is the one that the roller left where it rolled, and
    /// nothing else differs.
    pub open spec fn changed_to(&self, after: Alchemy, user: Seq<u8>, change: LedgerChange) -> bool {
        &&& after.admins == self.admins
        &&& after.staking == self.staking
        &&& after.alchemy == self.alchemy
        &&& after.materials == self.materials
        &&& after.ingredients == self.ingredients
        &&& after.ingr_sets == self.ingr_sets
        &&& after.tables == self.tables
        &&& after.prng_seed@ == (match change.seed {
            Some(seed) => seed,
            None => self.prng_seed@,
        })
        &&& stake_records(after.skull_stakes@) == change.records
        &&& list_of(after.user_stakes@, user) == Some(charge_tokens(change.infos))
        &&& forall|other: Seq<u8>|
            other != user ==> list_of(after.user_stakes@, other) == list_of(
                self.user_stakes@,
                other,
            )
        &&& match change.inventory {
            Some(inv) => inventory_of(after.inventories@, user) == Some(inv) && forall|
                other: Seq<u8>,
            |
                other != user ==> inventory_of(after.inventories@, other) == inventory_of(
                    self.inventories@,
                    other,
                ),
            None => after.inventories == self.inventories,
        }
    }
}

/// Keeping the users of a list keeps where each user is found.
pub proof fn lemma_users_kept(before: Seq<UserStake>, after: Seq<UserStake>, user: Seq<u8>)
    requires
        before.len() == after.len(),
        forall|k: int| 0 <= k < before.len() ==> before[k].user@ == after[k].user@,
    ensures
        user_position(after, user) == user_position(before, user),
    decreases before.len(),
{
    if before.len() > 0 {
        let b = before.drop_first();
        let a = after.drop_first();
        assert forall|k: int| 0 <= k < b.len() implies b[k].user@ == a[k].user@ by {
            assert(before[k + 1].user@ == after[k + 1].user@);
        }
        lemma_users_kept(b, a, user);
    }
}

/// Adding a user to a list keeps where every other user is found, and finds
/// the new user at the end if nowhere before.
pub proof fn lemma_user_added(before: Seq<UserStake>, entry: UserStake, user: Seq<u8>)
    ensures
        user_position(before.push(entry), user) == (match user_position(before, user) {
            Some(i) => Some(i),
            None => if entry.user@ == user {
                Some(before.len() as int)
            } else {
                None
            },
        }),
    decreases before.len(),
{
    let after = before.push(entry);
    if before.len() == 0 {
        assert(after.drop_first() =~= Seq::<UserStake>::empty());
    } else {
        assert(after.drop_first() =~= before.drop_first().push(entry));
        lemma_user_added(before.drop_first(), entry, user);
    }
}

/// Keeping the users of a list of inventories keeps where each user is found.
pub proof fn lemma_inventories_kept(
    before: Seq<UserInventory>,
    after: Seq<UserInventory>,
    user: Seq<u8>,
)
    requires
        before.len() == after.len(),
        forall|k: int| 0 <= k < before.len() ==> before[k].user@ == after[k].user@,
    ensures
        inventory_position(after, user) == inventory_position(before, user),
    decreases before.len(),
{
    if before.len() > 0 {
        let b = before.drop_first();
        let a = after.drop_first();
        assert forall|k: int| 0 <= k < b.len() implies b[k].user@ == a[k].user@ by {
            assert(before[k + 1].user@ == after[k + 1].user@);
        }
        lemma_inventories_kept(b, a, user);
    }
}

/// Adding a user to a list of inventories keeps where every other user is
/// found, and finds the new user at the end if nowhere before.
pub proof fn lemma_inventory_added(before: Seq<UserInventory>, entry: UserInventory, user: Seq<u8>)
    ensures
        inventory_position(before.push(entry), user) == (match inventory_position(before, user) {
            Some(i) => Some(i),
            None => if entry.user@ == user {
                Some(before.len() as int)
            } else {
                None
            },
        }),
    decreases before.len(),
{
    let after = before.push(entry);
    if before.len() == 0 {
        assert(after.drop_first() =~= Seq::<UserInventory>::empty());
    } else {
        assert(after.drop_first() =~= before.drop_first().push(entry));
        lemma_inventory_added(before.drop_first(), entry, user);
    }
}

/// Sets the staking list of a user.
pub fn save_list(users: &mut Vec<UserStake>, user: &Vec<u8>, tokens: Vec<String>)
    ensures
        list_of(final(users)@, user@) == Some(ids_of(tokens@)),
        forall|other: Seq<u8>|
            other != user@ ==> list_of(final(users)@, other) == list_of(old(users)@, other),
{
    let ghost before = users@;
    proof {
        lemma_user_position(before, user@);
    }
    match find_user(users, user) {
        Some(i) => {
            users[i].tokens = tokens;
            proof {
                assert forall|other: Seq<u8>| true implies user_position(users@, other)
                    == user_position(before, other) by {
                    lemma_users_kept(before, users@, other);
                }
                assert forall|other: Seq<u8>| other != user@ implies list_of(users@, other)
                    == list_of(before, other) by {
                    lemma_user_position(before, other);
                }
            }
        },
        None => {
            let entry = UserStake { user: copy_bytes(user), tokens };
            users.push(entry);
            proof {
                assert forall|other: Seq<u8>| true implies user_position(users@, other) == (
                match user_position(before, other) {
                    Some(i) => Some(i),
                    None => if entry.user@ == other {
                        Some(before.len() as int)
                    } else {
                        None
                    },
                }) by {
                    lemma_user_added(before, entry, other);
                }
                assert forall|other: Seq<u8>| other != user@ implies list_of(users@, other)
                    == list_of(before, other) by {
                    lemma_user_position(before, other);
                }
            }
        },
    }
}

/// Sets the inventory of a user.
pub fn save_inventory(inventories: &mut Vec<UserInventory>, user: &Vec<u8>, quantities: Vec<u32>)
    ensures
        inventory_of(final(inventories)@, user@) == Some(quantities@),
        forall|other: Seq<u8>|
            other != user@ ==> inventory_of(final(inventories)@, other) == inventory_of(
                old(inventories)@,
                other,
            ),
{
    let ghost before = inventories@;
    proof {
        lemma_inventory_position(before, user@);
    }
    match find_inventory(inventories, user) {
        Some(i) => {
            inventories[i].quantities = quantities;
            proof {
                assert forall|other: Seq<u8>| true implies inventory_position(inventories@, other)
                    == inventory_position(before, other) by {
                    lemma_inventories_kept(before, inventories@, other);
                }
                assert forall|other: Seq<u8>| other != user@ implies inventory_of(
                    inventories@,
                    other,
                ) == inventory_of(before, other) by {
                    lemma_inventory_position(before, other);
                }
            }
        },
        None => {
            let entry = UserInventory { user: copy_bytes(user), quantities };
            inventories.push(entry);
            proof {
                assert forall|other: Seq<u8>| true implies inventory_position(inventories@, other)
                    == (match inventory_position(before, other) {
                    Some(i) => Some(i),
                    None => if entry.user@ == other {
                        Some(before.len() as int)
                    } else {
                        None
                    },
                }) by {
                    lemma_inventory_added(before, entry, other);
                }
                assert forall|other: Seq<u8>| other != user@ implies inventory_of(
                    inventories@,
                    other,
                ) == inventory_of(before, other) by {
                    lemma_inventory_position(before, other);
                }
            }
        },
    }
}

/// The stake record of a token, read from a list of records.
fn read_record(stakes: &Vec<SkullStake>, token_id: &String, user: &Vec<u8>, now: u64) -> (info:
    SkullStakeInfo)
    ensures
        info.model() == record_of(stake_records(stakes@), token_id@, user@, now),
{
    match find_record(stakes, token_id) {
        Some(i) => {
            assert(stake_records(stakes@)[i as int].info == stakes@[i as int].info.model());
            SkullStakeInfo {
                addr: copy_bytes(&stakes[i].info.addr),
                stake: stakes[i].info.stake,
                claim: stakes[i].info.claim,
            }
        },
        None => SkullStakeInfo { addr: copy_bytes(user), stake: now, claim: 0 },
    }
}

/// The material of a skull.
fn skull_material(natural: &Vec<u8>, skull_idx: u8, materials: usize) -> (material: Result<
    usize,
    EngineError,
>)
    ensures
        match material {
            Ok(m) => material_of(natural@, skull_idx, materials as nat) == Ok::<int, EngineError>(
                m as int,
            ) && m < materials,
            Err(e) => material_of(natural@, skull_idx, materials as nat) == Err::<
                int,
                EngineError,
            >(e),
        },
{
    if skull_idx as usize >= natural.len() {
        return Err(EngineError::ImageTooShort);
    }
    let m = natural[skull_idx as usize] as usize;
    if m >= materials {
        return Err(EngineError::StorageCorrupt);
    }
    Ok(m)
}

/// Stakes one skull.
fn stake_skull(
    stakes: &mut Vec<SkullStake>,
    charges: &mut Vec<u8>,
    infos: &mut Vec<ChargeInfo>,
    skull: &IdImage,
    user: &Vec<u8>,
    now: u64,
    staking: StakingState,
    first: bool,
) -> (done: Result<(), EngineError>)
    ensures
        match set_step(
            SetProgress {
                records: stake_records(old(stakes)@),
                charges: old(charges)@,
                infos: old(infos)@,
            },
            OwnedSkull { id: skull.id, natural: skull.natural@ },
            user@,
            now,
            staking,
            first,
        ) {
            Ok(p) => done.is_ok() && stake_records(final(stakes)@) == p.records && final(charges)@
                == p.charges && final(infos)@ == p.infos,
            Err(e) => done == Err::<(), EngineError>(e),
        },
        final(charges)@.len() == old(charges)@.len(),
{
    let mut record = read_record(stakes, &skull.id, user, now);
    let bonus = first && has_cooled_down(now, record.claim, staking.cooldown);
    if bonus {
        let m = match skull_material(&skull.natural, staking.skull_idx, charges.len()) {
            Ok(m) => m,
            Err(e) => {
                return Err(e);
            },
        };
        if charges[m] == u8::MAX {
            return Err(EngineError::LimitExceeded);
        }
        charges[m] = charges[m] + 1;
        record.claim = now;
    }
    if !bytes_eq(&record.addr, user) {
        record.addr = copy_bytes(user);
        record.stake = now;
    }
    let stake = record.stake;
    save_record(stakes, &skull.id, record);
    infos.push(
        ChargeInfo {
            token_id: skull.id.clone(),
            charge_start: stake,
            charges: accrued_charges(now, stake, staking.cooldown),
        },
    );
    Ok(())
}

/// Claims the charges of one skull.
fn claim_skull(
    stakes: &mut Vec<SkullStake>,
    charges: &mut Vec<u8>,
    quantities: &mut Vec<u8>,
    infos: &mut Vec<ChargeInfo>,
    skull: &IdImage,
    user: &Vec<u8>,
    now: u64,
    staking: StakingState,
) -> (done: Result<(), EngineError>)
    ensures
        match claim_step(
            ClaimProgress {
                records: stake_records(old(stakes)@),
                charges: old(charges)@,
                quantities: old(quantities)@,
                infos: old(infos)@,
            },
            OwnedSkull { id: skull.id, natural: skull.natural@ },
            user@,
            now,
            staking,
        ) {
            Ok(p) => done.is_ok() && stake_records(final(stakes)@) == p.records && final(charges)@
                == p.charges && final(quantities)@ == p.quantities && final(infos)@ == p.infos,
            Err(e) => done == Err::<(), EngineError>(e),
        },
        final(charges)@.len() == old(charges)@.len(),
        final(quantities)@.len() == old(quantities)@.len(),
{
    let mut record = read_record(stakes, &skull.id, user, now);
    if !bytes_eq(&record.addr, user) {
        return Ok(());
    }
    let earned = accrued_charges(now, record.stake, staking.cooldown);
    if earned > 0 {
        let m = match skull_material(&skull.natural, staking.skull_idx, charges.len()) {
            Ok(m) => m,
            Err(e) => {
                return Err(e);
            },
        };
        if m >= quantities.len() || quantities[m] == u8::MAX || charges[m] as u16 + earned as u16
            > u8::MAX as u16 {
            return Err(EngineError::LimitExceeded);
        }
        quantities[m] = quantities[m] + 1;
        charges[m] = charges[m] + earned;
        assert((now - record.stake) % (staking.cooldown as int) <= now - record.stake)
            by (nonlinear_arith)
            requires
                now > record.stake,
                staking.cooldown > 0,
        ;
        let start = now - ((now - record.stake) % staking.cooldown);
        record.stake = start;
        record.claim = start;
        let saved = SkullStakeInfo { addr: copy_bytes(&record.addr), stake: start, claim: start };
        save_record(stakes, &skull.id, saved);
    }
    infos.push(ChargeInfo { token_id: skull.id.clone(), charge_start: record.stake, charges: 0 });
    Ok(())
}

/// Whether any material has a charge.
pub fn has_charge(charges: &Vec<u8>) -> (any: bool)
    ensures
        any == any_charge(charges@),
{
    let mut i: usize = 0;
    while i < charges.len()
        invariant
            i <= charges.len(),
            forall|k: int| 0 <= k < i ==> charges@[k] == 0,
        decreases charges.len() - i,
    {
        if charges[i] > 0 {
            return true;
        }
        i += 1;
    }
    false
}

/// A list of zeros.
pub fn zero_list(n: usize) -> (list: Vec<u8>)
    ensures
        list@ == zeros(n as nat),
{
    let mut list: Vec<u8> = Vec::new();
    let mut i: usize = 0;
    while i < n
        invariant
            i <= n,
            list@ =~= zeros(i as nat),
        decreases n - i,
    {
        list.push(0);
        i += 1;
    }
    list
}

/// The tokens of a list of charges.
pub fn tokens_of(infos: &Vec<ChargeInfo>) -> (tokens: Vec<String>)
    ensures
        ids_of(tokens@) == charge_tokens(infos@),
{
    let mut tokens: Vec<String> = Vec::new();
    let mut i: usize = 0;
    while i < infos.len()
        invariant
            i <= infos.len(),
            tokens@.len() == i,
            forall|k: int| 0 <= k < i ==> (#[trigger] tokens@[k])@ == infos@[k].token_id@,
        decreases infos.len() - i,
    {
        tokens.push(infos[i].token_id.clone());
        i += 1;
    }
    assert(ids_of(tokens@) =~= charge_tokens(infos@));
    tokens
}

impl Alchemy {
    /// The inventory of a user; empty where the user has none.
    pub fn inventory(&self, user: &Vec<u8>) -> (quantities: Vec<u32>)
        ensures
            quantities@ == self.holdings(user@),
    {
        proof {
            lemma_inventory_position(self.inventories@, user@);
        }
        match find_inventory(&self.inventories, user) {
            Some(i) => {
                let held = &self.inventories[i].quantities;
                let mut copy: Vec<u32> = Vec::new();
                let mut k: usize = 0;
                while k < held.len()
                    invariant
                        k <= held.len(),
                        copy@ =~= held@.subrange(0, k as int),
                    decreases held.len() - k,
                {
                    copy.push(held[k]);
                    k += 1;
                }
                assert(held@.subrange(0, held@.len() as int) =~= held@);
                copy
            },
            None => Vec::new(),
        }
    }

    /// Generates the ingredients of the charges and adds them to what the
    /// user holds. Returns the user's new inventory and the rewards.
    #[verifier::loop_isolation(false)]
    pub fn process_charges(
        &self,
        prng: &mut Prng,
        charges: &Vec<u8>,
        quantities: &Vec<u8>,
        user: &Vec<u8>,
    ) -> (out: Result<(Vec<u32>, Vec<IngredientQty>), EngineError>)
        ensures
            match earned(*self, old(prng)@, charges@, quantities@, self.holdings(user@)) {
                Ok((inventory, rewards)) => out matches Ok(pair) && pair.0@ == inventory && pair.1@
                    == rewards && final(prng)@ == gen_resources_spec(
                    old(prng)@,
                    self.tables@,
                    self.ingr_sets@,
                    charges@,
                    quantities@,
                    self.ingredients@.len(),
                ).unwrap().1,
                Err(e) => out == Err::<(Vec<u32>, Vec<IngredientQty>), EngineError>(e) && final(prng)@ == old(prng)@,
            },
    {
        let start_pos = prng.word_pos();
        let ingr_cnt = self.ingredients.len();
        let generated = match gen_resources(
            prng,
            &self.tables,
            &self.ingr_sets,
            charges,
            quantities,
            ingr_cnt,
        ) {
            Ok(g) => g,
            Err(e) => {
                return Err(e);
            },
        };
        let held = self.inventory(user);
        let ghost rolled = prng@;
        let mut inventory: Vec<u32> = Vec::new();
        let mut rewards: Vec<IngredientQty> = Vec::new();
        let mut i: usize = 0;
        while i < ingr_cnt
            invariant
                i <= ingr_cnt,
                prng@ == rolled,
                ingr_cnt == generated@.len(),
                ingr_cnt == self.ingredients@.len(),
                credited_upto(held@, generated@, i as int) == Ok::<Seq<u32>, EngineError>(
                    inventory@,
                ),
                rewards@ == rewards_of(self.ingredients@, generated@, i as int),
            decreases ingr_cnt - i,
        {
            let new = generated[i];
            proof {
                lemma_credited_prefix(held@, generated@, i + 1, ingr_cnt as int);
            }
            let total = if i < held.len() {
                if held[i] as u64 + new as u64 > u32::MAX as u64 {
                    prng.set_word_pos(start_pos);
                    return Err(EngineError::LimitExceeded);
                }
                held[i] + new
            } else {
                new
            };
            inventory.push(total);
            if new > 0 {
                rewards.push(
                    IngredientQty { ingredient: self.ingredients[i].clone(), quantity: new },
                );
            }
            i += 1;
        }
        Ok((inventory, rewards))
    }

    /// Stakes the skulls that a user sent, in place of those that the user
    /// staked before. The skulls must be the user's own, five at most. A
    /// user who stakes for the first time earns one bonus charge for each
    /// skull that has cooled down, and must send at least one such skull.
    ///
    /// `answers` holds what the token contract says of each token sent, in
    /// the order in which the user sent them; the block height and the
    /// entropy go into the generator of the roller, which leaves a new seed.
    /// A refusal for tokens that the user does not own names them.
    /// Where staking is refused, nothing changes.
    #[verifier::loop_isolation(false)]
    pub fn try_set_stake(
        &mut self,
        user: &Vec<u8>,
        user_addr: &String,
        answers: &Vec<ImageAnswer>,
        now: u64,
        block_height: u64,
        entropy: &Vec<u8>,
    ) -> (out: Result<StakeOutcome, StakeRefusal>)
        requires
            old(self).wf(),
        ensures
            final(self).wf(),
            match old(self).set_stake_spec(user@, user_addr@, answers@, now, block_height, entropy@) {
                Err(e) => out matches Err(refusal) && refusal.error == e && ids_of(
                    refusal.not_owned@,
                ) == named_tokens(e, user_addr@, answers@) && *final(self) == *old(self),
                Ok(change) => out matches Ok(outcome) && outcome.charge_infos@ == change.infos
                    && outcome.rewards@ == change.rewards && old(self).changed_to(
                    *final(self),
                    user@,
                    change,
                ),
            },
    {
        if self.staking.halt {
            return Err(refused(EngineError::Halted));
        }
        if answers.len() > MAX_STAKED {
            return Err(refused(EngineError::ListTooLong));
        }
        let (owned, not_owned) = verify_ownership(user_addr, answers);
        if not_owned.len() > 0 {
            return Err(StakeRefusal { error: EngineError::NotOwned, not_owned });
        }
        let first = find_user(&self.user_stakes, user).is_none();
        if first && answers.len() == 0 {
            return Err(refused(EngineError::EmptyFirstStake));
        }
        let mut charges = zero_list(self.materials.len());
        let mut stakes = copy_stakes(&self.skull_stakes);
        let mut infos: Vec<ChargeInfo> = Vec::new();
        let ghost start = SetProgress {
            records: stake_records(self.skull_stakes@),
            charges: charges@,
            infos: infos@,
        };
        let staking = self.staking;
        let mut i: usize = 0;
        while i < owned.len()
            invariant
                i <= owned.len(),
                *self == *old(self),
                old(self).wf(),
                one_record_each(stake_records(stakes@)),
                charges@.len() == self.materials@.len(),
                skull_pairs(owned@) == owned_spec(user_addr@, answers@).0,
                set_steps(start, skull_pairs(owned@), i as int, user@, now, staking, first) == Ok::<
                    SetProgress,
                    EngineError,
                >(SetProgress { records: stake_records(stakes@), charges: charges@, infos: infos@ }),
            decreases owned.len() - i,
        {
            proof {
                lemma_set_steps_prefix(
                    start,
                    skull_pairs(owned@),
                    i + 1,
                    owned@.len() as int,
                    user@,
                    now,
                    staking,
                    first,
                );
                let p = SetProgress {
                    records: stake_records(stakes@),
                    charges: charges@,
                    infos: infos@,
                };
                lemma_set_step(p, skull_pairs(owned@)[i as int], user@, now, staking, first);
            }
            match stake_skull(
                &mut stakes,
                &mut charges,
                &mut infos,
                &owned[i],
                user,
                now,
                staking,
                first,
            ) {
                Ok(_) => {},
                Err(e) => {
                    return Err(refused(e));
                },
            }
            i += 1;
        }
        let mut rewards: Vec<IngredientQty> = Vec::new();
        let mut inventory: Option<Vec<u32>> = None;
        let mut seed: Option<Vec<u8>> = None;
        if has_charge(&charges) {
            let mut prng = Prng::new(
                copy_bytes(&self.prng_seed),
                extend_entropy(block_height, now, user, entropy),
            );
            match self.process_charges(&mut prng, &charges, &charges, user) {
                Ok((inv, earned)) => {
                    rewards = earned;
                    inventory = Some(inv);
                    seed = Some(seed_bytes(prng.rand_bytes()));
                },
                Err(e) => {
                    return Err(refused(e));
                },
            }
        } else if first {
            return Err(refused(EngineError::NoEligibleBonus));
        }
        proof {
            let skulls = skull_pairs(owned@);
            assert forall|a: int, b: int| 0 <= a < b < skulls.len() implies (#[trigger] skulls[a]).id@
                != (#[trigger] skulls[b]).id@ by {
                assert(skull_ids(owned@)[a] != skull_ids(owned@)[b]);
            }
            lemma_set_steps_once(start, skulls, skulls.len() as int, user@, now, staking, first);
        }
        self.skull_stakes = stakes;
        let ghost lists = self.user_stakes@;
        save_list(&mut self.user_stakes, user, tokens_of(&infos));
        proof {
            assert forall|other: Seq<u8>| (#[trigger] list_of(self.user_stakes@, other)).is_some() implies distinct(
                list_of(self.user_stakes@, other).unwrap(),
            ) by {
                if other != user@ {
                    assert(list_of(self.user_stakes@, other) == list_of(lists, other));
                }
            }
        }
        if let Some(inv) = inventory {
            save_inventory(&mut self.inventories, user, inv);
        }
        if let Some(next) = seed {
            self.prng_seed = next;
        }
        Ok(StakeOutcome { charge_infos: infos, rewards })
    }

    /// Claims the charges of the skulls that a user stakes. Only skulls that
    /// the user still owns count; they stay staked, the others leave the
    /// staking list. Every skull gives the charges it has accrued, four at
    /// most, and starts its next charge where the last complete one ended.
    ///
    /// `answers` holds what the token contract says of each token of the
    /// user's staking list; the block height and the entropy go into the
    /// generator of the roller, which leaves a new seed. Where the claim is
    /// refused, nothing changes.
    #[verifier::loop_isolation(false)]
    pub fn try_claim_stake(
        &mut self,
        user: &Vec<u8>,
        user_addr: &String,
        answers: &Vec<ImageAnswer>,
        now: u64,
        block_height: u64,
        entropy: &Vec<u8>,
    ) -> (out: Result<StakeOutcome, EngineError>)
        requires
            old(self).wf(),
        ensures
            final(self).wf(),
            match old(self).claim_stake_spec(user@, user_addr@, answers@, now, block_height, entropy@) {
                Err(e) => out == Err::<StakeOutcome, EngineError>(e) && *final(self) == *old(self),
                Ok(change) => out matches Ok(outcome) && outcome.charge_infos@ == change.infos
                    && outcome.rewards@ == change.rewards && old(self).changed_to(
                    *final(self),
                    user@,
                    change,
                ),
            },
    {
        if self.staking.halt {
            return Err(EngineError::Halted);
        }
        proof {
            lemma_user_position(self.user_stakes@, user@);
        }
        match find_user(&self.user_stakes, user) {
            None => {
                return Err(EngineError::NeverStaked);
            },
            Some(u) => {
                if self.user_stakes[u].tokens.len() == 0 {
                    return Err(EngineError::NothingStaked);
                }
            },
        }
        let (owned, _) = verify_ownership(user_addr, answers);
        if owned.len() == 0 {
            return Err(EngineError::NoneOwned);
        }
        let mut charges = zero_list(self.materials.len());
        let mut quantities = zero_list(self.materials.len());
        let mut stakes = copy_stakes(&self.skull_stakes);
        let mut infos: Vec<ChargeInfo> = Vec::new();
        let ghost start = ClaimProgress {
            records: stake_records(self.skull_stakes@),
            charges: charges@,
            quantities: quantities@,
            infos: infos@,
        };
        let staking = self.staking;
        let mut i: usize = 0;
        while i < owned.len()
            invariant
                i <= owned.len(),
                *self == *old(self),
                old(self).wf(),
                one_record_each(stake_records(stakes@)),
                charges@.len() == self.materials@.len(),
                quantities@.len() == self.materials@.len(),
                skull_pairs(owned@) == owned_spec(user_addr@, answers@).0,
                claim_steps(start, skull_pairs(owned@), i as int, user@, now, staking) == Ok::<
                    ClaimProgress,
                    EngineError,
                >(
                    ClaimProgress {
                        records: stake_records(stakes@),
                        charges: charges@,
                        quantities: quantities@,
                        infos: infos@,
                    },
                ),
            decreases owned.len() - i,
        {
            proof {
                lemma_claim_steps_prefix(
                    start,
                    skull_pairs(owned@),
                    i + 1,
                    owned@.len() as int,
                    user@,
                    now,
                    staking,
                );
                let p = ClaimProgress {
                    records: stake_records(stakes@),
                    charges: charges@,
                    quantities: quantities@,
                    infos: infos@,
                };
                lemma_claim_step(p, skull_pairs(owned@)[i as int], user@, now, staking);
            }
            match claim_skull(
                &mut stakes,
                &mut charges,
                &mut quantities,
                &mut infos,
                &owned[i],
                user,
                now,
                staking,
            ) {
                Ok(_) => {},
                Err(e) => {
                    return Err(e);
                },
            }
            i += 1;
        }
        if !has_charge(&charges) {
            return Err(EngineError::NoCharges);
        }
        let mut prng = Prng::new(
            copy_bytes(&self.prng_seed),
            extend_entropy(block_height, now, user, entropy),
        );
        let (inventory, rewards) = match self.process_charges(
            &mut prng,
            &charges,
            &quantities,
            user,
        ) {
            Ok(pair) => pair,
            Err(e) => {
                return Err(e);
            },
        };
        let seed = seed_bytes(prng.rand_bytes());
        proof {
            let skulls = skull_pairs(owned@);
            assert forall|a: int, b: int| 0 <= a < b < skulls.len() implies (#[trigger] skulls[a]).id@
                != (#[trigger] skulls[b]).id@ by {
                assert(skull_ids(owned@)[a] != skull_ids(owned@)[b]);
            }
            lemma_claim_steps_once(start, skulls, skulls.len() as int, user@, now, staking);
        }
        self.skull_stakes = stakes;
        let ghost lists = self.user_stakes@;
        save_list(&mut self.user_stakes, user, tokens_of(&infos));
        proof {
            assert forall|other: Seq<u8>| (#[trigger] list_of(self.user_stakes@, other)).is_some() implies distinct(
                list_of(self.user_stakes@, other).unwrap(),
            ) by {
                if other != user@ {
                    assert(list_of(self.user_stakes@, other) == list_of(lists, other));
                }
            }
        }
        save_inventory(&mut self.inventories, user, inventory);
        self.prng_seed = seed;
        Ok(StakeOutcome { charge_infos: infos, rewards })
    }
}

/// Whether a token is one of the first `n` skulls of a list.
pub open spec fn sent_among(skulls: Seq<OwnedSkull>, n: int, token: Seq<char>) -> bool {
    exists|j: int| 0 <= j < n && j < skulls.len() && (#[trigger] skulls[j]).id@ == token
}

/// Whether the skulls of a list differ from each other.
pub open spec fn skulls_differ(skulls: Seq<OwnedSkull>) -> bool {
    forall|i: int, j: int|
        0 <= i < j < skulls.len() ==> (#[trigger] skulls[i]).id@ != (#[trigger] skulls[j]).id@
}

/// Whether the charges listed are those of skulls that differ from each
/// other, each one of the first `n` skulls of a list.
pub open spec fn lists_once(infos: Seq<ChargeInfo>, skulls: Seq<OwnedSkull>, n: int) -> bool {
    &&& distinct(charge_tokens(infos))
    &&& forall|k: int| 0 <= k < infos.len() ==> sent_among(skulls, n, (#[trigger] infos[k]).token_id@)
}

/// One more charge, of the next skull, keeps the list of charges free of
/// repeats.
pub proof fn lemma_lists_once(infos: Seq<ChargeInfo>, skulls: Seq<OwnedSkull>, n: int, info: ChargeInfo)
    requires
        0 <= n < skulls.len(),
        skulls_differ(skulls),
        lists_once(infos, skulls, n),
        info.token_id@ == skulls[n].id@,
    ensures
        lists_once(infos.push(info), skulls, n + 1),
        lists_once(infos, skulls, n + 1),
{
    let more = infos.push(info);
    assert forall|k: int| 0 <= k < infos.len() implies sent_among(
        skulls,
        n + 1,
        (#[trigger] infos[k]).token_id@,
    ) by {
        assert(sent_among(skulls, n, infos[k].token_id@));
        let j = choose|j: int| 0 <= j < n && j < skulls.len() && (#[trigger] skulls[j]).id@
            == infos[k].token_id@;
        assert(skulls[j].id@ == infos[k].token_id@);
    }
    assert forall|k: int| 0 <= k < more.len() implies sent_among(
        skulls,
        n + 1,
        (#[trigger] more[k]).token_id@,
    ) by {
        if k < infos.len() {
            assert(more[k] == infos[k]);
        } else {
            assert(skulls[n].id@ == more[k].token_id@);
        }
    }
    assert forall|a: int, b: int| 0 <= a < b < more.len() implies #[trigger] charge_tokens(more)[a]
        != #[trigger] charge_tokens(more)[b] by {
        assert(charge_tokens(more)[a] == charge_tokens(infos)[a]);
        if b < infos.len() {
            assert(charge_tokens(more)[b] == charge_tokens(infos)[b]);
        } else {
            assert(sent_among(skulls, n, infos[a].token_id@));
            let j = choose|j: int| 0 <= j < n && j < skulls.len() && (#[trigger] skulls[j]).id@
                == infos[a].token_id@;
            assert(skulls[j].id@ != skulls[n].id@);
        }
    }
}

/// Staking skulls that differ from each other lists each of them once.
pub proof fn lemma_set_steps_once(
    start: SetProgress,
    skulls: Seq<OwnedSkull>,
    n: int,
    user: Seq<u8>,
    now: u64,
    staking: StakingState,
    first: bool,
)
    requires
        0 <= n <= skulls.len(),
        skulls_differ(skulls),
        start.infos.len() == 0,
    ensures
        set_steps(start, skulls, n, user, now, staking, first) matches Ok(p) ==> lists_once(
            p.infos,
            skulls,
            n,
        ),
    decreases n,
{
    if n > 0 {
        lemma_set_steps_once(start, skulls, n - 1, user, now, staking, first);
        match set_steps(start, skulls, n - 1, user, now, staking, first) {
            Ok(p) => {
                match set_step(p, skulls[n - 1], user, now, staking, first) {
                    Ok(q) => {
                        lemma_lists_once(p.infos, skulls, n - 1, q.infos.last());
                        assert(q.infos =~= p.infos.push(q.infos.last()));
                    },
                    Err(_) => {},
                }
            },
            Err(_) => {},
        }
    }
}

/// Claiming for skulls that differ from each other lists each of those that
/// stay staked once.
pub proof fn lemma_claim_steps_once(
    start: ClaimProgress,
    skulls: Seq<OwnedSkull>,
    n: int,
    user: Seq<u8>,
    now: u64,
    staking: StakingState,
)
    requires
        0 <= n <= skulls.len(),
        skulls_differ(skulls),
        start.infos.len() == 0,
    ensures
        claim_steps(start, skulls, n, user, now, staking) matches Ok(p) ==> lists_once(
            p.infos,
            skulls,
            n,
        ),
    decreases n,
{
    if n > 0 {
        lemma_claim_steps_once(start, skulls, n - 1, user, now, staking);
        match claim_steps(start, skulls, n - 1, user, now, staking) {
            Ok(p) => {
                match claim_step(p, skulls[n - 1], user, now, staking) {
                    Ok(q) => {
                        if q.infos.len() == p.infos.len() {
                            assert(q.infos =~= p.infos);
                            lemma_lists_once(
                                p.infos,
                                skulls,
                                n - 1,
                                ChargeInfo { token_id: skulls[n - 1].id, charge_start: 0, charges: 0 },
                            );
                        } else {
                            lemma_lists_once(p.infos, skulls, n - 1, q.infos.last());
                            assert(q.infos =~= p.infos.push(q.infos.last()));
                        }
                    },
                    Err(_) => {},
                }
            },
            Err(_) => {},
        }
    }
}

/// Staking a skull leaves no token with two stake records.
pub proof fn lemma_set_step(
    p: SetProgress,
    skull: OwnedSkull,
    user: Seq<u8>,
    now: u64,
    staking: StakingState,
    first: bool,
)
    requires
        one_record_each(p.records),
    ensures
        set_step(p, skull, user, now, staking, first) matches Ok(q) ==> one_record_each(q.records)
            && q.charges.len() == p.charges.len(),
{
    let record = record_of(p.records, skull.id@, user, now);
    let bonus = first && cooled_down(now, record.claim, staking.cooldown);
    let claim = if bonus {
        now
    } else {
        record.claim
    };
    let stake = if record.addr != user {
        now
    } else {
        record.stake
    };
    lemma_upsert(p.records, skull.id@, StakeModel { addr: user, stake, claim });
}

/// Claiming the charges of a skull leaves no token with two stake records.
pub proof fn lemma_claim_step(
    p: ClaimProgress,
    skull: OwnedSkull,
    user: Seq<u8>,
    now: u64,
    staking: StakingState,
)
    requires
        one_record_each(p.records),
    ensures
        claim_step(p, skull, user, now, staking) matches Ok(q) ==> one_record_each(q.records)
            && q.charges.len() == p.charges.len() && q.quantities.len() == p.quantities.len(),
{
    let record = record_of(p.records, skull.id@, user, now);
    let start = maturity(now, record.stake, staking.cooldown);
    lemma_upsert(p.records, skull.id@, StakeModel { addr: record.addr, stake: start, claim: start });
}

/// Where staking the first skulls of a list fails, staking more of them
/// fails in the same way.
pub proof fn lemma_set_steps_prefix(
    start: SetProgress,
    skulls: Seq<OwnedSkull>,
    n: int,
    k: int,
    user: Seq<u8>,
    now: u64,
    staking: StakingState,
    first: bool,
)
    requires
        0 <= n <= k,
    ensures
        set_steps(start, skulls, n, user, now, staking, first) matches Err(e) ==> set_steps(
            start,
            skulls,
            k,
            user,
            now,
            staking,
            first,
        ) == Err::<SetProgress, EngineError>(e),
    decreases k - n,
{
    if n < k {
        lemma_set_steps_prefix(start, skulls, n + 1, k, user, now, staking, first);
    }
}

/// Where claiming the first skulls of a list fails, claiming more of them
/// fails in the same way.
pub proof fn lemma_claim_steps_prefix(
    start: ClaimProgress,
    skulls: Seq<OwnedSkull>,
    n: int,
    k: int,
    user: Seq<u8>,
    now: u64,
    staking: StakingState,
)
    requires
        0 <= n <= k,
    ensures
        claim_steps(start, skulls, n, user, now, staking) matches Err(e) ==> claim_steps(
            start,
            skulls,
            k,
            user,
            now,
            staking,
        ) == Err::<ClaimProgress, EngineError>(e),
    decreases k - n,
{
    if n < k {
        lemma_claim_steps_prefix(start, skulls, n + 1, k, user, now, staking);
    }
}

/// Keeping the tokens of a list of records keeps where each token is found.
pub proof fn lemma_records_kept(before: Seq<StakeRecord>, after: Seq<StakeRecord>, token: Seq<char>)
    requires
        before.len() == after.len(),
        forall|k: int| 0 <= k < before.len() ==> before[k].token == after[k].token,
    ensures
        record_position(after, token) == record_position(before, token),
    decreases before.len(),
{
    if before.len() > 0 {
        let b = before.drop_first();
        let a = after.drop_first();
        assert forall|k: int| 0 <= k < b.len() implies b[k].token == a[k].token by {
            assert(before[k + 1].token == after[k + 1].token);
        }
        lemma_records_kept(b, a, token);
    }
}

/// Adding a record at the end of a list keeps where every token is found
/// that was found before, and finds the new token at the end if nowhere
/// before.
pub proof fn lemma_record_added(before: Seq<StakeRecord>, entry: StakeRecord, token: Seq<char>)
    ensures
        record_position(before.push(entry), token) == (match record_position(before, token) {
            Some(i) => Some(i),
            None => if entry.token == token {
                Some(before.len() as int)
            } else {
                None
            },
        }),
    decreases before.len(),
{
    let after = before.push(entry);
    reveal_with_fuel(record_position, 2);
    if before.len() == 0 {
        assert(after.drop_first() =~= Seq::<StakeRecord>::empty());
        assert(after[0] == entry);
    } else {
        assert(after.drop_first() =~= before.drop_first().push(entry));
        assert(after[0] == before[0]);
        lemma_record_added(before.drop_first(), entry, token);
    }
}

/// Replacing or adding the record of a token leaves the record of every
/// other token as it was.
pub proof fn lemma_upsert_keeps_others(
    records: Seq<StakeRecord>,
    token: Seq<char>,
    info: StakeModel,
    other: Seq<char>,
)
    requires
        other != token,
    ensures
        match record_position(records, other) {
            Some(i) => record_position(upsert(records, token, info), other) == Some(i) && upsert(
                records,
                token,
                info,
            )[i] == records[i],
            None => record_position(upsert(records, token, info), other).is_none(),
        },
{
    lemma_record_position(records, token);
    lemma_record_position(records, other);
    let after = upsert(records, token, info);
    match record_position(records, token) {
        Some(p) => {
            lemma_records_kept(records, after, other);
        },
        None => {
            lemma_record_added(records, StakeRecord { token, info }, other);
        },
    }
}

/// Saving the record that a token has changes nothing.
pub proof fn lemma_upsert_same(records: Seq<StakeRecord>, token: Seq<char>)
    requires
        record_position(records, token).is_some(),
    ensures
        upsert(records, token, records[record_position(records, token).unwrap()].info)
            == records,
{
    lemma_record_position(records, token);
    let i = record_position(records, token).unwrap();
    assert(upsert(records, token, records[i].info) =~= records);
}

/// Whether each of the first `n` skulls of a list has a stake record that
/// names the user.
pub open spec fn staked_by(records: Seq<StakeRecord>, skulls: Seq<OwnedSkull>, n: int, user: Seq<u8>) -> bool {
    forall|k: int|
        0 <= k < n ==> record_position(records, (#[trigger] skulls[k]).id@).is_some() && record_of(
            records,
            skulls[k].id@,
            user,
            0,
        ).addr == user
}

/// After staking, every skull that was staked has a stake record that names
/// the user.
pub proof fn lemma_set_steps_stake(
    start: SetProgress,
    skulls: Seq<OwnedSkull>,
    n: int,
    user: Seq<u8>,
    now: u64,
    staking: StakingState,
    first: bool,
)
    requires
        0 <= n <= skulls.len(),
    ensures
        set_steps(start, skulls, n, user, now, staking, first) matches Ok(p) ==> staked_by(
            p.records,
            skulls,
            n,
            user,
        ),
    decreases n,
{
    if n > 0 {
        lemma_set_steps_stake(start, skulls, n - 1, user, now, staking, first);
        if let Ok(q) = set_steps(start, skulls, n - 1, user, now, staking, first) {
            if let Ok(p) = set_step(q, skulls[n - 1], user, now, staking, first) {
                let token = skulls[n - 1].id@;
                let record = record_of(q.records, token, user, now);
                let bonus = first && cooled_down(now, record.claim, staking.cooldown);
                let claim = if bonus {
                    now
                } else {
                    record.claim
                };
                let stake = if record.addr != user {
                    now
                } else {
                    record.stake
                };
                let info = StakeModel { addr: user, stake, claim };
                assert(p.records == upsert(q.records, token, info));
                lemma_record_position(q.records, token);
                lemma_record_position(p.records, token);
                assert forall|k: int| 0 <= k < n implies record_position(
                    p.records,
                    (#[trigger] skulls[k]).id@,
                ).is_some() && record_of(p.records, skulls[k].id@, user, 0).addr == user by {
                    if skulls[k].id@ == token {
                        match record_position(q.records, token) {
                            Some(i) => {
                                lemma_records_kept(q.records, p.records, token);
                            },
                            None => {
                                lemma_record_added(q.records, StakeRecord { token, info }, token);
                            },
                        }
                    } else {
                        lemma_upsert_keeps_others(q.records, token, info, skulls[k].id@);
                    }
                }
            }
        }
    }
}

/// Staking skulls that the user stakes already, by a user who has staked
/// before, changes no stake record and earns no charge.
pub proof fn lemma_set_steps_again(
    records: Seq<StakeRecord>,
    charges: Seq<u8>,
    skulls: Seq<OwnedSkull>,
    n: int,
    user: Seq<u8>,
    now: u64,
    staking: StakingState,
)
    requires
        0 <= n <= skulls.len(),
        staked_by(records, skulls, n, user),
    ensures
        set_steps(
            SetProgress { records, charges, infos: Seq::empty() },
            skulls,
            n,
            user,
            now,
            staking,
            false,
        ) matches Ok(p) && p.records == records && p.charges == charges,
    decreases n,
{
    if n > 0 {
        lemma_set_steps_again(records, charges, skulls, n - 1, user, now, staking);
        let token = skulls[n - 1].id@;
        assert(record_position(records, skulls[n - 1].id@).is_some());
        lemma_upsert_same(records, token);
        lemma_record_position(records, token);
    }
}

/// Staking the same skulls a second time gives the same stake records and no
/// rewards: whatever the first staking left, a second one of the same
/// skulls, at any later time, leaves the stake records as they are, earns
/// nothing and leaves the inventory alone.
pub proof fn lemma_stake_twice(
    first: Alchemy,
    second: Alchemy,
    user: Seq<u8>,
    user_addr: Seq<char>,
    answers: Seq<ImageAnswer>,
    now: u64,
    later: u64,
    block_height: u64,
    later_height: u64,
    entropy: Seq<u8>,
    later_entropy: Seq<u8>,
)
    requires
        first.set_stake_spec(user, user_addr, answers, now, block_height, entropy) matches Ok(change)
            && first.changed_to(second, user, change),
    ensures
        second.set_stake_spec(
            user,
            user_addr,
            answers,
            later,
            later_height,
            later_entropy,
        ) matches Ok(again) && {
            &&& again.records == stake_records(second.skull_stakes@)
            &&& again.rewards.len() == 0
            &&& again.inventory.is_none()
            &&& again.seed.is_none()
        },
{
    let change = first.set_stake_spec(user, user_addr, answers, now, block_height, entropy).unwrap();
    let owned = owned_spec(user_addr, answers).0;
    let was_first = user_position(first.user_stakes@, user).is_none();
    let start = SetProgress {
        records: stake_records(first.skull_stakes@),
        charges: zeros(first.materials@.len()),
        infos: Seq::empty(),
    };
    lemma_set_steps_stake(start, owned, owned.len() as int, user, now, first.staking, was_first);
    lemma_user_position(second.user_stakes@, user);
    lemma_set_steps_again(
        stake_records(second.skull_stakes@),
        zeros(second.materials@.len()),
        owned,
        owned.len() as int,
        user,
        later,
        second.staking,
    );
    assert(!any_charge(zeros(second.materials@.len())));
}

} // verus!
