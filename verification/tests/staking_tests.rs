use rand::seq::SliceRandom;
use rand_core::RngCore;
use secret_toolkit::crypto::ContractPrng;
use skull_alchemy::alchemy_query::MyStaking;
use skull_alchemy::error::EngineError;
use skull_alchemy::ledger::{Alchemy, StakeRefusal};
use skull_alchemy::ownership::{verify_ownership, ImageAnswer};
use skull_alchemy::prng::{extend_entropy, Prng};
use skull_alchemy::registry::{StoredLayerId, VariantIdxName};
use skull_alchemy::registry_query::SkullTypePlus;
use skull_alchemy::roller::{draw_below, gen_resources, StoredIngrSet, StoredSetWeight};
use skull_alchemy::staking::{
    accrued_charges, has_cooled_down, AlchemyState, ChargeInfo, EligibilityInfo, IdImage,
    IngrSetWeight, IngredientQty, IngredientSet, SkullStake, SkullStakeInfo, StakingState,
    StakingTable,
};

fn admin() -> Vec<u8> {
    b"admin".to_vec()
}

fn names(list: &[&str]) -> Vec<String> {
    list.iter().map(|s| s.to_string()).collect()
}

/// Two materials, three ingredients in two sets, a table for each material.
fn alchemy(cooldown: u64) -> Alchemy {
    Alchemy {
        admins: vec![admin()],
        prng_seed: vec![5; 32],
        staking: StakingState { halt: false, skull_idx: 2, cooldown },
        alchemy: AlchemyState {
            halt: true,
            cyclops: StoredLayerId { category: 5, variant: 1 },
            jawless: StoredLayerId { category: 3, variant: 0 },
        },
        materials: names(&["Bone", "Gold"]),
        ingredients: names(&["Ash", "Salt", "Moss"]),
        ingr_sets: vec![
            StoredIngrSet { name: "Common".to_string(), list: vec![0, 1] },
            StoredIngrSet { name: "Rare".to_string(), list: vec![2] },
        ],
        tables: vec![
            Some(vec![StoredSetWeight { set: 0, weight: 9 }, StoredSetWeight { set: 1, weight: 1 }]),
            Some(vec![StoredSetWeight { set: 1, weight: 5 }]),
        ],
        skull_stakes: Vec::new(),
        user_stakes: Vec::new(),
        inventories: Vec::new(),
    }
}

fn answer(id: &str, owner: &str, material: u8) -> ImageAnswer {
    ImageAnswer { token_id: id.to_string(), owner: owner.to_string(), natural: vec![0, 0, material] }
}

fn info(id: &str, start: u64, charges: u8) -> ChargeInfo {
    ChargeInfo { token_id: id.to_string(), charge_start: start, charges }
}

/// The generator of a roll: the seed that the contract keeps, and what the
/// message brings.
fn roller(seed: &[u8], now: u64, user: &[u8], entropy: &[u8]) -> ContractPrng {
    ContractPrng::new(seed, &extend_entropy(7, now, &user.to_vec(), &entropy.to_vec()))
}

fn refusal(error: EngineError) -> StakeRefusal {
    StakeRefusal { error, not_owned: Vec::new() }
}

/// The roller as one unbroken run of a generator.
fn rolled(rng: &mut ContractPrng, alchemy: &Alchemy, charges: &[u8], quantities: &[u8]) -> Vec<u32> {
    let kinds = quantities.iter().filter(|q| **q > 0).count() as u8;
    let variety = 2 * kinds + 1;
    let mut sets = alchemy.ingr_sets.clone();
    let mut wins = vec![0u32; sets.len()];
    for (i, charge) in charges.iter().enumerate() {
        for _ in 0..*charge {
            let mut material: Vec<u8> = (0..quantities[i] + 1).collect();
            material.shuffle(&mut rng.rng);
            let mut kind: Vec<u8> = (0..variety).collect();
            kind.shuffle(&mut rng.rng);
            let rolls = 1 + material[0] + kind[0];
            let table = alchemy.tables[i].as_ref().unwrap();
            let total: u64 = table.iter().map(|t| t.weight as u64).sum();
            for _ in 0..rolls {
                let number = rng.next_u64() % total;
                let mut tally = 0u64;
                let mut winner = 0usize;
                for entry in table.iter() {
                    tally += entry.weight as u64;
                    if tally > number {
                        winner = entry.set as usize;
                        break;
                    }
                }
                wins[winner] += 1;
            }
        }
    }
    let mut generated = vec![0u32; alchemy.ingredients.len()];
    for (s, count) in wins.iter().enumerate() {
        for _ in 0..*count {
            sets[s].list.shuffle(&mut rng.rng);
            generated[sets[s].list[0] as usize] += 1;
        }
    }
    generated
}

fn rewards(alchemy: &Alchemy, generated: &[u32]) -> Vec<IngredientQty> {
    generated
        .iter()
        .enumerate()
        .filter(|(_, q)| **q > 0)
        .map(|(i, q)| IngredientQty { ingredient: alchemy.ingredients[i].clone(), quantity: *q })
        .collect()
}

#[test]
fn charges_are_capped_at_four() {
    assert_eq!(accrued_charges(1000, 1000, 100), 0);
    assert_eq!(accrued_charges(1099, 1000, 100), 0);
    assert_eq!(accrued_charges(1100, 1000, 100), 1);
    assert_eq!(accrued_charges(1399, 1000, 100), 3);
    assert_eq!(accrued_charges(1400, 1000, 100), 4);
    assert_eq!(accrued_charges(2000, 1000, 100), 4);
    assert_eq!(accrued_charges(u64::MAX, 0, 1), 4);
    assert_eq!(accrued_charges(900, 1000, 100), 0);
    assert_eq!(accrued_charges(2000, 1000, 0), 0);
}

#[test]
fn cooling_down_takes_a_full_cooldown() {
    assert!(has_cooled_down(1000, 900, 100));
    assert!(!has_cooled_down(1000, 901, 100));
    assert!(has_cooled_down(1000, 0, 1000));
    assert!(!has_cooled_down(50, 0, 100));
    assert!(!has_cooled_down(u64::MAX, u64::MAX, 1));
}

#[test]
fn ownership_sorts_and_dedupes() {
    let answers = vec![
        answer("1", "me", 0),
        answer("2", "you", 0),
        answer("1", "me", 0),
        answer("3", "me", 1),
        answer("2", "you", 0),
    ];
    let (owned, not_owned) = verify_ownership(&"me".to_string(), &answers);
    assert_eq!(
        owned,
        vec![
            IdImage { id: "1".to_string(), natural: vec![0, 0, 0] },
            IdImage { id: "3".to_string(), natural: vec![0, 0, 1] },
        ]
    );
    assert_eq!(not_owned, names(&["2"]));
}

#[test]
fn draw_below_follows_the_shuffle() {
    let mut prng = Prng::new(vec![3], vec![]);
    let mut straight = ContractPrng::new(&[3], &[]);
    for n in [1u16, 2, 6, 11, 256] {
        let mut list: Vec<u8> = (0..n).map(|i| i as u8).collect();
        list.shuffle(&mut straight.rng);
        assert_eq!(draw_below(&mut prng, n), list[0]);
    }
}

#[test]
fn roller_follows_the_stream() {
    let a = alchemy(100);
    let mut prng = Prng::new(vec![8; 32], vec![]);
    let generated =
        gen_resources(&mut prng, &a.tables, &a.ingr_sets, &vec![3, 2], &vec![2, 1], 3).unwrap();
    assert_eq!(generated, rolled(&mut ContractPrng::new(&[8; 32], &[]), &a, &[3, 2], &[2, 1]));
    // five charges roll five times at the least, and no more than a charge
    // can: once, once for each skull of its material, twice for each kind
    let total = generated.iter().sum::<u32>();
    assert!(total >= 5);
    assert!(total <= 3 * (1 + 2 + 4) + 2 * (1 + 1 + 4));
    // the gold table knows the rare set only
    let mut prng = Prng::new(vec![8; 32], vec![]);
    let gold = gen_resources(&mut prng, &a.tables, &a.ingr_sets, &vec![0, 4], &vec![0, 1], 3).unwrap();
    assert_eq!(gold[0] + gold[1], 0);
    assert!(gold[2] >= 4);
}

#[test]
fn roller_without_weight_fails() {
    let mut a = alchemy(100);
    a.tables[0] = Some(vec![StoredSetWeight { set: 0, weight: 0 }, StoredSetWeight { set: 1, weight: 0 }]);
    let mut prng = Prng::new(vec![8; 32], vec![]);
    assert_eq!(
        gen_resources(&mut prng, &a.tables, &a.ingr_sets, &vec![1, 0], &vec![1, 0], 3),
        Err(EngineError::NoWeight)
    );
    a.tables[0] = Some(vec![]);
    assert_eq!(
        gen_resources(&mut prng, &a.tables, &a.ingr_sets, &vec![1, 0], &vec![1, 0], 3),
        Err(EngineError::NoWeight)
    );
    a.tables[0] = None;
    assert_eq!(
        gen_resources(&mut prng, &a.tables, &a.ingr_sets, &vec![1, 0], &vec![1, 0], 3),
        Err(EngineError::MissingTable)
    );
    // a material without charges needs no table
    assert_eq!(
        gen_resources(&mut prng, &a.tables, &a.ingr_sets, &vec![0, 0], &vec![1, 0], 3),
        Ok(vec![0, 0, 0])
    );
    let empty = vec![StoredIngrSet { name: "Common".to_string(), list: vec![] }];
    let tables = vec![Some(vec![StoredSetWeight { set: 0, weight: 1 }])];
    assert_eq!(
        gen_resources(&mut prng, &tables, &empty, &vec![1], &vec![1], 3),
        Err(EngineError::EmptySet)
    );
}

#[test]
fn first_stake_earns_a_bonus_charge_for_each_skull() {
    let mut a = alchemy(100);
    let user = b"me".to_vec();
    let answers = vec![answer("t1", "me", 0), answer("t2", "me", 1)];
    let outcome = a.try_set_stake(&user, &"me".to_string(), &answers, 1_000_000, 7, &vec![8; 32]).unwrap();
    assert_eq!(outcome.charge_infos, vec![info("t1", 1_000_000, 0), info("t2", 1_000_000, 0)]);
    assert_eq!(
        a.skull_stakes,
        vec![
            SkullStake {
                token_id: "t1".to_string(),
                info: SkullStakeInfo { addr: user.clone(), stake: 1_000_000, claim: 1_000_000 },
            },
            SkullStake {
                token_id: "t2".to_string(),
                info: SkullStakeInfo { addr: user.clone(), stake: 1_000_000, claim: 1_000_000 },
            },
        ]
    );
    assert_eq!(a.user_stakes[0].tokens, names(&["t1", "t2"]));
    // one charge on each material, rolled as charges and as quantities by
    // the generator of the kept seed, which then gives the next seed
    let mut rng = roller(&[5; 32], 1_000_000, &user, &[8; 32]);
    let generated = rolled(&mut rng, &a, &[1, 1], &[1, 1]);
    assert_eq!(outcome.rewards, rewards(&a, &generated));
    assert_eq!(a.inventory(&user), generated);
    assert_eq!(a.inventories.len(), 1);
    assert_eq!(a.prng_seed, rng.rand_bytes().to_vec());
    assert_ne!(a.prng_seed, vec![5; 32]);
}

#[test]
fn staking_again_changes_nothing_and_earns_nothing() {
    let mut a = alchemy(100);
    let user = b"me".to_vec();
    let answers = vec![answer("t1", "me", 0), answer("t2", "me", 1)];
    a.try_set_stake(&user, &"me".to_string(), &answers, 1_000_000, 7, &vec![8; 32]).unwrap();
    let before = a.clone();
    let outcome = a.try_set_stake(&user, &"me".to_string(), &answers, 1_000_050, 7, &vec![9; 32]).unwrap();
    assert!(outcome.rewards.is_empty());
    assert_eq!(outcome.charge_infos, vec![info("t1", 1_000_000, 0), info("t2", 1_000_000, 0)]);
    assert_eq!(a, before);
    // later the charges show, and the records stay
    let outcome = a.try_set_stake(&user, &"me".to_string(), &answers, 1_000_250, 7, &vec![9; 32]).unwrap();
    assert_eq!(outcome.charge_infos, vec![info("t1", 1_000_000, 2), info("t2", 1_000_000, 2)]);
    assert_eq!(a, before);
    // staking fewer skulls trims the list
    let outcome =
        a.try_set_stake(&user, &"me".to_string(), &vec![answer("t2", "me", 1)], 1_000_250, 7, &vec![]).unwrap();
    assert_eq!(outcome.charge_infos, vec![info("t2", 1_000_000, 2)]);
    assert_eq!(a.user_stakes[0].tokens, names(&["t2"]));
    assert_eq!(a.skull_stakes, before.skull_stakes);
    // an empty list is allowed after the first stake
    a.try_set_stake(&user, &"me".to_string(), &vec![], 1_000_250, 7, &vec![]).unwrap();
    assert!(a.user_stakes[0].tokens.is_empty());
}

#[test]
fn a_skull_staked_by_another_user_starts_anew() {
    let mut a = alchemy(100);
    a.try_set_stake(&b"me".to_vec(), &"me".to_string(), &vec![answer("t1", "me", 0)], 1000, 7, &vec![1])
        .unwrap();
    // sold to a user who stakes for the first time, before the skull cooled down
    let you = b"you".to_vec();
    assert_eq!(
        a.try_set_stake(&you, &"you".to_string(), &vec![answer("t1", "you", 0)], 1050, 7, &vec![1]),
        Err(refusal(EngineError::NoEligibleBonus))
    );
    assert_eq!(a.skull_stakes[0].info.addr, b"me".to_vec());
    assert!(a.user_stakes.len() == 1);
    // after the cooldown it earns the bonus and starts anew
    let outcome =
        a.try_set_stake(&you, &"you".to_string(), &vec![answer("t1", "you", 0)], 1100, 7, &vec![1]).unwrap();
    assert_eq!(outcome.charge_infos, vec![info("t1", 1100, 0)]);
    assert_eq!(
        a.skull_stakes[0].info,
        SkullStakeInfo { addr: you.clone(), stake: 1100, claim: 1100 }
    );
    assert!(!outcome.rewards.is_empty());
}

#[test]
fn staking_refusals_change_nothing() {
    let mut a = alchemy(100);
    let before = a.clone();
    let user = b"me".to_vec();
    let me = "me".to_string();
    let six: Vec<ImageAnswer> = (0..6).map(|i| answer(&format!("t{}", i), "me", 0)).collect();
    assert_eq!(a.try_set_stake(&user, &me, &six, 1000, 7, &vec![]), Err(refusal(EngineError::ListTooLong)));
    assert_eq!(
        a.try_set_stake(
            &user,
            &me,
            &vec![answer("t3", "her", 0), answer("t1", "me", 0), answer("t2", "you", 0), answer("t3", "her", 0)],
            1000,
            7,
            &vec![]
        ),
        Err(StakeRefusal { error: EngineError::NotOwned, not_owned: names(&["t3", "t2"]) })
    );
    assert_eq!(a.try_set_stake(&user, &me, &vec![], 1000, 7, &vec![]), Err(refusal(EngineError::EmptyFirstStake)));
    // a skull of an unknown material
    assert_eq!(
        a.try_set_stake(&user, &me, &vec![answer("t1", "me", 2)], 1000, 7, &vec![]),
        Err(refusal(EngineError::StorageCorrupt))
    );
    assert_eq!(
        a.try_set_stake(
            &user,
            &me,
            &vec![ImageAnswer { token_id: "t1".to_string(), owner: me.clone(), natural: vec![0] }],
            1000, 7,
            &vec![]
        ),
        Err(refusal(EngineError::ImageTooShort))
    );
    assert_eq!(a.try_claim_stake(&user, &me, &vec![], 1000, 7, &vec![]), Err(EngineError::NeverStaked));
    a.staking.halt = true;
    let halted = a.clone();
    assert_eq!(
        a.try_set_stake(&user, &me, &vec![answer("t1", "me", 0)], 1000, 7, &vec![]),
        Err(refusal(EngineError::Halted))
    );
    assert_eq!(a.try_claim_stake(&user, &me, &vec![], 1000, 7, &vec![]), Err(EngineError::Halted));
    assert_eq!(a, halted);
    a.staking.halt = false;
    assert_eq!(a, before);
}

#[test]
fn claim_caps_at_four_charges() {
    let mut a = alchemy(100);
    let user = b"me".to_vec();
    let me = "me".to_string();
    let now = 50_000u64;
    a.user_stakes.push(skull_alchemy::staking::UserStake { user: user.clone(), tokens: names(&["t1"]) });
    a.skull_stakes.push(SkullStake {
        token_id: "t1".to_string(),
        info: SkullStakeInfo { addr: user.clone(), stake: now - 1000, claim: 7 },
    });
    let outcome = a.try_claim_stake(&user, &me, &vec![answer("t1", "me", 0)], now, 7, &vec![8; 32]).unwrap();
    assert_eq!(outcome.charge_infos, vec![info("t1", now, 0)]);
    assert_eq!(a.skull_stakes[0].info, SkullStakeInfo { addr: user.clone(), stake: now, claim: now });
    // four charges of one skull of material 0
    let mut rng = roller(&[5; 32], now, &user, &[8; 32]);
    let generated = rolled(&mut rng, &a, &[4, 0], &[1, 0]);
    assert_eq!(outcome.rewards, rewards(&a, &generated));
    assert_eq!(a.inventory(&user), generated);
    assert_eq!(a.prng_seed, rng.rand_bytes().to_vec());
    // nothing is left to claim
    let before = a.clone();
    assert_eq!(
        a.try_claim_stake(&user, &me, &vec![answer("t1", "me", 0)], now + 99, 7, &vec![8; 32]),
        Err(EngineError::NoCharges)
    );
    assert_eq!(a, before);
}

#[test]
fn claim_keeps_the_started_charge() {
    let mut a = alchemy(100);
    let user = b"me".to_vec();
    let me = "me".to_string();
    a.try_set_stake(&user, &me, &vec![answer("t1", "me", 0), answer("t2", "me", 1)], 1000, 7, &vec![1])
        .unwrap();
    let held = a.inventory(&user);
    let seed = a.prng_seed.clone();
    // 250 seconds later: two charges each, fifty seconds into the third
    let answers = vec![answer("t1", "me", 0), answer("t2", "you", 1)];
    let outcome = a.try_claim_stake(&user, &me, &answers, 1250, 7, &vec![2; 32]).unwrap();
    assert_eq!(outcome.charge_infos, vec![info("t1", 1200, 0)]);
    assert_eq!(a.skull_stakes[0].info, SkullStakeInfo { addr: user.clone(), stake: 1200, claim: 1200 });
    // the skull that was sold keeps its record and leaves the list
    assert_eq!(a.skull_stakes[1].info, SkullStakeInfo { addr: user.clone(), stake: 1000, claim: 1000 });
    assert_eq!(a.user_stakes[0].tokens, names(&["t1"]));
    let mut rng = roller(&seed, 1250, &user, &[2; 32]);
    let generated = rolled(&mut rng, &a, &[2, 0], &[1, 0]);
    assert_eq!(a.prng_seed, rng.rand_bytes().to_vec());
    let total: Vec<u32> = held.iter().zip(generated.iter()).map(|(h, g)| h + g).collect();
    assert_eq!(a.inventory(&user), total);
    assert_eq!(outcome.rewards, rewards(&a, &generated));
    assert_eq!(
        a.try_claim_stake(&user, &me, &vec![answer("t1", "you", 0)], 2000, 7, &vec![]),
        Err(EngineError::NoneOwned)
    );
    a.try_set_stake(&user, &me, &vec![], 2000, 7, &vec![]).unwrap();
    assert_eq!(
        a.try_claim_stake(&user, &me, &vec![answer("t1", "me", 0)], 2000, 7, &vec![]),
        Err(EngineError::NothingStaked)
    );
}

#[test]
fn staking_queries() {
    let mut a = alchemy(100);
    let user = b"me".to_vec();
    let me = "me".to_string();
    let fresh = a.query_my_stake(&user, &me, &vec![], 5);
    assert!(fresh.first_stake_bonus_available);
    assert_eq!(
        fresh.inventory,
        vec![
            IngredientQty { ingredient: "Ash".to_string(), quantity: 0 },
            IngredientQty { ingredient: "Salt".to_string(), quantity: 0 },
            IngredientQty { ingredient: "Moss".to_string(), quantity: 0 },
        ]
    );
    let tokens = names(&["t1", "t2", "t3"]);
    let answers = vec![answer("t1", "me", 0), answer("t2", "you", 0), answer("t3", "me", 1)];
    a.skull_stakes.push(SkullStake {
        token_id: "t3".to_string(),
        info: SkullStakeInfo { addr: b"old".to_vec(), stake: 10, claim: 950 },
    });
    assert_eq!(
        a.query_token_bonus(&user, &me, &tokens, &answers, 1000),
        (
            true,
            vec![
                EligibilityInfo { token_id: "t1".to_string(), is_eligible: Some(true), claimed_at: None },
                EligibilityInfo { token_id: "t2".to_string(), is_eligible: None, claimed_at: None },
                EligibilityInfo {
                    token_id: "t3".to_string(),
                    is_eligible: Some(false),
                    claimed_at: Some(950)
                },
            ]
        )
    );
    a.try_set_stake(&user, &me, &vec![answer("t1", "me", 0)], 1000, 7, &vec![4]).unwrap();
    assert_eq!(a.query_token_bonus(&user, &me, &tokens, &answers, 1000), (false, vec![]));
    let shown: MyStaking = a.query_my_stake(&user, &me, &answers, 1333);
    assert!(!shown.first_stake_bonus_available);
    assert_eq!(shown.charge_infos, vec![info("t1", 1000, 3)]);
    assert_eq!(shown.inventory, a.display_inventory(&user));
    assert_eq!(shown.inventory.iter().map(|q| q.quantity).collect::<Vec<u32>>(), a.inventory(&user));
    a.staking.halt = true;
    let halted = a.query_my_stake(&user, &me, &answers, 1333);
    assert!(halted.staking_is_halted);
    assert!(halted.charge_infos.is_empty());
}

#[test]
fn staking_settings() {
    let mut a = alchemy(100);
    let nobody = b"nobody".to_vec();
    assert_eq!(a.try_add_ingredients(&nobody, &names(&["Iron"])), Err(EngineError::Unauthorized));
    assert_eq!(a.try_add_ingredients(&admin(), &names(&["Iron", "Ash", "Iron"])), Ok(4));
    assert_eq!(a.ingredients, names(&["Ash", "Salt", "Moss", "Iron"]));
    let sets = vec![
        IngredientSet { name: "Rare".to_string(), members: names(&["Iron", "Moss", "Iron"]) },
        IngredientSet { name: "Odd".to_string(), members: names(&["Salt"]) },
    ];
    assert_eq!(a.try_set_ingred_set(&admin(), &sets), Ok(3));
    assert_eq!(a.ingr_sets[1].list, vec![3, 2]);
    assert_eq!(a.ingr_sets[2], StoredIngrSet { name: "Odd".to_string(), list: vec![1] });
    let before = a.clone();
    let bad = vec![
        IngredientSet { name: "New".to_string(), members: names(&["Ash"]) },
        IngredientSet { name: "Rare".to_string(), members: names(&["Gold dust"]) },
    ];
    assert_eq!(a.try_set_ingred_set(&admin(), &bad), Err(EngineError::UnknownName));
    assert_eq!(a, before);

    let table = |material: &str, entries: &[(&str, u16)]| StakingTable {
        material: material.to_string(),
        ingredient_set_weights: entries
            .iter()
            .map(|(s, w)| IngrSetWeight { ingredient_set: s.to_string(), weight: *w })
            .collect(),
    };
    a.try_stake_tbl(&admin(), &vec![table("Gold", &[("Odd", 3), ("Common", 4)])]).unwrap();
    assert_eq!(
        a.tables[1],
        Some(vec![StoredSetWeight { set: 2, weight: 3 }, StoredSetWeight { set: 0, weight: 4 }])
    );
    assert_eq!(a.query_stk_tbl(&Some("Gold".to_string()), None), Ok(table("Gold", &[("Odd", 3), ("Common", 4)])));
    assert_eq!(a.query_stk_tbl(&None, Some(0)), Ok(table("Bone", &[("Common", 9), ("Rare", 1)])));
    assert_eq!(a.query_stk_tbl(&None, None), Err(EngineError::BadInput));
    assert_eq!(a.query_stk_tbl(&Some("Tin".to_string()), None), Err(EngineError::UnknownName));
    let before = a.clone();
    assert_eq!(
        a.try_stake_tbl(&admin(), &vec![table("Bone", &[("Odd", 1)]), table("Tin", &[])]),
        Err(EngineError::UnknownName)
    );
    assert_eq!(
        a.try_stake_tbl(&admin(), &vec![table("Bone", &[("Odd", 1), ("Odd", 2)])]),
        Err(EngineError::DuplicateName)
    );
    assert_eq!(
        a.try_stake_tbl(&admin(), &vec![table("Bone", &[("Even", 1)])]),
        Err(EngineError::UnknownName)
    );
    assert_eq!(a.try_stake_tbl(&nobody, &vec![]), Err(EngineError::Unauthorized));
    assert_eq!(a, before);
    assert_eq!(a.try_set_charge_time(&admin(), 60), Ok(60));
    assert_eq!(a.staking.cooldown, 60);
}

#[test]
fn staking_starts_only_with_a_table_for_each_material() {
    let mut a = alchemy(100);
    a.staking.halt = true;
    a.tables[1] = None;
    assert_eq!(a.try_set_halt(&admin(), Some(false), None), Err(EngineError::MissingTable));
    a.tables.pop();
    assert_eq!(a.try_set_halt(&admin(), Some(false), Some(false)), Err(EngineError::MissingTable));
    assert!(a.alchemy.halt);
    a.tables.push(Some(vec![]));
    assert_eq!(a.try_set_halt(&admin(), Some(false), Some(false)), Ok((false, false)));
    assert_eq!(a.try_set_halt(&admin(), None, Some(true)), Ok((false, true)));
    assert_eq!(a.try_set_halt(&b"x".to_vec(), None, None), Err(EngineError::Unauthorized));
    a.staking.halt = true;
    a.materials.clear();
    assert_eq!(a.try_set_halt(&admin(), Some(false), None), Err(EngineError::BadInput));
}

#[test]
fn skull_info_sets_the_materials() {
    let mut a = alchemy(100);
    let info = SkullTypePlus {
        cyclops: StoredLayerId { category: 4, variant: 2 },
        jawless: StoredLayerId { category: 3, variant: 1 },
        skull_idx: 1,
        skull_variants: vec![
            VariantIdxName { idx: 2, name: "Ruby".to_string() },
            VariantIdxName { idx: 0, name: "Bone".to_string() },
            VariantIdxName { idx: 1, name: "Gold".to_string() },
        ],
    };
    assert_eq!(a.try_get_skull_info(&b"x".to_vec(), false, &info), Err(EngineError::Unauthorized));
    a.try_get_skull_info(&b"x".to_vec(), true, &info).unwrap();
    assert_eq!(a.materials, names(&["Bone", "Gold", "Ruby"]));
    assert_eq!(a.staking.skull_idx, 1);
    assert_eq!(a.alchemy.cyclops, StoredLayerId { category: 4, variant: 2 });
    assert_eq!(a.alchemy.jawless, StoredLayerId { category: 3, variant: 1 });
    let before = a.clone();
    let mut twice = info.clone();
    twice.skull_variants[0].idx = 1;
    assert_eq!(a.try_get_skull_info(&admin(), false, &twice), Err(EngineError::BadInput));
    let mut beyond = info.clone();
    beyond.skull_variants[0].idx = 3;
    assert_eq!(a.try_get_skull_info(&admin(), false, &beyond), Err(EngineError::StorageCorrupt));
    assert_eq!(a, before);
}
