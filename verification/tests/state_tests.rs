use skull_alchemy::alchemy_lite::{AlchemyLite, ShownPotion};
use skull_alchemy::auth::AddrType;
use skull_alchemy::contracts::Contracts;
use skull_alchemy::error::EngineError;
use skull_alchemy::ledger::Alchemy;
use skull_alchemy::metadata::CommonMetadata;
use skull_alchemy::potion::{PotionInfo, StoreContractInfo, VariantInfo as PotionVariant};
use skull_alchemy::prng::initial_seed;
use skull_alchemy::raffle::{PartnerInfo, Raffle, RollConfig};
use skull_alchemy::registry::{
    Action, Category, CategoryInfo, Dependencies, LayerId, Registry, StoredDependencies,
    StoredLayerId, VariantIdxName, VariantInfo, VariantInfoPlus,
};
use skull_alchemy::registry_query::SkullTypePlus;
use skull_alchemy::reservoir::{Reservoir, WinnerIndex};
use skull_alchemy::rewind::Rewinder;
use skull_alchemy::roller::StoredIngrSet;
use skull_alchemy::staking::{
    AlchemyState, IngredientSet, SkullStake, SkullStakeInfo, StakingState, UserStake,
};
use skull_alchemy::svg_server::SvgServer;
use skull_alchemy::validate::{tokens_differ, users_stake_once};

fn variant(name: &str) -> VariantInfo {
    VariantInfo { name: name.to_string(), display_name: name.to_string(), svg: Some("<v/>".to_string()) }
}

fn layer(category: &str, variant: &str) -> LayerId {
    LayerId { category: category.to_string(), variant: variant.to_string() }
}

fn contract(address: &[u8]) -> StoreContractInfo {
    StoreContractInfo { code_hash: "hash".to_string(), address: address.to_vec() }
}

/// Skull, Jaw Type, Eye Type and a skipped Aura, with one dependency.
fn small_registry() -> Registry {
    let mut registry = Registry::new();
    registry
        .add_categories(vec![
            CategoryInfo {
                name: "Skull".to_string(),
                skip: false,
                variants: vec![variant("Bone"), variant("Gold")],
            },
            CategoryInfo {
                name: "Jaw Type".to_string(),
                skip: false,
                variants: vec![variant("None"), variant("Bone")],
            },
            CategoryInfo {
                name: "Eye Type".to_string(),
                skip: false,
                variants: vec![variant("EyeType.Pair"), variant("EyeType.Cyclops")],
            },
            CategoryInfo { name: "Aura".to_string(), skip: true, variants: vec![variant("Glow")] },
        ])
        .unwrap();
    // a category that is added with the mark is on the skip list, and
    // leaves and enters it with its mark
    assert_eq!(registry.state.skip, vec![3]);
    registry.modify_category("Aura", None, Some(false)).unwrap();
    assert!(registry.state.skip.is_empty());
    registry.modify_category("Aura", None, Some(true)).unwrap();
    registry
        .process_dep_list(
            &vec![Dependencies { id: layer("Aura", "Glow"), correlated: vec![layer("Jaw Type", "Bone")] }],
            Action::Add,
        )
        .unwrap();
    registry
}

#[test]
fn a_registry_is_checked_before_use() {
    assert!(Registry::new().is_wf());
    let registry = small_registry();
    assert!(registry.is_wf());
    assert!(registry.holds_layer(StoredLayerId { category: 3, variant: 0 }));
    assert!(!registry.holds_layer(StoredLayerId { category: 3, variant: 1 }));
    assert!(!registry.holds_layer(StoredLayerId { category: 4, variant: 0 }));
    // a count that disagrees with the categories
    let mut broken = registry.clone();
    broken.state.cat_cnt = 3;
    assert!(!broken.is_wf());
    // a count of variants that disagrees with the variants
    let mut broken = registry.clone();
    broken.categories[0].cnt = 3;
    assert!(!broken.is_wf());
    // a list of variants for a category that is not there
    let mut broken = registry.clone();
    broken.variants.push(Vec::new());
    assert!(!broken.is_wf());
    // two categories of one name
    let mut broken = registry.clone();
    broken.categories[1] = Category { name: "Skull".to_string(), skip: false, cnt: 2 };
    assert!(!broken.is_wf());
    // two variants of one name in a category
    let mut broken = registry.clone();
    broken.variants[0][1] = variant("Bone");
    assert!(!broken.is_wf());
    // the skip list names a category that is not marked, twice, or not there
    let mut broken = registry.clone();
    broken.state.skip = vec![3, 0];
    assert!(!broken.is_wf());
    let mut broken = registry.clone();
    broken.state.skip = vec![3, 3];
    assert!(!broken.is_wf());
    let mut broken = registry.clone();
    broken.state.skip = vec![4];
    assert!(!broken.is_wf());
    // a marked category that is missing from the skip list
    let mut broken = registry.clone();
    broken.state.skip = Vec::new();
    assert!(!broken.is_wf());
    // dependencies on variants that are not there, and two of one variant
    let mut broken = registry.clone();
    broken.dependencies[0].id = StoredLayerId { category: 3, variant: 1 };
    assert!(!broken.is_wf());
    let mut broken = registry.clone();
    broken.dependencies[0].correlated.push(StoredLayerId { category: 9, variant: 0 });
    assert!(!broken.is_wf());
    let mut broken = registry.clone();
    broken.dependencies.push(StoredDependencies {
        id: StoredLayerId { category: 3, variant: 0 },
        correlated: Vec::new(),
    });
    assert!(!broken.is_wf());
}

#[test]
fn a_reservoir_is_checked_before_use() {
    assert!(Reservoir::new().is_wf());
    let entry = |id: &str, index: u32| WinnerIndex { token_id: id.to_string(), index };
    let good = Reservoir {
        winners: vec!["7".to_string(), "3".to_string()],
        map: vec![entry("3", 1), entry("7", 0)],
    };
    assert!(good.is_wf());
    // an entry too few, an entry that points past the list or at another
    // token, and a token with two entries
    let mut broken = good.clone();
    broken.map.pop();
    assert!(!broken.is_wf());
    let mut broken = good.clone();
    broken.map[0].index = 2;
    assert!(!broken.is_wf());
    let mut broken = good.clone();
    broken.map[0].index = 0;
    assert!(!broken.is_wf());
    let broken = Reservoir {
        winners: vec!["7".to_string(), "7".to_string()],
        map: vec![entry("7", 0), entry("7", 1)],
    };
    assert!(!broken.is_wf());
}

#[test]
fn a_new_claim_contract_has_drawn_nothing() {
    let entropy = b"some entropy".to_vec();
    let partner = PartnerInfo {
        name: "Partners".to_string(),
        contract: b"partner".to_vec(),
        count: 500,
        starts_at_one: Some(true),
    };
    let mut raffle = Raffle::init(
        &b"creator".to_vec(),
        &vec![b"other".to_vec(), b"creator".to_vec()],
        b"skulls".to_vec(),
        partner,
        &entropy,
    );
    assert!(raffle.is_wf());
    assert_eq!(raffle.admins, vec![b"creator".to_vec(), b"other".to_vec()]);
    assert_eq!(raffle.prng_seed, initial_seed(&entropy).to_vec());
    assert_eq!(
        raffle.roll,
        RollConfig {
            claimed: 0,
            partner: "Partners".to_string(),
            num_tokens: 500,
            start_one: true,
            round: None,
            halted: false,
        }
    );
    assert_eq!(raffle.skulls_address, b"skulls".to_vec());
    assert_eq!(raffle.partner_address, b"partner".to_vec());
    assert!(raffle.rounds.is_empty() && raffle.redeemed.is_empty());
    assert!(raffle.drawn_skulls.is_empty() && raffle.drawn_partner.is_empty());
    // the invariant holds after a raffle, and fails where a count is wrong
    raffle
        .try_raffle(&b"other".to_vec(), &b"other".to_vec(), 10, 30, 5, 6, &b"e".to_vec(), 1000)
        .unwrap();
    assert!(raffle.is_wf());
    let mut broken = raffle.clone();
    broken.rounds[0].counts.skulls += 1;
    assert!(!broken.is_wf());
    let mut broken = raffle.clone();
    broken.roll.claimed = 1;
    assert!(!broken.is_wf());
    let mut broken = raffle.clone();
    broken.roll.round = Some(1);
    assert!(!broken.is_wf());
    let mut broken = raffle.clone();
    broken.rounds[0].partner.map.clear();
    assert!(!broken.is_wf());
    // admins come and go by the hand of an admin
    assert_eq!(
        raffle.try_process_admins(&b"nobody".to_vec(), &vec![b"nobody".to_vec()], true),
        Err(EngineError::Unauthorized)
    );
    assert_eq!(raffle.try_process_admins(&b"other".to_vec(), &vec![b"third".to_vec()], true), Ok(true));
    assert_eq!(raffle.try_process_admins(&b"third".to_vec(), &vec![b"third".to_vec()], true), Ok(false));
    assert_eq!(
        raffle.try_process_admins(&b"third".to_vec(), &vec![b"creator".to_vec(), b"x".to_vec()], false),
        Ok(true)
    );
    assert_eq!(raffle.admins, vec![b"other".to_vec(), b"third".to_vec()]);
}

#[test]
fn a_new_potion_contract_knows_no_potion() {
    let entropy = b"more entropy".to_vec();
    let mut lite = AlchemyLite::init(
        &b"creator".to_vec(),
        &vec![b"other".to_vec()],
        contract(b"skulls"),
        "key".to_string(),
        &entropy,
    );
    assert!(lite.is_wf());
    assert_eq!(lite.admins, vec![b"creator".to_vec(), b"other".to_vec()]);
    assert_eq!(lite.prng_seed, initial_seed(&entropy).to_vec());
    assert_eq!(lite.state.skulls, contract(b"skulls"));
    assert_eq!(lite.state.v_key, "key");
    assert!(!lite.state.halt);
    assert_eq!(lite.state.potion_cnt, 0);
    assert!(lite.potions.is_empty());
    assert!(lite.state.potion_contracts.is_empty() && lite.state.svg_contracts.is_empty());
    let variants = vec![PotionVariant {
        layers: vec![layer("Eye Type", "EyeType.Cyclops")],
        normal_weight: 3,
        jawless_weight: None,
        cyclops_weight: Some(0),
    }];
    let potion = PotionInfo {
        name: "Eyes".to_string(),
        potion_contract: None,
        svg_server: contract(b"server"),
        variants: variants.clone(),
    };
    lite.set_potion(potion).unwrap();
    assert!(lite.is_wf());
    // the potion is shown to admins, by index first, else by name
    let shown = ShownPotion {
        halted: false,
        name: "Eyes".to_string(),
        svg_server: contract(b"server"),
        variants,
    };
    let creator = b"creator".to_vec();
    assert_eq!(lite.query_potion(&creator, &None, Some(0)), Ok(shown.clone()));
    assert_eq!(lite.query_potion(&creator, &Some("Eyes".to_string()), None), Ok(shown.clone()));
    assert_eq!(lite.query_potion(&creator, &Some("Nose".to_string()), Some(0)), Ok(shown));
    assert_eq!(
        lite.query_potion(&creator, &Some("Nose".to_string()), None),
        Err(EngineError::UnknownPotion)
    );
    assert_eq!(
        lite.query_potion(&creator, &Some("Eyes".to_string()), Some(1)),
        Err(EngineError::StorageCorrupt)
    );
    assert_eq!(lite.query_potion(&creator, &None, None), Err(EngineError::BadInput));
    assert_eq!(lite.query_potion(&b"nobody".to_vec(), &None, Some(0)), Err(EngineError::Unauthorized));
    // a wrong count, a name twice, a server that is not known
    let mut broken = lite.clone();
    broken.state.potion_cnt = 2;
    assert!(!broken.is_wf());
    let mut broken = lite.clone();
    broken.potions.push(lite.potions[0].clone());
    broken.state.potion_cnt = 2;
    assert!(!broken.is_wf());
    let mut broken = lite.clone();
    broken.potions[0].svg_server = 1;
    assert!(!broken.is_wf());
}

#[test]
fn a_new_staking_contract_waits_for_its_tables() {
    let entropy = b"staking entropy".to_vec();
    let mut alchemy =
        Alchemy::instantiate(&b"creator".to_vec(), &vec![b"other".to_vec()], 3600, &entropy);
    assert!(alchemy.is_wf());
    assert_eq!(alchemy.prng_seed, initial_seed(&entropy).to_vec());
    assert_eq!(alchemy.admins, vec![b"creator".to_vec(), b"other".to_vec()]);
    assert_eq!(alchemy.staking, StakingState { halt: true, skull_idx: 2, cooldown: 3600 });
    assert_eq!(
        alchemy.alchemy,
        AlchemyState {
            halt: true,
            cyclops: StoredLayerId { category: 5, variant: 1 },
            jawless: StoredLayerId { category: 3, variant: 0 },
        }
    );
    assert!(alchemy.materials.is_empty() && alchemy.ingredients.is_empty());
    assert!(alchemy.skull_stakes.is_empty() && alchemy.user_stakes.is_empty());
    assert!(alchemy.query_user_bonus(&b"anyone".to_vec()));
    // admins come and go by the hand of an admin
    assert_eq!(
        alchemy.try_process_auth_list(&b"nobody".to_vec(), &vec![b"nobody".to_vec()], true),
        Err(EngineError::Unauthorized)
    );
    assert_eq!(alchemy.try_process_auth_list(&b"other".to_vec(), &vec![b"third".to_vec()], true), Ok(true));
    assert_eq!(alchemy.try_process_auth_list(&b"third".to_vec(), &vec![b"creator".to_vec()], false), Ok(true));
    assert_eq!(alchemy.try_process_auth_list(&b"third".to_vec(), &vec![b"creator".to_vec()], false), Ok(false));
    assert_eq!(alchemy.admins, vec![b"other".to_vec(), b"third".to_vec()]);
    // materials and ingredient sets are shown as they are kept
    alchemy.materials = vec!["Bone".to_string(), "Gold".to_string()];
    assert_eq!(
        alchemy.query_mater(),
        vec![
            VariantIdxName { idx: 0, name: "Bone".to_string() },
            VariantIdxName { idx: 1, name: "Gold".to_string() },
        ]
    );
    alchemy.ingredients = vec!["Ash".to_string(), "Salt".to_string(), "Moss".to_string()];
    alchemy.ingr_sets = vec![
        StoredIngrSet { name: "Common".to_string(), list: vec![1, 0] },
        StoredIngrSet { name: "Rare".to_string(), list: vec![2] },
        StoredIngrSet { name: "None".to_string(), list: vec![] },
    ];
    let set = |name: &str, members: &[&str]| IngredientSet {
        name: name.to_string(),
        members: members.iter().map(|m| m.to_string()).collect(),
    };
    assert_eq!(
        alchemy.query_ingr_sets(None, None),
        Ok(vec![set("Common", &["Salt", "Ash"]), set("Rare", &["Moss"]), set("None", &[])])
    );
    assert_eq!(alchemy.query_ingr_sets(Some(1), Some(2)), Ok(vec![set("None", &[])]));
    assert_eq!(alchemy.query_ingr_sets(Some(2), Some(2)), Ok(vec![]));
    assert_eq!(alchemy.query_ingr_sets(Some(65535), Some(65535)), Ok(vec![]));
    alchemy.ingr_sets[1].list = vec![3];
    assert_eq!(alchemy.query_ingr_sets(None, Some(1)), Ok(vec![set("Common", &["Salt", "Ash"])]));
    assert_eq!(alchemy.query_ingr_sets(None, Some(2)), Err(EngineError::StorageCorrupt));
    // two records of one skull break the ledger
    let record = SkullStake {
        token_id: "1".to_string(),
        info: SkullStakeInfo { addr: b"user".to_vec(), stake: 1, claim: 1 },
    };
    alchemy.skull_stakes = vec![record.clone()];
    alchemy.user_stakes = vec![UserStake { user: b"user".to_vec(), tokens: vec!["1".to_string()] }];
    assert!(alchemy.is_wf());
    assert!(!alchemy.query_user_bonus(&b"user".to_vec()));
    alchemy.skull_stakes.push(record);
    assert!(!alchemy.is_wf());
    alchemy.skull_stakes.pop();
    // a skull twice on the staking list of a user breaks it too, unless an
    // earlier list of the same user hides the list
    let twice = UserStake { user: b"other".to_vec(), tokens: vec!["2".to_string(), "2".to_string()] };
    alchemy.user_stakes.push(twice.clone());
    assert!(!alchemy.is_wf());
    assert!(!users_stake_once(&alchemy.user_stakes));
    assert!(!tokens_differ(&twice.tokens));
    assert!(tokens_differ(&vec!["2".to_string(), "22".to_string()]));
    assert!(tokens_differ(&vec![]));
    alchemy.user_stakes[1].user = b"user".to_vec();
    assert!(alchemy.is_wf());
}

#[test]
fn a_new_rewind_contract_has_rewound_nothing() {
    let rewinder = Rewinder::init(&b"creator".to_vec(), contract(b"skulls"), "key".to_string(), 600);
    assert_eq!(rewinder.config.admins, vec![b"creator".to_vec()]);
    assert_eq!(rewinder.config.nft_contract, contract(b"skulls"));
    assert_eq!(rewinder.config.viewing_key, "key");
    assert_eq!(rewinder.config.cooldown, 600);
    assert!(!rewinder.config.halt);
    assert!(rewinder.times.is_empty());
    assert_eq!(rewinder.last_rewind_time(&"1".to_string()), None);
}

#[test]
fn contracts_are_set_by_admins() {
    let admins = vec![b"admin".to_vec()];
    let mut contracts = Contracts {
        svg_server: contract(b"server"),
        skulls: contract(b"skulls"),
        crates: vec![contract(b"crate")],
    };
    let before = contracts.clone();
    assert_eq!(
        contracts.try_set_contracts(&admins, &b"nobody".to_vec(), Some(contract(b"new")), None, None),
        Err(EngineError::Unauthorized)
    );
    assert_eq!(contracts, before);
    // nothing new: nothing changes and no key is set
    assert_eq!(contracts.try_set_contracts(&admins, &b"admin".to_vec(), None, None, None), Ok(vec![]));
    assert_eq!(contracts, before);
    // a new crating contract is added, a known one gets its new code hash
    let newer = StoreContractInfo { code_hash: "newer".to_string(), address: b"crate".to_vec() };
    assert_eq!(
        contracts.try_set_contracts(&admins, &b"admin".to_vec(), None, None, Some(newer.clone())),
        Ok(vec![])
    );
    assert_eq!(contracts.crates, vec![newer.clone()]);
    assert_eq!(
        contracts.try_set_contracts(&admins, &b"admin".to_vec(), None, None, Some(contract(b"box"))),
        Ok(vec![])
    );
    assert_eq!(contracts.crates, vec![newer.clone(), contract(b"box")]);
    // the key is set with a new server and a new contract of the skulls
    assert_eq!(
        contracts.try_set_contracts(
            &admins,
            &b"admin".to_vec(),
            Some(contract(b"server2")),
            Some(contract(b"skulls2")),
            None,
        ),
        Ok(vec![contract(b"server2"), contract(b"skulls2")])
    );
    assert_eq!(
        contracts.try_set_contracts(&admins, &b"admin".to_vec(), None, Some(contract(b"skulls3")), None),
        Ok(vec![contract(b"skulls3")])
    );
    assert_eq!(
        contracts,
        Contracts {
            svg_server: contract(b"server2"),
            skulls: contract(b"skulls3"),
            crates: vec![newer, contract(b"box")],
        }
    );
}

#[test]
fn the_server_shows_its_registry_to_admins_and_viewers() {
    let admin = b"admin".to_vec();
    let viewer = b"viewer".to_vec();
    let minter = b"minter".to_vec();
    let mut server = SvgServer::instantiate(&admin, &vec![]);
    assert!(server.registry.is_wf());
    assert_eq!(server.auth.admins, vec![admin.clone()]);
    assert_eq!(server.metadata, CommonMetadata { public: None, private: None });
    server.auth.process_auth_list(&admin, &vec![viewer.clone()], true, AddrType::Viewer).unwrap();
    server.auth.process_auth_list(&admin, &vec![minter.clone()], true, AddrType::Minter).unwrap();
    server.registry = small_registry();
    // common metadata: admins, viewers and minters
    assert_eq!(server.query_common_metadata(&minter), Ok(&CommonMetadata { public: None, private: None }));
    assert!(server.query_common_metadata(&viewer).is_ok());
    assert!(server.query_common_metadata(&admin).is_ok());
    assert_eq!(server.query_common_metadata(&b"x".to_vec()), Err(EngineError::Unauthorized));
    // what other contracts read: viewers only
    assert_eq!(
        server.query_type_plus(&viewer),
        Ok(SkullTypePlus {
            cyclops: StoredLayerId { category: 2, variant: 1 },
            jawless: StoredLayerId { category: 1, variant: 0 },
            skull_idx: 0,
            skull_variants: vec![
                VariantIdxName { idx: 0, name: "Bone".to_string() },
                VariantIdxName { idx: 1, name: "Gold".to_string() },
            ],
        })
    );
    assert_eq!(server.query_type_plus(&admin), Err(EngineError::Unauthorized));
    let served = server.query_serve_alchemy(&viewer).unwrap();
    assert_eq!(served.skip, vec![3]);
    assert_eq!(
        served.dependencies,
        vec![StoredDependencies {
            id: StoredLayerId { category: 3, variant: 0 },
            correlated: vec![StoredLayerId { category: 1, variant: 1 }],
        }]
    );
    assert_eq!(served.category_names, vec!["Skull", "Jaw Type", "Eye Type", "Aura"]);
    assert!(server.query_serve_alchemy(&minter).is_err());
    // what admins inspect
    assert_eq!(server.query_state(&admin), Ok((4, vec!["Aura".to_string()])));
    assert_eq!(server.query_state(&viewer), Err(EngineError::Unauthorized));
    let glow = Dependencies { id: layer("Aura", "Glow"), correlated: vec![layer("Jaw Type", "Bone")] };
    assert_eq!(server.query_dependencies(&admin, None, None), Ok((1, vec![glow.clone()])));
    assert_eq!(server.query_dependencies(&admin, Some(1), None), Ok((1, vec![])));
    assert_eq!(server.query_dependencies(&admin, Some(0), Some(0)), Ok((1, vec![])));
    assert_eq!(server.query_dependencies(&viewer, None, None), Err(EngineError::Unauthorized));
    let shown = VariantInfoPlus {
        index: 0,
        variant_info: VariantInfo { name: "Glow".to_string(), display_name: "Glow".to_string(), svg: None },
        includes: vec![layer("Jaw Type", "Bone")],
    };
    assert_eq!(
        server.query_variant(&admin, &Some(layer("Aura", "Glow")), None, None),
        Ok((3, shown.clone()))
    );
    assert_eq!(
        server.query_variant(
            &admin,
            &Some(layer("Skull", "Bone")),
            Some(StoredLayerId { category: 3, variant: 0 }),
            Some(false),
        ),
        Ok((3, shown))
    );
    assert_eq!(
        server.query_variant(&admin, &None, Some(StoredLayerId { category: 0, variant: 1 }), Some(true)),
        Ok((0, VariantInfoPlus { index: 1, variant_info: variant("Gold"), includes: vec![] }))
    );
    assert_eq!(
        server.query_variant(&admin, &Some(layer("Aura", "Dark")), None, None),
        Err(EngineError::UnknownVariant)
    );
    assert_eq!(
        server.query_variant(&admin, &Some(layer("Tail", "Glow")), None, None),
        Err(EngineError::UnknownCategory)
    );
    assert_eq!(
        server.query_variant(&viewer, &Some(layer("Aura", "Glow")), None, None),
        Err(EngineError::Unauthorized)
    );
    let page = server.query_category(&admin, Some("Jaw Type"), None, None, Some(1), Some(true)).unwrap();
    assert_eq!((page.category_count, page.index, page.variant_count), (4, 1, 2));
    assert_eq!(page.name, "Jaw Type");
    assert!(!page.skip);
    assert_eq!(
        page.variants,
        vec![VariantInfoPlus { index: 0, variant_info: variant("None"), includes: vec![] }]
    );
    assert_eq!(
        server.query_category(&admin, Some("Tail"), None, None, None, None),
        Err(EngineError::UnknownCategory)
    );
    assert_eq!(
        server.query_category(&viewer, Some("Skull"), None, None, None, None),
        Err(EngineError::Unauthorized)
    );
}

#[test]
fn a_transmuted_skull_can_be_rewound() {
    let mut backgrounds = Vec::new();
    for i in 0..7 {
        backgrounds.push(variant(&format!("B{}", i)));
    }
    let mut registry = Registry::new();
    registry
        .add_categories(vec![
            CategoryInfo { name: "Background".to_string(), skip: false, variants: backgrounds },
            CategoryInfo {
                name: "Skull".to_string(),
                skip: false,
                variants: vec![variant("Bone"), variant("Gold")],
            },
            CategoryInfo {
                name: "Jaw Type".to_string(),
                skip: false,
                variants: vec![variant("None"), variant("Bone"), variant("Gold")],
            },
            CategoryInfo {
                name: "Aura".to_string(),
                skip: false,
                variants: vec![variant("None"), variant("Glow")],
            },
        ])
        .unwrap();
    registry
        .process_dep_list(
            &vec![Dependencies { id: layer("Aura", "Glow"), correlated: vec![layer("Jaw Type", "Gold")] }],
            Action::Add,
        )
        .unwrap();
    let before = vec![6, 0, 1, 0];
    let after = registry
        .transmute(before.clone(), &vec![layer("Aura", "Glow"), layer("Skull", "Gold")])
        .unwrap();
    assert_eq!(after, vec![6, 1, 2, 1]);
    assert_eq!(after.len(), before.len());
    assert!(after.iter().all(|b| *b != 255));
    let names: Vec<String> = registry.categories.iter().map(|c| c.name.clone()).collect();
    let mut rewinder = Rewinder::init(&b"creator".to_vec(), contract(b"skulls"), "key".to_string(), 0);
    let me = "me".to_string();
    let token = "1".to_string();
    let changed = skull_alchemy::potion::ImageInfo {
        current: after,
        previous: before.clone(),
        natural: vec![0, 0, 1, 0],
        svg_server: None,
    };
    let rewound = rewinder.try_rewind(&me, &token, &me, changed, &names, 10).unwrap();
    assert_eq!(rewound.image_info.current, before);
    assert_eq!(
        rewound.categories_rewound,
        vec!["Skull".to_string(), "Jaw Type".to_string(), "Aura".to_string()]
    );
    // without a cooldown the second rewind finds nothing to rewind
    assert_eq!(
        rewinder.try_rewind(&me, &token, &me, rewound.image_info, &names, 10),
        Err(EngineError::NothingToRewind)
    );
}
