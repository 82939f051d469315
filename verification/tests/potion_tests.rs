use rand_core::RngCore;
use secret_toolkit::crypto::ContractPrng;
use skull_alchemy::alchemy_lite::{AlchemyLite, Effect, PotionTransfer, State};
use skull_alchemy::error::EngineError;
use skull_alchemy::potion::{
    apply_potion, select_variant, variant_weights, Application, ImageInfo, PotionInfo,
    StoreContractInfo, StoredPotionInfo, VariantInfo,
};
use skull_alchemy::prng::extend_entropy;
use skull_alchemy::registry::{CategoryInfo, LayerId, Registry, VariantInfo as Variant};
use skull_alchemy::registry_query::SkullTypeResponse;
use skull_alchemy::weights::{pick_weighted, sum_weights};

fn variant(name: &str) -> Variant {
    Variant { name: name.to_string(), display_name: name.to_string(), svg: None }
}

fn layer(category: &str, variant: &str) -> LayerId {
    LayerId { category: category.to_string(), variant: variant.to_string() }
}

/// Background, Jaw Type, Eye Type and Eye Color; all backgrounds transmuted.
fn eyes_registry() -> Registry {
    let mut registry = Registry::new();
    let mut backgrounds = Vec::new();
    for i in 0..8 {
        backgrounds.push(variant(&format!("B{}", i)));
    }
    registry
        .add_categories(vec![
            CategoryInfo { name: "Background".to_string(), skip: false, variants: backgrounds },
            CategoryInfo {
                name: "Jaw Type".to_string(),
                skip: false,
                variants: vec![variant("None"), variant("Bone")],
            },
            CategoryInfo {
                name: "Eye Type".to_string(),
                skip: false,
                variants: vec![variant("EyeType.Pair"), variant("EyeType.Cyclops")],
            },
            CategoryInfo {
                name: "Eye Color".to_string(),
                skip: false,
                variants: vec![variant("Green"), variant("Red"), variant("Blue")],
            },
        ])
        .unwrap();
    registry
}

fn eye_potion() -> Vec<VariantInfo> {
    vec![
        VariantInfo {
            layers: vec![layer("Eye Color", "Red")],
            normal_weight: 10,
            jawless_weight: None,
            cyclops_weight: Some(0),
        },
        VariantInfo {
            layers: vec![layer("Eye Color", "Blue")],
            normal_weight: 10,
            jawless_weight: None,
            cyclops_weight: None,
        },
    ]
}

fn image(current: Vec<u8>) -> ImageInfo {
    ImageInfo { current: current.clone(), previous: current.clone(), natural: current, svg_server: None }
}

fn contract(address: &[u8]) -> StoreContractInfo {
    StoreContractInfo { code_hash: "hash".to_string(), address: address.to_vec() }
}

#[test]
fn weights_pick_the_first_entry_above_the_number() {
    let weights = vec![3u16, 0, 5, 2];
    assert_eq!(sum_weights(&weights), 10);
    let picks: Vec<usize> = (0..10u128).map(|n| pick_weighted(&weights, n)).collect();
    assert_eq!(picks, vec![0, 0, 0, 2, 2, 2, 2, 2, 3, 3]);
    assert_eq!(sum_weights(&vec![65535; 3]), 196605);
}

#[test]
fn weights_depend_on_the_kind_of_skull() {
    let potion = vec![
        VariantInfo { layers: vec![], normal_weight: 1, jawless_weight: Some(2), cyclops_weight: Some(3) },
        VariantInfo { layers: vec![], normal_weight: 4, jawless_weight: Some(5), cyclops_weight: None },
        VariantInfo { layers: vec![], normal_weight: 6, jawless_weight: None, cyclops_weight: None },
    ];
    let kind = |c, j| SkullTypeResponse { is_cyclops: c, is_jawless: j };
    assert_eq!(variant_weights(&potion, kind(false, false)), vec![1, 4, 6]);
    assert_eq!(variant_weights(&potion, kind(true, false)), vec![3, 4, 6]);
    // the jawless weight counts for a jawless skull, unless the skull is a
    // cyclops and a cyclops weight is set
    assert_eq!(variant_weights(&potion, kind(false, true)), vec![2, 5, 6]);
    assert_eq!(variant_weights(&potion, kind(true, true)), vec![3, 5, 6]);
    let potion = vec![
        VariantInfo { layers: vec![], normal_weight: 0, jawless_weight: Some(10), cyclops_weight: Some(7) },
        VariantInfo { layers: vec![], normal_weight: 10, jawless_weight: Some(0), cyclops_weight: Some(7) },
    ];
    assert_eq!(variant_weights(&potion, kind(false, true)), vec![10, 0]);
    for number in [0u64, 5, 9, 10, 17, u64::MAX] {
        assert_eq!(select_variant(&potion, kind(false, true), number), Ok(0));
        assert_eq!(select_variant(&potion, kind(false, false), number), Ok(1));
    }
    assert_eq!(select_variant(&potion, kind(true, true), 6), Ok(0));
    assert_eq!(select_variant(&potion, kind(true, true), 7), Ok(1));
}

#[test]
fn potion_on_cyclops_picks_the_only_weighted_variant() {
    let cyclops = SkullTypeResponse { is_cyclops: true, is_jawless: false };
    for number in [0u64, 1, 9, 10, 19, 12345, u64::MAX] {
        assert_eq!(select_variant(&eye_potion(), cyclops, number), Ok(1));
    }
    let pair = SkullTypeResponse { is_cyclops: false, is_jawless: false };
    assert_eq!(select_variant(&eye_potion(), pair, 9), Ok(0));
    assert_eq!(select_variant(&eye_potion(), pair, 10), Ok(1));
    assert_eq!(select_variant(&eye_potion(), pair, 20), Ok(0));
}

#[test]
fn potion_without_weight_is_refused() {
    let potion = vec![VariantInfo {
        layers: vec![],
        normal_weight: 5,
        jawless_weight: None,
        cyclops_weight: Some(0),
    }];
    let cyclops = SkullTypeResponse { is_cyclops: true, is_jawless: false };
    assert_eq!(select_variant(&potion, cyclops, 3), Err(EngineError::NoWeight));
    assert_eq!(select_variant(&vec![], cyclops, 3), Err(EngineError::NoWeight));
}

#[test]
fn applied_potion_keeps_the_prior_image() {
    let registry = eyes_registry();
    let potion =
        StoredPotionInfo { name: "Eyes".to_string(), svg_server: 0, variants: eye_potion(), halt: false };
    let me = b"me".to_vec();
    let used = "server".to_string();
    let mut application = Application {
        kind: registry.skull_type(&vec![6, 1, 1, 0]).unwrap(),
        owner: &me,
        from: &me,
        entropy: &b"salt".to_vec(),
        block_height: 12,
        block_time: 3400,
        server_used: &used,
        potion_server: &used,
    };
    // a cyclops
    let applied =
        apply_potion(&registry, &potion, image(vec![6, 1, 1, 0]), &vec![5; 32], &application).unwrap();
    assert_eq!(applied.variant, 1);
    assert_eq!(applied.image_info.previous, vec![6, 1, 1, 0]);
    assert_eq!(applied.image_info.current, vec![6, 1, 1, 2]);
    assert_eq!(applied.image_info.natural, vec![6, 1, 1, 0]);
    assert_eq!(applied.image_info.svg_server, None);
    assert_eq!(applied.categories, vec!["Eye Color".to_string()]);
    // the seed is what the generator gives after the one draw
    let entropy = extend_entropy(12, 3400, &me, &b"salt".to_vec());
    let mut straight = ContractPrng::new(&[5; 32], &entropy);
    let first = straight.next_u64();
    assert_eq!(applied.new_seed, straight.rand_bytes().to_vec());
    // an ordinary skull gets what the first draw picks
    application.kind = registry.skull_type(&vec![6, 1, 0, 0]).unwrap();
    assert_eq!(application.kind, SkullTypeResponse { is_cyclops: false, is_jawless: false });
    let applied =
        apply_potion(&registry, &potion, image(vec![6, 1, 0, 0]), &vec![5; 32], &application).unwrap();
    let expected = if first % 20 < 10 { 1 } else { 2 };
    assert_eq!(applied.image_info.current, vec![6, 1, 0, expected]);
    assert_eq!(applied.variant, (expected - 1) as usize);
}

#[test]
fn potions_are_refused_for_strangers_and_unrevealed_skulls() {
    let registry = eyes_registry();
    let potion =
        StoredPotionInfo { name: "Eyes".to_string(), svg_server: 0, variants: eye_potion(), halt: false };
    let me = b"me".to_vec();
    let you = b"you".to_vec();
    let used = "server".to_string();
    let other = "other server".to_string();
    let mut application = Application {
        kind: SkullTypeResponse { is_cyclops: true, is_jawless: false },
        owner: &you,
        from: &me,
        entropy: &vec![],
        block_height: 1,
        block_time: 1,
        server_used: &used,
        potion_server: &other,
    };
    assert_eq!(
        apply_potion(&registry, &potion, image(vec![6, 1, 1, 0]), &vec![], &application),
        Err(EngineError::Unauthorized)
    );
    application.owner = &me;
    assert_eq!(
        apply_potion(&registry, &potion, image(vec![6, 1, 255, 0]), &vec![], &application),
        Err(EngineError::NotFullyRevealed)
    );
    assert_eq!(
        apply_potion(&registry, &potion, image(vec![6, 1]), &vec![], &application),
        Err(EngineError::ImageTooShort)
    );
    // a potion of another server leaves its server on the skull
    let applied = apply_potion(&registry, &potion, image(vec![6, 1, 1, 0]), &vec![], &application).unwrap();
    assert_eq!(applied.image_info.svg_server, Some("other server".to_string()));
}

fn potion_contract() -> AlchemyLite {
    AlchemyLite {
        admins: vec![b"admin".to_vec()],
        state: State {
            skulls: contract(b"skulls"),
            potion_contracts: Vec::new(),
            svg_contracts: Vec::new(),
            potion_cnt: 0,
            v_key: "key".to_string(),
            halt: false,
        },
        potions: Vec::new(),
        prng_seed: vec![5; 32],
    }
}

#[test]
fn potions_are_defined_and_redefined() {
    let mut alchemy = potion_contract();
    let potion = PotionInfo {
        name: "Eyes".to_string(),
        potion_contract: Some(contract(b"potions")),
        svg_server: contract(b"server"),
        variants: eye_potion(),
    };
    assert_eq!(
        alchemy.try_set_potion(&b"nobody".to_vec(), potion.clone()),
        Err(EngineError::Unauthorized)
    );
    let (effects, count, known) = alchemy.try_set_potion(&b"admin".to_vec(), potion.clone()).unwrap();
    assert_eq!(
        effects,
        vec![
            Effect::RegisterReceive { contract: contract(b"potions") },
            Effect::SetViewingKey { contract: contract(b"server") },
        ]
    );
    assert_eq!((count, known), (1, false));
    assert_eq!(alchemy.potions[0].svg_server, 0);
    assert!(!alchemy.potions[0].halt);
    // the same potion again: nothing to register, nothing new
    let mut again = potion.clone();
    again.svg_server = contract(b"second server");
    again.variants = vec![];
    let (effects, count, known) = alchemy.try_set_potion(&b"admin".to_vec(), again).unwrap();
    assert_eq!(effects, vec![Effect::SetViewingKey { contract: contract(b"second server") }]);
    assert_eq!((count, known), (1, true));
    assert_eq!(alchemy.potions[0].svg_server, 1);
    assert!(alchemy.potions[0].variants.is_empty());
    let (total, page) = alchemy.query_name_idx(None, None);
    assert_eq!(total, 1);
    assert_eq!(page[0].name, "Eyes");
    assert_eq!(page[0].index, 0);
    assert!(alchemy.query_name_idx(Some(1), Some(1)).1.is_empty());
}

#[test]
fn contracts_are_added_once_and_removed() {
    let mut alchemy = potion_contract();
    let admin = b"admin".to_vec();
    let effects = alchemy
        .try_add_contracts(
            &admin,
            &vec![contract(b"first"), contract(b"second"), contract(b"first")],
            &vec![contract(b"s1")],
        )
        .unwrap();
    assert_eq!(effects.len(), 3);
    assert_eq!(alchemy.state.potion_contracts, vec![contract(b"first"), contract(b"second")]);
    assert_eq!(alchemy.state.svg_contracts, vec![contract(b"s1")]);
    assert_eq!(alchemy.try_remove_ptn_contrs(&admin, &vec![b"first".to_vec(), b"ninth".to_vec()]), Ok(true));
    assert_eq!(alchemy.state.potion_contracts, vec![contract(b"second")]);
    assert_eq!(alchemy.try_remove_ptn_contrs(&admin, &vec![b"first".to_vec()]), Ok(false));
    assert_eq!(
        alchemy.try_remove_ptn_contrs(&b"nobody".to_vec(), &vec![]),
        Err(EngineError::Unauthorized)
    );
}

#[test]
fn a_sent_potion_transmutes_and_burns() {
    let registry = eyes_registry();
    let mut alchemy = potion_contract();
    let admin = b"admin".to_vec();
    alchemy
        .try_set_potion(
            &admin,
            PotionInfo {
                name: "Eyes".to_string(),
                potion_contract: Some(contract(b"potions")),
                svg_server: contract(b"server"),
                variants: eye_potion(),
            },
        )
        .unwrap();
    let me = b"me".to_vec();
    let sender = b"potions".to_vec();
    let tokens = vec!["potion 7".to_string()];
    let name = "Eyes".to_string();
    let skull = "42".to_string();
    let used = "server".to_string();
    let entropy = b"salt".to_vec();
    let mut transfer = PotionTransfer {
        kind: SkullTypeResponse { is_cyclops: true, is_jawless: false },
        sender: &sender,
        from: &me,
        token_ids: &tokens,
        potion_name: &name,
        skull: &skull,
        owner: &me,
        server_used: &used,
        potion_server: &used,
        entropy: &entropy,
        block_height: 12,
        block_time: 3400,
    };
    let effects = alchemy.try_batch_receive_nft(&registry, &transfer, image(vec![6, 1, 1, 0])).unwrap();
    assert_eq!(
        effects,
        vec![
            Effect::SetImageInfo {
                token_id: "42".to_string(),
                image_info: ImageInfo {
                    current: vec![6, 1, 1, 2],
                    previous: vec![6, 1, 1, 0],
                    natural: vec![6, 1, 1, 0],
                    svg_server: None,
                },
            },
            Effect::BurnNft {
                token_id: "potion 7".to_string(),
                memo: "Applied to Mystic Skull #42".to_string(),
                contract: contract(b"potions"),
            },
        ]
    );
    assert_ne!(alchemy.prng_seed, vec![5; 32]);

    // refusals leave the seed alone
    let before = alchemy.clone();
    let stranger = b"stranger".to_vec();
    assert_eq!(alchemy.receive_refusal(&sender, 1, &name), None);
    assert_eq!(alchemy.receive_refusal(&stranger, 1, &name), Some(EngineError::UnknownContract));
    assert_eq!(alchemy.receive_refusal(&sender, 2, &name), Some(EngineError::OnePotionOnly));
    assert_eq!(alchemy.receive_refusal(&sender, 0, &name), Some(EngineError::OnePotionOnly));
    assert_eq!(
        alchemy.receive_refusal(&sender, 1, &"Ears".to_string()),
        Some(EngineError::UnknownPotion)
    );
    transfer.sender = &stranger;
    assert_eq!(
        alchemy.try_batch_receive_nft(&registry, &transfer, image(vec![6, 1, 1, 0])),
        Err(EngineError::UnknownContract)
    );
    transfer.sender = &sender;
    let two = vec!["a".to_string(), "b".to_string()];
    transfer.token_ids = &two;
    assert_eq!(
        alchemy.try_batch_receive_nft(&registry, &transfer, image(vec![6, 1, 1, 0])),
        Err(EngineError::OnePotionOnly)
    );
    transfer.token_ids = &tokens;
    let unknown = "Ears".to_string();
    transfer.potion_name = &unknown;
    assert_eq!(
        alchemy.try_batch_receive_nft(&registry, &transfer, image(vec![6, 1, 1, 0])),
        Err(EngineError::UnknownPotion)
    );
    transfer.potion_name = &name;
    assert_eq!(
        alchemy.try_batch_receive_nft(&registry, &transfer, image(vec![6, 255, 1, 0])),
        Err(EngineError::NotFullyRevealed)
    );
    assert_eq!(alchemy, before);
    alchemy.try_set_halt(&admin, &Some("Eyes".to_string()), true).unwrap();
    assert_eq!(
        alchemy.try_batch_receive_nft(&registry, &transfer, image(vec![6, 1, 1, 0])),
        Err(EngineError::Halted)
    );
    alchemy.try_set_halt(&admin, &Some("Eyes".to_string()), false).unwrap();
    alchemy.try_set_halt(&admin, &None, true).unwrap();
    assert_eq!(
        alchemy.try_batch_receive_nft(&registry, &transfer, image(vec![6, 1, 1, 0])),
        Err(EngineError::Halted)
    );
    assert_eq!(
        alchemy.try_set_halt(&admin, &Some("Ears".to_string()), true),
        Err(EngineError::UnknownPotion)
    );
}

#[test]
fn the_two_halves_apply_a_potion_as_the_whole_does() {
    let registry = eyes_registry();
    let mut whole = potion_contract();
    whole
        .try_set_potion(
            &b"admin".to_vec(),
            PotionInfo {
                name: "Eyes".to_string(),
                potion_contract: Some(contract(b"potions")),
                svg_server: contract(b"server"),
                variants: eye_potion(),
            },
        )
        .unwrap();
    let mut halves = whole.clone();
    let me = b"me".to_vec();
    let sender = b"potions".to_vec();
    let tokens = vec!["potion 7".to_string()];
    let name = "Eyes".to_string();
    let skull = "42".to_string();
    let used = "server".to_string();
    let other = "other server".to_string();
    let entropy = b"salt".to_vec();
    let mut transfer = PotionTransfer {
        kind: SkullTypeResponse { is_cyclops: false, is_jawless: false },
        sender: &sender,
        from: &me,
        token_ids: &tokens,
        potion_name: &name,
        skull: &skull,
        owner: &me,
        server_used: &used,
        potion_server: &other,
        entropy: &entropy,
        block_height: 12,
        block_time: 3400,
    };
    let before = image(vec![6, 1, 0, 0]);
    let chosen = halves.choose_potion(&transfer, &before.current).unwrap();
    assert_eq!(chosen.layers, eye_potion()[chosen.variant].layers);
    assert_eq!(halves, whole);
    let transmuted = registry.transmute(before.current.clone(), &chosen.layers).unwrap();
    let effects =
        halves.finish_potion(&transfer, before.clone(), chosen.new_seed.clone(), transmuted).unwrap();
    assert_eq!(whole.try_batch_receive_nft(&registry, &transfer, before.clone()), Ok(effects));
    assert_eq!(halves, whole);
    assert_eq!(halves.prng_seed, chosen.new_seed);
    // both halves turn away what the whole turns away
    let stranger = b"stranger".to_vec();
    transfer.sender = &stranger;
    assert_eq!(halves.choose_potion(&transfer, &before.current), Err(EngineError::UnknownContract));
    assert_eq!(
        halves.finish_potion(&transfer, before.clone(), vec![1; 32], vec![6, 1, 0, 1]),
        Err(EngineError::UnknownContract)
    );
    transfer.sender = &sender;
    let you = b"you".to_vec();
    transfer.owner = &you;
    assert_eq!(halves.choose_potion(&transfer, &before.current), Err(EngineError::Unauthorized));
    transfer.owner = &me;
    assert_eq!(halves.choose_potion(&transfer, &vec![6, 255, 0, 0]), Err(EngineError::NotFullyRevealed));
    assert_eq!(halves, whole);
}
