use skull_alchemy::auth::{add_addrs_to_auth, remove_addrs_from_auth, AddrType, AuthLists};
use skull_alchemy::error::EngineError;
use skull_alchemy::metadata::{filter_metadata, CommonMetadata, Extension, Metadata, Trait};
use skull_alchemy::registry::{
    Action, CategoryInfo, Dependencies, LayerId, Registry, StoredLayerId, VariantIdxName,
    VariantInfo, VariantInfoPlus,
};
use skull_alchemy::registry_query::{SkullTypePlus, SkullTypeResponse};
use skull_alchemy::svg_server::SvgServer;

fn variant(name: &str, display: &str, svg: Option<&str>) -> VariantInfo {
    VariantInfo {
        name: name.to_string(),
        display_name: display.to_string(),
        svg: svg.map(|s| s.to_string()),
    }
}

fn layer(category: &str, variant: &str) -> LayerId {
    LayerId { category: category.to_string(), variant: variant.to_string() }
}

fn attribute(name: &str, value: &str) -> Trait {
    Trait {
        display_type: None,
        trait_type: Some(name.to_string()),
        value: value.to_string(),
        max_value: None,
    }
}

fn extension() -> Extension {
    Extension {
        image: None,
        image_data: None,
        external_url: None,
        description: None,
        name: None,
        attributes: None,
        background_color: None,
        animation_url: None,
        youtube_url: None,
    }
}

const PROLOG: &str = "<svg xmlns=\"http://www.w3.org/2000/svg\" viewBox=\"0 -0.5 24 24\" shape-rendering=\"crispEdges\">";

/// Background, Skull, Jaw Type, Hair, Eye Type and a skipped Aura.
fn full_registry() -> Registry {
    let mut backgrounds = Vec::new();
    for i in 0..7 {
        backgrounds.push(variant(&format!("B{}", i), &format!("Shade {}", i), Some("<b/>")));
    }
    let mut registry = Registry::new();
    registry
        .add_categories(vec![
            CategoryInfo { name: "Background".to_string(), skip: false, variants: backgrounds },
            CategoryInfo {
                name: "Skull".to_string(),
                skip: false,
                variants: vec![variant("Bone", "Bone", Some("<s0/>")), variant("Gold", "Gold", Some("<s1/>"))],
            },
            CategoryInfo {
                name: "Jaw Type".to_string(),
                skip: false,
                variants: vec![variant("None", "None", None), variant("Bone", "Bone", Some("<j/>"))],
            },
            CategoryInfo {
                name: "Hair".to_string(),
                skip: false,
                variants: vec![variant("Long", "Long", Some("<h/>")), variant("None", "None", Some("<bald/>"))],
            },
            CategoryInfo {
                name: "Eye Type".to_string(),
                skip: false,
                variants: vec![variant("EyeType.Pair", "Pair", None), variant("EyeType.Cyclops", "Cyclops", Some("<e/>"))],
            },
            CategoryInfo {
                name: "Aura".to_string(),
                skip: true,
                variants: vec![variant("Glow", "Glow", Some("<a/>"))],
            },
        ])
        .unwrap();
    registry
}

#[test]
fn metadata_of_a_revealed_image() {
    let registry = full_registry();
    let public = registry.token_metadata(&None, &vec![6, 1, 0, 0, 1, 0]).unwrap();
    assert_eq!(public.token_uri, None);
    let ext = public.extension.unwrap();
    assert_eq!(
        ext.image_data,
        Some(format!("{}<b/><s1/><h/><e/><a/></svg>", PROLOG))
    );
    assert_eq!(
        ext.attributes,
        Some(vec![
            attribute("Background", "Shade 6"),
            attribute("Skull", "Gold"),
            attribute("Jaw Type", "None"),
            attribute("Hair", "Long"),
            attribute("Eye Type", "Cyclops"),
            attribute("Unrevealed Trait Categories", "0"),
            attribute("Trait Count", "4"),
            attribute("Alchemical Status", "Transmuted"),
        ])
    );
}

#[test]
fn metadata_of_a_partly_revealed_image() {
    let registry = full_registry();
    let base = Some(Metadata {
        token_uri: None,
        extension: Some(Extension {
            name: Some("Mystic Skull".to_string()),
            image_data: Some("old".to_string()),
            attributes: Some(vec![attribute("old", "old")]),
            ..extension()
        }),
    });
    let public = registry.token_metadata(&base, &vec![2, 255, 0, 255, 255, 255]).unwrap();
    let ext = public.extension.unwrap();
    assert_eq!(ext.name, Some("Mystic Skull".to_string()));
    // unrevealed hair is drawn as no hair
    assert_eq!(ext.image_data, Some(format!("{}<b/><bald/></svg>", PROLOG)));
    assert_eq!(
        ext.attributes,
        Some(vec![
            attribute("Background", "Shade 2"),
            attribute("Skull", "???"),
            attribute("Jaw Type", "None"),
            attribute("Hair", "???"),
            attribute("Eye Type", "???"),
            attribute("Unrevealed Trait Categories", "3"),
            attribute("Clean Traits (Nones) Currently Revealed", "1"),
            attribute("Alchemical Status", "Raw"),
        ])
    );
}

#[test]
fn metadata_refusals() {
    let registry = full_registry();
    assert_eq!(registry.token_metadata(&None, &vec![]), Err(EngineError::ImageTooShort));
    assert_eq!(
        registry.token_metadata(&None, &vec![0, 0, 0, 0, 0, 0, 0]),
        Err(EngineError::StorageCorrupt)
    );
    assert_eq!(registry.token_metadata(&None, &vec![0, 5]), Err(EngineError::StorageCorrupt));
    let mut bare = Registry::new();
    bare.add_categories(vec![CategoryInfo { name: "Background".to_string(), skip: false, variants: vec![] }])
        .unwrap();
    assert_eq!(bare.token_metadata(&None, &vec![0]), Err(EngineError::UnknownCategory));
    let mut hairy = Registry::new();
    hairy
        .add_categories(vec![CategoryInfo {
            name: "Hair".to_string(),
            skip: false,
            variants: vec![variant("Long", "Long", None)],
        }])
        .unwrap();
    assert_eq!(hairy.token_metadata(&None, &vec![255]), Err(EngineError::MissingNoneVariant));
}

#[test]
fn metadata_is_screened() {
    let uri = Metadata { token_uri: Some("ipfs://x".to_string()), extension: None };
    let both = Metadata { token_uri: Some("ipfs://x".to_string()), extension: Some(extension()) };
    let neither = Metadata { token_uri: None, extension: None };
    assert_eq!(filter_metadata(uri.clone()), Ok(Some(uri.clone())));
    assert_eq!(filter_metadata(both.clone()), Err(EngineError::Malformed));
    assert_eq!(filter_metadata(neither.clone()), Ok(None));
    let mut common = CommonMetadata::new();
    assert!(common.is_empty());
    common.set_metadata(Some(uri.clone()), None).unwrap();
    assert_eq!(common, CommonMetadata { public: Some(uri.clone()), private: None });
    assert_eq!(common.set_metadata(Some(neither.clone()), Some(both)), Err(EngineError::Malformed));
    assert_eq!(common.public, Some(uri.clone()));
    common.set_metadata(Some(neither), Some(uri.clone())).unwrap();
    assert_eq!(common, CommonMetadata { public: None, private: Some(uri) });
}

#[test]
fn skulls_are_classified() {
    let registry = full_registry();
    let cyclops = StoredLayerId { category: 4, variant: 1 };
    let jawless = StoredLayerId { category: 2, variant: 0 };
    assert_eq!(registry.get_type_layers(), Ok((cyclops, jawless)));
    assert_eq!(
        registry.skull_type(&vec![0, 0, 0, 0, 1]),
        Ok(SkullTypeResponse { is_cyclops: true, is_jawless: true })
    );
    assert_eq!(
        registry.skull_type(&vec![0, 0, 1, 0, 0, 0]),
        Ok(SkullTypeResponse { is_cyclops: false, is_jawless: false })
    );
    assert_eq!(registry.skull_type(&vec![0, 0, 0, 0]), Err(EngineError::ImageTooShort));
    assert_eq!(
        registry.type_plus(),
        Ok(SkullTypePlus {
            cyclops,
            jawless,
            skull_idx: 1,
            skull_variants: vec![
                VariantIdxName { idx: 0, name: "Bone".to_string() },
                VariantIdxName { idx: 1, name: "Gold".to_string() },
            ],
        })
    );
    assert_eq!(Registry::new().get_type_layers(), Err(EngineError::UnknownCategory));
    let served = registry.serve_alchemy();
    assert_eq!(served.skip, vec![5]);
    assert_eq!(served.category_names.len(), 6);
    assert_eq!(served.category_names[3], "Hair");
}

#[test]
fn categories_are_shown_by_page() {
    let mut registry = full_registry();
    registry
        .process_dep_list(
            &vec![Dependencies { id: layer("Skull", "Gold"), correlated: vec![layer("Jaw Type", "Bone")] }],
            Action::Add,
        )
        .unwrap();
    let page = registry.category_page(Some("Skull"), None, Some(1), None, Some(true)).unwrap();
    assert_eq!(page.category_count, 6);
    assert_eq!(page.index, 1);
    assert_eq!(page.name, "Skull");
    assert_eq!(page.variant_count, 2);
    assert_eq!(
        page.variants,
        vec![VariantInfoPlus {
            index: 1,
            variant_info: variant("Gold", "Gold", Some("<s1/>")),
            includes: vec![layer("Jaw Type", "Bone")],
        }]
    );
    // without a name the index decides, without both the first category;
    // drawings are left out unless asked for
    let page = registry.category_page(None, Some(5), None, None, None).unwrap();
    assert_eq!(page.name, "Aura");
    assert!(page.skip);
    assert_eq!(page.variants[0].variant_info.svg, None);
    let page = registry.category_page(None, None, Some(2), Some(3), Some(false)).unwrap();
    assert_eq!(page.name, "Background");
    assert_eq!(page.variants.iter().map(|v| v.index).collect::<Vec<u8>>(), vec![2, 3, 4]);
    let page = registry.category_page(None, Some(0), Some(200), Some(200), None).unwrap();
    assert!(page.variants.is_empty());
    // five variants a page with drawings
    assert_eq!(registry.category_page(None, None, None, None, Some(true)).unwrap().variants.len(), 5);
    assert_eq!(registry.category_page(None, Some(6), None, None, None), Err(EngineError::UnknownCategory));
    assert_eq!(
        registry.category_page(Some("Tail"), Some(0), None, None, None),
        Err(EngineError::UnknownCategory)
    );
    assert_eq!(
        registry.displ_variant(&StoredLayerId { category: 1, variant: 2 }, false),
        Err(EngineError::StorageCorrupt)
    );
}

#[test]
fn address_lists_add_once_and_remove() {
    let mut list = vec![b"a".to_vec()];
    assert!(add_addrs_to_auth(&mut list, &vec![b"b".to_vec(), b"a".to_vec(), b"b".to_vec()]));
    assert_eq!(list, vec![b"a".to_vec(), b"b".to_vec()]);
    assert!(!add_addrs_to_auth(&mut list, &vec![b"a".to_vec()]));
    assert!(remove_addrs_from_auth(&mut list, &vec![b"a".to_vec(), b"z".to_vec()]));
    assert_eq!(list, vec![b"b".to_vec()]);
    assert!(!remove_addrs_from_auth(&mut list, &vec![b"a".to_vec()]));
    let mut lists = AuthLists::new(&b"me".to_vec(), &vec![b"you".to_vec(), b"me".to_vec()]);
    assert_eq!(lists.admins, vec![b"me".to_vec(), b"you".to_vec()]);
    assert_eq!(
        lists.process_auth_list(&b"them".to_vec(), &vec![], true, AddrType::Viewer),
        Err(EngineError::Unauthorized)
    );
    assert_eq!(
        lists.process_auth_list(&b"you".to_vec(), &vec![b"v".to_vec()], true, AddrType::Viewer),
        Ok(true)
    );
    assert_eq!(
        lists.process_auth_list(&b"you".to_vec(), &vec![b"m".to_vec()], true, AddrType::Minter),
        Ok(true)
    );
    assert_eq!(
        lists.process_auth_list(&b"you".to_vec(), &vec![b"me".to_vec()], false, AddrType::Admin),
        Ok(true)
    );
    assert_eq!(lists.admins, vec![b"you".to_vec()]);
    assert!(lists.can_read(&b"v".to_vec()) && lists.can_read(&b"m".to_vec()) && lists.can_read(&b"you".to_vec()));
    assert!(!lists.can_read(&b"me".to_vec()));
}

#[test]
fn the_server_asks_who_is_calling() {
    let admin = b"admin".to_vec();
    let viewer = b"viewer".to_vec();
    let mut server = SvgServer::instantiate(&admin, &vec![]);
    server.auth.process_auth_list(&admin, &vec![viewer.clone()], true, AddrType::Viewer).unwrap();
    let categories = full_registry();
    assert_eq!(
        server.try_add_categories(&viewer, vec![]),
        Err(EngineError::Unauthorized)
    );
    server.registry = categories;
    assert_eq!(
        server.try_modify_category(&viewer, "Skull", None, Some(true)),
        Err(EngineError::Unauthorized)
    );
    assert_eq!(server.try_modify_category(&admin, "Skull", None, Some(true)), Ok(()));
    assert_eq!(server.registry.state.skip, vec![5, 1]);
    assert_eq!(server.try_add_variants(&viewer, vec![]), Err(EngineError::Unauthorized));
    assert_eq!(server.try_modify_variants(&viewer, vec![]), Err(EngineError::Unauthorized));
    assert_eq!(
        server.try_process_dep_list(&viewer, &vec![], Action::Add),
        Err(EngineError::Unauthorized)
    );
    assert_eq!(server.try_set_metadata(&viewer, None, None), Err(EngineError::Unauthorized));
    assert_eq!(server.try_set_metadata(&admin, None, None), Ok(()));
    // transmuting is for viewers, not for admins
    assert_eq!(server.query_transmute(&admin, vec![6, 0, 0, 0, 0, 0], &vec![]), Err(EngineError::Unauthorized));
    assert_eq!(
        server.query_transmute(&viewer, vec![6, 0, 1, 0, 0, 0], &vec![layer("Skull", "Gold")]),
        Err(EngineError::UnknownVariant)
    );
    assert_eq!(
        server.query_transmute(&viewer, vec![6, 0, 0, 0, 0, 0], &vec![layer("Skull", "Gold")]),
        Ok(vec![6, 1, 0, 0, 0, 0])
    );
    assert_eq!(
        server.query_skull_type(&viewer, &vec![6, 0, 0, 0, 0, 0]),
        Ok(SkullTypeResponse { is_cyclops: false, is_jawless: true })
    );
    assert_eq!(server.query_skull_type(&admin, &vec![6, 0, 0, 0, 0, 0]), Err(EngineError::Unauthorized));
    assert!(server.query_token_metadata(&admin, &vec![6, 0, 0, 0, 0, 0]).is_ok());
    assert!(server.query_token_metadata(&viewer, &vec![6, 0, 0, 0, 0, 0]).is_ok());
    assert_eq!(
        server.query_token_metadata(&b"x".to_vec(), &vec![6, 0, 0, 0, 0, 0]),
        Err(EngineError::Unauthorized)
    );
}
