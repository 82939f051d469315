use skull_alchemy::error::EngineError;
use skull_alchemy::registry::{
    Action, AddVariantInfo, CategoryInfo, Dependencies, LayerId, Registry, StoredLayerId,
    VariantInfo, VariantModInfo, VariantModification,
};
use skull_alchemy::transmute::BackCache;

fn variant(name: &str, display: &str) -> VariantInfo {
    VariantInfo { name: name.to_string(), display_name: display.to_string(), svg: None }
}

fn layer(category: &str, variant: &str) -> LayerId {
    LayerId { category: category.to_string(), variant: variant.to_string() }
}

fn category(name: &str, skip: bool, variants: Vec<VariantInfo>) -> CategoryInfo {
    CategoryInfo { name: name.to_string(), skip, variants }
}

/// Twelve backgrounds: six raw ones and the transmuted counterpart of each.
fn backgrounds() -> Vec<VariantInfo> {
    let mut list = Vec::new();
    for i in 0..6 {
        list.push(variant(&format!("B{}", i), &format!("Shade {}", i)));
    }
    for i in 0..6 {
        list.push(variant(&format!("Background.Shade {}.Transmuted", i), &format!("Shade {}", i)));
    }
    list
}

/// Background, Skull and Jaw Type, with a jaw for each skull material.
fn skulls_registry() -> Registry {
    let mut registry = Registry::new();
    let count = registry
        .add_categories(vec![
            category("Background", false, backgrounds()),
            category("Skull", false, vec![variant("Bone", "Bone"), variant("Gold", "Gold")]),
            category(
                "Jaw Type",
                false,
                vec![variant("None", "None"), variant("Bone", "Bone"), variant("Gold", "Gold")],
            ),
        ])
        .unwrap();
    assert_eq!(count, 3);
    registry
}

/// Background, Hat and Feather, where a top hat brings a red feather.
fn hats_registry() -> Registry {
    let mut registry = Registry::new();
    registry
        .add_categories(vec![
            category("Background", false, backgrounds()),
            category("Hat", false, vec![variant("None", "None"), variant("Top", "Top Hat")]),
            category(
                "Feather",
                false,
                vec![variant("None", "None"), variant("Red", "Red"), variant("Blue", "Blue")],
            ),
        ])
        .unwrap();
    registry
        .process_dep_list(
            &vec![Dependencies { id: layer("Hat", "Top"), correlated: vec![layer("Feather", "Red")] }],
            Action::Add,
        )
        .unwrap();
    registry
}

#[test]
fn transmute_without_layers_keeps_a_transmuted_image() {
    let registry = skulls_registry();
    assert_eq!(registry.transmute(vec![7, 1, 2], &vec![]), Ok(vec![7, 1, 2]));
}

#[test]
fn transmute_without_layers_upgrades_a_raw_background() {
    let registry = skulls_registry();
    assert_eq!(registry.transmute(vec![2, 1, 2], &vec![]), Ok(vec![8, 1, 2]));
}

#[test]
fn transmute_rejects_unrevealed_images() {
    let registry = skulls_registry();
    assert_eq!(
        registry.transmute(vec![7, 255, 0], &vec![layer("Skull", "Gold")]),
        Err(EngineError::NotFullyRevealed)
    );
    assert_eq!(registry.transmute(vec![255], &vec![]), Err(EngineError::NotFullyRevealed));
}

#[test]
fn transmute_rejects_an_empty_image() {
    let registry = skulls_registry();
    assert_eq!(registry.transmute(vec![], &vec![]), Err(EngineError::ImageTooShort));
}

#[test]
fn skull_change_takes_the_jaw_along() {
    let registry = skulls_registry();
    // Bone skull with a Bone jaw becomes Gold with a Gold jaw.
    assert_eq!(registry.transmute(vec![6, 0, 1], &vec![layer("Skull", "Gold")]), Ok(vec![6, 1, 2]));
}

#[test]
fn skull_change_leaves_a_jawless_skull_jawless() {
    let registry = skulls_registry();
    assert_eq!(registry.transmute(vec![6, 0, 0], &vec![layer("Skull", "Gold")]), Ok(vec![6, 1, 0]));
}

#[test]
fn skull_change_to_the_same_variant_changes_nothing() {
    let registry = skulls_registry();
    assert_eq!(registry.transmute(vec![6, 1, 1], &vec![layer("Skull", "Gold")]), Ok(vec![6, 1, 1]));
}

/// Three categories as in a first setup: a skull turned to gold while its jaw
/// is `None` keeps no jaw, and its raw background needs a transmuted
/// counterpart.
#[test]
fn first_roll_on_a_small_registry() {
    let mut registry = Registry::new();
    let mut plain = Vec::new();
    for i in 0..12 {
        plain.push(variant(&format!("B{}", i), &format!("B{}", i)));
    }
    registry
        .add_categories(vec![
            category("Background", false, plain),
            category("Skull", false, vec![variant("Bone", "Bone"), variant("Gold", "Gold")]),
            category("Jaw Type", false, vec![variant("None", "None"), variant("Standard", "Standard")]),
        ])
        .unwrap();
    registry
        .process_dep_list(
            &vec![Dependencies {
                id: layer("Skull", "Gold"),
                correlated: vec![layer("Jaw Type", "Standard")],
            }],
            Action::Add,
        )
        .unwrap();
    // no variant is named after the display name of background 0
    assert_eq!(
        registry.transmute(vec![0, 0, 0], &vec![layer("Skull", "Gold")]),
        Err(EngineError::UnknownVariant)
    );
    // with a transmuted background the skull changes and the jaw stays `None`
    assert_eq!(registry.transmute(vec![6, 0, 0], &vec![layer("Skull", "Gold")]), Ok(vec![6, 1, 0]));
    // a jaw that is not `None` has no variant named after the new skull
    assert_eq!(
        registry.transmute(vec![6, 1, 1], &vec![layer("Skull", "Bone")]),
        Err(EngineError::UnknownVariant)
    );
}

#[test]
fn new_variant_sets_its_dependencies() {
    let registry = hats_registry();
    assert_eq!(registry.transmute(vec![6, 0, 0], &vec![layer("Hat", "Top")]), Ok(vec![6, 1, 1]));
    assert_eq!(registry.transmute(vec![6, 0, 2], &vec![layer("Hat", "Top")]), Ok(vec![6, 1, 1]));
}

#[test]
fn changing_away_clears_the_dependencies() {
    let registry = hats_registry();
    assert_eq!(registry.transmute(vec![6, 1, 1], &vec![layer("Hat", "None")]), Ok(vec![6, 0, 0]));
}

#[test]
fn layers_apply_in_order() {
    let registry = hats_registry();
    assert_eq!(
        registry.transmute(vec![6, 0, 0], &vec![layer("Hat", "Top"), layer("Feather", "Blue")]),
        Ok(vec![6, 1, 2])
    );
    assert_eq!(
        registry.transmute(vec![6, 0, 0], &vec![layer("Feather", "Blue"), layer("Hat", "Top")]),
        Ok(vec![6, 1, 1])
    );
}

#[test]
fn clearing_needs_a_none_variant() {
    let mut registry = Registry::new();
    registry
        .add_categories(vec![
            category("Background", false, backgrounds()),
            category("Hat", false, vec![variant("Flat", "Flat"), variant("Top", "Top Hat")]),
            category("Feather", false, vec![variant("Red", "Red"), variant("Blue", "Blue")]),
        ])
        .unwrap();
    registry
        .process_dep_list(
            &vec![Dependencies { id: layer("Hat", "Top"), correlated: vec![layer("Feather", "Red")] }],
            Action::Add,
        )
        .unwrap();
    assert_eq!(
        registry.transmute(vec![6, 1, 0], &vec![layer("Hat", "Flat")]),
        Err(EngineError::MissingNoneVariant)
    );
}

#[test]
fn unknown_names_are_refused() {
    let registry = hats_registry();
    assert_eq!(
        registry.transmute(vec![6, 0, 0], &vec![layer("Shoes", "Red")]),
        Err(EngineError::UnknownCategory)
    );
    assert_eq!(
        registry.transmute(vec![6, 0, 0], &vec![layer("Hat", "Crown")]),
        Err(EngineError::UnknownVariant)
    );
    assert_eq!(
        registry.transmute(vec![6, 0], &vec![layer("Feather", "Red")]),
        Err(EngineError::ImageTooShort)
    );
}

#[test]
fn replace_layer_uses_and_fills_the_caches() {
    let registry = hats_registry();
    let mut image = vec![6, 0, 0];
    let mut cat_cache: Vec<BackCache> = Vec::new();
    let mut var_caches: Vec<Vec<BackCache>> = vec![Vec::new(), Vec::new(), Vec::new()];
    registry
        .replace_layer(&mut image, &layer("Hat", "Top"), &mut cat_cache, &mut var_caches)
        .unwrap();
    assert_eq!(image, vec![6, 1, 1]);
    assert_eq!(cat_cache, vec![BackCache { id: "Hat".to_string(), index: 1 }]);
    assert_eq!(var_caches[1], vec![BackCache { id: "Top".to_string(), index: 1 }]);
    assert_eq!(registry.use_back_cache(None, "Hat", &mut cat_cache), Ok(1));
    assert_eq!(cat_cache.len(), 1);
    assert_eq!(
        registry.use_back_cache(None, "Shoes", &mut cat_cache),
        Err(EngineError::UnknownCategory)
    );
}

#[test]
fn add_categories_is_all_or_nothing() {
    let mut registry = skulls_registry();
    let before = registry.clone();
    let refused = registry.add_categories(vec![
        category("Eyes", false, vec![variant("Blue", "Blue")]),
        category("Skull", false, vec![]),
    ]);
    assert_eq!(refused, Err(EngineError::DuplicateCategory));
    assert_eq!(registry, before);
    let refused = registry.add_categories(vec![category(
        "Eyes",
        false,
        vec![variant("Blue", "Blue"), variant("Blue", "Other")],
    )]);
    assert_eq!(refused, Err(EngineError::DuplicateVariant));
    assert_eq!(registry, before);
    assert_eq!(
        registry.add_categories(vec![category("Eyes", true, vec![variant("Blue", "Blue")])]),
        Ok(4)
    );
    assert_eq!(registry.categories[3].name, "Eyes");
    assert_eq!(registry.categories[3].cnt, 1);
    assert_eq!(registry.state.cat_cnt, 4);
    // a category that is added with the skip mark is on the skip list
    assert_eq!(registry.state.skip, vec![3]);
}

#[test]
fn a_category_holds_255_variants() {
    let mut registry = Registry::new();
    let mut many = Vec::new();
    for i in 0..255 {
        many.push(variant(&format!("V{}", i), "x"));
    }
    assert_eq!(registry.add_categories(vec![category("Big", false, many)]), Ok(1));
    assert_eq!(registry.categories[0].cnt, 255);
    let refused = registry.add_variants(vec![AddVariantInfo {
        category_name: "Big".to_string(),
        variants: vec![variant("One more", "x")],
    }]);
    assert_eq!(refused, Err(EngineError::IndexOverflow));
    assert_eq!(registry.categories[0].cnt, 255);
}

#[test]
fn a_registry_holds_255_categories() {
    let mut registry = Registry::new();
    let mut many = Vec::new();
    for i in 0..255 {
        many.push(category(&format!("C{}", i), false, vec![]));
    }
    assert_eq!(registry.add_categories(many), Ok(255));
    assert_eq!(
        registry.add_categories(vec![category("One more", false, vec![])]),
        Err(EngineError::IndexOverflow)
    );
    assert_eq!(registry.state.cat_cnt, 255);
}

#[test]
fn add_variants_appends_in_order() {
    let mut registry = skulls_registry();
    registry
        .add_variants(vec![
            AddVariantInfo {
                category_name: "Skull".to_string(),
                variants: vec![variant("Silver", "Silver")],
            },
            AddVariantInfo {
                category_name: "Skull".to_string(),
                variants: vec![variant("Ruby", "Ruby")],
            },
        ])
        .unwrap();
    assert_eq!(registry.variant_index(1, "Silver"), Some(2));
    assert_eq!(registry.variant_index(1, "Ruby"), Some(3));
    assert_eq!(registry.categories[1].cnt, 4);
    let before = registry.clone();
    let refused = registry.add_variants(vec![
        AddVariantInfo { category_name: "Skull".to_string(), variants: vec![variant("Jade", "Jade")] },
        AddVariantInfo { category_name: "Tail".to_string(), variants: vec![] },
    ]);
    assert_eq!(refused, Err(EngineError::UnknownCategory));
    assert_eq!(registry, before);
}

#[test]
fn modify_category_renames_and_marks() {
    let mut registry = skulls_registry();
    registry.modify_category("Skull", Some("Head".to_string()), Some(true)).unwrap();
    assert_eq!(registry.category_index("Head"), Some(1));
    assert_eq!(registry.category_index("Skull"), None);
    assert_eq!(registry.state.skip, vec![1]);
    assert!(registry.categories[1].skip);
    registry.modify_category("Background", None, Some(true)).unwrap();
    registry.modify_category("Jaw Type", None, Some(true)).unwrap();
    assert_eq!(registry.state.skip, vec![1, 0, 2]);
    // unmarking moves the last entry of the skip list into the freed place
    registry.modify_category("Head", None, Some(false)).unwrap();
    assert_eq!(registry.state.skip, vec![2, 0]);
    assert!(!registry.categories[1].skip);
    assert_eq!(
        registry.modify_category("Head", Some("Jaw Type".to_string()), None),
        Err(EngineError::DuplicateCategory)
    );
    assert_eq!(
        registry.modify_category("Tail", None, Some(true)),
        Err(EngineError::UnknownCategory)
    );
    assert_eq!(registry.state_names(), (3, vec!["Jaw Type".to_string(), "Background".to_string()]));
}

#[test]
fn modify_variants_keeps_the_index() {
    let mut registry = skulls_registry();
    registry
        .modify_variants(vec![VariantModInfo {
            category: "Skull".to_string(),
            modifications: vec![VariantModification {
                name: "Gold".to_string(),
                modified_variant: VariantInfo {
                    name: "Aurum".to_string(),
                    display_name: "Pure Gold".to_string(),
                    svg: Some("<g/>".to_string()),
                },
            }],
        }])
        .unwrap();
    assert_eq!(registry.variant_index(1, "Aurum"), Some(1));
    assert_eq!(registry.variant_index(1, "Gold"), None);
    assert_eq!(registry.variants[1][1].display_name, "Pure Gold");
    let before = registry.clone();
    let refused = registry.modify_variants(vec![VariantModInfo {
        category: "Skull".to_string(),
        modifications: vec![
            VariantModification { name: "Bone".to_string(), modified_variant: variant("Ivory", "Ivory") },
            VariantModification { name: "Ivory".to_string(), modified_variant: variant("Aurum", "x") },
        ],
    }]);
    assert_eq!(refused, Err(EngineError::DuplicateVariant));
    assert_eq!(registry, before);
    let refused = registry.modify_variants(vec![VariantModInfo {
        category: "Skull".to_string(),
        modifications: vec![VariantModification {
            name: "Gold".to_string(),
            modified_variant: variant("Gold", "Gold"),
        }],
    }]);
    assert_eq!(refused, Err(EngineError::UnknownVariant));
}

#[test]
fn dependencies_are_added_modified_and_removed() {
    let mut registry = hats_registry();
    let top = StoredLayerId { category: 1, variant: 1 };
    assert_eq!(registry.dependency_index(top), Some(0));
    // adding again keeps the first
    registry
        .process_dep_list(
            &vec![Dependencies { id: layer("Hat", "Top"), correlated: vec![layer("Feather", "Blue")] }],
            Action::Add,
        )
        .unwrap();
    assert_eq!(registry.dependencies.len(), 1);
    assert_eq!(registry.dependencies[0].correlated, vec![StoredLayerId { category: 2, variant: 1 }]);
    registry
        .process_dep_list(
            &vec![Dependencies { id: layer("Hat", "Top"), correlated: vec![layer("Feather", "Blue")] }],
            Action::Modify,
        )
        .unwrap();
    assert_eq!(registry.dependencies[0].correlated, vec![StoredLayerId { category: 2, variant: 2 }]);
    assert_eq!(
        registry.process_dep_list(
            &vec![Dependencies { id: layer("Hat", "None"), correlated: vec![] }],
            Action::Modify,
        ),
        Err(EngineError::UnknownDependency)
    );
    assert_eq!(
        registry.process_dep_list(
            &vec![Dependencies { id: layer("Hat", "Crown"), correlated: vec![] }],
            Action::Add,
        ),
        Err(EngineError::UnknownVariant)
    );
    let (count, page) = registry.dependencies_page(None, None);
    assert_eq!(count, 1);
    assert_eq!(
        page,
        vec![Dependencies { id: layer("Hat", "Top"), correlated: vec![layer("Feather", "Blue")] }]
    );
    registry
        .process_dep_list(
            &vec![Dependencies { id: layer("Hat", "Top"), correlated: vec![] }],
            Action::Remove,
        )
        .unwrap();
    assert!(registry.dependencies.is_empty());
}

#[test]
fn layers_convert_between_names_and_indices() {
    let registry = hats_registry();
    let stored = layer("Feather", "Blue").to_stored(&registry).unwrap();
    assert_eq!(stored, StoredLayerId { category: 2, variant: 2 });
    assert_eq!(stored.to_display(&registry), Ok(layer("Feather", "Blue")));
    assert_eq!(layer("Tail", "Blue").to_stored(&registry), Err(EngineError::UnknownCategory));
    assert_eq!(
        StoredLayerId { category: 2, variant: 9 }.to_display(&registry),
        Err(EngineError::StorageCorrupt)
    );
}
