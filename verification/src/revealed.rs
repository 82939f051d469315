//! Transmuting keeps an image whole: as long as it was, and fully revealed;
//! and when a layer is sure to be accepted.
use crate::error::EngineError;
use crate::potion::{apply_spec, VariantInfo};
use crate::prng::PrngModel;
use crate::registry::{
    find_variant, lemma_find_category, lemma_find_dependency, lemma_find_variant, LayerId,
    RegistryModel, StoredLayerId,
};
use crate::registry::find_category;
use crate::rewind::rewind_error;
use crate::transmute::{
    apply_layers, clear_correlated, correlated_of, fully_revealed, jaw_name, none_name,
    replace_layer_spec, replace_other, replace_skull, separate_layers, set_correlated, skull_name,
    transmute_spec,
    upgrade_background, UNREVEALED,
};
use vstd::prelude::*;

verus! {

/// Whether `after` is as long as `before` and fully revealed.
pub open spec fn whole(before: Seq<u8>, after: Seq<u8>) -> bool {
    after.len() == before.len() && fully_revealed(after)
}

/// The index of a variant is below 255, so it never reads as unrevealed.
pub proof fn lemma_variant_is_revealed(m: RegistryModel, c: int, name: Seq<char>)
    requires
        m.wf(),
        0 <= c < m.categories.len(),
    ensures
        find_variant(m.variants[c], name) matches Some(v) ==> 0 <= v < UNREVEALED && v
            < m.variants[c].len(),
{
    lemma_find_variant(m.variants[c], name);
    assert(m.categories[c].cnt == m.variants[c].len());
}

/// Clearing correlated layers keeps an image whole.
pub proof fn lemma_clear_keeps_whole(m: RegistryModel, image: Seq<u8>, correlated: Seq<StoredLayerId>)
    requires
        m.wf(),
        fully_revealed(image),
        forall|k: int| 0 <= k < correlated.len() ==> m.has_layer(#[trigger] correlated[k]),
    ensures
        clear_correlated(m, image, correlated) matches Ok(out) ==> whole(image, out),
    decreases correlated.len(),
{
    if correlated.len() > 0 {
        let c = correlated[0].category;
        assert(m.has_layer(correlated[0]));
        lemma_variant_is_revealed(m, c as int, none_name());
        match find_variant(m.variants[c as int], none_name()) {
            Some(n) => {
                if c < image.len() {
                    let next = image.update(c as int, n as u8);
                    let rest = correlated.drop_first();
                    assert forall|k: int| 0 <= k < rest.len() implies m.has_layer(
                        #[trigger] rest[k],
                    ) by {
                        assert(rest[k] == correlated[k + 1]);
                    }
                    lemma_clear_keeps_whole(m, next, rest);
                }
            },
            None => {},
        }
    }
}

/// Setting correlated layers keeps an image whole.
pub proof fn lemma_set_keeps_whole(m: RegistryModel, image: Seq<u8>, correlated: Seq<StoredLayerId>)
    requires
        m.wf(),
        fully_revealed(image),
        forall|k: int| 0 <= k < correlated.len() ==> m.has_layer(#[trigger] correlated[k]),
    ensures
        set_correlated(image, correlated) matches Ok(out) ==> whole(image, out),
    decreases correlated.len(),
{
    if correlated.len() > 0 {
        let c = correlated[0].category;
        assert(m.has_layer(correlated[0]));
        assert(m.categories[c as int].cnt == m.variants[c as int].len());
        if c < image.len() {
            let next = image.update(c as int, correlated[0].variant);
            let rest = correlated.drop_first();
            assert forall|k: int| 0 <= k < rest.len() implies m.has_layer(#[trigger] rest[k]) by {
                assert(rest[k] == correlated[k + 1]);
            }
            lemma_set_keeps_whole(m, next, rest);
        }
    }
}

/// The layers that a variant brings are variants of the registry.
pub proof fn lemma_correlated_exist(m: RegistryModel, id: StoredLayerId)
    requires
        m.wf(),
    ensures
        forall|k: int|
            0 <= k < correlated_of(m, id).len() ==> m.has_layer(#[trigger] correlated_of(m, id)[k]),
{
    lemma_find_dependency(m.dependencies, id);
    match crate::registry::find_dependency(m.dependencies, id) {
        Some(d) => {
            assert forall|k: int| 0 <= k < correlated_of(m, id).len() implies m.has_layer(
                #[trigger] correlated_of(m, id)[k],
            ) by {
                assert(m.has_layer(m.dependencies[d].correlated[k]));
            }
        },
        None => {},
    }
}

/// One layer keeps an image whole.
pub proof fn lemma_layer_keeps_whole(
    m: RegistryModel,
    image: Seq<u8>,
    category: Seq<char>,
    variant: Seq<char>,
)
    requires
        m.wf(),
        fully_revealed(image),
    ensures
        replace_layer_spec(m, image, category, variant) matches Ok(out) ==> whole(image, out),
{
    if category == skull_name() {
        lemma_find_category(m.categories, skull_name());
        lemma_find_category(m.categories, jaw_name());
        match crate::registry::find_category(m.categories, skull_name()) {
            Some(s) => {
                lemma_variant_is_revealed(m, s, variant);
                match crate::registry::find_category(m.categories, jaw_name()) {
                    Some(j) => {
                        lemma_variant_is_revealed(m, j, variant);
                        lemma_variant_is_revealed(m, j, none_name());
                    },
                    None => {},
                }
            },
            None => {},
        }
        assert(replace_skull(m, image, variant) matches Ok(out) ==> whole(image, out));
    } else {
        lemma_find_category(m.categories, category);
        match crate::registry::find_category(m.categories, category) {
            Some(c) => {
                lemma_variant_is_revealed(m, c, variant);
                match find_variant(m.variants[c], variant) {
                    Some(v) => {
                        if c < image.len() && image[c] != v {
                            let old_id = StoredLayerId { category: c as u8, variant: image[c] };
                            let new_id = StoredLayerId { category: c as u8, variant: v as u8 };
                            lemma_correlated_exist(m, old_id);
                            lemma_correlated_exist(m, new_id);
                            lemma_clear_keeps_whole(m, image, correlated_of(m, old_id));
                            match clear_correlated(m, image, correlated_of(m, old_id)) {
                                Ok(cleared) => {
                                    lemma_set_keeps_whole(m, cleared, correlated_of(m, new_id));
                                },
                                Err(_) => {},
                            }
                        }
                    },
                    None => {},
                }
            },
            None => {},
        }
        assert(replace_other(m, image, category, variant) matches Ok(out) ==> whole(image, out));
    }
}

/// Layers applied in order keep an image whole.
pub proof fn lemma_layers_keep_whole(m: RegistryModel, image: Seq<u8>, layers: Seq<LayerId>)
    requires
        m.wf(),
        fully_revealed(image),
    ensures
        apply_layers(m, image, layers) matches Ok(out) ==> whole(image, out),
    decreases layers.len(),
{
    if layers.len() > 0 {
        lemma_layer_keeps_whole(m, image, layers[0].category@, layers[0].variant@);
        match replace_layer_spec(m, image, layers[0].category@, layers[0].variant@) {
            Ok(next) => {
                lemma_layers_keep_whole(m, next, layers.drop_first());
            },
            Err(_) => {},
        }
    }
}

/// Every image that a transmutation produces is as long as the image it was
/// made of, and fully revealed.
pub proof fn lemma_transmute_keeps_whole(m: RegistryModel, image: Seq<u8>, layers: Seq<LayerId>)
    requires
        m.wf(),
    ensures
        transmute_spec(m, image, layers) matches Ok(out) ==> whole(image, out),
{
    if fully_revealed(image) {
        match upgrade_background(m, image) {
            Ok(upgraded) => {
                if image.len() > 0 && image[0] < crate::transmute::RAW_BACKGROUNDS {
                    lemma_variant_is_revealed(
                        m,
                        0,
                        crate::transmute::transmuted_background(
                            m.variants[0][image[0] as int].display_name@,
                        ),
                    );
                }
                assert(whole(image, upgraded));
                lemma_layers_keep_whole(m, upgraded, layers);
            },
            Err(_) => {},
        }
    }
}

/// Whether every category of a list of layers has a variant named `None`.
pub open spec fn clearable(m: RegistryModel, correlated: Seq<StoredLayerId>) -> bool {
    forall|k: int|
        0 <= k < correlated.len() ==> find_variant(
            m.variants[(#[trigger] correlated[k]).category as int],
            none_name(),
        ).is_some()
}

/// Layers are cleared where each lies within the image and has a `None`
/// variant.
pub proof fn lemma_clear_succeeds(m: RegistryModel, image: Seq<u8>, correlated: Seq<StoredLayerId>)
    requires
        clearable(m, correlated),
        forall|k: int| 0 <= k < correlated.len() ==> (#[trigger] correlated[k]).category < image.len(),
    ensures
        clear_correlated(m, image, correlated).is_ok(),
    decreases correlated.len(),
{
    if correlated.len() > 0 {
        let c = correlated[0].category;
        let rest = correlated.drop_first();
        assert(correlated[0].category < image.len());
        let n = find_variant(m.variants[c as int], none_name()).unwrap();
        assert forall|k: int| 0 <= k < rest.len() implies (#[trigger] rest[k]).category
            < image.len() && find_variant(
            m.variants[rest[k].category as int],
            none_name(),
        ).is_some() by {
            assert(rest[k] == correlated[k + 1]);
        }
        lemma_clear_succeeds(m, image.update(c as int, n as u8), rest);
    }
}

/// Layers are set where each lies within the image.
pub proof fn lemma_set_succeeds(image: Seq<u8>, correlated: Seq<StoredLayerId>)
    requires
        forall|k: int| 0 <= k < correlated.len() ==> (#[trigger] correlated[k]).category < image.len(),
    ensures
        set_correlated(image, correlated).is_ok(),
    decreases correlated.len(),
{
    if correlated.len() > 0 {
        let c = correlated[0].category;
        let rest = correlated.drop_first();
        assert(correlated[0].category < image.len());
        assert forall|k: int| 0 <= k < rest.len() implies (#[trigger] rest[k]).category
            < image.len() by {
            assert(rest[k] == correlated[k + 1]);
        }
        lemma_set_succeeds(image.update(c as int, correlated[0].variant), rest);
    }
}

/// A layer that changes the variant of a category other than the skull is
/// accepted, and leaves the image with the new variant and with every layer
/// that the variant brings. This holds of an image that covers the
/// categories, where the categories that the old variant brought have a
/// `None` variant each, and the layers that the new variant brings lie in
/// categories that differ from each other and from that of the layer.
pub proof fn lemma_layer_is_accepted(
    m: RegistryModel,
    image: Seq<u8>,
    category: Seq<char>,
    variant: Seq<char>,
)
    requires
        m.wf(),
        category != skull_name(),
        m.categories.len() <= image.len(),
        find_category(m.categories, category) matches Some(c) && (find_variant(
            m.variants[c],
            variant,
        ) matches Some(v) && image[c] != v && clearable(
            m,
            correlated_of(m, StoredLayerId { category: c as u8, variant: image[c] }),
        ) && separate_layers(
            correlated_of(m, StoredLayerId { category: c as u8, variant: v as u8 }),
            c,
        )),
    ensures
        replace_layer_spec(m, image, category, variant) matches Ok(out) && {
            let c = find_category(m.categories, category).unwrap();
            let v = find_variant(m.variants[c], variant).unwrap();
            let correlated = correlated_of(m, StoredLayerId { category: c as u8, variant: v as u8 });
            &&& out.len() == image.len()
            &&& out[c] == v
            &&& forall|k: int|
                0 <= k < correlated.len() ==> (#[trigger] correlated[k]).category < out.len()
                    && out[correlated[k].category as int] == correlated[k].variant
        },
{
    let c = find_category(m.categories, category).unwrap();
    let v = find_variant(m.variants[c], variant).unwrap();
    lemma_find_category(m.categories, category);
    lemma_variant_is_revealed(m, c, variant);
    let old_id = StoredLayerId { category: c as u8, variant: image[c] };
    let new_id = StoredLayerId { category: c as u8, variant: v as u8 };
    lemma_correlated_exist(m, old_id);
    lemma_correlated_exist(m, new_id);
    assert forall|k: int| 0 <= k < correlated_of(m, old_id).len() implies (
    #[trigger] correlated_of(m, old_id)[k]).category < image.len() by {
        assert(m.has_layer(correlated_of(m, old_id)[k]));
    }
    lemma_clear_succeeds(m, image, correlated_of(m, old_id));
    crate::transmute::lemma_clear_correlated_len(m, image, correlated_of(m, old_id));
    let cleared = clear_correlated(m, image, correlated_of(m, old_id)).unwrap();
    assert forall|k: int| 0 <= k < correlated_of(m, new_id).len() implies (
    #[trigger] correlated_of(m, new_id)[k]).category < cleared.len() by {
        assert(m.has_layer(correlated_of(m, new_id)[k]));
    }
    lemma_set_succeeds(cleared, correlated_of(m, new_id));
    crate::transmute::lemma_replace_layer_sets_dependency(m, image, category, variant);
}

/// A skull that a potion changed can be rewound to what it was: after the
/// potion its previous image is the one it had, and unless rewinds are
/// halted or the skull is cooling down, its owner may rewind it.
pub proof fn lemma_potion_can_be_rewound(
    m: RegistryModel,
    variants: Seq<VariantInfo>,
    current: Seq<u8>,
    kind: crate::registry_query::SkullTypeResponse,
    holder: Seq<u8>,
    prng: PrngModel,
    cooldown: u64,
    last: Option<u64>,
    owner: Seq<char>,
    now: u64,
)
    requires
        m.wf(),
        last matches Some(t) ==> t + cooldown <= now,
    ensures
        apply_spec(m, variants, current, kind, holder, holder, prng) matches Ok((_, image, _)) ==> (
        rewind_error(false, cooldown, last, owner, owner, image, current, now)
            == (if image == current {
            Some(EngineError::NothingToRewind)
        } else {
            None
        })),
{
    match apply_spec(m, variants, current, kind, holder, holder, prng) {
        Ok((w, image, _)) => {
            lemma_transmute_keeps_whole(m, current, variants[w as int].layers@);
        },
        Err(_) => {},
    }
}

} // verus!
