//! Potions: what each potion may do to a skull, the choice of one of its
//! variants, and the application of the chosen layers.
use crate::error::EngineError;
use crate::prng::{extend_entropy, extended_entropy, Prng, PrngModel};
use crate::registry::{LayerId, Registry, RegistryModel};
use crate::registry_query::SkullTypeResponse;
use crate::text::bytes_eq;
use crate::transmute::{fully_revealed, is_fully_revealed, transmute_spec};
use crate::weights::{pick, pick_weighted, sum_weights, total_weight};
use vstd::prelude::*;

verus! {

/// One thing that a potion may do: the layers it applies, and how likely it
/// is for skulls of each kind.
#[derive(Clone, Debug, PartialEq, Eq)]
pub struct VariantInfo {
    /// The layers that the variant applies.
    pub layers: Vec<LayerId>,
    /// The weight of the variant for ordinary skulls.
    pub normal_weight: u16,
    /// The weight for skulls without a jaw, if it differs.
    pub jawless_weight: Option<u16>,
    /// The weight for cyclops skulls, if it differs.
    pub cyclops_weight: Option<u16>,
}

/// A contract by code hash and canonical address.
#[derive(Clone, Debug, PartialEq, Eq)]
pub struct StoreContractInfo {
    pub code_hash: String,
    pub address: Vec<u8>,
}

/// A contract by code hash and address.
#[derive(Clone, Debug, PartialEq, Eq)]
pub struct ContractInfo {
    pub code_hash: String,
    pub address: String,
}

/// A potion as it is defined.
#[derive(Clone, Debug, PartialEq, Eq)]
pub struct PotionInfo {
    pub name: String,
    /// The contract of the potion's tokens, if it is to be registered.
    pub potion_contract: Option<StoreContractInfo>,
    /// The server that transmutes for this potion.
    pub svg_server: StoreContractInfo,
    pub variants: Vec<VariantInfo>,
}

/// A potion as it is kept.
#[derive(Clone, Debug, PartialEq, Eq)]
pub struct StoredPotionInfo {
    pub name: String,
    /// The index of the server that transmutes for this potion.
    pub svg_server: u8,
    pub variants: Vec<VariantInfo>,
    /// Whether this potion is halted.
    pub halt: bool,
}

/// The name of a potion and its index.
#[derive(Clone, Debug, PartialEq, Eq)]
pub struct PotionNameIdx {
    pub name: String,
    pub index: u16,
}

/// The images of a skull.
#[derive(Clone, Debug, PartialEq, Eq)]
pub struct ImageInfo {
    /// What the skull looks like now.
    pub current: Vec<u8>,
    /// What it looked like before the last potion.
    pub previous: Vec<u8>,
    /// What it looked like when it was minted.
    pub natural: Vec<u8>,
    /// The server that draws it, where it is not the default one.
    pub svg_server: Option<String>,
}

/// The weight of a variant for a skull: the cyclops weight where the skull
/// is a cyclops and one is set; else the jawless weight where the skull has
/// no jaw and one is set; else the normal weight.
pub open spec fn effective_weight(variant: VariantInfo, kind: SkullTypeResponse) -> u16 {
    if kind.is_cyclops && variant.cyclops_weight.is_some() {
        variant.cyclops_weight.unwrap()
    } else if kind.is_jawless && variant.jawless_weight.is_some() {
        variant.jawless_weight.unwrap()
    } else {
        variant.normal_weight
    }
}

/// The weights of the variants of a potion for a skull.
pub open spec fn effective_weights(variants: Seq<VariantInfo>, kind: SkullTypeResponse) -> Seq<
    u16,
> {
    Seq::new(variants.len(), |i: int| effective_weight(variants[i], kind))
}

/// The variant of a potion that a drawn number chooses for a skull; no
/// variant where the weights sum to zero.
pub open spec fn chosen_variant(
    variants: Seq<VariantInfo>,
    kind: SkullTypeResponse,
    number: u64,
) -> Result<nat, EngineError> {
    let weights = effective_weights(variants, kind);
    if total_weight(weights) == 0 {
        Err(EngineError::NoWeight)
    } else {
        Ok(pick(weights, (number as nat) % total_weight(weights)))
    }
}

/// The weights of the variants of a potion for a skull.
pub fn variant_weights(variants: &Vec<VariantInfo>, kind: SkullTypeResponse) -> (weights: Vec<u16>)
    ensures
        weights@ == effective_weights(variants@, kind),
{
    let mut weights: Vec<u16> = Vec::new();
    let mut i: usize = 0;
    while i < variants.len()
        invariant
            i <= variants.len(),
            weights@.len() == i,
            forall|k: int| 0 <= k < i ==> weights@[k] == effective_weight(variants@[k], kind),
        decreases variants.len() - i,
    {
        let var = &variants[i];
        let cyclops = match var.cyclops_weight {
            Some(cy) => if kind.is_cyclops {
                Some(cy)
            } else {
                None
            },
            None => None,
        };
        let jawless = match var.jawless_weight {
            Some(jl) => if kind.is_jawless {
                Some(jl)
            } else {
                None
            },
            None => None,
        };
        let wgt = match cyclops {
            Some(cy) => cy,
            None => match jawless {
                Some(jl) => jl,
                None => var.normal_weight,
            },
        };
        weights.push(wgt);
        i += 1;
    }
    assert(weights@ =~= effective_weights(variants@, kind));
    weights
}

/// Chooses the variant of a potion for a skull with a drawn number: the
/// number, reduced to the sum of the weights, picks the first variant at
/// which the running sum of the weights exceeds it.
pub fn select_variant(variants: &Vec<VariantInfo>, kind: SkullTypeResponse, number: u64) -> (winner:
    Result<usize, EngineError>)
    ensures
        match winner {
            Ok(w) => chosen_variant(variants@, kind, number) == Ok::<nat, EngineError>(w as nat)
                && w < variants@.len() && effective_weight(variants@[w as int], kind) > 0,
            Err(e) => chosen_variant(variants@, kind, number) == Err::<nat, EngineError>(e),
        },
{
    let weights = variant_weights(variants, kind);
    let total = sum_weights(&weights);
    if total == 0 {
        return Err(EngineError::NoWeight);
    }
    let winning = (number as u128) % total;
    Ok(pick_weighted(&weights, winning))
}

/// A copy of a list of layers given by names.
pub fn copy_layer_names(list: &Vec<LayerId>) -> (copy: Vec<LayerId>)
    ensures
        copy@ == list@,
{
    let mut copy: Vec<LayerId> = Vec::new();
    let mut i: usize = 0;
    while i < list.len()
        invariant
            i <= list.len(),
            copy@ =~= list@.subrange(0, i as int),
        decreases list.len() - i,
    {
        copy.push(LayerId { category: list[i].category.clone(), variant: list[i].variant.clone() });
        i += 1;
    }
    assert(list@.subrange(0, list@.len() as int) =~= list@);
    copy
}

/// What a potion did to a skull.
#[derive(Clone, Debug, PartialEq, Eq)]
pub struct AppliedPotion {
    /// The images of the skull after the potion.
    pub image_info: ImageInfo,
    /// The variant that was chosen.
    pub variant: usize,
    /// The categories of the layers of that variant.
    pub categories: Vec<String>,
    /// The seed of the next draw.
    pub new_seed: Vec<u8>,
}

/// What a potion is applied to, and by whom.
pub struct Application<'a> {
    /// What the server that draws the skull says of its kind.
    pub kind: SkullTypeResponse,
    /// The owner of the skull.
    pub owner: &'a Vec<u8>,
    /// The sender of the potion.
    pub from: &'a Vec<u8>,
    /// The entropy that the sender gave.
    pub entropy: &'a Vec<u8>,
    pub block_height: u64,
    pub block_time: u64,
    /// The address of the server that draws the skull now.
    pub server_used: &'a String,
    /// The address of the server that transmutes for the potion.
    pub potion_server: &'a String,
}

/// The server that draws a skull after a potion: that of the potion where it
/// differs from the one that draws the skull now, else as before.
pub open spec fn server_after(
    before: Option<String>,
    server_used: Seq<char>,
    potion_server: Seq<char>,
    after: Option<String>,
) -> bool {
    if server_used != potion_server {
        after matches Some(s) && s@ == potion_server
    } else {
        after == before
    }
}

/// What a potion chooses for a skull of a kind: the skull and the sender
/// are checked, the kind of the skull decides the weights, and the first
/// draw of the generator chooses the variant. The next draw of 32 bytes is
/// the new seed.
pub open spec fn choose_spec(
    variants: Seq<VariantInfo>,
    current: Seq<u8>,
    kind: SkullTypeResponse,
    owner: Seq<u8>,
    from: Seq<u8>,
    prng: PrngModel,
) -> Result<(nat, Seq<u8>), EngineError> {
    if from != owner {
        Err(EngineError::Unauthorized)
    } else if !fully_revealed(current) {
        Err(EngineError::NotFullyRevealed)
    } else {
        match chosen_variant(variants, kind, prng.peek_u64()) {
            Err(e) => Err(e),
            Ok(w) => Ok((w, prng.after_u64().peek_bytes())),
        }
    }
}

/// The outcome of applying a potion to a skull of a kind: the layers of the
/// variant that the potion chooses transmute the current image.
pub open spec fn apply_spec(
    m: RegistryModel,
    variants: Seq<VariantInfo>,
    current: Seq<u8>,
    kind: SkullTypeResponse,
    owner: Seq<u8>,
    from: Seq<u8>,
    prng: PrngModel,
) -> Result<(nat, Seq<u8>, Seq<u8>), EngineError> {
    match choose_spec(variants, current, kind, owner, from, prng) {
        Err(e) => Err(e),
        Ok((w, seed)) => match transmute_spec(m, current, variants[w as int].layers@) {
            Err(e) => Err(e),
            Ok(image) => Ok((w, image, seed)),
        },
    }
}

/// What a potion chose for a skull.
#[derive(Clone, Debug, PartialEq, Eq)]
pub struct ChosenVariant {
    /// The index of the variant.
    pub variant: usize,
    /// The layers of the variant.
    pub layers: Vec<LayerId>,
    /// The seed of the next draw.
    pub new_seed: Vec<u8>,
}

/// Chooses the variant of a potion for a skull. The sender must own the
/// skull, and the skull must be fully revealed. The kind of the skull, as
/// the server that draws it tells it, decides the weights of the variants.
pub fn choose_variant(
    potion: &StoredPotionInfo,
    current: &Vec<u8>,
    prng_seed: &Vec<u8>,
    application: &Application,
) -> (out: Result<ChosenVariant, EngineError>)
    ensures
        match choose_spec(
            potion.variants@,
            current@,
            application.kind,
            application.owner@,
            application.from@,
            PrngModel {
                seed: prng_seed@,
                entropy: extended_entropy(
                    application.block_height,
                    application.block_time,
                    application.from@,
                    application.entropy@,
                ),
                pos: 0,
            },
        ) {
            Err(e) => out == Err::<ChosenVariant, EngineError>(e),
            Ok((w, seed)) => out matches Ok(chosen) && chosen.variant == w && w
                < potion.variants@.len() && chosen.layers@ == potion.variants@[w as int].layers@
                && chosen.new_seed@ == seed,
        },
{
    if !bytes_eq(application.from, application.owner) {
        return Err(EngineError::Unauthorized);
    }
    if !is_fully_revealed(current) {
        return Err(EngineError::NotFullyRevealed);
    }
    let rng_entropy = extend_entropy(
        application.block_height,
        application.block_time,
        application.from,
        application.entropy,
    );
    let mut prng = Prng::new(crate::registry_edit::copy_bytes(prng_seed), rng_entropy);
    let rdm = prng.next_u64();
    let winner = match select_variant(&potion.variants, application.kind, rdm) {
        Ok(w) => w,
        Err(e) => {
            return Err(e);
        },
    };
    let seed = prng.rand_bytes();
    let mut new_seed: Vec<u8> = Vec::new();
    let mut b: usize = 0;
    while b < 32
        invariant
            b <= 32,
            new_seed@ =~= seed@.subrange(0, b as int),
        decreases 32 - b,
    {
        new_seed.push(seed[b]);
        b += 1;
    }
    assert(seed@.subrange(0, 32) =~= seed@);
    Ok(
        ChosenVariant {
            variant: winner,
            layers: copy_layer_names(&potion.variants[winner].layers),
            new_seed,
        },
    )
}

/// The images and the server of a skull after a potion whose layers made
/// `transmuted` of its current image: the previous image is what the
/// current one was, and the server of the potion is kept where it is not
/// the one that draws the skull.
pub fn changed_image(image_info: ImageInfo, transmuted: Vec<u8>, application: &Application) -> (after:
    ImageInfo)
    ensures
        after.previous@ == image_info.current@,
        after.current == transmuted,
        after.natural == image_info.natural,
        server_after(
            image_info.svg_server,
            application.server_used@,
            application.potion_server@,
            after.svg_server,
        ),
{
    let ImageInfo { current, previous: _, natural, svg_server } = image_info;
    let svg_server = if !(*application.server_used == *application.potion_server) {
        Some(application.potion_server.clone())
    } else {
        svg_server
    };
    ImageInfo { current: transmuted, previous: current, natural, svg_server }
}

/// Applies a potion to a skull. The sender must own the skull, and the skull
/// must be fully revealed. The kind of the skull, as the server that draws
/// it tells it, decides the weights of the variants; `registry` is that of
/// the server that transmutes for the potion. On success the previous image
/// of the skull is what its current image was, and its current image is
/// that image transmuted with the layers of the chosen variant.
pub fn apply_potion(
    registry: &Registry,
    potion: &StoredPotionInfo,
    image_info: ImageInfo,
    prng_seed: &Vec<u8>,
    application: &Application,
) -> (out: Result<AppliedPotion, EngineError>)
    requires
        registry.wf(),
    ensures
        match apply_spec(
            registry@,
            potion.variants@,
            image_info.current@,
            application.kind,
            application.owner@,
            application.from@,
            PrngModel {
                seed: prng_seed@,
                entropy: extended_entropy(
                    application.block_height,
                    application.block_time,
                    application.from@,
                    application.entropy@,
                ),
                pos: 0,
            },
        ) {
            Err(e) => out == Err::<AppliedPotion, EngineError>(e),
            Ok((w, image, seed)) => out matches Ok(applied) && {
                &&& applied.variant == w
                &&& w < potion.variants@.len()
                &&& applied.image_info.previous@ == image_info.current@
                &&& applied.image_info.current@ == image
                &&& applied.image_info.natural == image_info.natural
                &&& server_after(
                    image_info.svg_server,
                    application.server_used@,
                    application.potion_server@,
                    applied.image_info.svg_server,
                )
                &&& applied.new_seed@ == seed
                &&& applied.categories@.len() == potion.variants@[w as int].layers@.len()
                &&& forall|k: int|
                    0 <= k < applied.categories@.len() ==> (#[trigger] applied.categories@[k])@
                        == potion.variants@[w as int].layers@[k].category@
            },
        },
        !fully_revealed(image_info.current@) ==> out.is_err(),
{
    let chosen = match choose_variant(potion, &image_info.current, prng_seed, application) {
        Ok(c) => c,
        Err(e) => {
            return Err(e);
        },
    };
    let mut categories: Vec<String> = Vec::new();
    let mut i: usize = 0;
    while i < chosen.layers.len()
        invariant
            i <= chosen.layers.len(),
            categories@.len() == i,
            forall|k: int|
                0 <= k < i ==> (#[trigger] categories@[k])@ == chosen.layers@[k].category@,
        decreases chosen.layers.len() - i,
    {
        categories.push(chosen.layers[i].category.clone());
        i += 1;
    }
    let current = crate::registry_edit::copy_bytes(&image_info.current);
    let transmuted = match registry.transmute(current, &chosen.layers) {
        Ok(image) => image,
        Err(e) => {
            return Err(e);
        },
    };
    Ok(
        AppliedPotion {
            image_info: changed_image(image_info, transmuted, application),
            variant: chosen.variant,
            categories,
            new_seed: chosen.new_seed,
        },
    )
}

/// After a potion the image of a skull differs from the one before if and
/// only if the layers of the chosen variant change the image.
pub proof fn lemma_potion_changes_what_its_layers_change(
    m: RegistryModel,
    variants: Seq<VariantInfo>,
    current: Seq<u8>,
    kind: SkullTypeResponse,
    owner: Seq<u8>,
    from: Seq<u8>,
    prng: PrngModel,
)
    ensures
        apply_spec(m, variants, current, kind, owner, from, prng) matches Ok((w, image, _)) ==> (image
            != current <==> transmute_spec(m, current, variants[w as int].layers@) != Ok::<
            Seq<u8>,
            EngineError,
        >(current)),
{
}

/// A potion is never applied to a skull with an unrevealed category.
pub proof fn lemma_potion_needs_revealed(
    m: RegistryModel,
    variants: Seq<VariantInfo>,
    current: Seq<u8>,
    kind: SkullTypeResponse,
    owner: Seq<u8>,
    from: Seq<u8>,
    prng: PrngModel,
    i: int,
)
    requires
        0 <= i < current.len(),
        current[i] == crate::transmute::UNREVEALED,
    ensures
        apply_spec(m, variants, current, kind, owner, from, prng).is_err(),
{
}

/// A variant whose weight for a skull is zero is never chosen for it.
pub proof fn lemma_unweighted_variant_is_not_chosen(
    variants: Seq<VariantInfo>,
    kind: SkullTypeResponse,
    number: u64,
    i: int,
)
    requires
        0 <= i < variants.len(),
        effective_weight(variants[i], kind) == 0,
    ensures
        chosen_variant(variants, kind, number) != Ok::<nat, EngineError>(i as nat),
{
    let weights = effective_weights(variants, kind);
    if total_weight(weights) > 0 {
        let reduced = (number as nat) % total_weight(weights);
        assert(reduced < total_weight(weights)) by (nonlinear_arith)
            requires
                reduced == (number as nat) % total_weight(weights),
                total_weight(weights) > 0,
        ;
        crate::weights::lemma_zero_weight_never_wins(weights, reduced, i);
    }
}

} // verus!
