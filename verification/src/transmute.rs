//! The composition engine: how new layers change an image.
use crate::error::EngineError;
use crate::text::str_eq;
use crate::registry::{
    find_category, find_dependency, find_variant, lemma_find_category, lemma_find_dependency,
    lemma_find_variant, LayerId, Registry, RegistryModel, StoredLayerId,
};
use vstd::prelude::*;
use vstd::string::StringExecFns;

verus! {

/// The byte of a category that is not revealed yet.
pub const UNREVEALED: u8 = 255;

/// Backgrounds below this index are raw; a transmuted skull has one from this
/// index on.
pub const RAW_BACKGROUNDS: u8 = 6;

/// Whether an image holds no unrevealed category.
pub open spec fn fully_revealed(image: Seq<u8>) -> bool {
    forall|i: int| 0 <= i < image.len() ==> image[i] != UNREVEALED
}

/// A name that was looked up and the index it has.
#[derive(Debug, PartialEq, Eq)]
pub struct BackCache {
    pub id: String,
    pub index: u8,
}

/// The name of the skull category.
pub open spec fn skull_name() -> Seq<char> {
    "Skull"@
}

/// The name of the jaw category.
pub open spec fn jaw_name() -> Seq<char> {
    "Jaw Type"@
}

/// The name of the variant that stands for "nothing".
pub open spec fn none_name() -> Seq<char> {
    "None"@
}

/// The name of the transmuted background of a display name.
pub open spec fn transmuted_background(display_name: Seq<char>) -> Seq<char> {
    "Background."@ + display_name + ".Transmuted"@
}

/// What a name refers to: a category where `category` is `None`, else a
/// variant of that category.
pub open spec fn lookup(m: RegistryModel, category: Option<u8>, name: Seq<char>) -> Option<int> {
    match category {
        None => find_category(m.categories, name),
        Some(c) => find_variant(m.variants[c as int], name),
    }
}

/// Whether a cache holds a name.
pub open spec fn cached(cache: Seq<BackCache>, name: Seq<char>) -> bool {
    exists|k: int| 0 <= k < cache.len() && (#[trigger] cache[k]).id@ == name
}

/// Whether every entry of a cache is what a lookup would give.
pub open spec fn cache_ok(m: RegistryModel, category: Option<u8>, cache: Seq<BackCache>) -> bool {
    forall|k: int|
        0 <= k < cache.len() ==> lookup(m, category, (#[trigger] cache[k]).id@) == Some(
            cache[k].index as int,
        )
}

/// Whether the caches of a transmutation agree with the registry: one cache
/// of category names, and one cache of variant names for each category.
pub open spec fn caches_ok(
    m: RegistryModel,
    cat_cache: Seq<BackCache>,
    var_caches: Seq<Vec<BackCache>>,
) -> bool {
    &&& cache_ok(m, None, cat_cache)
    &&& var_caches.len() == m.categories.len()
    &&& forall|c: int|
        0 <= c < var_caches.len() ==> cache_ok(m, Some(c as u8), (#[trigger] var_caches[c])@)
}

/// The image after each correlated category was set to its `None` variant,
/// in order.
pub open spec fn clear_correlated(
    m: RegistryModel,
    image: Seq<u8>,
    correlated: Seq<StoredLayerId>,
) -> Result<Seq<u8>, EngineError>
    decreases correlated.len(),
{
    if correlated.len() == 0 {
        Ok(image)
    } else {
        let c = correlated[0].category;
        match find_variant(m.variants[c as int], none_name()) {
            None => Err(EngineError::MissingNoneVariant),
            Some(n) => if c >= image.len() {
                Err(EngineError::ImageTooShort)
            } else {
                clear_correlated(m, image.update(c as int, n as u8), correlated.drop_first())
            },
        }
    }
}

/// The image after each correlated category was set to its variant, in
/// order.
pub open spec fn set_correlated(image: Seq<u8>, correlated: Seq<StoredLayerId>) -> Result<
    Seq<u8>,
    EngineError,
>
    decreases correlated.len(),
{
    if correlated.len() == 0 {
        Ok(image)
    } else {
        let c = correlated[0].category;
        if c >= image.len() {
            Err(EngineError::ImageTooShort)
        } else {
            set_correlated(image.update(c as int, correlated[0].variant), correlated.drop_first())
        }
    }
}

/// The image after a skull layer: the skull takes the named variant, and a
/// jaw that is not `None` takes the jaw variant of the same name.
pub open spec fn replace_skull(m: RegistryModel, image: Seq<u8>, variant: Seq<char>) -> Result<
    Seq<u8>,
    EngineError,
> {
    match find_category(m.categories, skull_name()) {
        None => Err(EngineError::UnknownCategory),
        Some(s) => match find_variant(m.variants[s], variant) {
            None => Err(EngineError::UnknownVariant),
            Some(nv) => if s >= image.len() {
                Err(EngineError::ImageTooShort)
            } else if image[s] == nv {
                Ok(image)
            } else {
                match find_category(m.categories, jaw_name()) {
                    None => Err(EngineError::UnknownCategory),
                    Some(j) => match find_variant(m.variants[j], none_name()) {
                        None => Err(EngineError::UnknownVariant),
                        Some(jawless) => if j >= image.len() {
                            Err(EngineError::ImageTooShort)
                        } else if image[j] != jawless {
                            match find_variant(m.variants[j], variant) {
                                None => Err(EngineError::UnknownVariant),
                                Some(jv) => Ok(image.update(j, jv as u8).update(s, nv as u8)),
                            }
                        } else {
                            Ok(image.update(s, nv as u8))
                        },
                    },
                }
            },
        },
    }
}

/// The correlated layers of the first dependency of a variant; none where it
/// has no dependency.
pub open spec fn correlated_of(m: RegistryModel, id: StoredLayerId) -> Seq<StoredLayerId> {
    match find_dependency(m.dependencies, id) {
        Some(d) => m.dependencies[d].correlated,
        None => Seq::empty(),
    }
}

/// The image after a layer of another category than the skull: where the
/// variant changes, the layers correlated with the old variant are cleared,
/// those correlated with the new one are set, and the category takes the new
/// variant.
pub open spec fn replace_other(
    m: RegistryModel,
    image: Seq<u8>,
    category: Seq<char>,
    variant: Seq<char>,
) -> Result<Seq<u8>, EngineError> {
    match find_category(m.categories, category) {
        None => Err(EngineError::UnknownCategory),
        Some(c) => match find_variant(m.variants[c], variant) {
            None => Err(EngineError::UnknownVariant),
            Some(v) => if c >= image.len() {
                Err(EngineError::ImageTooShort)
            } else if image[c] == v {
                Ok(image)
            } else {
                let old_id = StoredLayerId { category: c as u8, variant: image[c] };
                let new_id = StoredLayerId { category: c as u8, variant: v as u8 };
                match clear_correlated(m, image, correlated_of(m, old_id)) {
                    Err(e) => Err(e),
                    Ok(cleared) => match set_correlated(cleared, correlated_of(m, new_id)) {
                        Err(e) => Err(e),
                        Ok(set) => Ok(set.update(c, v as u8)),
                    },
                }
            },
        },
    }
}

/// The image after one layer.
pub open spec fn replace_layer_spec(
    m: RegistryModel,
    image: Seq<u8>,
    category: Seq<char>,
    variant: Seq<char>,
) -> Result<Seq<u8>, EngineError> {
    if category == skull_name() {
        replace_skull(m, image, variant)
    } else {
        replace_other(m, image, category, variant)
    }
}

/// The image after the layers, applied in order.
pub open spec fn apply_layers(m: RegistryModel, image: Seq<u8>, layers: Seq<LayerId>) -> Result<
    Seq<u8>,
    EngineError,
>
    decreases layers.len(),
{
    if layers.len() == 0 {
        Ok(image)
    } else {
        match replace_layer_spec(m, image, layers[0].category@, layers[0].variant@) {
            Err(e) => Err(e),
            Ok(next) => apply_layers(m, next, layers.drop_first()),
        }
    }
}

/// The image with a raw background replaced by its transmuted counterpart:
/// the variant of the background category whose name is made of the display
/// name of the raw one.
pub open spec fn upgrade_background(m: RegistryModel, image: Seq<u8>) -> Result<
    Seq<u8>,
    EngineError,
> {
    if image.len() == 0 {
        Err(EngineError::ImageTooShort)
    } else if image[0] >= RAW_BACKGROUNDS {
        Ok(image)
    } else if m.variants.len() == 0 || image[0] >= m.variants[0].len() {
        Err(EngineError::StorageCorrupt)
    } else {
        match find_variant(
            m.variants[0],
            transmuted_background(m.variants[0][image[0] as int].display_name@),
        ) {
            None => Err(EngineError::UnknownVariant),
            Some(v) => Ok(image.update(0, v as u8)),
        }
    }
}

/// What transmuting an image with a list of layers gives.
pub open spec fn transmute_spec(m: RegistryModel, image: Seq<u8>, layers: Seq<LayerId>) -> Result<
    Seq<u8>,
    EngineError,
> {
    if !fully_revealed(image) {
        Err(EngineError::NotFullyRevealed)
    } else {
        match upgrade_background(m, image) {
            Err(e) => Err(e),
            Ok(upgraded) => apply_layers(m, upgraded, layers),
        }
    }
}

/// Whether an image is fully revealed.
pub fn is_fully_revealed(image: &Vec<u8>) -> (revealed: bool)
    ensures
        revealed == fully_revealed(image@),
{
    let mut i: usize = 0;
    while i < image.len()
        invariant
            i <= image.len(),
            forall|k: int| 0 <= k < i ==> image@[k] != UNREVEALED,
        decreases image.len() - i,
    {
        if image[i] == UNREVEALED {
            return false;
        }
        i += 1;
    }
    true
}

impl Registry {
    /// Looks a name up, in the cache first, and remembers what the registry
    /// gave: a category where `category` is `None`, else a variant of that
    /// category.
    pub fn use_back_cache(
        &self,
        category: Option<u8>,
        id: &str,
        back_cache: &mut Vec<BackCache>,
    ) -> (found: Result<u8, EngineError>)
        requires
            self.wf(),
            category matches Some(c) ==> c < self@.categories.len(),
            cache_ok(self@, category, old(back_cache)@),
        ensures
            cache_ok(self@, category, final(back_cache)@),
            match found {
                Ok(i) => lookup(self@, category, id@) == Some(i as int) && (match category {
                    None => i < self@.categories.len(),
                    Some(c) => i < self@.variants[c as int].len(),
                }) && (if cached(old(back_cache)@, id@) {
                    final(back_cache)@ == old(back_cache)@
                } else {
                    final(back_cache)@.len() == old(back_cache)@.len() + 1 && final(back_cache)@.drop_last() == old(back_cache)@ && final(back_cache)@.last().id@ == id@
                        && final(back_cache)@.last().index == i
                }),
                Err(e) => lookup(self@, category, id@).is_none() && e == (if category.is_none() {
                    EngineError::UnknownCategory
                } else {
                    EngineError::UnknownVariant
                }) && final(back_cache)@ == old(back_cache)@,
            },
    {
        let key = String::from_str(id);
        let mut i: usize = 0;
        proof {
            lemma_find_category(self@.categories, id@);
            if let Some(c) = category {
                lemma_find_variant(self@.variants[c as int], id@);
            }
        }
        while i < back_cache.len()
            invariant
                i <= back_cache.len(),
                key@ == id@,
                back_cache@ == old(back_cache)@,
                forall|k: int| 0 <= k < i ==> (#[trigger] back_cache@[k]).id@ != id@,
                cache_ok(self@, category, back_cache@),
                lookup(self@, category, id@) matches Some(x) ==> (match category {
                    None => x < self@.categories.len(),
                    Some(c) => x < self@.variants[c as int].len(),
                }),
            decreases back_cache.len() - i,
        {
            if back_cache[i].id == key {
                return Ok(back_cache[i].index);
            }
            i += 1;
        }
        let looked = match category {
            None => self.category_index(id),
            Some(c) => self.variant_index(c, id),
        };
        match looked {
            Some(index) => {
                back_cache.push(BackCache { id: key, index });
                assert(back_cache@.drop_last() =~= old(back_cache)@);
                Ok(index)
            },
            None => {
                if category.is_none() {
                    Err(EngineError::UnknownCategory)
                } else {
                    Err(EngineError::UnknownVariant)
                }
            },
        }
    }
}

impl Registry {
    /// The first dependency of a variant.
    pub fn dependency_index(&self, id: StoredLayerId) -> (found: Option<usize>)
        ensures
            match found {
                Some(d) => find_dependency(self@.dependencies, id) == Some(d as int) && d
                    < self.dependencies@.len(),
                None => find_dependency(self@.dependencies, id).is_none(),
            },
    {
        let mut i: usize = 0;
        while i < self.dependencies.len()
            invariant
                i <= self.dependencies.len(),
                forall|k: int| 0 <= k < i ==> self@.dependencies[k].id != id,
            decreases self.dependencies.len() - i,
        {
            let dep_id = self.dependencies[i].id;
            assert(self@.dependencies[i as int].id == dep_id);
            if dep_id.category == id.category && dep_id.variant == id.variant {
                proof {
                    lemma_find_dependency(self@.dependencies, id);
                }
                return Some(i);
            }
            i += 1;
        }
        proof {
            lemma_find_dependency(self@.dependencies, id);
        }
        None
    }

    /// Looks a variant of a category up, through the cache of that category.
    fn cached_variant(&self, category: u8, id: &str, var_caches: &mut Vec<Vec<BackCache>>) -> (found:
        Result<u8, EngineError>)
        requires
            self.wf(),
            category < self@.categories.len(),
            caches_ok(self@, Seq::empty(), old(var_caches)@),
        ensures
            caches_ok(self@, Seq::empty(), final(var_caches)@),
            match found {
                Ok(v) => find_variant(self@.variants[category as int], id@) == Some(v as int) && v
                    < self@.variants[category as int].len(),
                Err(e) => find_variant(self@.variants[category as int], id@).is_none() && e
                    == EngineError::UnknownVariant,
            },
    {
        let ghost before = var_caches@;
        assert(cache_ok(self@, Some(category), var_caches@[category as int]@));
        let found = self.use_back_cache(Some(category), id, &mut var_caches[category as usize]);
        proof {
            assert forall|c: int| 0 <= c < var_caches@.len() implies cache_ok(
                self@,
                Some(c as u8),
                (#[trigger] var_caches@[c])@,
            ) by {
                if c != category {
                    assert(var_caches@[c] == before[c]);
                }
            }
        }
        found
    }

    /// Sets each correlated category of an image to its `None` variant.
    fn clear_layers(
        &self,
        image: &mut Vec<u8>,
        correlated: &Vec<StoredLayerId>,
        var_caches: &mut Vec<Vec<BackCache>>,
    ) -> (done: Result<(), EngineError>)
        requires
            self.wf(),
            caches_ok(self@, Seq::empty(), old(var_caches)@),
            forall|k: int| 0 <= k < correlated@.len() ==> self@.has_layer(#[trigger] correlated@[k]),
        ensures
            caches_ok(self@, Seq::empty(), final(var_caches)@),
            final(image)@.len() == old(image)@.len(),
            match done {
                Ok(_) => clear_correlated(self@, old(image)@, correlated@) == Ok::<
                    Seq<u8>,
                    EngineError,
                >(final(image)@),
                Err(e) => clear_correlated(self@, old(image)@, correlated@) == Err::<
                    Seq<u8>,
                    EngineError,
                >(e),
            },
    {
        let mut i: usize = 0;
        assert(correlated@.skip(0) =~= correlated@);
        while i < correlated.len()
            invariant
                i <= correlated.len(),
                self.wf(),
                caches_ok(self@, Seq::empty(), var_caches@),
                forall|k: int|
                    0 <= k < correlated@.len() ==> self@.has_layer(#[trigger] correlated@[k]),
                image@.len() == old(image)@.len(),
                clear_correlated(self@, old(image)@, correlated@) == clear_correlated(
                    self@,
                    image@,
                    correlated@.skip(i as int),
                ),
            decreases correlated.len() - i,
        {
            let dep = correlated[i];
            proof {
                assert(correlated@.skip(i as int)[0] == dep);
                assert(correlated@.skip(i as int).drop_first() =~= correlated@.skip(i + 1));
                assert(self@.has_layer(correlated@[i as int]));
            }
            let none = match self.cached_variant(dep.category, "None", var_caches) {
                Ok(n) => n,
                Err(_) => {
                    return Err(EngineError::MissingNoneVariant);
                },
            };
            if dep.category as usize >= image.len() {
                return Err(EngineError::ImageTooShort);
            }
            image[dep.category as usize] = none;
            i += 1;
        }
        Ok(())
    }

    /// Replaces the skull of an image, and with it a jaw that is not `None`.
    fn replace_skull_layer(
        &self,
        image: &mut Vec<u8>,
        variant: &str,
        cat_cache: &mut Vec<BackCache>,
        var_caches: &mut Vec<Vec<BackCache>>,
    ) -> (done: Result<(), EngineError>)
        requires
            self.wf(),
            caches_ok(self@, old(cat_cache)@, old(var_caches)@),
        ensures
            caches_ok(self@, final(cat_cache)@, final(var_caches)@),
            final(image)@.len() == old(image)@.len(),
            match done {
                Ok(_) => replace_skull(self@, old(image)@, variant@) == Ok::<Seq<u8>, EngineError>(
                    final(image)@,
                ),
                Err(e) => replace_skull(self@, old(image)@, variant@) == Err::<
                    Seq<u8>,
                    EngineError,
                >(e),
            },
    {
        let skull_idx = match self.use_back_cache(None, "Skull", cat_cache) {
            Ok(i) => i,
            Err(e) => {
                return Err(e);
            },
        };
        let new_skull = match self.cached_variant(skull_idx, variant, var_caches) {
            Ok(v) => v,
            Err(e) => {
                return Err(e);
            },
        };
        if skull_idx as usize >= image.len() {
            return Err(EngineError::ImageTooShort);
        }
        if image[skull_idx as usize] != new_skull {
            let chin_idx = match self.use_back_cache(None, "Jaw Type", cat_cache) {
                Ok(i) => i,
                Err(e) => {
                    return Err(e);
                },
            };
            let jawless = match self.cached_variant(chin_idx, "None", var_caches) {
                Ok(v) => v,
                Err(e) => {
                    return Err(e);
                },
            };
            if chin_idx as usize >= image.len() {
                return Err(EngineError::ImageTooShort);
            }
            if image[chin_idx as usize] != jawless {
                let jaw = match self.cached_variant(chin_idx, variant, var_caches) {
                    Ok(v) => v,
                    Err(e) => {
                        return Err(e);
                    },
                };
                image[chin_idx as usize] = jaw;
            }
            image[skull_idx as usize] = new_skull;
        }
        Ok(())
    }

    /// Replaces a layer of another category than the skull.
    fn replace_other_layer(
        &self,
        image: &mut Vec<u8>,
        new_layer: &LayerId,
        cat_cache: &mut Vec<BackCache>,
        var_caches: &mut Vec<Vec<BackCache>>,
    ) -> (done: Result<(), EngineError>)
        requires
            self.wf(),
            caches_ok(self@, old(cat_cache)@, old(var_caches)@),
        ensures
            caches_ok(self@, final(cat_cache)@, final(var_caches)@),
            final(image)@.len() == old(image)@.len(),
            match done {
                Ok(_) => replace_other(
                    self@,
                    old(image)@,
                    new_layer.category@,
                    new_layer.variant@,
                ) == Ok::<Seq<u8>, EngineError>(final(image)@),
                Err(e) => replace_other(
                    self@,
                    old(image)@,
                    new_layer.category@,
                    new_layer.variant@,
                ) == Err::<Seq<u8>, EngineError>(e),
            },
    {
        let cat_idx = match self.use_back_cache(None, new_layer.category.as_str(), cat_cache) {
            Ok(i) => i,
            Err(e) => {
                return Err(e);
            },
        };
        let new_var = match self.cached_variant(cat_idx, new_layer.variant.as_str(), var_caches) {
            Ok(v) => v,
            Err(e) => {
                return Err(e);
            },
        };
        if cat_idx as usize >= image.len() {
            return Err(EngineError::ImageTooShort);
        }
        let old_var = image[cat_idx as usize];
        if new_var != old_var {
            let old_id = StoredLayerId { category: cat_idx, variant: old_var };
            let new_id = StoredLayerId { category: cat_idx, variant: new_var };
            if let Some(d) = self.dependency_index(old_id) {
                proof {
                    assert(self@.dependencies[d as int].correlated
                        == self.dependencies@[d as int].correlated@);
                    assert forall|k: int|
                        0 <= k < self.dependencies@[d as int].correlated@.len() implies self@.has_layer(
                        #[trigger] self.dependencies@[d as int].correlated@[k],
                    ) by {
                        assert(self@.has_layer(self@.dependencies[d as int].correlated[k]));
                    }
                }
                match self.clear_layers(image, &self.dependencies[d].correlated, var_caches) {
                    Ok(_) => {},
                    Err(e) => {
                        return Err(e);
                    },
                }
            }
            if let Some(d) = self.dependency_index(new_id) {
                proof {
                    assert(self@.dependencies[d as int].correlated
                        == self.dependencies@[d as int].correlated@);
                }
                match set_layers(image, &self.dependencies[d].correlated) {
                    Ok(_) => {},
                    Err(e) => {
                        return Err(e);
                    },
                }
            }
            image[cat_idx as usize] = new_var;
        }
        Ok(())
    }

    /// Replaces a layer of an image, honoring dependencies. Names are
    /// looked up through the caches, which remember them. Where the layer is
    /// refused, the image stays as it was.
    pub fn replace_layer(
        &self,
        image: &mut Vec<u8>,
        new_layer: &LayerId,
        cat_cache: &mut Vec<BackCache>,
        var_caches: &mut Vec<Vec<BackCache>>,
    ) -> (done: Result<(), EngineError>)
        requires
            self.wf(),
            caches_ok(self@, old(cat_cache)@, old(var_caches)@),
        ensures
            caches_ok(self@, final(cat_cache)@, final(var_caches)@),
            match done {
                Ok(_) => replace_layer_spec(
                    self@,
                    old(image)@,
                    new_layer.category@,
                    new_layer.variant@,
                ) == Ok::<Seq<u8>, EngineError>(final(image)@),
                Err(e) => replace_layer_spec(
                    self@,
                    old(image)@,
                    new_layer.category@,
                    new_layer.variant@,
                ) == Err::<Seq<u8>, EngineError>(e) && final(image)@ == old(image)@,
            },
    {
        let mut work = crate::registry_edit::copy_bytes(image);
        let done = if str_eq(new_layer.category.as_str(), "Skull") {
            self.replace_skull_layer(&mut work, new_layer.variant.as_str(), cat_cache, var_caches)
        } else {
            self.replace_other_layer(&mut work, new_layer, cat_cache, var_caches)
        };
        if done.is_ok() {
            *image = work;
        }
        done
    }

    /// The image after transmuting with a list of layers: a raw background
    /// becomes its transmuted counterpart, then the layers are applied in
    /// order. Images with an unrevealed category are refused.
    pub fn transmute(&self, current: Vec<u8>, new_layers: &Vec<LayerId>) -> (out: Result<
        Vec<u8>,
        EngineError,
    >)
        requires
            self.wf(),
        ensures
            match out {
                Ok(image) => transmute_spec(self@, current@, new_layers@) == Ok::<
                    Seq<u8>,
                    EngineError,
                >(image@),
                Err(e) => transmute_spec(self@, current@, new_layers@) == Err::<
                    Seq<u8>,
                    EngineError,
                >(e),
            },
            !fully_revealed(current@) ==> out == Err::<Vec<u8>, EngineError>(
                EngineError::NotFullyRevealed,
            ),
    {
        let ghost start = current@;
        let mut image = current;
        if !is_fully_revealed(&image) {
            return Err(EngineError::NotFullyRevealed);
        }
        if image.len() == 0 {
            return Err(EngineError::ImageTooShort);
        }
        if image[0] < RAW_BACKGROUNDS {
            if self.variants.len() == 0 || image[0] as usize >= self.variants[0].len() {
                return Err(EngineError::StorageCorrupt);
            }
            let new_back = String::from_str("Background.").concat(
                self.variants[0][image[0] as usize].display_name.as_str(),
            ).concat(".Transmuted");
            assert(self@.variants[0] == self.variants@[0]@);
            match self.variant_index(0, new_back.as_str()) {
                Some(v) => {
                    image[0] = v;
                },
                None => {
                    return Err(EngineError::UnknownVariant);
                },
            }
        }
        let ghost upgraded = image@;
        assert(upgrade_background(self@, start) == Ok::<Seq<u8>, EngineError>(upgraded));
        let mut cat_cache: Vec<BackCache> = Vec::new();
        let mut var_caches: Vec<Vec<BackCache>> = Vec::new();
        let mut c: usize = 0;
        while c < self.categories.len()
            invariant
                c <= self.categories.len(),
                var_caches@.len() == c,
                forall|k: int| 0 <= k < c ==> (#[trigger] var_caches@[k])@.len() == 0,
            decreases self.categories.len() - c,
        {
            var_caches.push(Vec::new());
            c += 1;
        }
        let mut i: usize = 0;
        assert(new_layers@.skip(0) =~= new_layers@);
        while i < new_layers.len()
            invariant
                i <= new_layers.len(),
                self.wf(),
                fully_revealed(start),
                start == current@,
                caches_ok(self@, cat_cache@, var_caches@),
                transmute_spec(self@, start, new_layers@) == apply_layers(
                    self@,
                    image@,
                    new_layers@.skip(i as int),
                ),
            decreases new_layers.len() - i,
        {
            proof {
                assert(new_layers@.skip(i as int)[0] == new_layers@[i as int]);
                assert(new_layers@.skip(i as int).drop_first() =~= new_layers@.skip(i + 1));
            }
            match self.replace_layer(&mut image, &new_layers[i], &mut cat_cache, &mut var_caches) {
                Ok(_) => {},
                Err(e) => {
                    return Err(e);
                },
            }
            i += 1;
        }
        Ok(image)
    }
}

/// Sets each correlated category of an image to its variant.
fn set_layers(image: &mut Vec<u8>, correlated: &Vec<StoredLayerId>) -> (done: Result<
    (),
    EngineError,
>)
    ensures
        final(image)@.len() == old(image)@.len(),
        match done {
            Ok(_) => set_correlated(old(image)@, correlated@) == Ok::<Seq<u8>, EngineError>(
                final(image)@,
            ),
            Err(e) => set_correlated(old(image)@, correlated@) == Err::<Seq<u8>, EngineError>(e),
        },
{
    let mut i: usize = 0;
    assert(correlated@.skip(0) =~= correlated@);
    while i < correlated.len()
        invariant
            i <= correlated.len(),
            image@.len() == old(image)@.len(),
            set_correlated(old(image)@, correlated@) == set_correlated(
                image@,
                correlated@.skip(i as int),
            ),
        decreases correlated.len() - i,
    {
        let dep = correlated[i];
        proof {
            assert(correlated@.skip(i as int)[0] == dep);
            assert(correlated@.skip(i as int).drop_first() =~= correlated@.skip(i + 1));
        }
        if dep.category as usize >= image.len() {
            return Err(EngineError::ImageTooShort);
        }
        image[dep.category as usize] = dep.variant;
        i += 1;
    }
    Ok(())
}

/// Whether the correlated layers of a dependency lie in categories that
/// differ from each other and from the category `c` of the variant that
/// brings them.
pub open spec fn separate_layers(correlated: Seq<StoredLayerId>, c: int) -> bool {
    &&& forall|a: int, b: int|
        0 <= a < b < correlated.len() ==> (#[trigger] correlated[a]).category != (
        #[trigger] correlated[b]).category
    &&& forall|a: int| 0 <= a < correlated.len() ==> (#[trigger] correlated[a]).category != c
}

/// Setting correlated layers that lie in different categories leaves each of
/// them in the image, and changes no other category.
pub proof fn lemma_set_correlated(image: Seq<u8>, correlated: Seq<StoredLayerId>)
    requires
        forall|a: int, b: int|
            0 <= a < b < correlated.len() ==> (#[trigger] correlated[a]).category != (
            #[trigger] correlated[b]).category,
    ensures
        match set_correlated(image, correlated) {
            Ok(out) => {
                &&& out.len() == image.len()
                &&& forall|k: int|
                    0 <= k < correlated.len() ==> (#[trigger] correlated[k]).category < out.len()
                        && out[correlated[k].category as int] == correlated[k].variant
                &&& forall|x: int|
                    0 <= x < image.len() && (forall|k: int|
                        0 <= k < correlated.len() ==> (#[trigger] correlated[k]).category != x)
                        ==> out[x] == image[x]
            },
            Err(e) => e == EngineError::ImageTooShort,
        },
    decreases correlated.len(),
{
    if correlated.len() > 0 {
        let c = correlated[0].category;
        if c < image.len() {
            let next = image.update(c as int, correlated[0].variant);
            let rest = correlated.drop_first();
            assert forall|a: int, b: int| 0 <= a < b < rest.len() implies (#[trigger] rest[a]).category
                != (#[trigger] rest[b]).category by {
                assert(rest[a] == correlated[a + 1]);
                assert(rest[b] == correlated[b + 1]);
            }
            lemma_set_correlated(next, rest);
            match set_correlated(next, rest) {
                Ok(out) => {
                    assert forall|k: int| 0 <= k < correlated.len() implies (
                    #[trigger] correlated[k]).category < out.len() && out[correlated[k].category as int]
                        == correlated[k].variant by {
                        if k == 0 {
                            assert forall|j: int| 0 <= j < rest.len() implies (
                            #[trigger] rest[j]).category != c by {
                                assert(rest[j] == correlated[j + 1]);
                            }
                            assert(out[c as int] == next[c as int]);
                        } else {
                            assert(rest[k - 1] == correlated[k]);
                        }
                    }
                    assert forall|x: int|
                        0 <= x < image.len() && (forall|k: int|
                            0 <= k < correlated.len() ==> (#[trigger] correlated[k]).category
                                != x) implies out[x] == image[x] by {
                        assert(correlated[0].category != x);
                        assert forall|j: int| 0 <= j < rest.len() implies (
                        #[trigger] rest[j]).category != x by {
                            assert(rest[j] == correlated[j + 1]);
                        }
                        assert(out[x] == next[x]);
                    }
                },
                Err(_) => {},
            }
        }
    }
}

/// Clearing correlated layers keeps the length of the image.
pub proof fn lemma_clear_correlated_len(
    m: RegistryModel,
    image: Seq<u8>,
    correlated: Seq<StoredLayerId>,
)
    ensures
        clear_correlated(m, image, correlated) matches Ok(out) ==> out.len() == image.len(),
    decreases correlated.len(),
{
    if correlated.len() > 0 {
        let c = correlated[0].category;
        if let Some(n) = find_variant(m.variants[c as int], none_name()) {
            if c < image.len() {
                lemma_clear_correlated_len(
                    m,
                    image.update(c as int, n as u8),
                    correlated.drop_first(),
                );
            }
        }
    }
}

/// A layer that changes the variant of a category other than the skull
/// leaves the image with the new variant and with every layer correlated
/// with it, where those layers lie in categories that differ from each other
/// and from the category of the layer.
pub proof fn lemma_replace_layer_sets_dependency(
    m: RegistryModel,
    image: Seq<u8>,
    category: Seq<char>,
    variant: Seq<char>,
)
    requires
        category != skull_name(),
        find_category(m.categories, category) matches Some(c) && c < image.len() && (find_variant(
            m.variants[c],
            variant,
        ) matches Some(v) && image[c] != v && v <= u8::MAX && c <= u8::MAX && separate_layers(
            correlated_of(m, StoredLayerId { category: c as u8, variant: v as u8 }),
            c,
        )),
    ensures
        replace_layer_spec(m, image, category, variant) matches Ok(out) ==> {
            let c = find_category(m.categories, category).unwrap();
            let v = find_variant(m.variants[c], variant).unwrap();
            let correlated = correlated_of(m, StoredLayerId { category: c as u8, variant: v as u8 });
            &&& out.len() == image.len()
            &&& out[c] == v
            &&& forall|k: int|
                0 <= k < correlated.len() ==> (#[trigger] correlated[k]).category < out.len()
                    && out[correlated[k].category as int] == correlated[k].variant
        },
{
    let c = find_category(m.categories, category).unwrap();
    let v = find_variant(m.variants[c], variant).unwrap();
    let old_id = StoredLayerId { category: c as u8, variant: image[c] };
    let new_id = StoredLayerId { category: c as u8, variant: v as u8 };
    let correlated = correlated_of(m, new_id);
    lemma_find_category(m.categories, category);
    lemma_find_variant(m.variants[c], variant);
    lemma_clear_correlated_len(m, image, correlated_of(m, old_id));
    if let Ok(cleared) = clear_correlated(m, image, correlated_of(m, old_id)) {
        lemma_set_correlated(cleared, correlated);
        if let Ok(set) = set_correlated(cleared, correlated) {
            let out = set.update(c, v as u8);
            assert(replace_layer_spec(m, image, category, variant) == Ok::<Seq<u8>, EngineError>(
                out,
            ));
            assert forall|k: int| 0 <= k < correlated.len() implies (
            #[trigger] correlated[k]).category < out.len() && out[correlated[k].category as int]
                == correlated[k].variant by {
                assert(correlated[k].category != c);
            }
        }
    }
}

/// The layers applied in order are all but the last applied in order, and
/// then the last.
pub proof fn lemma_apply_layers_last(m: RegistryModel, image: Seq<u8>, layers: Seq<LayerId>)
    requires
        layers.len() > 0,
    ensures
        apply_layers(m, image, layers) == (match apply_layers(m, image, layers.drop_last()) {
            Err(e) => Err(e),
            Ok(mid) => replace_layer_spec(
                m,
                mid,
                layers.last().category@,
                layers.last().variant@,
            ),
        }),
    decreases layers.len(),
{
    if layers.len() == 1 {
        assert(layers.drop_last() =~= Seq::<LayerId>::empty());
        assert(layers.drop_first() =~= Seq::<LayerId>::empty());
        match replace_layer_spec(m, image, layers[0].category@, layers[0].variant@) {
            Ok(next) => {
                assert(apply_layers(m, next, layers.drop_first()) == Ok::<Seq<u8>, EngineError>(
                    next,
                ));
            },
            Err(_) => {},
        }
    } else {
        let rest = layers.drop_first();
        assert(rest.drop_last() =~= layers.drop_last().drop_first());
        assert(rest.last() == layers.last());
        assert(layers.drop_last()[0] == layers[0]);
        match replace_layer_spec(m, image, layers[0].category@, layers[0].variant@) {
            Ok(next) => {
                lemma_apply_layers_last(m, next, rest);
            },
            Err(_) => {},
        }
    }
}

/// The image before the last layer of a transmutation is applied.
pub open spec fn before_last_layer(m: RegistryModel, image: Seq<u8>, layers: Seq<LayerId>) -> Result<
    Seq<u8>,
    EngineError,
> {
    transmute_spec(m, image, layers.drop_last())
}

/// After a transmutation whose last layer changes the variant of a category
/// other than the skull, the image holds that variant and every layer of its
/// dependency, where those layers lie in categories that differ from each
/// other and from the category of the layer.
pub proof fn lemma_transmute_honors_dependency(
    m: RegistryModel,
    image: Seq<u8>,
    layers: Seq<LayerId>,
)
    requires
        layers.len() > 0,
        layers.last().category@ != skull_name(),
        before_last_layer(m, image, layers) matches Ok(mid) && (find_category(
            m.categories,
            layers.last().category@,
        ) matches Some(c) && c < mid.len() && (find_variant(
            m.variants[c],
            layers.last().variant@,
        ) matches Some(v) && mid[c] != v && v <= u8::MAX && c <= u8::MAX && separate_layers(
            correlated_of(m, StoredLayerId { category: c as u8, variant: v as u8 }),
            c,
        ))),
    ensures
        transmute_spec(m, image, layers) matches Ok(out) ==> {
            let c = find_category(m.categories, layers.last().category@).unwrap();
            let v = find_variant(m.variants[c], layers.last().variant@).unwrap();
            let correlated = correlated_of(m, StoredLayerId { category: c as u8, variant: v as u8 });
            &&& out[c] == v
            &&& forall|k: int|
                0 <= k < correlated.len() ==> (#[trigger] correlated[k]).category < out.len()
                    && out[correlated[k].category as int] == correlated[k].variant
        },
{
    if let Ok(upgraded) = upgrade_background(m, image) {
        lemma_apply_layers_last(m, upgraded, layers);
        let mid = before_last_layer(m, image, layers).unwrap();
        lemma_replace_layer_sets_dependency(
            m,
            mid,
            layers.last().category@,
            layers.last().variant@,
        );
    }
}

/// Transmuting with no layers only upgrades a raw background: an image that
/// is fully revealed and has a transmuted background comes back as it is.
pub proof fn lemma_transmute_without_layers(m: RegistryModel, image: Seq<u8>)
    ensures
        fully_revealed(image) ==> transmute_spec(m, image, Seq::empty()) == upgrade_background(
            m,
            image,
        ),
        fully_revealed(image) && image.len() > 0 && image[0] >= RAW_BACKGROUNDS ==> transmute_spec(
            m,
            image,
            Seq::empty(),
        ) == Ok::<Seq<u8>, EngineError>(image),
{
}

/// An image with an unrevealed category is never transmuted.
pub proof fn lemma_transmute_needs_revealed(
    m: RegistryModel,
    image: Seq<u8>,
    layers: Seq<LayerId>,
    i: int,
)
    requires
        0 <= i < image.len(),
        image[i] == UNREVEALED,
    ensures
        transmute_spec(m, image, layers) == Err::<Seq<u8>, EngineError>(
            EngineError::NotFullyRevealed,
        ),
{
}

} // verus!
