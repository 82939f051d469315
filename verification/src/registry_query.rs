//! What the registry tells about itself: its state, its variants, its
//! dependencies, and the marks by which skulls are classified.
use crate::dependencies::{dependency_models, layer_names};
use crate::error::EngineError;
use crate::registry::{
    find_category, find_dependency, find_variant, lemma_find_category, lemma_find_variant,
    Dependencies, LayerId, Registry, RegistryModel, StoredDependencies, StoredLayerId,
    VariantIdxName, VariantInfo, VariantInfoPlus,
};
use crate::registry_edit::{copy_bytes, copy_text};
use crate::transmute::{jaw_name, none_name, skull_name};
use vstd::prelude::*;

verus! {

/// Whether a skull is a cyclops, and whether it has no jaw.
#[derive(Clone, Copy, Debug, PartialEq, Eq, Structural)]
pub struct SkullTypeResponse {
    pub is_cyclops: bool,
    pub is_jawless: bool,
}

/// The layers by which skulls are classified, and the materials of skulls.
#[derive(Clone, Debug, PartialEq, Eq)]
pub struct SkullTypePlus {
    /// The layer that makes a skull a cyclops.
    pub cyclops: StoredLayerId,
    /// The layer that leaves a skull without a jaw.
    pub jawless: StoredLayerId,
    /// The index of the skull category.
    pub skull_idx: u8,
    /// The variants of the skull category, by index, with their display
    /// names.
    pub skull_variants: Vec<VariantIdxName>,
}

/// What the registry holds for those who roll and transmute: the skip list,
/// and the names of the categories by index.
#[derive(Clone, Debug, PartialEq, Eq)]
pub struct ServeAlchemy {
    pub skip: Vec<u8>,
    pub dependencies: Vec<StoredDependencies>,
    pub category_names: Vec<String>,
}

/// A category and a page of its variants.
#[derive(Clone, Debug, PartialEq, Eq)]
pub struct CategoryPage {
    pub category_count: u8,
    pub index: u8,
    pub name: String,
    pub skip: bool,
    pub variant_count: u8,
    pub variants: Vec<VariantInfoPlus>,
}

/// The name of the eye type category.
pub open spec fn eye_type_name() -> Seq<char> {
    "Eye Type"@
}

/// The name of the variant that makes a skull a cyclops.
pub open spec fn cyclops_name() -> Seq<char> {
    "EyeType.Cyclops"@
}

/// The layers of the cyclops and of the jawless: the variant `EyeType.Cyclops`
/// of the category `Eye Type`, and the variant `None` of the category `Jaw
/// Type`. The categories are looked up first, then the two variants.
pub open spec fn type_layers(m: RegistryModel) -> Result<(StoredLayerId, StoredLayerId), EngineError> {
    match find_category(m.categories, eye_type_name()) {
        None => Err(EngineError::UnknownCategory),
        Some(eye) => match find_category(m.categories, jaw_name()) {
            None => Err(EngineError::UnknownCategory),
            Some(jaw) => match find_variant(m.variants[jaw], none_name()) {
                None => Err(EngineError::MissingNoneVariant),
                Some(jawless) => match find_variant(m.variants[eye], cyclops_name()) {
                    None => Err(EngineError::UnknownVariant),
                    Some(cyclops) => Ok(
                        (
                            StoredLayerId { category: eye as u8, variant: cyclops as u8 },
                            StoredLayerId { category: jaw as u8, variant: jawless as u8 },
                        ),
                    ),
                },
            },
        },
    }
}

/// Whether an image holds a layer.
pub open spec fn holds_layer(image: Seq<u8>, layer: StoredLayerId) -> bool {
    layer.category < image.len() && image[layer.category as int] == layer.variant
}

/// The names of the first `n` categories.
pub open spec fn category_names(m: RegistryModel, n: int) -> Seq<Seq<char>> {
    Seq::new(n as nat, |c: int| m.categories[c].name@)
}

/// The views of a list of strings.
pub open spec fn text_views(list: Seq<String>) -> Seq<Seq<char>> {
    Seq::new(list.len(), |i: int| list[i]@)
}

/// Whether `plus` shows the variant `id` of a registry: its index, its
/// names, its drawing where `svgs` asks for it, and the layers of its
/// dependency by names.
pub open spec fn shows_variant(
    m: RegistryModel,
    id: StoredLayerId,
    svgs: bool,
    plus: VariantInfoPlus,
) -> bool {
    let variant = m.variants[id.category as int][id.variant as int];
    let correlated = match find_dependency(m.dependencies, id) {
        Some(d) => m.dependencies[d].correlated,
        None => Seq::empty(),
    };
    &&& m.has_layer(id)
    &&& plus.index == id.variant
    &&& plus.variant_info.name == variant.name
    &&& plus.variant_info.display_name == variant.display_name
    &&& plus.variant_info.svg == (if svgs {
        variant.svg
    } else {
        None
    })
    &&& plus.includes@.len() == correlated.len()
    &&& forall|k: int|
        0 <= k < correlated.len() ==> ((#[trigger] plus.includes@[k]).category@, plus.includes@[k].variant@)
            == layer_names(m, correlated[k])
}

/// The category that a query names: by name where one is given, else by
/// index where one is given, else the first.
pub open spec fn asked_category(m: RegistryModel, name: Option<Seq<char>>, index: Option<u8>) -> Result<
    int,
    EngineError,
> {
    match name {
        Some(n) => match find_category(m.categories, n) {
            Some(c) => Ok(c),
            None => Err(EngineError::UnknownCategory),
        },
        None => match index {
            Some(i) => if i >= m.categories.len() {
                Err(EngineError::UnknownCategory)
            } else {
                Ok(i as int)
            },
            None => if m.categories.len() == 0 {
                Err(EngineError::StorageCorrupt)
            } else {
                Ok(0)
            },
        },
    }
}

/// Where a page of variants ends: after `limit` variants from `start`, and
/// not beyond the last variant.
pub open spec fn page_end(start: int, limit: int, count: int) -> int {
    if start + limit < count {
        start + limit
    } else {
        count
    }
}

/// The view of a name, where one is given.
pub open spec fn name_view(name: Option<&str>) -> Option<Seq<char>> {
    match name {
        Some(n) => Some(n@),
        None => None,
    }
}

/// Whether `p` shows the category that a query names, with the page of its
/// variants that the query asks for: from `start_at` (else the first
/// variant), `limit` variants (else 5 with drawings, 30 without) or as many
/// as are left.
pub open spec fn shows_category(
    m: RegistryModel,
    name: Option<Seq<char>>,
    index: Option<u8>,
    start_at: Option<u8>,
    limit: Option<u8>,
    display_svg: Option<bool>,
    p: CategoryPage,
) -> bool {
    let svgs = display_svg == Some(true);
    let start = match start_at {
        Some(s) => s as int,
        None => 0,
    };
    let max = match limit {
        Some(l) => l as int,
        None => if svgs {
            5
        } else {
            30
        },
    };
    let end = page_end(start, max, m.variants[p.index as int].len() as int);
    &&& asked_category(m, name, index) == Ok::<int, EngineError>(p.index as int)
    &&& p.category_count == m.categories.len()
    &&& p.name == m.categories[p.index as int].name
    &&& p.skip == m.categories[p.index as int].skip
    &&& p.variant_count == m.variants[p.index as int].len()
    &&& p.variants@.len() == (if start < end {
        end - start
    } else {
        0
    })
    &&& forall|k: int|
        0 <= k < p.variants@.len() ==> shows_variant(
            m,
            StoredLayerId { category: p.index, variant: (start + k) as u8 },
            svgs,
            #[trigger] p.variants@[k],
        )
}

/// Whether `p` shows the classifying layers, the index of the skull
/// category, and the display name of each skull variant, by index.
pub open spec fn shows_skull_types(m: RegistryModel, p: SkullTypePlus) -> bool {
    &&& type_layers(m) == Ok::<(StoredLayerId, StoredLayerId), EngineError>((p.cyclops, p.jawless))
    &&& find_category(m.categories, skull_name()) == Some(p.skull_idx as int)
    &&& p.skull_variants@.len() == m.variants[p.skull_idx as int].len()
    &&& forall|v: int|
        0 <= v < p.skull_variants@.len() ==> (#[trigger] p.skull_variants@[v]).idx == v
            && p.skull_variants@[v].name@ == m.variants[p.skull_idx as int][v].display_name@
}

/// Whether `page` shows the number of dependencies and, by names, `limit`
/// of them (else 100) from `start_at` (else from the first), or as many as
/// are left.
pub open spec fn shows_dependencies(
    m: RegistryModel,
    start_at: Option<u16>,
    limit: Option<u16>,
    page: (usize, Vec<Dependencies>),
) -> bool {
    let start = match start_at {
        Some(s) => s as int,
        None => 0,
    };
    let max = match limit {
        Some(l) => l as int,
        None => 100,
    };
    let end = page_end(start, max, m.dependencies.len() as int);
    &&& page.0 == m.dependencies.len()
    &&& page.1@.len() == (if start < end {
        end - start
    } else {
        0
    })
    &&& forall|k: int|
        0 <= k < page.1@.len() ==> shows_dependency(
            m,
            m.dependencies[start + k],
            #[trigger] page.1@[k],
        )
}

impl Registry {
    /// The layers by which skulls are classified: the cyclops layer and the
    /// jawless layer.
    pub fn get_type_layers(&self) -> (layers: Result<(StoredLayerId, StoredLayerId), EngineError>)
        requires
            self.wf(),
        ensures
            layers == type_layers(self@),
            layers matches Ok(pair) ==> self@.has_layer(pair.0) && self@.has_layer(pair.1),
    {
        let eye = match self.category_index("Eye Type") {
            Some(c) => c,
            None => {
                return Err(EngineError::UnknownCategory);
            },
        };
        let jaw = match self.category_index("Jaw Type") {
            Some(c) => c,
            None => {
                return Err(EngineError::UnknownCategory);
            },
        };
        proof {
            lemma_find_category(self@.categories, eye_type_name());
            lemma_find_category(self@.categories, jaw_name());
            lemma_find_variant(self@.variants[jaw as int], none_name());
            lemma_find_variant(self@.variants[eye as int], cyclops_name());
        }
        let jawless = match self.variant_index(jaw, "None") {
            Some(v) => v,
            None => {
                return Err(EngineError::MissingNoneVariant);
            },
        };
        let cyclops = match self.variant_index(eye, "EyeType.Cyclops") {
            Some(v) => v,
            None => {
                return Err(EngineError::UnknownVariant);
            },
        };
        Ok(
            (
                StoredLayerId { category: eye, variant: cyclops },
                StoredLayerId { category: jaw, variant: jawless },
            ),
        )
    }

    /// Whether the skull of an image is a cyclops, and whether it has no
    /// jaw. The image must have a byte for both marks.
    pub fn skull_type(&self, image: &Vec<u8>) -> (kind: Result<SkullTypeResponse, EngineError>)
        requires
            self.wf(),
        ensures
            match type_layers(self@) {
                Err(e) => kind == Err::<SkullTypeResponse, EngineError>(e),
                Ok((cyclops, jawless)) => if jawless.category < image@.len() && cyclops.category
                    < image@.len() {
                    kind == Ok::<SkullTypeResponse, EngineError>(
                        SkullTypeResponse {
                            is_cyclops: holds_layer(image@, cyclops),
                            is_jawless: holds_layer(image@, jawless),
                        },
                    )
                } else {
                    kind == Err::<SkullTypeResponse, EngineError>(EngineError::ImageTooShort)
                },
            },
    {
        let (cyclops, jawless) = match self.get_type_layers() {
            Ok(pair) => pair,
            Err(e) => {
                return Err(e);
            },
        };
        if jawless.category as usize >= image.len() || cyclops.category as usize >= image.len() {
            return Err(EngineError::ImageTooShort);
        }
        let is_jawless = image[jawless.category as usize] == jawless.variant;
        let is_cyclops = image[cyclops.category as usize] == cyclops.variant;
        Ok(SkullTypeResponse { is_cyclops, is_jawless })
    }

    /// The classifying layers, the index of the skull category, and the
    /// display name of each skull variant, by index.
    pub fn type_plus(&self) -> (plus: Result<SkullTypePlus, EngineError>)
        requires
            self.wf(),
        ensures
            match plus {
                Ok(p) => shows_skull_types(self@, p),
                Err(e) => match type_layers(self@) {
                    Err(f) => e == f,
                    Ok(_) => e == EngineError::UnknownCategory && find_category(
                        self@.categories,
                        skull_name(),
                    ).is_none(),
                },
            },
    {
        let (cyclops, jawless) = match self.get_type_layers() {
            Ok(pair) => pair,
            Err(e) => {
                return Err(e);
            },
        };
        let skull_idx = match self.category_index("Skull") {
            Some(c) => c,
            None => {
                return Err(EngineError::UnknownCategory);
            },
        };
        proof {
            lemma_find_category(self@.categories, skull_name());
        }
        let list = &self.variants[skull_idx as usize];
        assert(self@.variants[skull_idx as int] == list@);
        assert(self@.categories[skull_idx as int].cnt == list@.len());
        let mut skull_variants: Vec<VariantIdxName> = Vec::new();
        let mut v: usize = 0;
        while v < list.len()
            invariant
                v <= list.len(),
                list@.len() <= 255,
                skull_variants@.len() == v,
                forall|k: int|
                    0 <= k < v ==> (#[trigger] skull_variants@[k]).idx == k
                        && skull_variants@[k].name@ == list@[k].display_name@,
            decreases list.len() - v,
        {
            skull_variants.push(VariantIdxName { idx: v as u8, name: list[v].display_name.clone() });
            v += 1;
        }
        Ok(SkullTypePlus { cyclops, jawless, skull_idx, skull_variants })
    }

    /// The skip list and the names of the categories.
    pub fn serve_alchemy(&self) -> (served: ServeAlchemy)
        requires
            self.wf(),
        ensures
            served.skip@ == self@.skip,
            dependency_models(served.dependencies@) == self@.dependencies,
            text_views(served.category_names@) == category_names(
                self@,
                self@.categories.len() as int,
            ),
    {
        let mut names: Vec<String> = Vec::new();
        let mut c: usize = 0;
        while c < self.categories.len()
            invariant
                c <= self.categories.len(),
                names@.len() == c,
                forall|k: int| 0 <= k < c ==> (#[trigger] names@[k])@ == self.categories@[k].name@,
            decreases self.categories.len() - c,
        {
            names.push(self.categories[c].name.clone());
            c += 1;
        }
        assert(text_views(names@) =~= category_names(self@, self@.categories.len() as int));
        let mut dependencies: Vec<StoredDependencies> = Vec::new();
        let mut d: usize = 0;
        while d < self.dependencies.len()
            invariant
                d <= self.dependencies.len(),
                dependencies@.len() == d,
                forall|k: int|
                    0 <= k < d ==> (#[trigger] dependencies@[k]).model()
                        == self.dependencies@[k].model(),
            decreases self.dependencies.len() - d,
        {
            let dep = &self.dependencies[d];
            dependencies.push(
                StoredDependencies {
                    id: dep.id,
                    correlated: crate::registry_edit::copy_layers(&dep.correlated),
                },
            );
            d += 1;
        }
        assert(dependency_models(dependencies@) =~= self@.dependencies);
        ServeAlchemy { skip: copy_bytes(&self.state.skip), dependencies, category_names: names }
    }

    /// The number of categories and the names of the skipped ones, in the
    /// order of the skip list.
    pub fn state_names(&self) -> (shown: (u8, Vec<String>))
        requires
            self.wf(),
        ensures
            shown.0 == self@.categories.len(),
            shown.1@.len() == self@.skip.len(),
            forall|s: int|
                0 <= s < self@.skip.len() ==> (#[trigger] shown.1@[s])@
                    == self@.categories[self@.skip[s] as int].name@,
    {
        let mut names: Vec<String> = Vec::new();
        let mut s: usize = 0;
        while s < self.state.skip.len()
            invariant
                s <= self.state.skip.len(),
                self.wf(),
                names@.len() == s,
                forall|k: int|
                    0 <= k < s ==> (#[trigger] names@[k])@
                        == self@.categories[self@.skip[k] as int].name@,
            decreases self.state.skip.len() - s,
        {
            let c = self.state.skip[s] as usize;
            assert(self@.skip[s as int] < self@.categories.len());
            names.push(self.categories[c].name.clone());
            s += 1;
        }
        (self.state.cat_cnt, names)
    }

    /// A variant with its index and, by names, the layers of its dependency.
    /// The drawing is left out unless `svgs` asks for it.
    pub fn displ_variant(&self, id: &StoredLayerId, svgs: bool) -> (shown: Result<
        VariantInfoPlus,
        EngineError,
    >)
        requires
            self.wf(),
        ensures
            match shown {
                Ok(plus) => shows_variant(self@, *id, svgs, plus),
                Err(e) => e == EngineError::StorageCorrupt && !self@.has_layer(*id),
            },
    {
        let c = id.category as usize;
        if c >= self.variants.len() {
            return Err(EngineError::StorageCorrupt);
        }
        assert(self@.variants[c as int] == self.variants@[c as int]@);
        let v = id.variant as usize;
        if v >= self.variants[c].len() {
            return Err(EngineError::StorageCorrupt);
        }
        let mut includes: Vec<LayerId> = Vec::new();
        if let Some(d) = self.dependency_index(*id) {
            let correlated = &self.dependencies[d].correlated;
            assert(self@.dependencies[d as int].correlated == correlated@);
            let mut k: usize = 0;
            while k < correlated.len()
                invariant
                    k <= correlated.len(),
                    self.wf(),
                    d < self.dependencies@.len(),
                    self@.dependencies[d as int].correlated == correlated@,
                    includes@.len() == k,
                    forall|j: int|
                        0 <= j < k ==> ((#[trigger] includes@[j]).category@, includes@[j].variant@)
                            == layer_names(self@, correlated@[j]),
                decreases correlated.len() - k,
            {
                assert(self@.has_layer(self@.dependencies[d as int].correlated[k as int]));
                match correlated[k].to_display(self) {
                    Ok(layer) => {
                        includes.push(layer);
                    },
                    Err(e) => {
                        assert(false);
                        return Err(e);
                    },
                }
                k += 1;
            }
        }
        let variant = &self.variants[c][v];
        let svg = if svgs {
            copy_text(&variant.svg)
        } else {
            None
        };
        Ok(
            VariantInfoPlus {
                index: id.variant,
                variant_info: VariantInfo {
                    name: variant.name.clone(),
                    display_name: variant.display_name.clone(),
                    svg,
                },
                includes,
            },
        )
    }
}

impl Registry {
    /// A category and a page of its variants. The category is the one of
    /// the name, else the one of the index, else the first. The page starts
    /// at `start_at` (else at the first variant) and holds `limit` variants
    /// (else 5 with drawings, 30 without) or as many as are left.
    pub fn category_page(
        &self,
        name: Option<&str>,
        index: Option<u8>,
        start_at: Option<u8>,
        limit: Option<u8>,
        display_svg: Option<bool>,
    ) -> (page: Result<CategoryPage, EngineError>)
        requires
            self.wf(),
        ensures
            match page {
                Ok(p) => shows_category(self@, name_view(name), index, start_at, limit, display_svg, p),
                Err(e) => asked_category(self@, name_view(name), index) == Err::<int, EngineError>(
                    e,
                ),
            },
    {
        let svgs = match display_svg {
            Some(b) => b,
            None => false,
        };
        let max: u16 = match limit {
            Some(l) => l as u16,
            None => if svgs {
                5
            } else {
                30
            },
        };
        let start: u16 = match start_at {
            Some(s) => s as u16,
            None => 0,
        };
        let cat_idx: u8 = match name {
            Some(n) => match self.category_index(n) {
                Some(c) => c,
                None => {
                    return Err(EngineError::UnknownCategory);
                },
            },
            None => match index {
                Some(i) => {
                    if i >= self.state.cat_cnt {
                        return Err(EngineError::UnknownCategory);
                    }
                    i
                },
                None => {
                    if self.state.cat_cnt == 0 {
                        return Err(EngineError::StorageCorrupt);
                    }
                    0
                },
            },
        };
        proof {
            if let Some(n) = name {
                lemma_find_category(self@.categories, n@);
            }
        }
        let cat = &self.categories[cat_idx as usize];
        assert(self@.categories[cat_idx as int].cnt == self@.variants[cat_idx as int].len());
        let cnt: u16 = cat.cnt as u16;
        let end: u16 = if start + max < cnt {
            start + max
        } else {
            cnt
        };
        let mut variants: Vec<VariantInfoPlus> = Vec::new();
        let mut idx: u16 = start;
        while idx < end
            invariant
                self.wf(),
                cat_idx < self@.categories.len(),
                end <= self@.variants[cat_idx as int].len(),
                end == page_end(
                    start as int,
                    max as int,
                    self@.variants[cat_idx as int].len() as int,
                ),
                start <= idx,
                start < end ==> idx <= end,
                start >= end ==> idx == start,
                variants@.len() == idx - start,
                forall|k: int|
                    0 <= k < variants@.len() ==> shows_variant(
                        self@,
                        StoredLayerId { category: cat_idx, variant: (start + k) as u8 },
                        svgs,
                        #[trigger] variants@[k],
                    ),
            decreases end - idx,
        {
            let layer = StoredLayerId { category: cat_idx, variant: idx as u8 };
            match self.displ_variant(&layer, svgs) {
                Ok(plus) => {
                    variants.push(plus);
                },
                Err(e) => {
                    assert(false);
                    return Err(e);
                },
            }
            idx += 1;
        }
        Ok(
            CategoryPage {
                category_count: self.state.cat_cnt,
                index: cat_idx,
                name: cat.name.clone(),
                skip: cat.skip,
                variant_count: cat.cnt,
                variants,
            },
        )
    }

    /// The number of dependencies, and a page of them by names: `limit`
    /// dependencies (else 100) from `start_at` (else from the first), or as
    /// many as are left.
    pub fn dependencies_page(&self, start_at: Option<u16>, limit: Option<u16>) -> (page: (
        usize,
        Vec<Dependencies>,
    ))
        requires
            self.wf(),
        ensures
            shows_dependencies(self@, start_at, limit, page),
    {
        let max: usize = match limit {
            Some(l) => l as usize,
            None => 100,
        };
        let start: usize = match start_at {
            Some(s) => s as usize,
            None => 0,
        };
        let count = self.dependencies.len();
        let end: usize = if count < start || count - start <= max {
            count
        } else {
            start + max
        };
        let mut shown: Vec<Dependencies> = Vec::new();
        let mut idx: usize = start;
        while idx < end
            invariant
                self.wf(),
                end <= self.dependencies@.len(),
                end == page_end(start as int, max as int, self@.dependencies.len() as int),
                start <= idx,
                start < end ==> idx <= end,
                start >= end ==> idx == start,
                shown@.len() == idx - start,
                forall|k: int|
                    0 <= k < shown@.len() ==> shows_dependency(
                        self@,
                        self@.dependencies[start + k],
                        #[trigger] shown@[k],
                    ),
            decreases end - idx,
        {
            let dep = &self.dependencies[idx];
            proof {
                assert(self@.dependencies[idx as int] == dep.model());
                assert(self@.has_layer(self@.dependencies[idx as int].id));
                assert forall|k: int| 0 <= k < dep.correlated@.len() implies self@.has_layer(
                    #[trigger] dep.correlated@[k],
                ) by {
                    assert(self@.has_layer(self@.dependencies[idx as int].correlated[k]));
                }
            }
            match dep.to_display(self) {
                Ok(d) => {
                    shown.push(d);
                },
                Err(e) => {
                    assert(false);
                },
            }
            idx += 1;
        }
        (count, shown)
    }
}

/// Whether `shown` gives a dependency by names.
pub open spec fn shows_dependency(
    m: RegistryModel,
    dependency: crate::registry::DependencyModel,
    shown: Dependencies,
) -> bool {
    &&& (shown.id.category@, shown.id.variant@) == layer_names(m, dependency.id)
    &&& shown.correlated@.len() == dependency.correlated.len()
    &&& forall|k: int|
        0 <= k < dependency.correlated.len() ==> ((#[trigger] shown.correlated@[k]).category@, shown.correlated@[k].variant@)
            == layer_names(m, dependency.correlated[k])
}

} // verus!
