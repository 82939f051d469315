//! The trait registry: categories, their variants, the skip list and the
//! dependencies between variants.
use vstd::prelude::*;

verus! {

/// One value of a trait category.
#[derive(Clone, Debug, PartialEq, Eq)]
pub struct VariantInfo {
    /// The name by which the variant is found.
    pub name: String,
    /// The name shown in metadata.
    pub display_name: String,
    /// The drawing of the variant, if it has one.
    pub svg: Option<String>,
}

/// A trait category as it is kept.
#[derive(Clone, Debug, PartialEq, Eq)]
pub struct Category {
    /// The name by which the category is found.
    pub name: String,
    /// Whether the category is left out when rolling.
    pub skip: bool,
    /// How many variants the category has.
    pub cnt: u8,
}

/// The counters of the registry.
#[derive(Clone, Debug, PartialEq, Eq)]
pub struct State {
    /// How many categories there are.
    pub cat_cnt: u8,
    /// The categories that metadata and rolls leave out.
    pub skip: Vec<u8>,
}

/// A new category and its first variants.
#[derive(Clone, Debug, PartialEq, Eq)]
pub struct CategoryInfo {
    pub name: String,
    pub skip: bool,
    pub variants: Vec<VariantInfo>,
}

/// New variants for a category.
#[derive(Clone, Debug, PartialEq, Eq)]
pub struct AddVariantInfo {
    pub category_name: String,
    pub variants: Vec<VariantInfo>,
}

/// A variant to replace, by its name, and what replaces it.
#[derive(Clone, Debug, PartialEq, Eq)]
pub struct VariantModification {
    pub name: String,
    pub modified_variant: VariantInfo,
}

/// Replacements of variants of one category.
#[derive(Clone, Debug, PartialEq, Eq)]
pub struct VariantModInfo {
    pub category: String,
    pub modifications: Vec<VariantModification>,
}

/// A variant of a category, by names.
#[derive(Clone, Debug, PartialEq, Eq)]
pub struct LayerId {
    pub category: String,
    pub variant: String,
}

/// A variant of a category, by indices.
#[derive(Clone, Copy, Debug, PartialEq, Eq, Structural)]
pub struct StoredLayerId {
    pub category: u8,
    pub variant: u8,
}

/// A variant and the variants that must be present with it, by names.
#[derive(Clone, Debug, PartialEq, Eq)]
pub struct Dependencies {
    pub id: LayerId,
    pub correlated: Vec<LayerId>,
}

/// A variant and the variants that must be present with it, by indices.
#[derive(Clone, Debug, PartialEq, Eq)]
pub struct StoredDependencies {
    pub id: StoredLayerId,
    pub correlated: Vec<StoredLayerId>,
}

/// A variant with its index and the variants it brings along.
#[derive(Clone, Debug, PartialEq, Eq)]
pub struct VariantInfoPlus {
    pub index: u8,
    pub variant_info: VariantInfo,
    pub includes: Vec<LayerId>,
}

/// The index of a variant and its display name.
#[derive(Clone, Debug, PartialEq, Eq)]
pub struct VariantIdxName {
    pub idx: u8,
    pub name: String,
}

/// What is done with a list of dependencies.
#[derive(Clone, Copy, Debug, PartialEq, Eq, Structural)]
pub enum Action {
    Add,
    Remove,
    Modify,
}

/// The registry of trait categories.
#[derive(Clone, Debug, PartialEq, Eq)]
pub struct Registry {
    /// The categories, by index.
    pub categories: Vec<Category>,
    /// The variants of each category, by index.
    pub variants: Vec<Vec<VariantInfo>>,
    /// The category count and the skip list.
    pub state: State,
    /// The dependencies, in the order in which they were added.
    pub dependencies: Vec<StoredDependencies>,
}

/// What a registry holds, as sequences.
pub struct RegistryModel {
    /// The number of categories, as the registry counts them.
    pub count: u8,
    pub categories: Seq<Category>,
    pub variants: Seq<Seq<VariantInfo>>,
    pub skip: Seq<u8>,
    pub dependencies: Seq<DependencyModel>,
}

/// What a dependency holds, as sequences.
pub struct DependencyModel {
    pub id: StoredLayerId,
    pub correlated: Seq<StoredLayerId>,
}

/// The most categories a registry holds, and the most variants a category
/// holds: the index 255 stands for "unrevealed".
pub const MAX_COUNT: u8 = 255;

/// The first category of the name, if there is one.
pub open spec fn find_category(categories: Seq<Category>, name: Seq<char>) -> Option<int>
    decreases categories.len(),
{
    if categories.len() == 0 {
        None
    } else if categories[0].name@ == name {
        Some(0)
    } else {
        match find_category(categories.drop_first(), name) {
            Some(i) => Some(i + 1),
            None => None,
        }
    }
}

/// The first variant of the name, if there is one.
pub open spec fn find_variant(variants: Seq<VariantInfo>, name: Seq<char>) -> Option<int>
    decreases variants.len(),
{
    if variants.len() == 0 {
        None
    } else if variants[0].name@ == name {
        Some(0)
    } else {
        match find_variant(variants.drop_first(), name) {
            Some(i) => Some(i + 1),
            None => None,
        }
    }
}

/// The first dependency of the variant, if there is one.
pub open spec fn find_dependency(dependencies: Seq<DependencyModel>, id: StoredLayerId) -> Option<
    int,
>
    decreases dependencies.len(),
{
    if dependencies.len() == 0 {
        None
    } else if dependencies[0].id == id {
        Some(0)
    } else {
        match find_dependency(dependencies.drop_first(), id) {
            Some(i) => Some(i + 1),
            None => None,
        }
    }
}

/// `find_category` finds the first category of the name and no other.
pub proof fn lemma_find_category(categories: Seq<Category>, name: Seq<char>)
    ensures
        match find_category(categories, name) {
            Some(i) => 0 <= i < categories.len() && categories[i].name@ == name && forall|k: int|
                0 <= k < i ==> categories[k].name@ != name,
            None => forall|k: int| 0 <= k < categories.len() ==> categories[k].name@ != name,
        },
    decreases categories.len(),
{
    if categories.len() > 0 && categories[0].name@ != name {
        lemma_find_category(categories.drop_first(), name);
        match find_category(categories.drop_first(), name) {
            Some(i) => {
                assert forall|k: int| 0 <= k < i + 1 implies categories[k].name@ != name by {
                    if k > 0 {
                        assert(categories.drop_first()[k - 1].name@ != name);
                    }
                }
            },
            None => {
                assert forall|k: int| 0 <= k < categories.len() implies categories[k].name@
                    != name by {
                    if k > 0 {
                        assert(categories.drop_first()[k - 1].name@ != name);
                    }
                }
            },
        }
    }
}

/// `find_variant` finds the first variant of the name and no other.
pub proof fn lemma_find_variant(variants: Seq<VariantInfo>, name: Seq<char>)
    ensures
        match find_variant(variants, name) {
            Some(i) => 0 <= i < variants.len() && variants[i].name@ == name && forall|k: int|
                0 <= k < i ==> variants[k].name@ != name,
            None => forall|k: int| 0 <= k < variants.len() ==> variants[k].name@ != name,
        },
    decreases variants.len(),
{
    if variants.len() > 0 && variants[0].name@ != name {
        lemma_find_variant(variants.drop_first(), name);
        match find_variant(variants.drop_first(), name) {
            Some(i) => {
                assert forall|k: int| 0 <= k < i + 1 implies variants[k].name@ != name by {
                    if k > 0 {
                        assert(variants.drop_first()[k - 1].name@ != name);
                    }
                }
            },
            None => {
                assert forall|k: int| 0 <= k < variants.len() implies variants[k].name@ != name by {
                    if k > 0 {
                        assert(variants.drop_first()[k - 1].name@ != name);
                    }
                }
            },
        }
    }
}

/// `find_dependency` finds the first dependency of the variant and no other.
pub proof fn lemma_find_dependency(dependencies: Seq<DependencyModel>, id: StoredLayerId)
    ensures
        match find_dependency(dependencies, id) {
            Some(i) => 0 <= i < dependencies.len() && dependencies[i].id == id && forall|k: int|
                0 <= k < i ==> dependencies[k].id != id,
            None => forall|k: int| 0 <= k < dependencies.len() ==> dependencies[k].id != id,
        },
    decreases dependencies.len(),
{
    if dependencies.len() > 0 && dependencies[0].id != id {
        lemma_find_dependency(dependencies.drop_first(), id);
        match find_dependency(dependencies.drop_first(), id) {
            Some(i) => {
                assert forall|k: int| 0 <= k < i + 1 implies dependencies[k].id != id by {
                    if k > 0 {
                        assert(dependencies.drop_first()[k - 1].id != id);
                    }
                }
            },
            None => {
                assert forall|k: int| 0 <= k < dependencies.len() implies dependencies[k].id
                    != id by {
                    if k > 0 {
                        assert(dependencies.drop_first()[k - 1].id != id);
                    }
                }
            },
        }
    }
}

impl StoredDependencies {
    /// The dependency as sequences.
    pub open spec fn model(self) -> DependencyModel {
        DependencyModel { id: self.id, correlated: self.correlated@ }
    }
}

/// Whether a skip list names a category.
pub open spec fn on_list(skip: Seq<u8>, c: int) -> bool {
    exists|s: int| 0 <= s < skip.len() && #[trigger] skip[s] == c
}

impl RegistryModel {
    /// Whether the layer names a variant that the registry has.
    pub open spec fn has_layer(self, id: StoredLayerId) -> bool {
        id.category < self.variants.len() && id.variant < self.variants[id.category as int].len()
    }

    /// Counts fit, and names are unique among the categories and among the
    /// variants of each category.
    pub open spec fn names_wf(self) -> bool {
        &&& self.categories.len() == self.variants.len()
        &&& self.categories.len() <= MAX_COUNT
        &&& forall|c: int|
            0 <= c < self.categories.len() ==> (#[trigger] self.categories[c]).cnt
                == self.variants[c].len()
        &&& forall|a: int, b: int|
            0 <= a < b < self.categories.len() ==> (#[trigger] self.categories[a]).name@ != (
            #[trigger] self.categories[b]).name@
        &&& forall|c: int, a: int, b: int|
            0 <= c < self.variants.len() && 0 <= a < b < self.variants[c].len() ==> (
            #[trigger] self.variants[c][a]).name@ != (#[trigger] self.variants[c][b]).name@
    }

    /// The skip list names the categories that are marked so, and no
    /// others, once each.
    pub open spec fn skip_wf(self) -> bool {
        &&& forall|s: int|
            0 <= s < self.skip.len() ==> (#[trigger] self.skip[s]) < self.categories.len()
                && self.categories[self.skip[s] as int].skip
        &&& forall|s: int, t: int|
            0 <= s < t < self.skip.len() ==> (#[trigger] self.skip[s]) != (#[trigger] self.skip[t])
        &&& forall|c: int|
            0 <= c < self.categories.len() && (#[trigger] self.categories[c]).skip ==> on_list(
                self.skip,
                c,
            )
    }

    /// Every dependency joins variants that exist, and no variant has two
    /// dependencies.
    pub open spec fn dependencies_wf(self) -> bool {
        &&& forall|d: int|
            0 <= d < self.dependencies.len() ==> self.has_layer(
                (#[trigger] self.dependencies[d]).id,
            )
        &&& forall|d: int, k: int|
            0 <= d < self.dependencies.len() && 0 <= k < self.dependencies[d].correlated.len()
                ==> self.has_layer(#[trigger] self.dependencies[d].correlated[k])
        &&& forall|d: int, e: int|
            0 <= d < e < self.dependencies.len() ==> (#[trigger] self.dependencies[d]).id != (
            #[trigger] self.dependencies[e]).id
    }

    /// The invariant of the registry.
    pub open spec fn wf(self) -> bool {
        &&& self.names_wf()
        &&& self.skip_wf()
        &&& self.dependencies_wf()
    }
}

impl View for Registry {
    type V = RegistryModel;

    open spec fn view(&self) -> RegistryModel {
        RegistryModel {
            count: self.state.cat_cnt,
            categories: self.categories@,
            variants: Seq::new(self.variants@.len(), |c: int| self.variants@[c]@),
            skip: self.state.skip@,
            dependencies: Seq::new(
                self.dependencies@.len(),
                |d: int| self.dependencies@[d].model(),
            ),
        }
    }
}

impl Registry {
    /// The invariant of the registry: that of what it holds, and a category
    /// count that agrees with the categories.
    pub open spec fn wf(&self) -> bool {
        &&& self@.wf()
        &&& self@.count == self.categories@.len()
    }

    /// A registry without categories.
    pub fn new() -> (registry: Registry)
        ensures
            registry.wf(),
            registry@.categories.len() == 0,
            registry@.skip.len() == 0,
            registry@.dependencies.len() == 0,
    {
        Registry {
            categories: Vec::new(),
            variants: Vec::new(),
            state: State { cat_cnt: 0, skip: Vec::new() },
            dependencies: Vec::new(),
        }
    }

    /// The index of the category of a name.
    pub fn category_index(&self, name: &str) -> (found: Option<u8>)
        requires
            self.wf(),
        ensures
            match found {
                Some(c) => find_category(self@.categories, name@) == Some(c as int),
                None => find_category(self@.categories, name@).is_none(),
            },
    {
        let key = String::from_str(name);
        let mut i: usize = 0;
        while i < self.categories.len()
            invariant
                i <= self.categories.len(),
                self.wf(),
                key@ == name@,
                forall|k: int| 0 <= k < i ==> self.categories@[k].name@ != name@,
            decreases self.categories.len() - i,
        {
            if self.categories[i].name == key {
                proof {
                    lemma_find_category(self@.categories, name@);
                }
                return Some(i as u8);
            }
            i += 1;
        }
        proof {
            lemma_find_category(self@.categories, name@);
        }
        None
    }

    /// The index of the variant of a name in a category.
    pub fn variant_index(&self, category: u8, name: &str) -> (found: Option<u8>)
        requires
            self.wf(),
            category < self@.categories.len(),
        ensures
            match found {
                Some(v) => find_variant(self@.variants[category as int], name@) == Some(v as int),
                None => find_variant(self@.variants[category as int], name@).is_none(),
            },
    {
        let key = String::from_str(name);
        let list = &self.variants[category as usize];
        let mut i: usize = 0;
        proof {
            assert(self@.variants[category as int] == list@);
            assert(self.categories@[category as int].cnt == list@.len());
        }
        while i < list.len()
            invariant
                i <= list.len(),
                list@.len() <= MAX_COUNT,
                category < self@.variants.len(),
                self@.variants[category as int] == list@,
                key@ == name@,
                forall|k: int| 0 <= k < i ==> list@[k].name@ != name@,
            decreases list.len() - i,
        {
            if list[i].name == key {
                proof {
                    lemma_find_variant(list@, name@);
                }
                return Some(i as u8);
            }
            i += 1;
        }
        proof {
            lemma_find_variant(list@, name@);
        }
        None
    }
}

} // verus!
