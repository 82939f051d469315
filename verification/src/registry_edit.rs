//! Changes to the categories and variants of the registry. Each change is
//! all or nothing: a refused change leaves the registry as it was.
use crate::error::EngineError;
use crate::registry::{
    find_category, find_variant, lemma_find_category, lemma_find_variant, on_list, AddVariantInfo,
    Category, CategoryInfo, Registry, RegistryModel, State, StoredDependencies, StoredLayerId,
    VariantInfo, VariantModInfo, VariantModification, MAX_COUNT,
};
use vstd::prelude::*;
use vstd::string::StringExecFns;

verus! {

/// A copy of an optional string.
pub fn copy_text(text: &Option<String>) -> (copy: Option<String>)
    ensures
        copy == *text,
{
    match text {
        Some(t) => Some(t.clone()),
        None => None,
    }
}

impl VariantInfo {
    /// A copy of the variant.
    pub fn duplicate(&self) -> (copy: VariantInfo)
        ensures
            copy == *self,
    {
        VariantInfo {
            name: self.name.clone(),
            display_name: self.display_name.clone(),
            svg: copy_text(&self.svg),
        }
    }
}

/// A copy of a list of variants.
pub fn copy_variants(list: &Vec<VariantInfo>) -> (copy: Vec<VariantInfo>)
    ensures
        copy@ == list@,
{
    let mut copy: Vec<VariantInfo> = Vec::new();
    let mut i: usize = 0;
    while i < list.len()
        invariant
            i <= list.len(),
            copy@ =~= list@.subrange(0, i as int),
        decreases list.len() - i,
    {
        copy.push(list[i].duplicate());
        i += 1;
    }
    assert(list@.subrange(0, list@.len() as int) =~= list@);
    copy
}

/// A copy of a list of layers.
pub fn copy_layers(list: &Vec<StoredLayerId>) -> (copy: Vec<StoredLayerId>)
    ensures
        copy@ == list@,
{
    let mut copy: Vec<StoredLayerId> = Vec::new();
    let mut i: usize = 0;
    while i < list.len()
        invariant
            i <= list.len(),
            copy@ =~= list@.subrange(0, i as int),
        decreases list.len() - i,
    {
        copy.push(list[i]);
        i += 1;
    }
    assert(list@.subrange(0, list@.len() as int) =~= list@);
    copy
}

/// A copy of a list of bytes.
pub fn copy_bytes(list: &Vec<u8>) -> (copy: Vec<u8>)
    ensures
        copy@ == list@,
{
    let mut copy: Vec<u8> = Vec::new();
    let mut i: usize = 0;
    while i < list.len()
        invariant
            i <= list.len(),
            copy@ =~= list@.subrange(0, i as int),
        decreases list.len() - i,
    {
        copy.push(list[i]);
        i += 1;
    }
    assert(list@.subrange(0, list@.len() as int) =~= list@);
    copy
}

impl Registry {
    /// A copy of the registry.
    pub fn duplicate(&self) -> (copy: Registry)
        ensures
            copy@ == self@,
            copy.state.cat_cnt == self.state.cat_cnt,
    {
        let mut categories: Vec<Category> = Vec::new();
        let mut i: usize = 0;
        while i < self.categories.len()
            invariant
                i <= self.categories.len(),
                categories@ =~= self.categories@.subrange(0, i as int),
            decreases self.categories.len() - i,
        {
            let cat = &self.categories[i];
            categories.push(Category { name: cat.name.clone(), skip: cat.skip, cnt: cat.cnt });
            i += 1;
        }
        assert(self.categories@.subrange(0, self.categories@.len() as int) =~= self.categories@);
        let mut variants: Vec<Vec<VariantInfo>> = Vec::new();
        let mut c: usize = 0;
        while c < self.variants.len()
            invariant
                c <= self.variants.len(),
                variants@.len() == c,
                forall|k: int| 0 <= k < c ==> (#[trigger] variants@[k])@ == self.variants@[k]@,
            decreases self.variants.len() - c,
        {
            variants.push(copy_variants(&self.variants[c]));
            c += 1;
        }
        let mut dependencies: Vec<StoredDependencies> = Vec::new();
        let mut d: usize = 0;
        while d < self.dependencies.len()
            invariant
                d <= self.dependencies.len(),
                dependencies@.len() == d,
                forall|k: int|
                    0 <= k < d ==> (#[trigger] dependencies@[k]).model()
                        == self.dependencies@[k].model(),
            decreases self.dependencies.len() - d,
        {
            let dep = &self.dependencies[d];
            dependencies.push(
                StoredDependencies { id: dep.id, correlated: copy_layers(&dep.correlated) },
            );
            d += 1;
        }
        let copy = Registry {
            categories,
            variants,
            state: State { cat_cnt: self.state.cat_cnt, skip: copy_bytes(&self.state.skip) },
            dependencies,
        };
        assert(copy@.variants =~= self@.variants);
        assert(copy@.dependencies =~= self@.dependencies);
        copy
    }
}

impl RegistryModel {
    /// The registry with one more variant in category `c`. A variant whose
    /// name the category has already is refused, and so is one for which no
    /// index is left.
    pub open spec fn add_variant(self, c: int, variant: VariantInfo) -> Result<
        RegistryModel,
        EngineError,
    > {
        if find_variant(self.variants[c], variant.name@).is_some() {
            Err(EngineError::DuplicateVariant)
        } else if self.variants[c].len() >= MAX_COUNT {
            Err(EngineError::IndexOverflow)
        } else {
            Ok(
                RegistryModel {
                    categories: self.categories.update(
                        c,
                        Category {
                            name: self.categories[c].name,
                            skip: self.categories[c].skip,
                            cnt: (self.categories[c].cnt + 1) as u8,
                        },
                    ),
                    variants: self.variants.update(c, self.variants[c].push(variant)),
                    ..self
                },
            )
        }
    }

    /// The registry with more variants in category `c`, added in order.
    pub open spec fn add_variant_list(self, c: int, variants: Seq<VariantInfo>) -> Result<
        RegistryModel,
        EngineError,
    >
        decreases variants.len(),
    {
        if variants.len() == 0 {
            Ok(self)
        } else {
            match self.add_variant(c, variants[0]) {
                Err(e) => Err(e),
                Ok(next) => next.add_variant_list(c, variants.drop_first()),
            }
        }
    }

    /// The registry with more variants in the category of a name.
    pub open spec fn add_variants_to(self, info: AddVariantInfo) -> Result<
        RegistryModel,
        EngineError,
    > {
        match find_category(self.categories, info.category_name@) {
            None => Err(EngineError::UnknownCategory),
            Some(c) => self.add_variant_list(c, info.variants@),
        }
    }

    /// The registry after each entry of a list added its variants, in order.
    pub open spec fn add_variants(self, infos: Seq<AddVariantInfo>) -> Result<
        RegistryModel,
        EngineError,
    >
        decreases infos.len(),
    {
        if infos.len() == 0 {
            Ok(self)
        } else {
            match self.add_variants_to(infos[0]) {
                Err(e) => Err(e),
                Ok(next) => next.add_variants(infos.drop_first()),
            }
        }
    }

    /// The registry with one more category, which has no variant yet. A
    /// category that is marked to be skipped goes on the skip list.
    pub open spec fn open_category(self, info: CategoryInfo) -> RegistryModel {
        RegistryModel {
            categories: self.categories.push(Category { name: info.name, skip: info.skip, cnt: 0 }),
            variants: self.variants.push(Seq::empty()),
            skip: if info.skip {
                self.skip.push(self.categories.len() as u8)
            } else {
                self.skip
            },
            ..self
        }
    }

    /// The registry with one more category and its first variants. A
    /// category whose name exists already is refused, and so is one for which
    /// no index is left.
    pub open spec fn add_category(self, info: CategoryInfo) -> Result<RegistryModel, EngineError> {
        if find_category(self.categories, info.name@).is_some() {
            Err(EngineError::DuplicateCategory)
        } else {
            let opened = self.open_category(info);
            match opened.add_variant_list(self.categories.len() as int, info.variants@) {
                Err(e) => Err(e),
                Ok(filled) => if self.count >= MAX_COUNT {
                    Err(EngineError::IndexOverflow)
                } else {
                    Ok(RegistryModel { count: (self.count + 1) as u8, ..filled })
                },
            }
        }
    }

    /// The registry after each category of a list was added, in order.
    pub open spec fn add_categories(self, infos: Seq<CategoryInfo>) -> Result<
        RegistryModel,
        EngineError,
    >
        decreases infos.len(),
    {
        if infos.len() == 0 {
            Ok(self)
        } else {
            match self.add_category(infos[0]) {
                Err(e) => Err(e),
                Ok(next) => next.add_categories(infos.drop_first()),
            }
        }
    }

    /// The invariant of a registry in which the last category may be one too
    /// many: the state between opening a category and counting it.
    pub open spec fn wf_but_count(self) -> bool {
        &&& self.categories.len() == self.variants.len()
        &&& self.categories.len() <= MAX_COUNT + 1
        &&& forall|c: int|
            0 <= c < self.categories.len() ==> (#[trigger] self.categories[c]).cnt
                == self.variants[c].len()
        &&& forall|a: int, b: int|
            0 <= a < b < self.categories.len() ==> (#[trigger] self.categories[a]).name@ != (
            #[trigger] self.categories[b]).name@
        &&& forall|c: int, a: int, b: int|
            0 <= c < self.variants.len() && 0 <= a < b < self.variants[c].len() ==> (
            #[trigger] self.variants[c][a]).name@ != (#[trigger] self.variants[c][b]).name@
        &&& self.skip_wf()
        &&& self.dependencies_wf()
    }
}

/// Adding a variant keeps the invariant of the registry, its skip list, its
/// dependencies, and every category but the one that grows.
pub proof fn lemma_add_variant(m: RegistryModel, c: int, variant: VariantInfo)
    requires
        m.wf_but_count(),
        0 <= c < m.categories.len(),
    ensures
        m.add_variant(c, variant) matches Ok(next) ==> {
            &&& next.wf_but_count()
            &&& next.categories.len() == m.categories.len()
            &&& next.skip == m.skip
            &&& next.dependencies == m.dependencies
            &&& next.variants[c] == m.variants[c].push(variant)
            &&& forall|k: int|
                0 <= k < m.categories.len() && k != c ==> next.variants[k] == m.variants[k]
                    && next.categories[k] == m.categories[k]
            &&& next.categories[c].name == m.categories[c].name
            &&& next.categories[c].skip == m.categories[c].skip
        },
{
    if let Ok(next) = m.add_variant(c, variant) {
        lemma_find_variant(m.variants[c], variant.name@);
        assert(m.categories[c].cnt == m.variants[c].len());
        assert forall|k: int| 0 <= k < next.categories.len() implies (
        #[trigger] next.categories[k]).cnt == next.variants[k].len() by {
            if k != c {
                assert(next.categories[k] == m.categories[k]);
            }
        }
        assert forall|a: int, b: int| 0 <= a < b < next.categories.len() implies (
        #[trigger] next.categories[a]).name@ != (#[trigger] next.categories[b]).name@ by {
            assert(next.categories[a].name == m.categories[a].name);
            assert(next.categories[b].name == m.categories[b].name);
        }
        assert forall|k: int, a: int, b: int|
            0 <= k < next.variants.len() && 0 <= a < b < next.variants[k].len() implies (
        #[trigger] next.variants[k][a]).name@ != (#[trigger] next.variants[k][b]).name@ by {
            if k == c {
                if b == m.variants[c].len() {
                    assert(next.variants[k][a] == m.variants[c][a]);
                } else {
                    assert(next.variants[k][a] == m.variants[c][a]);
                    assert(next.variants[k][b] == m.variants[c][b]);
                }
            } else {
                assert(next.variants[k] == m.variants[k]);
            }
        }
        assert forall|s: int| 0 <= s < next.skip.len() implies (#[trigger] next.skip[s])
            < next.categories.len() && next.categories[next.skip[s] as int].skip by {
            assert(m.skip[s] < m.categories.len());
            assert(next.categories[m.skip[s] as int].skip == m.categories[m.skip[s] as int].skip);
        }
        assert forall|id: StoredLayerId| m.has_layer(id) implies next.has_layer(id) by {
            if id.category as int != c {
                assert(next.variants[id.category as int] == m.variants[id.category as int]);
            }
        }
        assert(next.dependencies_wf()) by {
            assert forall|d: int| 0 <= d < next.dependencies.len() implies next.has_layer(
                (#[trigger] next.dependencies[d]).id,
            ) by {
                assert(m.has_layer(m.dependencies[d].id));
            }
            assert forall|d: int, k: int|
                0 <= d < next.dependencies.len() && 0 <= k
                    < next.dependencies[d].correlated.len() implies next.has_layer(
                #[trigger] next.dependencies[d].correlated[k],
            ) by {
                assert(m.has_layer(m.dependencies[d].correlated[k]));
            }
        }
    }
}

/// Adding variants in order keeps what `lemma_add_variant` says of one.
pub proof fn lemma_add_variant_list(m: RegistryModel, c: int, variants: Seq<VariantInfo>)
    requires
        m.wf_but_count(),
        0 <= c < m.categories.len(),
    ensures
        m.add_variant_list(c, variants) matches Ok(next) ==> {
            &&& next.wf_but_count()
            &&& next.categories.len() == m.categories.len()
            &&& next.skip == m.skip
            &&& next.dependencies == m.dependencies
            &&& next.variants[c] == m.variants[c] + variants
            &&& forall|k: int|
                0 <= k < m.categories.len() && k != c ==> next.variants[k] == m.variants[k]
                    && next.categories[k] == m.categories[k]
            &&& next.categories[c].name == m.categories[c].name
            &&& next.categories[c].skip == m.categories[c].skip
        },
    decreases variants.len(),
{
    if variants.len() == 0 {
        assert(m.variants[c] + variants =~= m.variants[c]);
    } else {
        lemma_add_variant(m, c, variants[0]);
        if let Ok(step) = m.add_variant(c, variants[0]) {
            lemma_add_variant_list(step, c, variants.drop_first());
            if let Ok(next) = step.add_variant_list(c, variants.drop_first()) {
                assert(m.variants[c].push(variants[0]) + variants.drop_first() =~= m.variants[c]
                    + variants);
            }
        }
    }
}

/// The first variant of a name in a list.
pub fn position_of_variant(list: &Vec<VariantInfo>, name: &String) -> (found: Option<usize>)
    ensures
        match found {
            Some(i) => find_variant(list@, name@) == Some(i as int) && i < list@.len(),
            None => find_variant(list@, name@).is_none(),
        },
{
    let mut i: usize = 0;
    while i < list.len()
        invariant
            i <= list.len(),
            forall|k: int| 0 <= k < i ==> list@[k].name@ != name@,
        decreases list.len() - i,
    {
        if list[i].name == *name {
            proof {
                lemma_find_variant(list@, name@);
            }
            return Some(i);
        }
        i += 1;
    }
    proof {
        lemma_find_variant(list@, name@);
    }
    None
}

/// The first category of a name in a list.
pub fn position_of_category(list: &Vec<Category>, name: &String) -> (found: Option<usize>)
    ensures
        match found {
            Some(i) => find_category(list@, name@) == Some(i as int) && i < list@.len(),
            None => find_category(list@, name@).is_none(),
        },
{
    let mut i: usize = 0;
    while i < list.len()
        invariant
            i <= list.len(),
            forall|k: int| 0 <= k < i ==> list@[k].name@ != name@,
        decreases list.len() - i,
    {
        if list[i].name == *name {
            proof {
                lemma_find_category(list@, name@);
            }
            return Some(i);
        }
        i += 1;
    }
    proof {
        lemma_find_category(list@, name@);
    }
    None
}

impl Registry {
    /// Appends variants to a category, in order, until one is refused.
    fn push_variants(&mut self, c: usize, variants: &Vec<VariantInfo>) -> (done: Result<
        (),
        EngineError,
    >)
        requires
            old(self)@.wf_but_count(),
            c < old(self).categories@.len(),
        ensures
            final(self).state.cat_cnt == old(self).state.cat_cnt,
            match done {
                Ok(_) => old(self)@.add_variant_list(c as int, variants@) == Ok::<
                    RegistryModel,
                    EngineError,
                >(final(self)@) && final(self)@.wf_but_count() && final(self).categories@.len()
                    == old(self).categories@.len(),
                Err(e) => old(self)@.add_variant_list(c as int, variants@) == Err::<
                    RegistryModel,
                    EngineError,
                >(e),
            },
    {
        let mut i: usize = 0;
        assert(variants@.skip(0) =~= variants@);
        while i < variants.len()
            invariant
                i <= variants.len(),
                self@.wf_but_count(),
                c < self.categories@.len(),
                self.categories@.len() == old(self).categories@.len(),
                self.state.cat_cnt == old(self).state.cat_cnt,
                old(self)@.add_variant_list(c as int, variants@) == self@.add_variant_list(
                    c as int,
                    variants@.skip(i as int),
                ),
            decreases variants.len() - i,
        {
            let ghost before = self@;
            let variant = variants[i].duplicate();
            proof {
                assert(variants@.skip(i as int)[0] == variant);
                assert(variants@.skip(i as int).drop_first() =~= variants@.skip(i + 1));
                lemma_add_variant(before, c as int, variant);
                assert(before.variants[c as int] == self.variants@[c as int]@);
                assert(before.categories[c as int].cnt == before.variants[c as int].len());
            }
            if position_of_variant(&self.variants[c], &variant.name).is_some() {
                return Err(EngineError::DuplicateVariant);
            }
            if self.variants[c].len() >= MAX_COUNT as usize {
                return Err(EngineError::IndexOverflow);
            }
            self.variants[c].push(variant);
            self.categories[c].cnt = self.categories[c].cnt + 1;
            proof {
                let next = before.add_variant(c as int, variant).unwrap();
                assert(self@.variants =~= next.variants);
                assert(self@.categories =~= next.categories);
                assert(self@.dependencies =~= next.dependencies);
                assert(self@ == next);
            }
            i += 1;
        }
        Ok(())
    }

    /// Adds variants to existing categories. Every entry names a category
    /// and lists its new variants; entries and variants are added in order.
    /// The names of the new variants must be new to their category, and no
    /// category takes more than 255 variants. Where an entry is refused, the
    /// registry stays as it was.
    pub fn add_variants(&mut self, variants: Vec<AddVariantInfo>) -> (done: Result<
        (),
        EngineError,
    >)
        requires
            old(self).wf(),
        ensures
            final(self).wf(),
            match done {
                Ok(_) => old(self)@.add_variants(variants@) == Ok::<RegistryModel, EngineError>(
                    final(self)@,
                ),
                Err(e) => old(self)@.add_variants(variants@) == Err::<RegistryModel, EngineError>(e)
                    && *final(self) == *old(self),
            },
    {
        let mut work = self.duplicate();
        let mut i: usize = 0;
        assert(variants@.skip(0) =~= variants@);
        while i < variants.len()
            invariant
                i <= variants.len(),
                work.wf(),
                old(self).wf(),
                *self == *old(self),
                old(self)@.add_variants(variants@) == work@.add_variants(variants@.skip(i as int)),
            decreases variants.len() - i,
        {
            proof {
                assert(variants@.skip(i as int)[0] == variants@[i as int]);
                assert(variants@.skip(i as int).drop_first() =~= variants@.skip(i + 1));
            }
            let info = &variants[i];
            let c = match position_of_category(&work.categories, &info.category_name) {
                Some(c) => c,
                None => {
                    return Err(EngineError::UnknownCategory);
                },
            };
            proof {
                lemma_add_variant_list(work@, c as int, info.variants@);
            }
            match work.push_variants(c, &info.variants) {
                Ok(_) => {},
                Err(e) => {
                    return Err(e);
                },
            }
            i += 1;
        }
        *self = work;
        Ok(())
    }

    /// Adds categories, each with its first variants, in order. The names of
    /// the new categories must be new, and so must the names of the variants
    /// of each; the registry takes no more than 255 categories. A category
    /// that is marked to be skipped goes on the skip list. Returns the
    /// number of categories. Where a category is refused, the registry stays
    /// as it was.
    pub fn add_categories(&mut self, categories: Vec<CategoryInfo>) -> (done: Result<
        u8,
        EngineError,
    >)
        requires
            old(self).wf(),
        ensures
            final(self).wf(),
            match done {
                Ok(count) => old(self)@.add_categories(categories@) == Ok::<
                    RegistryModel,
                    EngineError,
                >(final(self)@) && count == final(self)@.categories.len(),
                Err(e) => old(self)@.add_categories(categories@) == Err::<
                    RegistryModel,
                    EngineError,
                >(e) && *final(self) == *old(self),
            },
    {
        let mut work = self.duplicate();
        let mut i: usize = 0;
        assert(categories@.skip(0) =~= categories@);
        while i < categories.len()
            invariant
                i <= categories.len(),
                work.wf(),
                old(self).wf(),
                *self == *old(self),
                old(self)@.add_categories(categories@) == work@.add_categories(
                    categories@.skip(i as int),
                ),
            decreases categories.len() - i,
        {
            proof {
                assert(categories@.skip(i as int)[0] == categories@[i as int]);
                assert(categories@.skip(i as int).drop_first() =~= categories@.skip(i + 1));
            }
            let info = &categories[i];
            let ghost before = work@;
            if position_of_category(&work.categories, &info.name).is_some() {
                return Err(EngineError::DuplicateCategory);
            }
            let index = work.categories.len();
            work.categories.push(Category { name: info.name.clone(), skip: info.skip, cnt: 0 });
            work.variants.push(Vec::new());
            if info.skip {
                work.state.skip.push(index as u8);
            }
            proof {
                let opened = before.open_category(*info);
                assert(work@.variants =~= opened.variants);
                assert(work@.dependencies =~= opened.dependencies);
                assert(work@ == opened);
                lemma_find_category(before.categories, info.name@);
                lemma_open_category(before, *info);
                lemma_add_variant_list(work@, index as int, info.variants@);
            }
            match work.push_variants(index, &info.variants) {
                Ok(_) => {},
                Err(e) => {
                    return Err(e);
                },
            }
            if work.state.cat_cnt == MAX_COUNT {
                return Err(EngineError::IndexOverflow);
            }
            work.state.cat_cnt = work.state.cat_cnt + 1;
            i += 1;
        }
        let count = work.state.cat_cnt;
        *self = work;
        Ok(count)
    }
}

/// Opening a category of a new name keeps the invariant, but for the count.
pub proof fn lemma_open_category(m: RegistryModel, info: CategoryInfo)
    requires
        m.wf(),
        find_category(m.categories, info.name@).is_none(),
    ensures
        m.open_category(info).wf_but_count(),
{
    let opened = m.open_category(info);
    lemma_find_category(m.categories, info.name@);
    assert forall|c: int| 0 <= c < opened.categories.len() implies (
    #[trigger] opened.categories[c]).cnt == opened.variants[c].len() by {
        if c < m.categories.len() {
            assert(opened.categories[c] == m.categories[c]);
        }
    }
    assert forall|a: int, b: int| 0 <= a < b < opened.categories.len() implies (
    #[trigger] opened.categories[a]).name@ != (#[trigger] opened.categories[b]).name@ by {
        assert(opened.categories[a] == m.categories[a]);
        if b < m.categories.len() {
            assert(opened.categories[b] == m.categories[b]);
        }
    }
    assert forall|k: int, a: int, b: int|
        0 <= k < opened.variants.len() && 0 <= a < b < opened.variants[k].len() implies (
    #[trigger] opened.variants[k][a]).name@ != (#[trigger] opened.variants[k][b]).name@ by {
        assert(opened.variants[k] == m.variants[k]);
    }
    let added = m.categories.len() as int;
    assert forall|s: int| 0 <= s < opened.skip.len() implies (#[trigger] opened.skip[s])
        < opened.categories.len() && opened.categories[opened.skip[s] as int].skip by {
        if s < m.skip.len() {
            assert(opened.skip[s] == m.skip[s]);
            assert(m.skip[s] < m.categories.len());
            assert(opened.categories[m.skip[s] as int] == m.categories[m.skip[s] as int]);
        } else {
            assert(opened.skip[s] == added as u8);
        }
    }
    assert forall|s: int, t: int| 0 <= s < t < opened.skip.len() implies (#[trigger] opened.skip[s])
        != (#[trigger] opened.skip[t]) by {
        assert(opened.skip[s] == m.skip[s]);
        assert(m.skip[s] < m.categories.len());
        if t < m.skip.len() {
            assert(opened.skip[t] == m.skip[t]);
        }
    }
    assert forall|c: int|
        0 <= c < opened.categories.len() && (#[trigger] opened.categories[c]).skip implies on_list(
        opened.skip,
        c,
    ) by {
        if c < added {
            assert(opened.categories[c] == m.categories[c]);
            assert(on_list(m.skip, c));
            let s = choose|s: int| 0 <= s < m.skip.len() && #[trigger] m.skip[s] == c;
            assert(opened.skip[s] == c);
        } else {
            assert(opened.skip[m.skip.len() as int] == c);
        }
    }
    assert forall|id: StoredLayerId| m.has_layer(id) implies opened.has_layer(id) by {
        assert(opened.variants[id.category as int] == m.variants[id.category as int]);
    }
    assert(opened.dependencies_wf()) by {
        assert forall|d: int| 0 <= d < opened.dependencies.len() implies opened.has_layer(
            (#[trigger] opened.dependencies[d]).id,
        ) by {
            assert(m.has_layer(m.dependencies[d].id));
        }
        assert forall|d: int, k: int|
            0 <= d < opened.dependencies.len() && 0 <= k
                < opened.dependencies[d].correlated.len() implies opened.has_layer(
            #[trigger] opened.dependencies[d].correlated[k],
        ) by {
            assert(m.has_layer(m.dependencies[d].correlated[k]));
        }
    }
}

/// The first place of a category in a skip list.
pub open spec fn skip_position(skip: Seq<u8>, c: u8) -> Option<int>
    decreases skip.len(),
{
    if skip.len() == 0 {
        None
    } else if skip[0] == c {
        Some(0)
    } else {
        match skip_position(skip.drop_first(), c) {
            Some(i) => Some(i + 1),
            None => None,
        }
    }
}

/// `skip_position` finds the first place of the category and no other.
pub proof fn lemma_skip_position(skip: Seq<u8>, c: u8)
    ensures
        match skip_position(skip, c) {
            Some(i) => 0 <= i < skip.len() && skip[i] == c && forall|k: int|
                0 <= k < i ==> skip[k] != c,
            None => forall|k: int| 0 <= k < skip.len() ==> skip[k] != c,
        },
    decreases skip.len(),
{
    if skip.len() > 0 && skip[0] != c {
        lemma_skip_position(skip.drop_first(), c);
        match skip_position(skip.drop_first(), c) {
            Some(i) => {
                assert forall|k: int| 0 <= k < i + 1 implies skip[k] != c by {
                    if k > 0 {
                        assert(skip.drop_first()[k - 1] != c);
                    }
                }
            },
            None => {
                assert forall|k: int| 0 <= k < skip.len() implies skip[k] != c by {
                    if k > 0 {
                        assert(skip.drop_first()[k - 1] != c);
                    }
                }
            },
        }
    }
}

impl RegistryModel {
    /// The registry with category `c` under a new name. A name that another
    /// category has is refused.
    pub open spec fn rename_category(self, c: int, new_name: String) -> Result<
        RegistryModel,
        EngineError,
    > {
        if find_category(self.categories, new_name@).is_some() {
            Err(EngineError::DuplicateCategory)
        } else {
            Ok(
                RegistryModel {
                    categories: self.categories.update(
                        c,
                        Category {
                            name: new_name,
                            skip: self.categories[c].skip,
                            cnt: self.categories[c].cnt,
                        },
                    ),
                    ..self
                },
            )
        }
    }

    /// The skip list after category `c` was marked or unmarked: marking
    /// appends the category unless the list has it, unmarking moves the last
    /// entry of the list into its place.
    pub open spec fn skip_list_with(self, c: int, skip: bool) -> Seq<u8> {
        match skip_position(self.skip, c as u8) {
            Some(pos) => if skip {
                self.skip
            } else {
                self.skip.update(pos, self.skip.last()).drop_last()
            },
            None => if skip {
                self.skip.push(c as u8)
            } else {
                self.skip
            },
        }
    }

    /// The registry with the skip mark of category `c` set. Where the mark
    /// is as asked already, nothing changes.
    pub open spec fn set_skip(self, c: int, skip: bool) -> RegistryModel {
        if self.categories[c].skip == skip {
            self
        } else {
            RegistryModel {
                categories: self.categories.update(
                    c,
                    Category {
                        name: self.categories[c].name,
                        skip,
                        cnt: self.categories[c].cnt,
                    },
                ),
                skip: self.skip_list_with(c, skip),
                ..self
            }
        }
    }

    /// The registry after a category was given a new name, a new skip mark,
    /// or both. A new name that equals the old one changes nothing.
    pub open spec fn modify_category(
        self,
        name: Seq<char>,
        new_name: Option<String>,
        new_skip: Option<bool>,
    ) -> Result<RegistryModel, EngineError> {
        match find_category(self.categories, name) {
            None => Err(EngineError::UnknownCategory),
            Some(c) => {
                let renamed = match new_name {
                    Some(n) => if n@ != name {
                        self.rename_category(c, n)
                    } else {
                        Ok(self)
                    },
                    None => Ok(self),
                };
                match renamed {
                    Err(e) => Err(e),
                    Ok(m) => match new_skip {
                        Some(skip) => Ok(m.set_skip(c, skip)),
                        None => Ok(m),
                    },
                }
            },
        }
    }

    /// The registry with a variant of category `c` replaced. The variant is
    /// found by its name and keeps its index; a new name that another variant
    /// of the category has is refused.
    pub open spec fn modify_variant(self, c: int, modification: VariantModification) -> Result<
        RegistryModel,
        EngineError,
    > {
        match find_variant(self.variants[c], modification.name@) {
            None => Err(EngineError::UnknownVariant),
            Some(v) => if modification.modified_variant.name@ != modification.name@
                && find_variant(self.variants[c], modification.modified_variant.name@).is_some() {
                Err(EngineError::DuplicateVariant)
            } else {
                Ok(
                    RegistryModel {
                        variants: self.variants.update(
                            c,
                            self.variants[c].update(v, modification.modified_variant),
                        ),
                        ..self
                    },
                )
            },
        }
    }

    /// The registry after the variants of category `c` were replaced, in
    /// order.
    pub open spec fn modify_variant_list(
        self,
        c: int,
        modifications: Seq<VariantModification>,
    ) -> Result<RegistryModel, EngineError>
        decreases modifications.len(),
    {
        if modifications.len() == 0 {
            Ok(self)
        } else {
            match self.modify_variant(c, modifications[0]) {
                Err(e) => Err(e),
                Ok(next) => next.modify_variant_list(c, modifications.drop_first()),
            }
        }
    }

    /// The registry after each entry of a list replaced variants of its
    /// category, in order.
    pub open spec fn modify_variants(self, infos: Seq<VariantModInfo>) -> Result<
        RegistryModel,
        EngineError,
    >
        decreases infos.len(),
    {
        if infos.len() == 0 {
            Ok(self)
        } else {
            match find_category(self.categories, infos[0].category@) {
                None => Err(EngineError::UnknownCategory),
                Some(c) => match self.modify_variant_list(c, infos[0].modifications@) {
                    Err(e) => Err(e),
                    Ok(next) => next.modify_variants(infos.drop_first()),
                },
            }
        }
    }
}

/// Renaming a category keeps the invariant of the registry.
pub proof fn lemma_rename_category(m: RegistryModel, c: int, new_name: String)
    requires
        m.wf(),
        0 <= c < m.categories.len(),
    ensures
        m.rename_category(c, new_name) matches Ok(next) ==> next.wf() && next.categories.len()
            == m.categories.len(),
{
    if let Ok(next) = m.rename_category(c, new_name) {
        lemma_find_category(m.categories, new_name@);
        assert forall|k: int| 0 <= k < next.categories.len() implies (
        #[trigger] next.categories[k]).cnt == next.variants[k].len() by {
            if k != c {
                assert(next.categories[k] == m.categories[k]);
            } else {
                assert(m.categories[c].cnt == m.variants[c].len());
            }
        }
        assert forall|a: int, b: int| 0 <= a < b < next.categories.len() implies (
        #[trigger] next.categories[a]).name@ != (#[trigger] next.categories[b]).name@ by {
            if a != c {
                assert(next.categories[a] == m.categories[a]);
            }
            if b != c {
                assert(next.categories[b] == m.categories[b]);
            }
        }
        assert forall|s: int| 0 <= s < next.skip.len() implies (#[trigger] next.skip[s])
            < next.categories.len() && next.categories[next.skip[s] as int].skip by {
            assert(m.skip[s] < m.categories.len());
            assert(next.categories[m.skip[s] as int].skip == m.categories[m.skip[s] as int].skip);
        }
        assert(next.dependencies_wf()) by {
            assert forall|d: int| 0 <= d < next.dependencies.len() implies next.has_layer(
                (#[trigger] next.dependencies[d]).id,
            ) by {
                assert(m.has_layer(m.dependencies[d].id));
            }
            assert forall|d: int, k: int|
                0 <= d < next.dependencies.len() && 0 <= k
                    < next.dependencies[d].correlated.len() implies next.has_layer(
                #[trigger] next.dependencies[d].correlated[k],
            ) by {
                assert(m.has_layer(m.dependencies[d].correlated[k]));
            }
        }
    }
}

/// Setting the skip mark of a category keeps the invariant of the registry.
pub proof fn lemma_set_skip(m: RegistryModel, c: int, skip: bool)
    requires
        m.wf(),
        0 <= c < m.categories.len(),
    ensures
        m.set_skip(c, skip).wf(),
        m.set_skip(c, skip).categories.len() == m.categories.len(),
{
    let next = m.set_skip(c, skip);
    if m.categories[c].skip != skip {
        lemma_skip_position(m.skip, c as u8);
        assert forall|k: int| 0 <= k < next.categories.len() implies (
        #[trigger] next.categories[k]).cnt == next.variants[k].len() by {
            if k != c {
                assert(next.categories[k] == m.categories[k]);
            } else {
                assert(m.categories[c].cnt == m.variants[c].len());
            }
        }
        assert forall|a: int, b: int| 0 <= a < b < next.categories.len() implies (
        #[trigger] next.categories[a]).name@ != (#[trigger] next.categories[b]).name@ by {
            assert(next.categories[a].name == m.categories[a].name);
            assert(next.categories[b].name == m.categories[b].name);
        }
        assert forall|s: int| 0 <= s < next.skip.len() implies (#[trigger] next.skip[s])
            < next.categories.len() && next.categories[next.skip[s] as int].skip by {
            if skip {
                if s < m.skip.len() {
                    assert(m.skip[s] < m.categories.len());
                    assert(m.categories[m.skip[s] as int].skip);
                }
            } else {
                match skip_position(m.skip, c as u8) {
                    Some(pos) => {
                        let last = m.skip.len() - 1;
                        if s == pos {
                            assert(next.skip[s] == m.skip[last]);
                            assert(m.categories[m.skip[last] as int].skip);
                            if pos != last {
                                assert(m.skip[pos] != m.skip[last]);
                            }
                        } else {
                            assert(next.skip[s] == m.skip[s]);
                            assert(m.categories[m.skip[s] as int].skip);
                            if s < pos {
                                assert(m.skip[s] != m.skip[pos]);
                            } else {
                                assert(m.skip[pos] != m.skip[s]);
                            }
                        }
                    },
                    None => {
                        assert(m.categories[m.skip[s] as int].skip);
                    },
                }
            }
        }
        assert forall|s: int, t: int| 0 <= s < t < next.skip.len() implies (#[trigger] next.skip[s])
            != (#[trigger] next.skip[t]) by {
            if skip {
                if t < m.skip.len() {
                    assert(m.skip[s] != m.skip[t]);
                }
            } else {
                match skip_position(m.skip, c as u8) {
                    Some(pos) => {
                        let last = m.skip.len() - 1;
                        if s == pos {
                            assert(m.skip[t] != m.skip[last]);
                        } else if t == pos {
                            assert(m.skip[s] != m.skip[last]);
                        } else {
                            assert(m.skip[s] != m.skip[t]);
                        }
                    },
                    None => {
                        assert(m.skip[s] != m.skip[t]);
                    },
                }
            }
        }
        assert forall|k: int|
            0 <= k < next.categories.len() && (#[trigger] next.categories[k]).skip implies on_list(
            next.skip,
            k,
        ) by {
            if k == c {
                match skip_position(m.skip, c as u8) {
                    Some(pos) => {
                        assert(next.skip[pos] == c);
                    },
                    None => {
                        assert(next.skip[m.skip.len() as int] == c);
                    },
                }
            } else {
                assert(next.categories[k] == m.categories[k]);
                assert(on_list(m.skip, k));
                let at = choose|at: int| 0 <= at < m.skip.len() && #[trigger] m.skip[at] == k;
                if skip {
                    assert(next.skip[at] == k);
                } else {
                    match skip_position(m.skip, c as u8) {
                        Some(pos) => {
                            let last = m.skip.len() - 1;
                            if at == last {
                                assert(next.skip[pos] == k);
                            } else {
                                assert(next.skip[at] == k);
                            }
                        },
                        None => {
                            assert(next.skip[at] == k);
                        },
                    }
                }
            }
        }
        assert(next.dependencies_wf()) by {
            assert forall|d: int| 0 <= d < next.dependencies.len() implies next.has_layer(
                (#[trigger] next.dependencies[d]).id,
            ) by {
                assert(m.has_layer(m.dependencies[d].id));
            }
            assert forall|d: int, k: int|
                0 <= d < next.dependencies.len() && 0 <= k
                    < next.dependencies[d].correlated.len() implies next.has_layer(
                #[trigger] next.dependencies[d].correlated[k],
            ) by {
                assert(m.has_layer(m.dependencies[d].correlated[k]));
            }
        }
    }
}

/// Replacing a variant keeps the invariant of the registry.
pub proof fn lemma_modify_variant(m: RegistryModel, c: int, modification: VariantModification)
    requires
        m.wf(),
        0 <= c < m.categories.len(),
    ensures
        m.modify_variant(c, modification) matches Ok(next) ==> next.wf() && next.categories
            == m.categories,
{
    if let Ok(next) = m.modify_variant(c, modification) {
        lemma_find_variant(m.variants[c], modification.name@);
        lemma_find_variant(m.variants[c], modification.modified_variant.name@);
        let v = find_variant(m.variants[c], modification.name@).unwrap();
        assert forall|k: int| 0 <= k < next.categories.len() implies (
        #[trigger] next.categories[k]).cnt == next.variants[k].len() by {
            assert(m.categories[k].cnt == m.variants[k].len());
        }
        assert forall|k: int, a: int, b: int|
            0 <= k < next.variants.len() && 0 <= a < b < next.variants[k].len() implies (
        #[trigger] next.variants[k][a]).name@ != (#[trigger] next.variants[k][b]).name@ by {
            if k == c {
                if a != v {
                    assert(next.variants[k][a] == m.variants[c][a]);
                }
                if b != v {
                    assert(next.variants[k][b] == m.variants[c][b]);
                }
                if a == v {
                    assert(m.variants[c][v].name@ != m.variants[c][b].name@);
                }
                if b == v {
                    assert(m.variants[c][a].name@ != m.variants[c][v].name@);
                }
            } else {
                assert(next.variants[k] == m.variants[k]);
            }
        }
        assert forall|id: StoredLayerId| m.has_layer(id) implies next.has_layer(id) by {
            if id.category as int != c {
                assert(next.variants[id.category as int] == m.variants[id.category as int]);
            }
        }
        assert(next.dependencies_wf()) by {
            assert forall|d: int| 0 <= d < next.dependencies.len() implies next.has_layer(
                (#[trigger] next.dependencies[d]).id,
            ) by {
                assert(m.has_layer(m.dependencies[d].id));
            }
            assert forall|d: int, k: int|
                0 <= d < next.dependencies.len() && 0 <= k
                    < next.dependencies[d].correlated.len() implies next.has_layer(
                #[trigger] next.dependencies[d].correlated[k],
            ) by {
                assert(m.has_layer(m.dependencies[d].correlated[k]));
            }
        }
    }
}

impl Registry {
    /// Gives a category a new name, a new skip mark, or both. The new name
    /// must not be that of another category. Where the change is refused,
    /// the registry stays as it was.
    pub fn modify_category(&mut self, name: &str, new_name: Option<String>, new_skip: Option<bool>) -> (done:
        Result<(), EngineError>)
        requires
            old(self).wf(),
        ensures
            final(self).wf(),
            match done {
                Ok(_) => old(self)@.modify_category(name@, new_name, new_skip) == Ok::<
                    RegistryModel,
                    EngineError,
                >(final(self)@),
                Err(e) => old(self)@.modify_category(name@, new_name, new_skip) == Err::<
                    RegistryModel,
                    EngineError,
                >(e) && *final(self) == *old(self),
            },
    {
        let key = String::from_str(name);
        let c = match position_of_category(&self.categories, &key) {
            Some(c) => c,
            None => {
                return Err(EngineError::UnknownCategory);
            },
        };
        let rename = match &new_name {
            Some(n) => !(*n == key),
            None => false,
        };
        if rename {
            let n = new_name.unwrap();
            if position_of_category(&self.categories, &n).is_some() {
                return Err(EngineError::DuplicateCategory);
            }
            proof {
                lemma_rename_category(self@, c as int, n);
            }
            let ghost before = self@;
            self.categories[c].name = n;
            proof {
                let next = before.rename_category(c as int, n).unwrap();
                assert(self@.variants =~= next.variants);
                assert(self@.dependencies =~= next.dependencies);
                assert(self@.categories =~= next.categories);
            }
        }
        if let Some(skip) = new_skip {
            let ghost before = self@;
            proof {
                lemma_set_skip(before, c as int, skip);
            }
            if self.categories[c].skip != skip {
                let pos = position_in_skip(&self.state.skip, c as u8);
                if skip {
                    if pos.is_none() {
                        self.state.skip.push(c as u8);
                    }
                } else if let Some(p) = pos {
                    self.state.skip.swap_remove(p);
                }
                self.categories[c].skip = skip;
                proof {
                    let next = before.set_skip(c as int, skip);
                    assert(self@.variants =~= next.variants);
                    assert(self@.dependencies =~= next.dependencies);
                    assert(self@.categories =~= next.categories);
                    assert(self@.skip =~= next.skip);
                }
            }
        }
        Ok(())
    }

    /// Replaces the variants of category `c`, in order, until one is
    /// refused.
    fn replace_variants(&mut self, c: usize, modifications: &Vec<VariantModification>) -> (done:
        Result<(), EngineError>)
        requires
            old(self).wf(),
            c < old(self).categories@.len(),
        ensures
            match done {
                Ok(_) => old(self)@.modify_variant_list(c as int, modifications@) == Ok::<
                    RegistryModel,
                    EngineError,
                >(final(self)@) && final(self).wf(),
                Err(e) => old(self)@.modify_variant_list(c as int, modifications@) == Err::<
                    RegistryModel,
                    EngineError,
                >(e),
            },
    {
        let mut i: usize = 0;
        assert(modifications@.skip(0) =~= modifications@);
        while i < modifications.len()
            invariant
                i <= modifications.len(),
                self.wf(),
                c < self.categories@.len(),
                old(self)@.modify_variant_list(c as int, modifications@)
                    == self@.modify_variant_list(c as int, modifications@.skip(i as int)),
            decreases modifications.len() - i,
        {
            let ghost before = self@;
            let modification = &modifications[i];
            proof {
                assert(modifications@.skip(i as int)[0] == *modification);
                assert(modifications@.skip(i as int).drop_first() =~= modifications@.skip(i + 1));
                lemma_modify_variant(before, c as int, *modification);
                assert(before.variants[c as int] == self.variants@[c as int]@);
            }
            let v = match position_of_variant(&self.variants[c], &modification.name) {
                Some(v) => v,
                None => {
                    return Err(EngineError::UnknownVariant);
                },
            };
            if !(modification.modified_variant.name == modification.name) && position_of_variant(
                &self.variants[c],
                &modification.modified_variant.name,
            ).is_some() {
                return Err(EngineError::DuplicateVariant);
            }
            let replacement = modification.modified_variant.duplicate();
            self.variants[c][v] = replacement;
            proof {
                let next = before.modify_variant(c as int, *modification).unwrap();
                assert(self@.variants =~= next.variants);
                assert(self@.dependencies =~= next.dependencies);
                assert(self@ == next);
            }
            i += 1;
        }
        Ok(())
    }

    /// Replaces variants of categories. Every entry names a category and
    /// lists variants of it, each by its name, with what replaces it; a
    /// replaced variant keeps its index. A new name must not be that of
    /// another variant of the category. Where an entry is refused, the
    /// registry stays as it was.
    pub fn modify_variants(&mut self, modifications: Vec<VariantModInfo>) -> (done: Result<
        (),
        EngineError,
    >)
        requires
            old(self).wf(),
        ensures
            final(self).wf(),
            match done {
                Ok(_) => old(self)@.modify_variants(modifications@) == Ok::<
                    RegistryModel,
                    EngineError,
                >(final(self)@),
                Err(e) => old(self)@.modify_variants(modifications@) == Err::<
                    RegistryModel,
                    EngineError,
                >(e) && *final(self) == *old(self),
            },
    {
        let mut work = self.duplicate();
        let mut i: usize = 0;
        assert(modifications@.skip(0) =~= modifications@);
        while i < modifications.len()
            invariant
                i <= modifications.len(),
                work.wf(),
                old(self).wf(),
                *self == *old(self),
                old(self)@.modify_variants(modifications@) == work@.modify_variants(
                    modifications@.skip(i as int),
                ),
            decreases modifications.len() - i,
        {
            proof {
                assert(modifications@.skip(i as int)[0] == modifications@[i as int]);
                assert(modifications@.skip(i as int).drop_first() =~= modifications@.skip(i + 1));
            }
            let info = &modifications[i];
            let c = match position_of_category(&work.categories, &info.category) {
                Some(c) => c,
                None => {
                    return Err(EngineError::UnknownCategory);
                },
            };
            match work.replace_variants(c, &info.modifications) {
                Ok(_) => {},
                Err(e) => {
                    return Err(e);
                },
            }
            i += 1;
        }
        *self = work;
        Ok(())
    }
}

/// The first place of a category in a skip list.
pub fn position_in_skip(skip: &Vec<u8>, c: u8) -> (found: Option<usize>)
    ensures
        match found {
            Some(i) => skip_position(skip@, c) == Some(i as int) && i < skip@.len(),
            None => skip_position(skip@, c).is_none(),
        },
{
    let mut i: usize = 0;
    while i < skip.len()
        invariant
            i <= skip.len(),
            forall|k: int| 0 <= k < i ==> skip@[k] != c,
        decreases skip.len() - i,
    {
        if skip[i] == c {
            proof {
                lemma_skip_position(skip@, c);
            }
            return Some(i);
        }
        i += 1;
    }
    proof {
        lemma_skip_position(skip@, c);
    }
    None
}

} // verus!
