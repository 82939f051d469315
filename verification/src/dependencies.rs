//! Dependencies between variants: the conversions between names and
//! indices, and the changes to the list of dependencies.
use crate::error::EngineError;
use crate::registry::{
    find_category, find_dependency, find_variant, lemma_find_category, lemma_find_dependency,
    lemma_find_variant, Action, Dependencies, DependencyModel, LayerId, Registry, RegistryModel,
    StoredDependencies, StoredLayerId,
};
use crate::registry_edit::{copy_layers, position_of_category, position_of_variant};
use vstd::prelude::*;

verus! {

/// The indices of a layer given by names.
pub open spec fn layer_to_stored(m: RegistryModel, layer: LayerId) -> Result<
    StoredLayerId,
    EngineError,
> {
    match find_category(m.categories, layer.category@) {
        None => Err(EngineError::UnknownCategory),
        Some(c) => match find_variant(m.variants[c], layer.variant@) {
            None => Err(EngineError::UnknownVariant),
            Some(v) => Ok(StoredLayerId { category: c as u8, variant: v as u8 }),
        },
    }
}

/// The indices of a list of layers given by names, in order; the first layer
/// that is not found decides the error.
pub open spec fn layers_to_stored(m: RegistryModel, layers: Seq<LayerId>) -> Result<
    Seq<StoredLayerId>,
    EngineError,
>
    decreases layers.len(),
{
    if layers.len() == 0 {
        Ok(Seq::empty())
    } else {
        match layers_to_stored(m, layers.drop_last()) {
            Err(e) => Err(e),
            Ok(head) => match layer_to_stored(m, layers.last()) {
                Err(e) => Err(e),
                Ok(id) => Ok(head.push(id)),
            },
        }
    }
}

/// A dependency given by names, by indices.
pub open spec fn dependency_to_stored(m: RegistryModel, dependency: Dependencies) -> Result<
    DependencyModel,
    EngineError,
> {
    match layer_to_stored(m, dependency.id) {
        Err(e) => Err(e),
        Ok(id) => match layers_to_stored(m, dependency.correlated@) {
            Err(e) => Err(e),
            Ok(correlated) => Ok(DependencyModel { id, correlated }),
        },
    }
}

/// The names of a layer given by indices.
pub open spec fn layer_names(m: RegistryModel, id: StoredLayerId) -> (Seq<char>, Seq<char>) {
    (
        m.categories[id.category as int].name@,
        m.variants[id.category as int][id.variant as int].name@,
    )
}

/// A layer found by names is one that the registry has.
pub proof fn lemma_layer_to_stored(m: RegistryModel, layer: LayerId)
    requires
        m.wf(),
    ensures
        layer_to_stored(m, layer) matches Ok(id) ==> m.has_layer(id) && find_category(
            m.categories,
            layer.category@,
        ) == Some(id.category as int) && find_variant(
            m.variants[id.category as int],
            layer.variant@,
        ) == Some(id.variant as int),
{
    lemma_find_category(m.categories, layer.category@);
    if let Some(c) = find_category(m.categories, layer.category@) {
        lemma_find_variant(m.variants[c], layer.variant@);
        assert(m.categories[c].cnt == m.variants[c].len());
    }
}

/// Layers found by names are layers that the registry has.
pub proof fn lemma_layers_to_stored(m: RegistryModel, layers: Seq<LayerId>)
    requires
        m.wf(),
    ensures
        layers_to_stored(m, layers) matches Ok(ids) ==> ids.len() == layers.len() && forall|k: int|
            0 <= k < ids.len() ==> m.has_layer(#[trigger] ids[k]),
    decreases layers.len(),
{
    if layers.len() > 0 {
        lemma_layers_to_stored(m, layers.drop_last());
        lemma_layer_to_stored(m, layers.last());
    }
}

impl LayerId {
    /// The indices of the layer in a registry.
    pub fn to_stored(&self, registry: &Registry) -> (stored: Result<StoredLayerId, EngineError>)
        requires
            registry.wf(),
        ensures
            stored == layer_to_stored(registry@, *self),
            stored matches Ok(id) ==> registry@.has_layer(id),
    {
        proof {
            lemma_layer_to_stored(registry@, *self);
        }
        let c = match position_of_category(&registry.categories, &self.category) {
            Some(c) => c,
            None => {
                return Err(EngineError::UnknownCategory);
            },
        };
        assert(registry@.variants[c as int] == registry.variants@[c as int]@);
        let v = match position_of_variant(&registry.variants[c], &self.variant) {
            Some(v) => v,
            None => {
                return Err(EngineError::UnknownVariant);
            },
        };
        assert(registry@.categories[c as int].cnt == registry@.variants[c as int].len());
        Ok(StoredLayerId { category: c as u8, variant: v as u8 })
    }
}

impl StoredLayerId {
    /// The names of the layer in a registry; `StorageCorrupt` where the
    /// registry has no such layer.
    pub fn to_display(&self, registry: &Registry) -> (shown: Result<LayerId, EngineError>)
        requires
            registry.wf(),
        ensures
            match shown {
                Ok(layer) => registry@.has_layer(*self) && (layer.category@, layer.variant@)
                    == layer_names(registry@, *self),
                Err(e) => !registry@.has_layer(*self) && e == EngineError::StorageCorrupt,
            },
    {
        let c = self.category as usize;
        if c >= registry.variants.len() {
            return Err(EngineError::StorageCorrupt);
        }
        assert(registry@.variants[c as int] == registry.variants@[c as int]@);
        let v = self.variant as usize;
        if v >= registry.variants[c].len() {
            return Err(EngineError::StorageCorrupt);
        }
        Ok(
            LayerId {
                category: registry.categories[c].name.clone(),
                variant: registry.variants[c][v].name.clone(),
            },
        )
    }
}

impl Dependencies {
    /// The dependency by indices.
    pub fn to_stored(&self, registry: &Registry) -> (stored: Result<
        StoredDependencies,
        EngineError,
    >)
        requires
            registry.wf(),
        ensures
            match stored {
                Ok(s) => dependency_to_stored(registry@, *self) == Ok::<
                    DependencyModel,
                    EngineError,
                >(s.model()),
                Err(e) => dependency_to_stored(registry@, *self) == Err::<
                    DependencyModel,
                    EngineError,
                >(e),
            },
    {
        let id = match self.id.to_stored(registry) {
            Ok(id) => id,
            Err(e) => {
                return Err(e);
            },
        };
        let mut correlated: Vec<StoredLayerId> = Vec::new();
        let mut i: usize = 0;
        assert(self.correlated@.subrange(0, 0) =~= Seq::<LayerId>::empty());
        while i < self.correlated.len()
            invariant
                i <= self.correlated.len(),
                registry.wf(),
                layer_to_stored(registry@, self.id) == Ok::<StoredLayerId, EngineError>(id),
                layers_to_stored(registry@, self.correlated@.subrange(0, i as int)) == Ok::<
                    Seq<StoredLayerId>,
                    EngineError,
                >(correlated@),
            decreases self.correlated.len() - i,
        {
            proof {
                let upto = self.correlated@.subrange(0, i + 1);
                assert(upto.drop_last() =~= self.correlated@.subrange(0, i as int));
                assert(upto.last() == self.correlated@[i as int]);
            }
            match self.correlated[i].to_stored(registry) {
                Ok(layer) => {
                    correlated.push(layer);
                },
                Err(e) => {
                    proof {
                        lemma_layers_to_stored_prefix(
                            registry@,
                            self.correlated@,
                            i + 1,
                        );
                    }
                    return Err(e);
                },
            }
            i += 1;
        }
        assert(self.correlated@.subrange(0, self.correlated@.len() as int) =~= self.correlated@);
        Ok(StoredDependencies { id, correlated })
    }
}

/// Where a prefix of a list of layers is not found, the list is not found,
/// with the same error.
pub proof fn lemma_layers_to_stored_prefix(m: RegistryModel, layers: Seq<LayerId>, n: int)
    requires
        0 <= n <= layers.len(),
        layers_to_stored(m, layers.subrange(0, n)).is_err(),
    ensures
        layers_to_stored(m, layers) == layers_to_stored(m, layers.subrange(0, n)),
    decreases layers.len() - n,
{
    if n < layers.len() {
        assert(layers.subrange(0, n + 1).drop_last() =~= layers.subrange(0, n));
        lemma_layers_to_stored_prefix(m, layers, n + 1);
    } else {
        assert(layers.subrange(0, n) =~= layers);
    }
}

impl StoredDependencies {
    /// The dependency by names; `StorageCorrupt` where the registry lacks
    /// one of its layers.
    pub fn to_display(&self, registry: &Registry) -> (shown: Result<Dependencies, EngineError>)
        requires
            registry.wf(),
        ensures
            match shown {
                Ok(d) => {
                    &&& registry@.has_layer(self.id)
                    &&& (d.id.category@, d.id.variant@) == layer_names(registry@, self.id)
                    &&& d.correlated@.len() == self.correlated@.len()
                    &&& forall|k: int|
                        0 <= k < self.correlated@.len() ==> registry@.has_layer(
                            #[trigger] self.correlated@[k],
                        ) && (d.correlated@[k].category@, d.correlated@[k].variant@) == layer_names(
                            registry@,
                            self.correlated@[k],
                        )
                },
                Err(e) => e == EngineError::StorageCorrupt && (!registry@.has_layer(self.id)
                    || exists|k: int|
                    0 <= k < self.correlated@.len() && !registry@.has_layer(
                        #[trigger] self.correlated@[k],
                    )),
            },
    {
        let id = match self.id.to_display(registry) {
            Ok(id) => id,
            Err(e) => {
                return Err(e);
            },
        };
        let mut correlated: Vec<LayerId> = Vec::new();
        let mut i: usize = 0;
        while i < self.correlated.len()
            invariant
                i <= self.correlated.len(),
                registry.wf(),
                correlated@.len() == i,
                forall|k: int|
                    0 <= k < i ==> registry@.has_layer(#[trigger] self.correlated@[k]) && (
                        correlated@[k].category@,
                        correlated@[k].variant@,
                    ) == layer_names(registry@, self.correlated@[k]),
            decreases self.correlated.len() - i,
        {
            match self.correlated[i].to_display(registry) {
                Ok(layer) => {
                    correlated.push(layer);
                },
                Err(e) => {
                    return Err(e);
                },
            }
            i += 1;
        }
        Ok(Dependencies { id, correlated })
    }
}

/// A list of dependencies as sequences.
pub open spec fn dependency_models(list: Seq<StoredDependencies>) -> Seq<DependencyModel> {
    Seq::new(list.len(), |d: int| list[d].model())
}

/// Whether a list of ids holds an id.
pub open spec fn has_id(ids: Seq<StoredLayerId>, id: StoredLayerId) -> bool {
    exists|k: int| 0 <= k < ids.len() && #[trigger] ids[k] == id
}

/// The dependencies whose variant is not in a list of ids, in their order.
pub open spec fn without_ids(dependencies: Seq<DependencyModel>, ids: Seq<StoredLayerId>) -> Seq<
    DependencyModel,
>
    decreases dependencies.len(),
{
    if dependencies.len() == 0 {
        Seq::empty()
    } else {
        let head = without_ids(dependencies.drop_last(), ids);
        if has_id(ids, dependencies.last().id) {
            head
        } else {
            head.push(dependencies.last())
        }
    }
}

impl RegistryModel {
    /// The registry with one more dependency; a variant that has a
    /// dependency already keeps it.
    pub open spec fn add_dependency(self, dependency: Dependencies) -> Result<
        RegistryModel,
        EngineError,
    > {
        match dependency_to_stored(self, dependency) {
            Err(e) => Err(e),
            Ok(stored) => if find_dependency(self.dependencies, stored.id).is_some() {
                Ok(self)
            } else {
                Ok(RegistryModel { dependencies: self.dependencies.push(stored), ..self })
            },
        }
    }

    /// The registry with the dependency of a variant replaced; a variant
    /// without a dependency is refused.
    pub open spec fn modify_dependency(self, dependency: Dependencies) -> Result<
        RegistryModel,
        EngineError,
    > {
        match dependency_to_stored(self, dependency) {
            Err(e) => Err(e),
            Ok(stored) => match find_dependency(self.dependencies, stored.id) {
                Some(i) => Ok(
                    RegistryModel { dependencies: self.dependencies.update(i, stored), ..self },
                ),
                None => Err(EngineError::UnknownDependency),
            },
        }
    }

    /// The registry after one step of a list of dependencies: adding where
    /// `add` holds, else modifying.
    pub open spec fn apply_dependency(self, dependency: Dependencies, add: bool) -> Result<
        RegistryModel,
        EngineError,
    > {
        if add {
            self.add_dependency(dependency)
        } else {
            self.modify_dependency(dependency)
        }
    }

    /// The registry after a list of dependencies was added or modified, in
    /// order.
    pub open spec fn apply_dependencies(self, list: Seq<Dependencies>, add: bool) -> Result<
        RegistryModel,
        EngineError,
    >
        decreases list.len(),
    {
        if list.len() == 0 {
            Ok(self)
        } else {
            match self.apply_dependency(list[0], add) {
                Err(e) => Err(e),
                Ok(next) => next.apply_dependencies(list.drop_first(), add),
            }
        }
    }

    /// The variants named by a list of dependencies, in order; the first
    /// dependency that is not found decides the error.
    pub open spec fn dependency_ids(self, list: Seq<Dependencies>) -> Result<
        Seq<StoredLayerId>,
        EngineError,
    >
        decreases list.len(),
    {
        if list.len() == 0 {
            Ok(Seq::empty())
        } else {
            match self.dependency_ids(list.drop_last()) {
                Err(e) => Err(e),
                Ok(head) => match dependency_to_stored(self, list.last()) {
                    Err(e) => Err(e),
                    Ok(stored) => Ok(head.push(stored.id)),
                },
            }
        }
    }

    /// The registry without the dependencies of the variants that a list
    /// names.
    pub open spec fn remove_dependencies(self, list: Seq<Dependencies>) -> Result<
        RegistryModel,
        EngineError,
    > {
        match self.dependency_ids(list) {
            Err(e) => Err(e),
            Ok(ids) => Ok(
                RegistryModel { dependencies: without_ids(self.dependencies, ids), ..self },
            ),
        }
    }

    /// The registry after a list of dependencies was added, removed or
    /// modified.
    pub open spec fn process_dep_list(self, list: Seq<Dependencies>, action: Action) -> Result<
        RegistryModel,
        EngineError,
    > {
        match action {
            Action::Add => self.apply_dependencies(list, true),
            Action::Remove => self.remove_dependencies(list),
            Action::Modify => self.apply_dependencies(list, false),
        }
    }
}

/// A dependency found by names joins layers that the registry has.
pub proof fn lemma_dependency_to_stored(m: RegistryModel, dependency: Dependencies)
    requires
        m.wf(),
    ensures
        dependency_to_stored(m, dependency) matches Ok(stored) ==> m.has_layer(stored.id)
            && forall|k: int|
            0 <= k < stored.correlated.len() ==> m.has_layer(#[trigger] stored.correlated[k]),
{
    lemma_layer_to_stored(m, dependency.id);
    lemma_layers_to_stored(m, dependency.correlated@);
}

/// Adding or modifying a dependency keeps the invariant of the registry and
/// everything but the dependencies.
pub proof fn lemma_apply_dependency(m: RegistryModel, dependency: Dependencies, add: bool)
    requires
        m.wf(),
    ensures
        m.apply_dependency(dependency, add) matches Ok(next) ==> next.wf() && next.categories
            == m.categories && next.variants == m.variants && next.skip == m.skip,
{
    lemma_dependency_to_stored(m, dependency);
    if let Ok(next) = m.apply_dependency(dependency, add) {
        let stored = dependency_to_stored(m, dependency).unwrap();
        lemma_find_dependency(m.dependencies, stored.id);
        assert forall|d: int| 0 <= d < next.dependencies.len() implies next.has_layer(
            (#[trigger] next.dependencies[d]).id,
        ) by {
            if d < m.dependencies.len() && next.dependencies[d] == m.dependencies[d] {
                assert(m.has_layer(m.dependencies[d].id));
            }
        }
        assert forall|d: int, k: int|
            0 <= d < next.dependencies.len() && 0 <= k
                < next.dependencies[d].correlated.len() implies next.has_layer(
            #[trigger] next.dependencies[d].correlated[k],
        ) by {
            if d < m.dependencies.len() && next.dependencies[d] == m.dependencies[d] {
                assert(m.has_layer(m.dependencies[d].correlated[k]));
            } else {
                assert(next.dependencies[d] == stored);
            }
        }
        assert forall|d: int, e: int| 0 <= d < e < next.dependencies.len() implies (
        #[trigger] next.dependencies[d]).id != (#[trigger] next.dependencies[e]).id by {
            if e < m.dependencies.len() {
                assert(m.dependencies[d].id != m.dependencies[e].id);
                assert(next.dependencies[d].id == m.dependencies[d].id);
                assert(next.dependencies[e].id == m.dependencies[e].id);
            } else {
                assert(next.dependencies[d] == m.dependencies[d]);
            }
        }
    }
}

/// What is left of a list of dependencies after some were taken out: every
/// dependency left was in the list, and they keep their order.
pub proof fn lemma_without_ids(dependencies: Seq<DependencyModel>, ids: Seq<StoredLayerId>)
    ensures
        without_ids(dependencies, ids).len() <= dependencies.len(),
        forall|j: int|
            0 <= j < without_ids(dependencies, ids).len() ==> exists|k: int|
                j <= k < dependencies.len() && dependencies[k] == #[trigger] without_ids(
                    dependencies,
                    ids,
                )[j],
        forall|i: int, j: int|
            0 <= i < j < without_ids(dependencies, ids).len() ==> exists|a: int, b: int|
                0 <= a < b < dependencies.len() && dependencies[a] == #[trigger] without_ids(
                    dependencies,
                    ids,
                )[i] && dependencies[b] == #[trigger] without_ids(dependencies, ids)[j],
    decreases dependencies.len(),
{
    if dependencies.len() > 0 {
        let front = dependencies.drop_last();
        lemma_without_ids(front, ids);
        let head = without_ids(front, ids);
        let out = without_ids(dependencies, ids);
        assert forall|j: int| 0 <= j < out.len() implies exists|k: int|
            j <= k < dependencies.len() && dependencies[k] == #[trigger] out[j] by {
            if j < head.len() {
                let k = choose|k: int| j <= k < front.len() && front[k] == head[j];
                assert(dependencies[k] == out[j]);
            } else {
                assert(dependencies[dependencies.len() - 1] == out[j]);
            }
        }
        assert forall|i: int, j: int| 0 <= i < j < out.len() implies exists|a: int, b: int|
            0 <= a < b < dependencies.len() && dependencies[a] == #[trigger] out[i]
                && dependencies[b] == #[trigger] out[j] by {
            if j < head.len() {
                let (a, b) = choose|a: int, b: int|
                    0 <= a < b < front.len() && front[a] == head[i] && front[b] == head[j];
                assert(dependencies[a] == out[i] && dependencies[b] == out[j]);
            } else {
                let a = choose|k: int| i <= k < front.len() && front[k] == head[i];
                assert(dependencies[a] == out[i]);
                assert(dependencies[dependencies.len() - 1] == out[j]);
            }
        }
    }
}

/// Removing dependencies keeps the invariant of the registry.
pub proof fn lemma_remove_dependencies(m: RegistryModel, ids: Seq<StoredLayerId>)
    requires
        m.wf(),
    ensures
        (RegistryModel { dependencies: without_ids(m.dependencies, ids), ..m }).wf(),
{
    let next = RegistryModel { dependencies: without_ids(m.dependencies, ids), ..m };
    lemma_without_ids(m.dependencies, ids);
    assert forall|d: int| 0 <= d < next.dependencies.len() implies next.has_layer(
        (#[trigger] next.dependencies[d]).id,
    ) by {
        let k = choose|k: int|
            d <= k < m.dependencies.len() && m.dependencies[k] == next.dependencies[d];
        assert(m.has_layer(m.dependencies[k].id));
    }
    assert forall|d: int, j: int|
        0 <= d < next.dependencies.len() && 0 <= j
            < next.dependencies[d].correlated.len() implies next.has_layer(
        #[trigger] next.dependencies[d].correlated[j],
    ) by {
        let k = choose|k: int|
            d <= k < m.dependencies.len() && m.dependencies[k] == next.dependencies[d];
        assert(m.has_layer(m.dependencies[k].correlated[j]));
    }
    assert forall|d: int, e: int| 0 <= d < e < next.dependencies.len() implies (
    #[trigger] next.dependencies[d]).id != (#[trigger] next.dependencies[e]).id by {
        let (a, b) = choose|a: int, b: int|
            0 <= a < b < m.dependencies.len() && m.dependencies[a] == next.dependencies[d]
                && m.dependencies[b] == next.dependencies[e];
        assert(m.dependencies[a].id != m.dependencies[b].id);
    }
}

/// Whether a list of ids holds an id.
pub fn ids_contain(ids: &Vec<StoredLayerId>, id: StoredLayerId) -> (found: bool)
    ensures
        found == has_id(ids@, id),
{
    let mut i: usize = 0;
    while i < ids.len()
        invariant
            i <= ids.len(),
            forall|k: int| 0 <= k < i ==> ids@[k] != id,
        decreases ids.len() - i,
    {
        let other = ids[i];
        if other.category == id.category && other.variant == id.variant {
            assert(ids@[i as int] == id);
            return true;
        }
        i += 1;
    }
    false
}

impl Registry {
    /// Adds or modifies the dependencies of a list, in order.
    fn apply_dep_list(&mut self, update_list: &Vec<Dependencies>, add: bool) -> (done: Result<
        (),
        EngineError,
    >)
        requires
            old(self).wf(),
        ensures
            match done {
                Ok(_) => old(self)@.apply_dependencies(update_list@, add) == Ok::<
                    RegistryModel,
                    EngineError,
                >(final(self)@) && final(self).wf(),
                Err(e) => old(self)@.apply_dependencies(update_list@, add) == Err::<
                    RegistryModel,
                    EngineError,
                >(e),
            },
    {
        let mut i: usize = 0;
        assert(update_list@.skip(0) =~= update_list@);
        while i < update_list.len()
            invariant
                i <= update_list.len(),
                self.wf(),
                old(self)@.apply_dependencies(update_list@, add) == self@.apply_dependencies(
                    update_list@.skip(i as int),
                    add,
                ),
            decreases update_list.len() - i,
        {
            let ghost before = self@;
            proof {
                assert(update_list@.skip(i as int)[0] == update_list@[i as int]);
                assert(update_list@.skip(i as int).drop_first() =~= update_list@.skip(i + 1));
                lemma_apply_dependency(before, update_list@[i as int], add);
            }
            let stored = match update_list[i].to_stored(self) {
                Ok(s) => s,
                Err(e) => {
                    return Err(e);
                },
            };
            match self.dependency_index(stored.id) {
                Some(d) => {
                    if !add {
                        self.dependencies[d] = stored;
                        proof {
                            let next = before.modify_dependency(update_list@[i as int]).unwrap();
                            assert(self@.dependencies =~= next.dependencies);
                            assert(self@.variants =~= next.variants);
                        }
                    }
                },
                None => {
                    if add {
                        self.dependencies.push(stored);
                        proof {
                            let next = before.add_dependency(update_list@[i as int]).unwrap();
                            assert(self@.dependencies =~= next.dependencies);
                            assert(self@.variants =~= next.variants);
                        }
                    } else {
                        return Err(EngineError::UnknownDependency);
                    }
                },
            }
            i += 1;
        }
        Ok(())
    }

    /// The variants that a list of dependencies names.
    fn dep_list_ids(&self, update_list: &Vec<Dependencies>) -> (ids: Result<
        Vec<StoredLayerId>,
        EngineError,
    >)
        requires
            self.wf(),
        ensures
            match ids {
                Ok(list) => self@.dependency_ids(update_list@) == Ok::<
                    Seq<StoredLayerId>,
                    EngineError,
                >(list@),
                Err(e) => self@.dependency_ids(update_list@) == Err::<
                    Seq<StoredLayerId>,
                    EngineError,
                >(e),
            },
    {
        let mut ids: Vec<StoredLayerId> = Vec::new();
        let mut i: usize = 0;
        assert(update_list@.subrange(0, 0) =~= Seq::<Dependencies>::empty());
        while i < update_list.len()
            invariant
                i <= update_list.len(),
                self.wf(),
                self@.dependency_ids(update_list@.subrange(0, i as int)) == Ok::<
                    Seq<StoredLayerId>,
                    EngineError,
                >(ids@),
            decreases update_list.len() - i,
        {
            proof {
                let upto = update_list@.subrange(0, i + 1);
                assert(upto.drop_last() =~= update_list@.subrange(0, i as int));
                assert(upto.last() == update_list@[i as int]);
            }
            match update_list[i].to_stored(self) {
                Ok(stored) => {
                    ids.push(stored.id);
                },
                Err(e) => {
                    proof {
                        lemma_dependency_ids_prefix(self@, update_list@, i + 1);
                    }
                    return Err(e);
                },
            }
            i += 1;
        }
        assert(update_list@.subrange(0, update_list@.len() as int) =~= update_list@);
        Ok(ids)
    }

    /// Adds, removes or modifies dependencies. Adding gives a variant the
    /// listed layers unless it has a dependency already; removing takes away
    /// the dependency of each listed variant; modifying replaces the
    /// dependency of each listed variant, which must have one. Where the
    /// list is refused, the registry stays as it was.
    pub fn process_dep_list(&mut self, update_list: &Vec<Dependencies>, action: Action) -> (done:
        Result<(), EngineError>)
        requires
            old(self).wf(),
        ensures
            final(self).wf(),
            match done {
                Ok(_) => old(self)@.process_dep_list(update_list@, action) == Ok::<
                    RegistryModel,
                    EngineError,
                >(final(self)@),
                Err(e) => old(self)@.process_dep_list(update_list@, action) == Err::<
                    RegistryModel,
                    EngineError,
                >(e) && *final(self) == *old(self),
            },
    {
        match action {
            Action::Remove => {
                let ids = match self.dep_list_ids(update_list) {
                    Ok(ids) => ids,
                    Err(e) => {
                        return Err(e);
                    },
                };
                let ghost before = self@;
                let mut kept: Vec<StoredDependencies> = Vec::new();
                let mut i: usize = 0;
                assert(before.dependencies.subrange(0, 0) =~= Seq::<DependencyModel>::empty());
                while i < self.dependencies.len()
                    invariant
                        i <= self.dependencies.len(),
                        *self == *old(self),
                        before == self@,
                        dependency_models(kept@) =~= without_ids(
                            before.dependencies.subrange(0, i as int),
                            ids@,
                        ),
                    decreases self.dependencies.len() - i,
                {
                    proof {
                        let upto = before.dependencies.subrange(0, i + 1);
                        assert(upto.drop_last() =~= before.dependencies.subrange(0, i as int));
                        assert(upto.last() == self.dependencies@[i as int].model());
                    }
                    let dep = &self.dependencies[i];
                    if !ids_contain(&ids, dep.id) {
                        kept.push(
                            StoredDependencies {
                                id: dep.id,
                                correlated: copy_layers(&dep.correlated),
                            },
                        );
                    }
                    i += 1;
                }
                proof {
                    assert(before.dependencies.subrange(0, before.dependencies.len() as int)
                        =~= before.dependencies);
                    lemma_remove_dependencies(before, ids@);
                }
                self.dependencies = kept;
                proof {
                    let next = RegistryModel {
                        dependencies: without_ids(before.dependencies, ids@),
                        ..before
                    };
                    assert(self@.dependencies =~= next.dependencies);
                    assert(self@.variants =~= next.variants);
                }
                Ok(())
            },
            _ => {
                let add = match action {
                    Action::Add => true,
                    _ => false,
                };
                let mut work = self.duplicate();
                match work.apply_dep_list(update_list, add) {
                    Ok(_) => {
                        *self = work;
                        Ok(())
                    },
                    Err(e) => Err(e),
                }
            },
        }
    }
}

/// Where a prefix of a list of dependencies is not found, the list is not
/// found, with the same error.
pub proof fn lemma_dependency_ids_prefix(m: RegistryModel, list: Seq<Dependencies>, n: int)
    requires
        0 <= n <= list.len(),
        m.dependency_ids(list.subrange(0, n)).is_err(),
    ensures
        m.dependency_ids(list) == m.dependency_ids(list.subrange(0, n)),
    decreases list.len() - n,
{
    if n < list.len() {
        assert(list.subrange(0, n + 1).drop_last() =~= list.subrange(0, n));
        lemma_dependency_ids_prefix(m, list, n + 1);
    } else {
        assert(list.subrange(0, n) =~= list);
    }
}

} // verus!
