//! Images that honor the dependencies of the registry, and when a
//! transmutation keeps them so.
use crate::error::EngineError;
use crate::registry::{
    find_category, find_dependency, find_variant, lemma_find_category, lemma_find_dependency,
    lemma_find_variant, DependencyModel, LayerId, RegistryModel, StoredLayerId,
};
use crate::transmute::{
    apply_layers, clear_correlated, correlated_of, jaw_name, lemma_clear_correlated_len,
    lemma_set_correlated, none_name, replace_layer_spec, replace_other, replace_skull,
    set_correlated, skull_name, transmute_spec, upgrade_background,
};
use vstd::prelude::*;

verus! {

/// Whether an image honors a dependency: where it holds the variant, it
/// holds every layer that the variant brings.
pub open spec fn honors(image: Seq<u8>, d: DependencyModel) -> bool {
    d.id.category < image.len() && image[d.id.category as int] == d.id.variant ==> forall|k: int|
        0 <= k < d.correlated.len() ==> (#[trigger] d.correlated[k]).category < image.len()
            && image[d.correlated[k].category as int] == d.correlated[k].variant
}

/// Whether an image honors every dependency of a registry.
pub open spec fn honors_all(m: RegistryModel, image: Seq<u8>) -> bool {
    forall|d: int| 0 <= d < m.dependencies.len() ==> honors(image, #[trigger] m.dependencies[d])
}

/// Whether a dependency brings a layer of a category.
pub open spec fn brings(d: DependencyModel, c: int) -> bool {
    exists|k: int| 0 <= k < d.correlated.len() && (#[trigger] d.correlated[k]).category == c
}

/// Whether some dependency brings a layer of a category.
pub open spec fn brought(m: RegistryModel, c: int) -> bool {
    exists|d: int| 0 <= d < m.dependencies.len() && brings(#[trigger] m.dependencies[d], c)
}

/// Whether some variant of a category has a dependency.
pub open spec fn leads(m: RegistryModel, c: int) -> bool {
    exists|d: int| 0 <= d < m.dependencies.len() && (#[trigger] m.dependencies[d]).id.category == c
}

/// Whether no dependency has to do with a category.
pub open spec fn untouched(m: RegistryModel, c: int) -> bool {
    !brought(m, c) && !leads(m, c)
}

/// Whether the layers that a variant brings lie in different categories.
pub open spec fn apart(correlated: Seq<StoredLayerId>) -> bool {
    forall|a: int, b: int|
        0 <= a < b < correlated.len() ==> (#[trigger] correlated[a]).category != (
        #[trigger] correlated[b]).category
}

/// Whether the dependencies of a registry keep out of each other's way: the
/// layers that a variant brings lie in different categories; no layer is
/// brought in a category whose variants bring layers; and variants of
/// different categories bring no layers of one category.
pub open spec fn orderly(m: RegistryModel) -> bool {
    &&& forall|d: int| 0 <= d < m.dependencies.len() ==> apart((#[trigger] m.dependencies[d]).correlated)
    &&& forall|d: int, k: int|
        0 <= d < m.dependencies.len() && 0 <= k < m.dependencies[d].correlated.len() ==> !leads(
            m,
            (#[trigger] m.dependencies[d].correlated[k]).category as int,
        )
    &&& forall|d: int, e: int, k: int|
        0 <= d < m.dependencies.len() && 0 <= e < m.dependencies.len() && 0 <= k
            < m.dependencies[d].correlated.len() && m.dependencies[d].id.category
            != m.dependencies[e].id.category ==> !brings(
            #[trigger] m.dependencies[e],
            (#[trigger] m.dependencies[d].correlated[k]).category as int,
        )
}

/// Whether a layer may be applied without breaking a dependency that the
/// image honors: a skull layer where no dependency has to do with the skull
/// or the jaw; any other layer where no dependency brings a layer of its
/// category.
pub open spec fn harmless(m: RegistryModel, layer: LayerId) -> bool {
    if layer.category@ == skull_name() {
        &&& find_category(m.categories, skull_name()) matches Some(s) ==> untouched(m, s)
        &&& find_category(m.categories, jaw_name()) matches Some(j) ==> untouched(m, j)
    } else {
        find_category(m.categories, layer.category@) matches Some(c) ==> !brought(m, c)
    }
}

/// Clearing layers changes no category but theirs.
pub proof fn lemma_clear_correlated_frame(
    m: RegistryModel,
    image: Seq<u8>,
    correlated: Seq<StoredLayerId>,
    x: int,
)
    requires
        0 <= x < image.len(),
        forall|k: int| 0 <= k < correlated.len() ==> (#[trigger] correlated[k]).category != x,
    ensures
        clear_correlated(m, image, correlated) matches Ok(out) ==> out.len() == image.len()
            && out[x] == image[x],
    decreases correlated.len(),
{
    if correlated.len() > 0 {
        let c = correlated[0].category;
        if let Some(n) = find_variant(m.variants[c as int], none_name()) {
            if c < image.len() {
                let rest = correlated.drop_first();
                assert forall|k: int| 0 <= k < rest.len() implies (#[trigger] rest[k]).category
                    != x by {
                    assert(rest[k] == correlated[k + 1]);
                }
                assert(correlated[0].category != x);
                lemma_clear_correlated_frame(m, image.update(c as int, n as u8), rest, x);
            }
        }
    }
}

/// The layers that the dependency of a variant brings are those of a
/// dependency of the registry, or none.
pub proof fn lemma_correlated_of(m: RegistryModel, id: StoredLayerId)
    ensures
        match find_dependency(m.dependencies, id) {
            Some(d) => 0 <= d < m.dependencies.len() && m.dependencies[d].id == id
                && correlated_of(m, id) == m.dependencies[d].correlated,
            None => correlated_of(m, id).len() == 0,
        },
{
    lemma_find_dependency(m.dependencies, id);
}

/// A layer of another category than the skull, of a category in which no
/// layer is brought, keeps an image honoring the dependencies of an orderly
/// registry.
pub proof fn lemma_replace_other_keeps_honor(
    m: RegistryModel,
    image: Seq<u8>,
    category: Seq<char>,
    variant: Seq<char>,
)
    requires
        m.wf(),
        orderly(m),
        honors_all(m, image),
        find_category(m.categories, category) matches Some(c) ==> !brought(m, c),
    ensures
        replace_other(m, image, category, variant) matches Ok(out) ==> honors_all(m, out)
            && out.len() == image.len(),
{
    lemma_find_category(m.categories, category);
    if let Some(c) = find_category(m.categories, category) {
        lemma_find_variant(m.variants[c], variant);
        if let Some(v) = find_variant(m.variants[c], variant) {
            if c < image.len() && image[c] != v {
                assert(m.categories[c].cnt == m.variants[c].len());
                let old_id = StoredLayerId { category: c as u8, variant: image[c] };
                let new_id = StoredLayerId { category: c as u8, variant: v as u8 };
                let a = correlated_of(m, old_id);
                let b = correlated_of(m, new_id);
                lemma_correlated_of(m, old_id);
                lemma_correlated_of(m, new_id);
                lemma_clear_correlated_len(m, image, a);
                if let Ok(cleared) = clear_correlated(m, image, a) {
                    assert(apart(b)) by {
                        if let Some(d) = find_dependency(m.dependencies, new_id) {
                            assert(apart(m.dependencies[d].correlated));
                        }
                    }
                    lemma_set_correlated(cleared, b);
                    if let Ok(set) = set_correlated(cleared, b) {
                        let out = set.update(c, v as u8);
                        assert(replace_other(m, image, category, variant) == Ok::<
                            Seq<u8>,
                            EngineError,
                        >(out));
                        // what the step leaves alone
                        assert forall|x: int|
                            0 <= x < image.len() && x != c && !brings_any(a, x) && !brings_any(
                                b,
                                x,
                            ) implies out[x] == image[x] by {
                            lemma_clear_correlated_frame(m, image, a, x);
                            assert(forall|k: int|
                                0 <= k < b.len() ==> (#[trigger] b[k]).category != x);
                        }
                        assert forall|f: int| 0 <= f < m.dependencies.len() implies honors(
                            out,
                            #[trigger] m.dependencies[f],
                        ) by {
                            let dep = m.dependencies[f];
                            lemma_step_honors(m, image, out, c, v, a, b, set, f);
                        }
                    }
                }
            }
        }
    }
}

/// Whether a list of layers has a layer of a category.
pub open spec fn brings_any(layers: Seq<StoredLayerId>, c: int) -> bool {
    exists|k: int| 0 <= k < layers.len() && (#[trigger] layers[k]).category == c
}

/// One dependency is honored after a step that cleared the layers `a`, set
/// the layers `b` and gave category `c` the variant `v`.
proof fn lemma_step_honors(
    m: RegistryModel,
    image: Seq<u8>,
    out: Seq<u8>,
    c: int,
    v: int,
    a: Seq<StoredLayerId>,
    b: Seq<StoredLayerId>,
    set: Seq<u8>,
    f: int,
)
    requires
        m.wf(),
        orderly(m),
        honors_all(m, image),
        0 <= f < m.dependencies.len(),
        0 <= c < image.len(),
        c <= u8::MAX,
        0 <= v <= u8::MAX,
        image[c] != v,
        !brought(m, c),
        out == set.update(c, v as u8),
        set.len() == image.len(),
        a == correlated_of(m, StoredLayerId { category: c as u8, variant: image[c] }),
        b == correlated_of(m, StoredLayerId { category: c as u8, variant: v as u8 }),
        forall|k: int|
            0 <= k < b.len() ==> (#[trigger] b[k]).category < set.len() && set[b[k].category as int]
                == b[k].variant,
        forall|x: int|
            0 <= x < image.len() && x != c && !brings_any(a, x) && !brings_any(b, x) ==> out[x]
                == image[x],
    ensures
        honors(out, m.dependencies[f]),
{
    let dep = m.dependencies[f];
    let old_id = StoredLayerId { category: c as u8, variant: image[c] };
    let new_id = StoredLayerId { category: c as u8, variant: v as u8 };
    lemma_correlated_of(m, old_id);
    lemma_correlated_of(m, new_id);
    if dep.id.category as int == c {
        if dep.id.variant as int == v {
            // the dependency of the new variant: its layers were set last
            assert(dep.id == new_id);
            lemma_find_dependency(m.dependencies, new_id);
            let d = find_dependency(m.dependencies, new_id).unwrap();
            if d != f {
                if d < f {
                    assert(m.dependencies[d].id != m.dependencies[f].id);
                } else {
                    assert(m.dependencies[f].id != m.dependencies[d].id);
                }
            }
            assert(b == dep.correlated);
            assert forall|k: int| 0 <= k < dep.correlated.len() implies (
            #[trigger] dep.correlated[k]).category < out.len()
                && out[dep.correlated[k].category as int] == dep.correlated[k].variant by {
                assert(!leads(m, m.dependencies[f].correlated[k].category as int));
                assert(m.dependencies[f].id.category == c);
                assert(dep.correlated[k].category != c);
                assert(b[k].category < set.len());
            }
        }
    } else {
        let fc = dep.id.category as int;
        if fc < out.len() && out[fc] == dep.id.variant {
            // neither the category of the variant nor those of its layers changed
            lemma_untouched_by(m, c, image[c], f, fc);
            lemma_untouched_by(m, c, v as u8, f, fc);
            assert(out[fc] == image[fc]);
            assert(honors(image, m.dependencies[f]));
            assert forall|k: int| 0 <= k < dep.correlated.len() implies (
            #[trigger] dep.correlated[k]).category < out.len()
                && out[dep.correlated[k].category as int] == dep.correlated[k].variant by {
                let x = dep.correlated[k].category as int;
                assert(brings(m.dependencies[f], x));
                assert(x != c) by {
                    if x == c {
                        assert(brought(m, c));
                    }
                }
                lemma_untouched_by(m, c, image[c], f, x);
                lemma_untouched_by(m, c, v as u8, f, x);
                assert(out[x] == image[x]);
            }
        }
    }
}

/// The layers that a variant of category `c` brings lie in no category that
/// has to do with a dependency of a variant of another category.
proof fn lemma_untouched_by(m: RegistryModel, c: int, variant: u8, f: int, x: int)
    requires
        m.wf(),
        orderly(m),
        0 <= c <= u8::MAX,
        0 <= f < m.dependencies.len(),
        m.dependencies[f].id.category != c,
        x == m.dependencies[f].id.category || brings(m.dependencies[f], x),
    ensures
        !brings_any(correlated_of(m, StoredLayerId { category: c as u8, variant }), x),
{
    let id = StoredLayerId { category: c as u8, variant };
    lemma_correlated_of(m, id);
    let layers = correlated_of(m, id);
    if brings_any(layers, x) {
        let k = choose|k: int| 0 <= k < layers.len() && (#[trigger] layers[k]).category == x;
        let d = find_dependency(m.dependencies, id).unwrap();
        assert(m.dependencies[d].correlated[k].category == x);
        if x == m.dependencies[f].id.category {
            assert(!leads(m, m.dependencies[d].correlated[k].category as int));
            assert(leads(m, x));
        } else {
            assert(!brings(m.dependencies[f], m.dependencies[d].correlated[k].category as int));
        }
    }
}

/// An image that differs from one that honors the dependencies only in
/// categories that no dependency has to do with honors them too.
pub proof fn lemma_untouched_change(m: RegistryModel, image: Seq<u8>, out: Seq<u8>)
    requires
        honors_all(m, image),
        out.len() == image.len(),
        forall|x: int| 0 <= x < image.len() && out[x] != image[x] ==> untouched(m, x),
    ensures
        honors_all(m, out),
{
    assert forall|f: int| 0 <= f < m.dependencies.len() implies honors(
        out,
        #[trigger] m.dependencies[f],
    ) by {
        let dep = m.dependencies[f];
        let fc = dep.id.category as int;
        if fc < out.len() && out[fc] == dep.id.variant {
            assert(leads(m, fc));
            assert(out[fc] == image[fc]);
            assert(honors(image, m.dependencies[f]));
            assert forall|k: int| 0 <= k < dep.correlated.len() implies (
            #[trigger] dep.correlated[k]).category < out.len()
                && out[dep.correlated[k].category as int] == dep.correlated[k].variant by {
                let x = dep.correlated[k].category as int;
                assert(brings(m.dependencies[f], x));
                assert(brought(m, x));
            }
        }
    }
}

/// A skull layer keeps an image honoring the dependencies where none has to
/// do with the skull or the jaw.
pub proof fn lemma_replace_skull_keeps_honor(m: RegistryModel, image: Seq<u8>, variant: Seq<char>)
    requires
        honors_all(m, image),
        find_category(m.categories, skull_name()) matches Some(s) ==> untouched(m, s),
        find_category(m.categories, jaw_name()) matches Some(j) ==> untouched(m, j),
    ensures
        replace_skull(m, image, variant) matches Ok(out) ==> honors_all(m, out) && out.len()
            == image.len(),
{
    lemma_find_category(m.categories, skull_name());
    lemma_find_category(m.categories, jaw_name());
    if let Ok(out) = replace_skull(m, image, variant) {
        lemma_untouched_change(m, image, out);
    }
}

/// Layers that are harmless keep an image honoring the dependencies of an
/// orderly registry.
pub proof fn lemma_apply_layers_keeps_honor(m: RegistryModel, image: Seq<u8>, layers: Seq<LayerId>)
    requires
        m.wf(),
        orderly(m),
        honors_all(m, image),
        forall|i: int| 0 <= i < layers.len() ==> harmless(m, #[trigger] layers[i]),
    ensures
        apply_layers(m, image, layers) matches Ok(out) ==> honors_all(m, out),
    decreases layers.len(),
{
    if layers.len() > 0 {
        assert(harmless(m, layers[0]));
        if layers[0].category@ == skull_name() {
            lemma_replace_skull_keeps_honor(m, image, layers[0].variant@);
        } else {
            lemma_replace_other_keeps_honor(m, image, layers[0].category@, layers[0].variant@);
        }
        if let Ok(next) = replace_layer_spec(m, image, layers[0].category@, layers[0].variant@) {
            let rest = layers.drop_first();
            assert forall|i: int| 0 <= i < rest.len() implies harmless(m, #[trigger] rest[i]) by {
                assert(rest[i] == layers[i + 1]);
            }
            lemma_apply_layers_keeps_honor(m, next, rest);
        }
    }
}

/// Every image that a transmutation produces honors every dependency of the
/// registry: where it holds a variant with a dependency, it holds every
/// layer that the variant brings. This holds of an orderly registry, of an
/// image that honors the dependencies to begin with, and of layers that are
/// harmless, where no dependency has to do with the background.
pub proof fn lemma_transmute_keeps_honor(m: RegistryModel, image: Seq<u8>, layers: Seq<LayerId>)
    requires
        m.wf(),
        orderly(m),
        honors_all(m, image),
        untouched(m, 0),
        forall|i: int| 0 <= i < layers.len() ==> harmless(m, #[trigger] layers[i]),
    ensures
        transmute_spec(m, image, layers) matches Ok(out) ==> honors_all(m, out),
{
    if let Ok(upgraded) = upgrade_background(m, image) {
        lemma_untouched_change(m, image, upgraded);
        lemma_apply_layers_keeps_honor(m, upgraded, layers);
    }
}

} // verus!
