//! Token metadata: the metadata common to all tokens, and the attributes and
//! the drawing that an image stands for.
use crate::error::EngineError;
use crate::registry::{find_category, find_variant, Registry, RegistryModel};
use crate::registry_edit::copy_text;
use crate::text::{decimal, decimal_string, str_eq};
use crate::transmute::{none_name, RAW_BACKGROUNDS, UNREVEALED};
use vstd::prelude::*;
use vstd::string::StringExecFns;

verus! {

/// One attribute of a token.
#[derive(Clone, Debug, PartialEq, Eq)]
pub struct Trait {
    pub display_type: Option<String>,
    pub trait_type: Option<String>,
    pub value: String,
    pub max_value: Option<String>,
}

/// The on-chain part of the metadata of a token.
#[derive(Clone, Debug, PartialEq, Eq)]
pub struct Extension {
    pub image: Option<String>,
    pub image_data: Option<String>,
    pub external_url: Option<String>,
    pub description: Option<String>,
    pub name: Option<String>,
    pub attributes: Option<Vec<Trait>>,
    pub background_color: Option<String>,
    pub animation_url: Option<String>,
    pub youtube_url: Option<String>,
}

/// The metadata of a token: a link to it, or the metadata itself.
#[derive(Clone, Debug, PartialEq, Eq)]
pub struct Metadata {
    pub token_uri: Option<String>,
    pub extension: Option<Extension>,
}

/// The metadata that all tokens share.
#[derive(Clone, Debug, PartialEq, Eq)]
pub struct CommonMetadata {
    pub public: Option<Metadata>,
    pub private: Option<Metadata>,
}

/// What metadata is kept as: nothing where it holds neither a link nor an
/// extension; metadata that holds both is refused.
pub open spec fn filtered(metadata: Metadata) -> Result<Option<Metadata>, EngineError> {
    if metadata.token_uri.is_some() && metadata.extension.is_some() {
        Err(EngineError::Malformed)
    } else if metadata.token_uri.is_none() && metadata.extension.is_none() {
        Ok(None)
    } else {
        Ok(Some(metadata))
    }
}

/// Screens metadata before it is kept.
pub fn filter_metadata(metadata: Metadata) -> (kept: Result<Option<Metadata>, EngineError>)
    ensures
        kept == filtered(metadata),
{
    let has_uri = metadata.token_uri.is_some();
    let has_xten = metadata.extension.is_some();
    if has_uri == has_xten {
        if has_uri {
            return Err(EngineError::Malformed);
        }
        Ok(None)
    } else {
        Ok(Some(metadata))
    }
}

impl CommonMetadata {
    /// No common metadata.
    pub fn new() -> (common: CommonMetadata)
        ensures
            common.public.is_none(),
            common.private.is_none(),
    {
        CommonMetadata { public: None, private: None }
    }

    /// Whether there is neither public nor private metadata to keep.
    pub fn is_empty(&self) -> (empty: bool)
        ensures
            empty == (self.public.is_none() && self.private.is_none()),
    {
        self.public.is_none() && self.private.is_none()
    }

    /// Replaces the public metadata, the private metadata, or both, each by
    /// what `filter_metadata` keeps of it. Where either is refused, nothing
    /// changes.
    pub fn set_metadata(
        &mut self,
        public_metadata: Option<Metadata>,
        private_metadata: Option<Metadata>,
    ) -> (done: Result<(), EngineError>)
        ensures
            match done {
                Ok(_) => {
                    &&& final(self).public == (match public_metadata {
                        Some(m) => filtered(m).unwrap(),
                        None => old(self).public,
                    })
                    &&& final(self).private == (match private_metadata {
                        Some(m) => filtered(m).unwrap(),
                        None => old(self).private,
                    })
                    &&& public_metadata matches Some(m) ==> filtered(m).is_ok()
                    &&& private_metadata matches Some(m) ==> filtered(m).is_ok()
                },
                Err(e) => e == EngineError::Malformed && *final(self) == *old(self) && ((
                public_metadata matches Some(m) && filtered(m).is_err()) || (
                private_metadata matches Some(m) && filtered(m).is_err())),
            },
    {
        let new_public = match public_metadata {
            Some(m) => match filter_metadata(m) {
                Ok(kept) => Some(kept),
                Err(e) => {
                    return Err(e);
                },
            },
            None => None,
        };
        let new_private = match private_metadata {
            Some(m) => match filter_metadata(m) {
                Ok(kept) => Some(kept),
                Err(e) => {
                    return Err(e);
                },
            },
            None => None,
        };
        if let Some(kept) = new_public {
            self.public = kept;
        }
        if let Some(kept) = new_private {
            self.private = kept;
        }
        Ok(())
    }
}

/// The name of the hair category.
pub open spec fn hair_name() -> Seq<char> {
    "Hair"@
}

/// What an unrevealed category shows.
pub open spec fn unknown_text() -> Seq<char> {
    "???"@
}

/// The opening of the drawing of a token.
pub open spec fn svg_prolog() -> Seq<char> {
    "<svg xmlns=\"http://www.w3.org/2000/svg\" viewBox=\"0 -0.5 24 24\" shape-rendering=\"crispEdges\">"@
}

/// The closing of the drawing of a token.
pub open spec fn svg_epilog() -> Seq<char> {
    "</svg>"@
}

/// What has been drawn and listed of an image so far.
pub struct Rendering {
    /// The drawing.
    pub svg: Seq<char>,
    /// The attributes: the name of a category and what it shows.
    pub traits: Seq<(Seq<char>, Seq<char>)>,
    /// How many categories are listed.
    pub shown: nat,
    /// How many of the listed categories are revealed.
    pub revealed: nat,
    /// How many of the listed categories show `None`.
    pub nones: nat,
}

/// Whether a category is marked to be skipped.
pub open spec fn skipped(m: RegistryModel, c: int) -> bool {
    m.categories[c].skip
}

/// The drawing of a variant; nothing where it has none.
pub open spec fn svg_of(svg: Option<String>) -> Seq<char> {
    match svg {
        Some(s) => s@,
        None => Seq::empty(),
    }
}

/// The rendering with category `c` of the image added. A revealed category
/// adds the drawing of its variant and, unless it is skipped, an attribute
/// with the display name of the variant. An unrevealed category adds an
/// attribute that shows `???`, unless it is skipped; the hair category also
/// adds the drawing of its `None` variant.
pub open spec fn render_category(
    m: RegistryModel,
    image: Seq<u8>,
    hair: int,
    c: int,
    r: Rendering,
) -> Result<Rendering, EngineError> {
    if c >= m.categories.len() {
        Err(EngineError::StorageCorrupt)
    } else {
        let listed = !skipped(m, c);
        let name = m.categories[c].name@;
        if image[c] != UNREVEALED || c == hair {
            let index: Result<int, EngineError> = if image[c] == UNREVEALED {
                match find_variant(m.variants[c], none_name()) {
                    None => Err(EngineError::MissingNoneVariant),
                    Some(n) => Ok(n),
                }
            } else {
                Ok(image[c] as int)
            };
            match index {
                Err(e) => Err(e),
                Ok(x) => if x >= m.variants[c].len() {
                    Err(EngineError::StorageCorrupt)
                } else {
                    let variant = m.variants[c][x];
                    let svg = r.svg + svg_of(variant.svg);
                    let value = if image[c] == UNREVEALED {
                        unknown_text()
                    } else {
                        variant.display_name@
                    };
                    if listed {
                        Ok(
                            Rendering {
                                svg,
                                traits: r.traits.push((name, value)),
                                shown: r.shown + 1,
                                revealed: if image[c] != UNREVEALED {
                                    r.revealed + 1
                                } else {
                                    r.revealed
                                },
                                nones: if value == none_name() {
                                    r.nones + 1
                                } else {
                                    r.nones
                                },
                            },
                        )
                    } else {
                        Ok(Rendering { svg, ..r })
                    }
                },
            }
        } else if listed {
            Ok(Rendering { traits: r.traits.push((name, unknown_text())), shown: r.shown + 1, ..r })
        } else {
            Ok(r)
        }
    }
}

/// The rendering of the first `n` categories of an image, in the order of
/// their indices.
pub open spec fn render_categories(m: RegistryModel, image: Seq<u8>, hair: int, n: int) -> Result<
    Rendering,
    EngineError,
>
    decreases n,
{
    if n <= 0 {
        Ok(Rendering { svg: svg_prolog(), traits: Seq::empty(), shown: 0, revealed: 0, nones: 0 })
    } else {
        match render_categories(m, image, hair, n - 1) {
            Err(e) => Err(e),
            Ok(r) => render_category(m, image, hair, n - 1, r),
        }
    }
}

/// The drawing and the attributes of an image. After the attributes of the
/// categories come three more: the number of listed categories that are
/// unrevealed; the number of listed categories that show anything but
/// `None` where all are revealed, else the number that show `None`; and
/// whether the background is a transmuted one.
pub open spec fn token_traits(m: RegistryModel, image: Seq<u8>) -> Result<
    (Seq<char>, Seq<(Seq<char>, Seq<char>)>),
    EngineError,
> {
    match find_category(m.categories, hair_name()) {
        None => Err(EngineError::UnknownCategory),
        Some(hair) => match render_categories(m, image, hair, image.len() as int) {
            Err(e) => Err(e),
            Ok(r) => if image.len() == 0 {
                Err(EngineError::ImageTooShort)
            } else {
                let hidden = r.shown - r.revealed;
                let counted = r.traits.push(
                    ("Unrevealed Trait Categories"@, decimal(hidden as nat)),
                );
                let tallied = if hidden == 0 {
                    counted.push(("Trait Count"@, decimal((r.shown - r.nones) as nat)))
                } else {
                    counted.push(("Clean Traits (Nones) Currently Revealed"@, decimal(r.nones)))
                };
                let status = if image[0] >= RAW_BACKGROUNDS {
                    "Transmuted"@
                } else {
                    "Raw"@
                };
                Ok((r.svg + svg_epilog(), tallied.push(("Alchemical Status"@, status))))
            },
        },
    }
}

/// Whether a trait is plain: a name and a value, and nothing else.
pub open spec fn plain_trait(t: Trait) -> bool {
    t.display_type.is_none() && t.trait_type.is_some() && t.max_value.is_none()
}

/// The names and values of a list of plain traits.
pub open spec fn trait_pairs(traits: Seq<Trait>) -> Seq<(Seq<char>, Seq<char>)> {
    Seq::new(traits.len(), |i: int| (traits[i].trait_type.unwrap()@, traits[i].value@))
}

/// Whether `public` is the metadata `base` with the drawing and the
/// attributes of an image put in place of its own.
pub open spec fn carries(
    public: Metadata,
    base: Option<Metadata>,
    data: Seq<char>,
    traits: Seq<(Seq<char>, Seq<char>)>,
) -> bool {
    let token_uri = match base {
        Some(b) => b.token_uri,
        None => None,
    };
    let kept: Option<Extension> = match base {
        Some(b) => b.extension,
        None => None,
    };
    &&& public.token_uri == token_uri
    &&& public.extension matches Some(x) && {
        &&& x.image_data matches Some(d) && d@ == data
        &&& x.attributes matches Some(a) && trait_pairs(a@) == traits && forall|i: int|
            0 <= i < a@.len() ==> plain_trait(#[trigger] a@[i])
        &&& match kept {
            Some(k) => x.image == k.image && x.external_url == k.external_url && x.description
                == k.description && x.name == k.name && x.background_color == k.background_color
                && x.animation_url == k.animation_url && x.youtube_url == k.youtube_url,
            None => x.image.is_none() && x.external_url.is_none() && x.description.is_none()
                && x.name.is_none() && x.background_color.is_none() && x.animation_url.is_none()
                && x.youtube_url.is_none(),
        }
    }
}

/// An attribute with a name and a value, and nothing else.
fn plain(name: String, value: String) -> (t: Trait)
    ensures
        plain_trait(t),
        t.trait_type.unwrap()@ == name@,
        t.value@ == value@,
{
    Trait { display_type: None, trait_type: Some(name), value, max_value: None }
}

impl Registry {
    /// The public metadata of a token with the image `image`: the public
    /// metadata common to all tokens, with the drawing and the attributes of
    /// the image in place of its own.
    pub fn token_metadata(&self, base: &Option<Metadata>, image: &Vec<u8>) -> (out: Result<
        Metadata,
        EngineError,
    >)
        requires
            self.wf(),
        ensures
            match out {
                Ok(public) => token_traits(self@, image@) matches Ok((data, traits)) && carries(
                    public,
                    *base,
                    data,
                    traits,
                ),
                Err(e) => token_traits(self@, image@) == Err::<
                    (Seq<char>, Seq<(Seq<char>, Seq<char>)>),
                    EngineError,
                >(e),
            },
    {
        let hair = match self.category_index("Hair") {
            Some(h) => h as usize,
            None => {
                return Err(EngineError::UnknownCategory);
            },
        };
        let mut image_data = String::from_str(
            "<svg xmlns=\"http://www.w3.org/2000/svg\" viewBox=\"0 -0.5 24 24\" shape-rendering=\"crispEdges\">",
        );
        let mut attributes: Vec<Trait> = Vec::new();
        let mut trait_cnt: usize = 0;
        let mut revealed: usize = 0;
        let mut none_cnt: usize = 0;
        let mut c: usize = 0;
        assert(trait_pairs(attributes@) =~= Seq::empty());
        while c < image.len()
            invariant
                c <= image.len(),
                self.wf(),
                find_category(self@.categories, hair_name()) == Some(hair as int),
                revealed <= trait_cnt <= c,
                none_cnt <= trait_cnt,
                forall|i: int| 0 <= i < attributes@.len() ==> plain_trait(#[trigger] attributes@[i]),
                render_categories(self@, image@, hair as int, c as int) == Ok::<
                    Rendering,
                    EngineError,
                >(
                    Rendering {
                        svg: image_data@,
                        traits: trait_pairs(attributes@),
                        shown: trait_cnt as nat,
                        revealed: revealed as nat,
                        nones: none_cnt as nat,
                    },
                ),
            decreases image.len() - c,
        {
            let ghost before = Rendering {
                svg: image_data@,
                traits: trait_pairs(attributes@),
                shown: trait_cnt as nat,
                revealed: revealed as nat,
                nones: none_cnt as nat,
            };
            let ghost pairs = trait_pairs(attributes@);
            proof {
                lemma_render_prefix(self@, image@, hair as int, c + 1, image@.len() as int);
            }
            if c >= self.categories.len() {
                return Err(EngineError::StorageCorrupt);
            }
            assert(self@.variants[c as int] == self.variants@[c as int]@);
            assert(self@.categories[c as int].cnt == self@.variants[c as int].len());
            let listed = !self.categories[c].skip;
            let var_idx = image[c];
            if var_idx != UNREVEALED || c == hair {
                let index = if var_idx == UNREVEALED {
                    match self.variant_index(c as u8, "None") {
                        Some(n) => n as usize,
                        None => {
                            return Err(EngineError::MissingNoneVariant);
                        },
                    }
                } else {
                    var_idx as usize
                };
                if index >= self.variants[c].len() {
                    return Err(EngineError::StorageCorrupt);
                }
                let variant = &self.variants[c][index];
                match &variant.svg {
                    Some(s) => {
                        image_data.append(s.as_str());
                    },
                    None => {
                        assert(image_data@ + Seq::<char>::empty() =~= image_data@);
                    },
                }
                let value = if var_idx == UNREVEALED {
                    String::from_str("???")
                } else {
                    variant.display_name.clone()
                };
                if listed {
                    if str_eq(value.as_str(), "None") {
                        none_cnt += 1;
                    }
                    if var_idx != UNREVEALED {
                        revealed += 1;
                    }
                    attributes.push(plain(self.categories[c].name.clone(), value));
                    trait_cnt += 1;
                    assert(trait_pairs(attributes@) =~= pairs.push(
                        (self@.categories[c as int].name@, value@),
                    ));
                }
            } else if listed {
                attributes.push(plain(self.categories[c].name.clone(), String::from_str("???")));
                trait_cnt += 1;
                assert(trait_pairs(attributes@) =~= pairs.push(
                    (self@.categories[c as int].name@, unknown_text()),
                ));
            }
            c += 1;
        }
        if image.len() == 0 {
            return Err(EngineError::ImageTooShort);
        }
        let ghost listed_pairs = trait_pairs(attributes@);
        let hidden = trait_cnt - revealed;
        attributes.push(
            plain(String::from_str("Unrevealed Trait Categories"), decimal_string(hidden as u64)),
        );
        let ghost counted = trait_pairs(attributes@);
        assert(counted =~= listed_pairs.push(
            ("Unrevealed Trait Categories"@, decimal(hidden as nat)),
        ));
        if hidden == 0 {
            attributes.push(
                plain(String::from_str("Trait Count"), decimal_string((trait_cnt - none_cnt) as u64)),
            );
            assert(trait_pairs(attributes@) =~= counted.push(
                ("Trait Count"@, decimal((trait_cnt - none_cnt) as nat)),
            ));
        } else {
            attributes.push(
                plain(
                    String::from_str("Clean Traits (Nones) Currently Revealed"),
                    decimal_string(none_cnt as u64),
                ),
            );
            assert(trait_pairs(attributes@) =~= counted.push(
                ("Clean Traits (Nones) Currently Revealed"@, decimal(none_cnt as nat)),
            ));
        }
        let ghost tallied = trait_pairs(attributes@);
        let status = if image[0] >= RAW_BACKGROUNDS {
            String::from_str("Transmuted")
        } else {
            String::from_str("Raw")
        };
        attributes.push(plain(String::from_str("Alchemical Status"), status));
        assert(trait_pairs(attributes@) =~= tallied.push(("Alchemical Status"@, status@)));
        image_data.append("</svg>");
        let token_uri = match base {
            Some(m) => copy_text(&m.token_uri),
            None => None,
        };
        let kept: Option<&Extension> = match base {
            Some(m) => match &m.extension {
                Some(x) => Some(x),
                None => None,
            },
            None => None,
        };
        let extension = match kept {
            Some(k) => Extension {
                image: copy_text(&k.image),
                image_data: Some(image_data),
                external_url: copy_text(&k.external_url),
                description: copy_text(&k.description),
                name: copy_text(&k.name),
                attributes: Some(attributes),
                background_color: copy_text(&k.background_color),
                animation_url: copy_text(&k.animation_url),
                youtube_url: copy_text(&k.youtube_url),
            },
            None => Extension {
                image: None,
                image_data: Some(image_data),
                external_url: None,
                description: None,
                name: None,
                attributes: Some(attributes),
                background_color: None,
                animation_url: None,
                youtube_url: None,
            },
        };
        Ok(Metadata { token_uri, extension: Some(extension) })
    }
}

/// Where the rendering of the first categories of an image fails, the
/// rendering of more of them fails in the same way.
pub proof fn lemma_render_prefix(m: RegistryModel, image: Seq<u8>, hair: int, n: int, k: int)
    requires
        0 <= n <= k,
    ensures
        render_categories(m, image, hair, n) matches Err(e) ==> render_categories(m, image, hair, k)
            == Err::<Rendering, EngineError>(e),
    decreases k - n,
{
    if n < k {
        lemma_render_prefix(m, image, hair, n + 1, k);
    }
}

} // verus!
