//! The trait server: the registry, the common metadata and the lists of
//! those who may change or read them.
use crate::auth::{addresses, check_admin, contains_address, has_address, AuthLists};
use crate::error::EngineError;
use crate::metadata::{carries, filtered, token_traits, CommonMetadata, Metadata};
use crate::registry::{
    Action, AddVariantInfo, CategoryInfo, Dependencies, LayerId, Registry, VariantModInfo,
};
use crate::registry::{find_category, StoredLayerId, VariantInfoPlus};
use crate::registry_query::{
    asked_category, category_names, holds_layer, name_view, shows_category, shows_dependencies,
    shows_skull_types, shows_variant, text_views, type_layers, CategoryPage, ServeAlchemy,
    SkullTypePlus, SkullTypeResponse,
};
use crate::dependencies::layer_to_stored;
use crate::transmute::skull_name;
use crate::transmute::transmute_spec;
use vstd::prelude::*;

verus! {

/// The trait server.
#[derive(Clone, Debug, PartialEq, Eq)]
pub struct SvgServer {
    pub auth: AuthLists,
    pub registry: Registry,
    pub metadata: CommonMetadata,
}

impl SvgServer {
    /// The invariant of the server: that of its registry.
    pub open spec fn wf(&self) -> bool {
        self.registry.wf()
    }

    /// Whether an address is a viewer.
    pub open spec fn is_viewer(&self, address: Seq<u8>) -> bool {
        has_address(addresses(self.auth.viewers@), address)
    }

    /// A new server with an empty registry and no metadata. Its creator is
    /// an admin, with the other admins named.
    pub fn instantiate(creator: &Vec<u8>, admins: &Vec<Vec<u8>>) -> (server: SvgServer)
        ensures
            server.wf(),
            server.auth.is_admin(creator@),
            server.registry@.categories.len() == 0,
            server.registry@.dependencies.len() == 0,
            server.metadata.public.is_none(),
            server.metadata.private.is_none(),
            server.auth.viewers@.len() == 0,
            server.auth.minters@.len() == 0,
    {
        let auth = AuthLists::new(creator, admins);
        proof {
            assert(seq![creator@][0] == creator@);
            lemma_with_keeps(seq![creator@], addresses(admins@), creator@);
        }
        SvgServer { auth, registry: Registry::new(), metadata: CommonMetadata::new() }
    }

    /// Adds categories, for an admin.
    pub fn try_add_categories(&mut self, sender: &Vec<u8>, categories: Vec<CategoryInfo>) -> (out:
        Result<u8, EngineError>)
        requires
            old(self).wf(),
        ensures
            final(self).wf(),
            final(self).auth == old(self).auth,
            final(self).metadata == old(self).metadata,
            if !old(self).auth.is_admin(sender@) {
                out == Err::<u8, EngineError>(EngineError::Unauthorized) && *final(self) == *old(self)
            } else {
                match old(self).registry@.add_categories(categories@) {
                    Ok(m) => out == Ok::<u8, EngineError>(m.categories.len() as u8) && final(self).registry@ == m,
                    Err(e) => out == Err::<u8, EngineError>(e) && *final(self) == *old(self),
                }
            },
    {
        match check_admin(&self.auth.admins, sender) {
            Ok(_) => {},
            Err(e) => {
                return Err(e);
            },
        }
        self.registry.add_categories(categories)
    }

    /// Adds variants, for an admin.
    pub fn try_add_variants(&mut self, sender: &Vec<u8>, variants: Vec<AddVariantInfo>) -> (out:
        Result<(), EngineError>)
        requires
            old(self).wf(),
        ensures
            final(self).wf(),
            final(self).auth == old(self).auth,
            final(self).metadata == old(self).metadata,
            if !old(self).auth.is_admin(sender@) {
                out == Err::<(), EngineError>(EngineError::Unauthorized) && *final(self) == *old(self)
            } else {
                match old(self).registry@.add_variants(variants@) {
                    Ok(m) => out.is_ok() && final(self).registry@ == m,
                    Err(e) => out == Err::<(), EngineError>(e) && *final(self) == *old(self),
                }
            },
    {
        match check_admin(&self.auth.admins, sender) {
            Ok(_) => {},
            Err(e) => {
                return Err(e);
            },
        }
        self.registry.add_variants(variants)
    }

    /// Changes the name or the skip mark of a category, for an admin.
    pub fn try_modify_category(
        &mut self,
        sender: &Vec<u8>,
        name: &str,
        new_name: Option<String>,
        new_skip: Option<bool>,
    ) -> (out: Result<(), EngineError>)
        requires
            old(self).wf(),
        ensures
            final(self).wf(),
            final(self).auth == old(self).auth,
            final(self).metadata == old(self).metadata,
            if !old(self).auth.is_admin(sender@) {
                out == Err::<(), EngineError>(EngineError::Unauthorized) && *final(self) == *old(self)
            } else {
                match old(self).registry@.modify_category(name@, new_name, new_skip) {
                    Ok(m) => out.is_ok() && final(self).registry@ == m,
                    Err(e) => out == Err::<(), EngineError>(e) && *final(self) == *old(self),
                }
            },
    {
        match check_admin(&self.auth.admins, sender) {
            Ok(_) => {},
            Err(e) => {
                return Err(e);
            },
        }
        self.registry.modify_category(name, new_name, new_skip)
    }

    /// Replaces variants, for an admin.
    pub fn try_modify_variants(&mut self, sender: &Vec<u8>, modifications: Vec<VariantModInfo>) -> (out:
        Result<(), EngineError>)
        requires
            old(self).wf(),
        ensures
            final(self).wf(),
            final(self).auth == old(self).auth,
            final(self).metadata == old(self).metadata,
            if !old(self).auth.is_admin(sender@) {
                out == Err::<(), EngineError>(EngineError::Unauthorized) && *final(self) == *old(self)
            } else {
                match old(self).registry@.modify_variants(modifications@) {
                    Ok(m) => out.is_ok() && final(self).registry@ == m,
                    Err(e) => out == Err::<(), EngineError>(e) && *final(self) == *old(self),
                }
            },
    {
        match check_admin(&self.auth.admins, sender) {
            Ok(_) => {},
            Err(e) => {
                return Err(e);
            },
        }
        self.registry.modify_variants(modifications)
    }

    /// Adds, removes or modifies dependencies, for an admin.
    pub fn try_process_dep_list(
        &mut self,
        sender: &Vec<u8>,
        update_list: &Vec<Dependencies>,
        action: Action,
    ) -> (out: Result<(), EngineError>)
        requires
            old(self).wf(),
        ensures
            final(self).wf(),
            final(self).auth == old(self).auth,
            final(self).metadata == old(self).metadata,
            if !old(self).auth.is_admin(sender@) {
                out == Err::<(), EngineError>(EngineError::Unauthorized) && *final(self) == *old(self)
            } else {
                match old(self).registry@.process_dep_list(update_list@, action) {
                    Ok(m) => out.is_ok() && final(self).registry@ == m,
                    Err(e) => out == Err::<(), EngineError>(e) && *final(self) == *old(self),
                }
            },
    {
        match check_admin(&self.auth.admins, sender) {
            Ok(_) => {},
            Err(e) => {
                return Err(e);
            },
        }
        self.registry.process_dep_list(update_list, action)
    }

    /// Sets the metadata common to all tokens, for an admin.
    pub fn try_set_metadata(
        &mut self,
        sender: &Vec<u8>,
        public_metadata: Option<Metadata>,
        private_metadata: Option<Metadata>,
    ) -> (out: Result<(), EngineError>)
        ensures
            final(self).auth == old(self).auth,
            final(self).registry == old(self).registry,
            match out {
                Ok(_) => {
                    &&& old(self).auth.is_admin(sender@)
                    &&& final(self).metadata.public == (match public_metadata {
                        Some(m) => filtered(m).unwrap(),
                        None => old(self).metadata.public,
                    })
                    &&& final(self).metadata.private == (match private_metadata {
                        Some(m) => filtered(m).unwrap(),
                        None => old(self).metadata.private,
                    })
                },
                Err(e) => *final(self) == *old(self) && (if !old(self).auth.is_admin(sender@) {
                    e == EngineError::Unauthorized
                } else {
                    e == EngineError::Malformed && ((public_metadata matches Some(m) && filtered(
                        m,
                    ).is_err()) || (private_metadata matches Some(m) && filtered(m).is_err()))
                }),
            },
            old(self).auth.is_admin(sender@) && (public_metadata matches Some(m) ==> filtered(
                m,
            ).is_ok()) && (private_metadata matches Some(m) ==> filtered(m).is_ok())
                ==> out.is_ok(),
    {
        match check_admin(&self.auth.admins, sender) {
            Ok(_) => {},
            Err(e) => {
                return Err(e);
            },
        }
        self.metadata.set_metadata(public_metadata, private_metadata)
    }

    /// The image after transmuting, for a viewer.
    pub fn query_transmute(&self, querier: &Vec<u8>, current: Vec<u8>, new_layers: &Vec<LayerId>) -> (out:
        Result<Vec<u8>, EngineError>)
        requires
            self.wf(),
        ensures
            if !self.is_viewer(querier@) {
                out == Err::<Vec<u8>, EngineError>(EngineError::Unauthorized)
            } else {
                match out {
                    Ok(image) => transmute_spec(self.registry@, current@, new_layers@) == Ok::<
                        Seq<u8>,
                        EngineError,
                    >(image@),
                    Err(e) => transmute_spec(self.registry@, current@, new_layers@) == Err::<
                        Seq<u8>,
                        EngineError,
                    >(e),
                }
            },
    {
        if !contains_address(&self.auth.viewers, querier) {
            return Err(EngineError::Unauthorized);
        }
        self.registry.transmute(current, new_layers)
    }

    /// Whether a skull is a cyclops and whether it has no jaw, for a viewer.
    pub fn query_skull_type(&self, querier: &Vec<u8>, image: &Vec<u8>) -> (out: Result<
        SkullTypeResponse,
        EngineError,
    >)
        requires
            self.wf(),
        ensures
            if !self.is_viewer(querier@) {
                out == Err::<SkullTypeResponse, EngineError>(EngineError::Unauthorized)
            } else {
                match type_layers(self.registry@) {
                    Err(e) => out == Err::<SkullTypeResponse, EngineError>(e),
                    Ok((cyclops, jawless)) => if jawless.category < image@.len()
                        && cyclops.category < image@.len() {
                        out == Ok::<SkullTypeResponse, EngineError>(
                            SkullTypeResponse {
                                is_cyclops: holds_layer(image@, cyclops),
                                is_jawless: holds_layer(image@, jawless),
                            },
                        )
                    } else {
                        out == Err::<SkullTypeResponse, EngineError>(EngineError::ImageTooShort)
                    },
                }
            },
    {
        if !contains_address(&self.auth.viewers, querier) {
            return Err(EngineError::Unauthorized);
        }
        self.registry.skull_type(image)
    }

    /// The public metadata of a token with an image, for a viewer, a minter
    /// or an admin.
    pub fn query_token_metadata(&self, querier: &Vec<u8>, image: &Vec<u8>) -> (out: Result<
        Metadata,
        EngineError,
    >)
        requires
            self.wf(),
        ensures
            if !self.auth.may_read(querier@) {
                out == Err::<Metadata, EngineError>(EngineError::Unauthorized)
            } else {
                match out {
                    Ok(public) => token_traits(self.registry@, image@) matches Ok((data, traits))
                        && carries(public, self.metadata.public, data, traits),
                    Err(e) => token_traits(self.registry@, image@) == Err::<
                        (Seq<char>, Seq<(Seq<char>, Seq<char>)>),
                        EngineError,
                    >(e),
                }
            },
    {
        if !self.auth.can_read(querier) {
            return Err(EngineError::Unauthorized);
        }
        self.registry.token_metadata(&self.metadata.public, image)
    }
}

/// An address of a list stays on it when more are added.
pub proof fn lemma_with_keeps(list: Seq<Seq<u8>>, more: Seq<Seq<u8>>, address: Seq<u8>)
    requires
        has_address(list, address),
    ensures
        has_address(crate::auth::with_addresses(list, more), address),
    decreases more.len(),
{
    if more.len() > 0 {
        lemma_with_keeps(list, more.drop_last(), address);
        let head = crate::auth::with_addresses(list, more.drop_last());
        let i = choose|i: int| 0 <= i < head.len() && head[i] == address;
        if !has_address(head, more.last()) {
            assert(head.push(more.last())[i] == address);
        }
    }
}

impl SvgServer {
    /// Whether an address may read the common metadata: minters, viewers
    /// and admins may.
    pub fn query_common_metadata(&self, querier: &Vec<u8>) -> (out: Result<
        &CommonMetadata,
        EngineError,
    >)
        ensures
            match out {
                Ok(metadata) => self.auth.may_read(querier@) && *metadata == self.metadata,
                Err(e) => !self.auth.may_read(querier@) && e == EngineError::Unauthorized,
            },
    {
        if !self.auth.can_read(querier) {
            return Err(EngineError::Unauthorized);
        }
        Ok(&self.metadata)
    }

    /// The classifying layers and the skull materials, for a viewer.
    pub fn query_type_plus(&self, querier: &Vec<u8>) -> (out: Result<SkullTypePlus, EngineError>)
        requires
            self.wf(),
        ensures
            !self.is_viewer(querier@) ==> out == Err::<SkullTypePlus, EngineError>(
                EngineError::Unauthorized,
            ),
            self.is_viewer(querier@) ==> (match out {
                Ok(p) => shows_skull_types(self.registry@, p),
                Err(e) => match type_layers(self.registry@) {
                    Err(f) => e == f,
                    Ok(_) => e == EngineError::UnknownCategory && find_category(
                        self.registry@.categories,
                        skull_name(),
                    ).is_none(),
                },
            }),
    {
        if !contains_address(&self.auth.viewers, querier) {
            return Err(EngineError::Unauthorized);
        }
        self.registry.type_plus()
    }

    /// The skip list, the dependencies and the names of the categories, for
    /// a viewer.
    pub fn query_serve_alchemy(&self, querier: &Vec<u8>) -> (out: Result<ServeAlchemy, EngineError>)
        requires
            self.wf(),
        ensures
            match out {
                Ok(served) => self.is_viewer(querier@) && served.skip@ == self.registry@.skip
                    && crate::dependencies::dependency_models(served.dependencies@)
                    == self.registry@.dependencies && text_views(served.category_names@)
                    == category_names(
                    self.registry@,
                    self.registry@.categories.len() as int,
                ),
                Err(e) => !self.is_viewer(querier@) && e == EngineError::Unauthorized,
            },
    {
        if !contains_address(&self.auth.viewers, querier) {
            return Err(EngineError::Unauthorized);
        }
        Ok(self.registry.serve_alchemy())
    }

    /// The number of categories and the names of the skipped ones, for an
    /// admin.
    pub fn query_state(&self, querier: &Vec<u8>) -> (out: Result<(u8, Vec<String>), EngineError>)
        requires
            self.wf(),
        ensures
            match out {
                Ok(shown) => {
                    &&& self.auth.is_admin(querier@)
                    &&& shown.0 == self.registry@.categories.len()
                    &&& shown.1@.len() == self.registry@.skip.len()
                    &&& forall|s: int|
                        0 <= s < self.registry@.skip.len() ==> (#[trigger] shown.1@[s])@
                            == self.registry@.categories[self.registry@.skip[s] as int].name@
                },
                Err(e) => !self.auth.is_admin(querier@) && e == EngineError::Unauthorized,
            },
    {
        match check_admin(&self.auth.admins, querier) {
            Ok(_) => {},
            Err(e) => {
                return Err(e);
            },
        }
        Ok(self.registry.state_names())
    }

    /// The number of dependencies and a page of them, for an admin.
    pub fn query_dependencies(&self, querier: &Vec<u8>, start_at: Option<u16>, limit: Option<u16>) -> (out:
        Result<(usize, Vec<Dependencies>), EngineError>)
        requires
            self.wf(),
        ensures
            match out {
                Ok(page) => self.auth.is_admin(querier@) && shows_dependencies(
                    self.registry@,
                    start_at,
                    limit,
                    page,
                ),
                Err(e) => !self.auth.is_admin(querier@) && e == EngineError::Unauthorized,
            },
    {
        match check_admin(&self.auth.admins, querier) {
            Ok(_) => {},
            Err(e) => {
                return Err(e);
            },
        }
        Ok(self.registry.dependencies_page(start_at, limit))
    }

    /// A variant, for an admin: the one of the indices, else the one of the
    /// names. Returns the index of its category with it.
    pub fn query_variant(
        &self,
        querier: &Vec<u8>,
        by_name: &Option<LayerId>,
        by_index: Option<StoredLayerId>,
        display_svg: Option<bool>,
    ) -> (out: Result<(u8, VariantInfoPlus), EngineError>)
        requires
            self.wf(),
        ensures
            if !self.auth.is_admin(querier@) {
                out == Err::<(u8, VariantInfoPlus), EngineError>(EngineError::Unauthorized)
            } else {
                let asked: Result<StoredLayerId, EngineError> = match by_index {
                    Some(id) => Ok(id),
                    None => match by_name {
                        Some(layer) => layer_to_stored(self.registry@, *layer),
                        None => Err(EngineError::BadInput),
                    },
                };
                match asked {
                    Err(e) => out == Err::<(u8, VariantInfoPlus), EngineError>(e),
                    Ok(id) => if self.registry@.has_layer(id) {
                        out matches Ok(shown) && shown.0 == id.category && shows_variant(
                            self.registry@,
                            id,
                            display_svg == Some(true),
                            shown.1,
                        )
                    } else {
                        out == Err::<(u8, VariantInfoPlus), EngineError>(
                            EngineError::StorageCorrupt,
                        )
                    },
                }
            },
    {
        match check_admin(&self.auth.admins, querier) {
            Ok(_) => {},
            Err(e) => {
                return Err(e);
            },
        }
        let svgs = match display_svg {
            Some(b) => b,
            None => false,
        };
        let id = match by_index {
            Some(id) => id,
            None => match by_name {
                Some(layer) => match layer.to_stored(&self.registry) {
                    Ok(id) => id,
                    Err(e) => {
                        return Err(e);
                    },
                },
                None => {
                    return Err(EngineError::BadInput);
                },
            },
        };
        match self.registry.displ_variant(&id, svgs) {
            Ok(plus) => Ok((id.category, plus)),
            Err(e) => Err(e),
        }
    }

    /// A category and a page of its variants, for an admin.
    pub fn query_category(
        &self,
        querier: &Vec<u8>,
        name: Option<&str>,
        index: Option<u8>,
        start_at: Option<u8>,
        limit: Option<u8>,
        display_svg: Option<bool>,
    ) -> (out: Result<CategoryPage, EngineError>)
        requires
            self.wf(),
        ensures
            !self.auth.is_admin(querier@) ==> out == Err::<CategoryPage, EngineError>(
                EngineError::Unauthorized,
            ),
            self.auth.is_admin(querier@) ==> (match out {
                Ok(p) => shows_category(
                    self.registry@,
                    name_view(name),
                    index,
                    start_at,
                    limit,
                    display_svg,
                    p,
                ),
                Err(e) => asked_category(self.registry@, name_view(name), index) == Err::<
                    int,
                    EngineError,
                >(e),
            }),
    {
        match check_admin(&self.auth.admins, querier) {
            Ok(_) => {},
            Err(e) => {
                return Err(e);
            },
        }
        self.registry.category_page(name, index, start_at, limit, display_svg)
    }
}

} // verus!
