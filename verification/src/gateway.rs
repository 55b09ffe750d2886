//! The control-plane gateway: request/response operations that manage
//! subscription lifecycle.
//!
//! Every operation validates the "subscriptions enabled" feature flag first
//! and fails with a client-error classification when it is off, regardless
//! of the payload; only then does it delegate to the registry. The gateway
//! holds its collaborators as explicit fields rather than fetching them from
//! ambient request context; the surrounding process decides on which
//! execution context a call runs.

use vstd::prelude::*;
use crate::EventKind;
use crate::registry::Registry;
use crate::schema::Subscription;

verus! {

/// The configuration the gateway consults.
pub struct ServerConfig {
    /// Whether the subscription control plane is enabled at all.
    pub enable_subscriptions: bool,
}

/// The response classification of a failed control-plane operation.
#[derive(Clone, Copy, Debug, PartialEq, Eq, Structural)]
pub enum ServerError {
    /// A client error: the feature is disabled, or the payload is invalid.
    BadRequest,
    /// The identified subscription does not exist.
    NotFound,
    /// An unexpected internal failure.
    Internal,
}

/// The control-plane gateway over the subscription registry.
pub struct Server {
    pub config: ServerConfig,
    pub registry: Registry,
}

/// A subscription payload is valid when it asks for at least one event
/// kind; registering interest in nothing is a client error.
pub open spec fn valid_payload(kinds: Seq<EventKind>) -> bool {
    kinds.len() > 0
}

impl Server {
    /// A gateway over an empty registry.
    pub fn new(config: ServerConfig) -> (r: Server)
        ensures
            r.registry.wf(),
            r.registry.can_assign(),
            r.registry@ == Map::<u128, Seq<EventKind>>::empty(),
            r.config == config,
    {
        Server { config, registry: Registry::new() }
    }

    /// Lists all subscriptions.
    pub fn subscriptions(&self) -> (r: Result<Vec<Subscription>, ServerError>)
        requires
            self.registry.wf(),
        ensures
            !self.config.enable_subscriptions ==> r == Err::<Vec<Subscription>, ServerError>(
                ServerError::BadRequest,
            ),
            self.config.enable_subscriptions ==> match r {
                Ok(subs) => {
                    &&& forall|i: int|
                        0 <= i < subs@.len() ==> self.registry@.contains_key(
                            #[trigger] subs@[i].id,
                        ) && subs@[i].kinds@ == self.registry@[subs@[i].id]
                    &&& forall|i: int, j: int|
                        0 <= i < j < subs@.len() ==> subs@[i].id != subs@[j].id
                    &&& forall|id: u128|
                        self.registry@.contains_key(id) ==> exists|i: int|
                            0 <= i < subs@.len() && #[trigger] subs@[i].id == id
                },
                Err(_) => false,
            },
    {
        if !self.config.enable_subscriptions {
            return Err(ServerError::BadRequest);
        }
        let subs = self.registry.list();
        assert(forall|i: int|
            0 <= i < subs@.len() ==> self.registry@.contains_key(#[trigger] subs@[i].id)
                && subs@[i].kinds@ == self.registry@[subs@[i].id]);
        assert(forall|i: int, j: int| 0 <= i < j < subs@.len() ==> subs@[i].id != subs@[j].id);
        assert(forall|id: u128|
            self.registry@.contains_key(id) ==> exists|i: int|
                0 <= i < subs@.len() && #[trigger] subs@[i].id == id);
        Ok(subs)
    }

    /// Gets one subscription by its identifier.
    pub fn get_subscription(&self, id: u128) -> (r: Result<Subscription, ServerError>)
        requires
            self.registry.wf(),
        ensures
            !self.config.enable_subscriptions ==> r == Err::<Subscription, ServerError>(
                ServerError::BadRequest,
            ),
            self.config.enable_subscriptions ==> match r {
                Ok(s) => self.registry@.contains_key(id) && s.id == id && s.kinds@
                    == self.registry@[id],
                Err(e) => e == ServerError::NotFound && !self.registry@.contains_key(id),
            },
    {
        if !self.config.enable_subscriptions {
            return Err(ServerError::BadRequest);
        }
        match self.registry.get(id) {
            Some(s) => Ok(s),
            None => Err(ServerError::NotFound),
        }
    }

    /// Creates a subscription from a submitted filter payload and returns
    /// the created record, with its assigned identifier.
    pub fn add_subscription(&mut self, kinds: Vec<EventKind>) -> (r: Result<
        Subscription,
        ServerError,
    >)
        requires
            old(self).registry.wf(),
        ensures
            final(self).config == old(self).config,
            final(self).registry.wf(),
            !old(self).config.enable_subscriptions ==> r == Err::<Subscription, ServerError>(
                ServerError::BadRequest,
            ) && final(self).registry@ == old(self).registry@,
            old(self).config.enable_subscriptions && !valid_payload(kinds@) ==> r == Err::<
                Subscription,
                ServerError,
            >(ServerError::BadRequest) && final(self).registry@ == old(self).registry@,
            old(self).config.enable_subscriptions && valid_payload(kinds@) && old(
                self,
            ).registry.can_assign() ==> match r {
                Ok(s) => {
                    &&& !old(self).registry@.contains_key(s.id)
                    &&& s.kinds@ == kinds@
                    &&& final(self).registry@ == old(self).registry@.insert(s.id, kinds@)
                },
                Err(_) => false,
            },
            old(self).config.enable_subscriptions && valid_payload(kinds@) && !old(
                self,
            ).registry.can_assign() ==> r == Err::<Subscription, ServerError>(
                ServerError::Internal,
            ) && final(self).registry@ == old(self).registry@,
    {
        if !self.config.enable_subscriptions {
            return Err(ServerError::BadRequest);
        }
        if kinds.len() == 0 {
            return Err(ServerError::BadRequest);
        }
        match self.registry.insert_sub(kinds) {
            Some(s) => Ok(s),
            None => Err(ServerError::Internal),
        }
    }

    /// Deletes a subscription by its identifier.
    pub fn delete_subscription(&mut self, id: u128) -> (r: Result<(), ServerError>)
        requires
            old(self).registry.wf(),
        ensures
            final(self).config == old(self).config,
            final(self).registry.wf(),
            !old(self).config.enable_subscriptions ==> r == Err::<(), ServerError>(
                ServerError::BadRequest,
            ) && final(self).registry@ == old(self).registry@,
            old(self).config.enable_subscriptions ==> final(self).registry@ == old(
                self,
            ).registry@.remove(id) && r == (if old(self).registry@.contains_key(id) {
                Ok::<(), ServerError>(())
            } else {
                Err::<(), ServerError>(ServerError::NotFound)
            }),
    {
        if !self.config.enable_subscriptions {
            return Err(ServerError::BadRequest);
        }
        if self.registry.remove_sub(id) {
            Ok(())
        } else {
            Err(ServerError::NotFound)
        }
    }
}

/// Subscription lifecycle, stated over the registry's map model: a created
/// subscription is retrievable by its assigned identifier and reads back
/// equal, and once deleted it is gone.
pub proof fn lemma_subscription_lifecycle(
    m: Map<u128, Seq<EventKind>>,
    id: u128,
    kinds: Seq<EventKind>,
)
    requires
        !m.contains_key(id),
    ensures
        m.insert(id, kinds).contains_key(id),
        m.insert(id, kinds)[id] == kinds,
        !m.insert(id, kinds).remove(id).contains_key(id),
        m.insert(id, kinds).remove(id) == m,
{
    assert(m.insert(id, kinds).remove(id) =~= m);
}

} // verus!
