//! The provider manager: what the windows of the shell call.
//!
//! The manager checks a configuration before it lets it reach the registry,
//! and turns what went wrong into a text for the caller.

use crate::config::{ConfigError, Platform, ProviderConfig};
use crate::model::{Acquired, RegistryModel, Released};
use crate::record::{FieldValue, Record};
use crate::registry::{deliveries_match, Delivery, Registry};
use crate::schema::{complete, complete_model, schema};
use vstd::prelude::*;

verus! {

/// What a successful `create` leaves to do.
#[derive(Debug, Clone, Copy, PartialEq, Eq, Structural)]
pub enum Creation {
    /// The window subscribes to an instance that was running already.
    Joined,
    /// The window subscribes to a new instance. Its background computation
    /// is to be started under this handle; if that fails, `start_failed` is
    /// to be told.
    Start(u64),
}

/// Why no provider was created.
#[derive(Debug, PartialEq, Eq)]
pub enum CreateError {
    /// The configuration was not accepted.
    Config(ConfigError),
    /// The provider could not be started; the text says why.
    StartUp(String),
    /// Every handle has been given out.
    Exhausted,
}

impl CreateError {
    /// The text shown to the caller for this error.
    pub open spec fn text(self) -> Seq<char> {
        match self {
            CreateError::Config(e) => e.text(),
            CreateError::StartUp(reason) => reason@,
            CreateError::Exhausted => "no provider handle is left"@,
        }
    }

    pub fn message(&self) -> (s: String)
        ensures
            s@ == self.text(),
    {
        match self {
            CreateError::Config(e) => e.message(),
            CreateError::StartUp(reason) => reason.clone(),
            CreateError::Exhausted => "no provider handle is left".to_owned(),
        }
    }
}

/// What `create` answers on a registry `m`, for a configuration that has the
/// fault `fault`, if any.
pub open spec fn create_result(
    m: RegistryModel,
    fault: Option<ConfigError>,
    identity: Seq<char>,
) -> Result<Creation, CreateError> {
    match fault {
        Some(e) => Err(CreateError::Config(e)),
        None => match m.acquired(identity) {
            Acquired::Joined => Ok(Creation::Joined),
            Acquired::Started(handle) => Ok(Creation::Start(handle)),
            Acquired::Exhausted => Err(CreateError::Exhausted),
        },
    }
}

/// The record that the sample `sample` of the computation `handle` stands
/// for: the sample brought to the schema of the variant of its instance.
pub open spec fn produced(
    m: RegistryModel,
    handle: u64,
    sample: Map<Seq<char>, FieldValue>,
) -> Map<Seq<char>, FieldValue> {
    if m.live(handle) {
        complete_model(schema(m.instances[m.owner(handle)].config.kind_of()), sample)
    } else {
        sample
    }
}

pub struct ProviderManager {
    registry: Registry,
    platform: Platform,
}

impl View for ProviderManager {
    type V = RegistryModel;

    closed spec fn view(&self) -> RegistryModel {
        self.registry@
    }
}

impl ProviderManager {
    pub closed spec fn wf(self) -> bool {
        self.registry.wf()
    }

    /// The platform the manager was made for.
    pub closed spec fn platform(self) -> Platform {
        self.platform
    }

    /// A well-formed manager has a valid registry.
    pub proof fn lemma_valid(self)
        requires
            self.wf(),
        ensures
            self@.valid(),
    {
        self.registry.lemma_valid();
    }

    /// A manager without instances, for the platform `platform`.
    pub fn new(platform: Platform) -> (m: Self)
        ensures
            m.wf(),
            m@ == RegistryModel::empty(),
            m.platform() == platform,
    {
        ProviderManager { registry: Registry::new(), platform }
    }

    /// A manager around `registry`, for the platform `platform`.
    pub fn with_registry(platform: Platform, registry: Registry) -> (m: Self)
        requires
            registry.wf(),
        ensures
            m.wf(),
            m@ == registry@,
            m.platform() == platform,
    {
        ProviderManager { registry, platform }
    }

    /// The registry behind the manager, to look at.
    pub fn registry(&self) -> (r: &Registry)
        requires
            self.wf(),
        ensures
            r.wf(),
            r@ == self@,
    {
        &self.registry
    }

    /// A window asks for the provider `identity`. A configuration with a
    /// fault is turned down and the registry stays as it is; an accepted one
    /// is acquired for the window.
    pub fn create(
        &mut self,
        identity: String,
        config: ProviderConfig,
        wanted: Vec<String>,
        window: String,
    ) -> (r: Result<Creation, CreateError>)
        requires
            old(self).wf(),
        ensures
            final(self).wf(),
            final(self).platform() == old(self).platform(),
            r == create_result(old(self)@, config.fault(old(self).platform()), identity@),
            final(self)@ == (if config.fault(old(self).platform()) is Some {
                old(self)@
            } else {
                old(self)@.acquire(identity@, config, window@, wanted.deep_view())
            }),
    {
        match config.validate(self.platform) {
            Err(e) => Err(CreateError::Config(e)),
            Ok(()) => match self.registry.acquire(identity, config, window, wanted) {
                Acquired::Joined => Ok(Creation::Joined),
                Acquired::Started(handle) => Ok(Creation::Start(handle)),
                Acquired::Exhausted => Err(CreateError::Exhausted),
            },
        }
    }

    /// The background computation `handle` could not be started for the
    /// reason `reason`. The instance recorded for it is taken back, and the
    /// error for the window that asked is returned.
    pub fn start_failed(&mut self, handle: u64, reason: String) -> (e: CreateError)
        requires
            old(self).wf(),
        ensures
            final(self).wf(),
            final(self).platform() == old(self).platform(),
            final(self)@ == old(self)@.abandon(handle),
            e == CreateError::StartUp(reason),
    {
        self.registry.start_failed(handle);
        CreateError::StartUp(reason)
    }

    /// A window gives up the provider `identity`. This never fails: where
    /// the window does not subscribe, nothing happens.
    pub fn destroy(&mut self, identity: &str, window: &str) -> (r: Released)
        requires
            old(self).wf(),
        ensures
            final(self).wf(),
            final(self).platform() == old(self).platform(),
            final(self)@ == old(self)@.release(identity@, window@),
            r == old(self)@.released(identity@, window@),
    {
        self.registry.release(identity, window)
    }

    /// The background computation `handle` produced `sample`. The sample is
    /// brought to the schema of its variant, remembered, and what goes to
    /// which window is returned. A sample from a computation whose instance
    /// is gone reaches nobody.
    pub fn emit(&mut self, handle: u64, sample: Record) -> (out: Vec<Delivery>)
        requires
            old(self).wf(),
            sample.wf(),
        ensures
            final(self).wf(),
            final(self).platform() == old(self).platform(),
            final(self)@ == old(self)@.emit(handle, produced(old(self)@, handle, sample@)),
            deliveries_match(
                out@,
                old(self)@.deliveries(handle, produced(old(self)@, handle, sample@)),
            ),
    {
        match self.registry.kind_of(handle) {
            Some(kind) => {
                let record = complete(kind, &sample);
                self.registry.dispatch(handle, record)
            },
            None => self.registry.dispatch(handle, sample),
        }
    }
}

/// The answer to a window that asked to listen to the provider
/// `config_hash`: what `create` says, with an error as the text to show.
pub fn listen_provider(
    manager: &mut ProviderManager,
    config_hash: String,
    config: ProviderConfig,
    tracked_access: Vec<String>,
    window: String,
) -> (r: Result<Creation, String>)
    requires
        old(manager).wf(),
    ensures
        final(manager).wf(),
        final(manager).platform() == old(manager).platform(),
        final(manager)@ == (if config.fault(old(manager).platform()) is Some {
            old(manager)@
        } else {
            old(manager)@.acquire(config_hash@, config, window@, tracked_access.deep_view())
        }),
        match create_result(old(manager)@, config.fault(old(manager).platform()), config_hash@) {
            Ok(creation) => r == Ok::<Creation, String>(creation),
            Err(e) => r matches Err(text) && text@ == e.text(),
        },
{
    match manager.create(config_hash, config, tracked_access, window) {
        Ok(creation) => Ok(creation),
        Err(e) => Err(e.message()),
    }
}

/// The answer to a window that stops listening to the provider
/// `config_hash`. It is never an error.
pub fn unlisten_provider(manager: &mut ProviderManager, config_hash: &str, window: &str) -> (r: Result<
    Released,
    String,
>)
    requires
        old(manager).wf(),
    ensures
        final(manager).wf(),
        final(manager).platform() == old(manager).platform(),
        final(manager)@ == old(manager)@.release(config_hash@, window@),
        r == Ok::<Released, String>(old(manager)@.released(config_hash@, window@)),
{
    Ok(manager.destroy(config_hash, window))
}

} // verus!
