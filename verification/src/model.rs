//! The registry as mathematics: which instances live, who subscribes to
//! them, and how the registry's operations change that.
//!
//! The executable registry states its contracts over this model. Identities,
//! window names and field names appear as the text they hold.

use crate::config::ProviderConfig;
use crate::filter::filter_model;
use crate::record::FieldValue;
use crate::schema::{keep_known, lemma_keep_known, schema, within};
use vstd::prelude::*;

verus! {

/// What acquiring an identity for a window led to.
#[derive(Debug, Clone, Copy, PartialEq, Eq, Structural)]
pub enum Acquired {
    /// An instance was there; the window subscribes to it and nothing is to
    /// be started.
    Joined,
    /// A new instance was recorded under this handle. Its background
    /// computation is to be started now.
    Started(u64),
    /// No instance was there and every handle has been given out. Nothing
    /// was recorded.
    Exhausted,
}

/// What releasing an identity for a window led to.
#[derive(Debug, Clone, Copy, PartialEq, Eq, Structural)]
pub enum Released {
    /// The window did not subscribe to the identity. Nothing changed.
    Absent,
    /// The window left; other subscribers keep the instance alive.
    Remaining,
    /// The last subscriber left and the instance is gone. The background
    /// computation with this handle is to be stopped now.
    Stopped(u64),
}

/// One live provider instance.
pub struct InstanceModel {
    /// Names the background computation of the instance.
    pub handle: u64,
    pub config: ProviderConfig,
    /// The subscribing windows, each with the field names it asked for,
    /// as far as the records of the instance have them.
    pub subscribers: Map<Seq<char>, Seq<Seq<char>>>,
    /// The last record the instance produced, if it produced one.
    pub latest: Option<Map<Seq<char>, FieldValue>>,
}

/// The registry: the live instances by identity, and the next free handle.
pub struct RegistryModel {
    pub instances: Map<Seq<char>, InstanceModel>,
    pub next_handle: int,
}

impl RegistryModel {
    pub open spec fn empty() -> Self {
        RegistryModel { instances: Map::empty(), next_handle: 0 }
    }

    /// An instance lives under `identity`.
    pub open spec fn has(self, identity: Seq<char>) -> bool {
        self.instances.dom().contains(identity)
    }

    /// `window` subscribes to the instance under `identity`.
    pub open spec fn subscribed(self, identity: Seq<char>, window: Seq<char>) -> bool {
        self.has(identity) && self.instances[identity].subscribers.dom().contains(window)
    }

    /// The instance under `identity` lives and has the handle `handle`.
    pub open spec fn runs(self, identity: Seq<char>, handle: u64) -> bool {
        self.has(identity) && self.instances[identity].handle == handle
    }

    /// Some live instance has the handle `handle`.
    pub open spec fn live(self, handle: u64) -> bool {
        exists|identity: Seq<char>| self.runs(identity, handle)
    }

    /// The identity whose instance has the handle `handle`.
    pub open spec fn owner(self, handle: u64) -> Seq<char> {
        choose|identity: Seq<char>| self.runs(identity, handle)
    }

    /// `handle` was given out and its instance is gone.
    pub open spec fn retired(self, handle: u64) -> bool {
        handle < self.next_handle && !self.live(handle)
    }

    /// What holds of every registry: finitely many instances, each with at
    /// least one subscriber and with a handle of its own that was given out
    /// before; and no subscriber holds a field name that the records of its
    /// instance lack.
    pub open spec fn valid(self) -> bool {
        &&& self.instances.dom().finite()
        &&& 0 <= self.next_handle <= u64::MAX
        &&& forall|identity: Seq<char>| #[trigger]
            self.has(identity) ==> {
                &&& self.instances[identity].handle < self.next_handle
                &&& self.instances[identity].subscribers.dom().finite()
                &&& exists|window: Seq<char>| self.subscribed(identity, window)
            }
        &&& forall|identity: Seq<char>, window: Seq<char>| #[trigger]
            self.subscribed(identity, window) ==> within(
                schema(self.instances[identity].config.kind_of()),
                self.instances[identity].subscribers[window],
            )
        &&& forall|a: Seq<char>, b: Seq<char>|
            self.has(a) && self.has(b) && self.instances[a].handle == self.instances[b].handle
                ==> a == b
    }

    /// The registry after `window` asked for `identity` with the field names
    /// `wanted`. An instance that is there gains or updates the subscriber
    /// and keeps its configuration; otherwise a new instance with `config`
    /// and the next handle is recorded, as long as a handle is left. Of the
    /// names, those that the records of the instance have are kept.
    pub open spec fn acquire(
        self,
        identity: Seq<char>,
        config: ProviderConfig,
        window: Seq<char>,
        wanted: Seq<Seq<char>>,
    ) -> Self {
        if self.has(identity) {
            let instance = self.instances[identity];
            RegistryModel {
                instances: self.instances.insert(
                    identity,
                    InstanceModel {
                        subscribers: instance.subscribers.insert(
                            window,
                            keep_known(schema(instance.config.kind_of()), wanted),
                        ),
                        ..instance
                    },
                ),
                ..self
            }
        } else if self.next_handle >= u64::MAX {
            self
        } else {
            RegistryModel {
                instances: self.instances.insert(
                    identity,
                    InstanceModel {
                        handle: self.next_handle as u64,
                        config,
                        subscribers: Map::<Seq<char>, Seq<Seq<char>>>::empty().insert(
                            window,
                            keep_known(schema(config.kind_of()), wanted),
                        ),
                        latest: None,
                    },
                ),
                next_handle: self.next_handle + 1,
            }
        }
    }

    /// What acquiring `identity` reports.
    pub open spec fn acquired(self, identity: Seq<char>) -> Acquired {
        if self.has(identity) {
            Acquired::Joined
        } else if self.next_handle >= u64::MAX {
            Acquired::Exhausted
        } else {
            Acquired::Started(self.next_handle as u64)
        }
    }

    /// `window` is the only subscriber of the instance under `identity`.
    pub open spec fn last_subscriber(self, identity: Seq<char>, window: Seq<char>) -> bool {
        self.subscribed(identity, window) && self.instances[identity].subscribers.remove(
            window,
        ).dom() =~= Set::<Seq<char>>::empty()
    }

    /// The registry after `window` gave up `identity`. A window that does
    /// not subscribe changes nothing; the last subscriber takes the instance
    /// with it.
    pub open spec fn release(self, identity: Seq<char>, window: Seq<char>) -> Self {
        if !self.subscribed(identity, window) {
            self
        } else if self.last_subscriber(identity, window) {
            RegistryModel { instances: self.instances.remove(identity), ..self }
        } else {
            let instance = self.instances[identity];
            RegistryModel {
                instances: self.instances.insert(
                    identity,
                    InstanceModel { subscribers: instance.subscribers.remove(window), ..instance },
                ),
                ..self
            }
        }
    }

    /// What releasing `identity` for `window` reports.
    pub open spec fn released(self, identity: Seq<char>, window: Seq<char>) -> Released {
        if !self.subscribed(identity, window) {
            Released::Absent
        } else if self.last_subscriber(identity, window) {
            Released::Stopped(self.instances[identity].handle)
        } else {
            Released::Remaining
        }
    }

    /// The registry after the computation `handle` failed to start: its
    /// instance, if one lives, is gone with all its subscribers.
    pub open spec fn abandon(self, handle: u64) -> Self {
        RegistryModel {
            instances: Map::new(
                |identity: Seq<char>| self.has(identity) && self.instances[identity].handle != handle,
                |identity: Seq<char>| self.instances[identity],
            ),
            ..self
        }
    }

    /// The registry after the computation `handle` produced `record`: its
    /// instance, if one lives, remembers the record.
    pub open spec fn emit(self, handle: u64, record: Map<Seq<char>, FieldValue>) -> Self {
        RegistryModel {
            instances: Map::new(
                |identity: Seq<char>| self.has(identity),
                |identity: Seq<char>|
                    if self.instances[identity].handle == handle {
                        InstanceModel { latest: Some(record), ..self.instances[identity] }
                    } else {
                        self.instances[identity]
                    },
            ),
            ..self
        }
    }

    /// What each window is sent when the computation `handle` produces
    /// `record`: every subscriber of its instance gets the fields it asked
    /// for; a handle without a live instance reaches nobody.
    pub open spec fn deliveries(self, handle: u64, record: Map<Seq<char>, FieldValue>) -> Map<
        Seq<char>,
        Map<Seq<char>, FieldValue>,
    > {
        if self.live(handle) {
            let subscribers = self.instances[self.owner(handle)].subscribers;
            Map::new(
                |window: Seq<char>| subscribers.dom().contains(window),
                |window: Seq<char>| filter_model(record, subscribers[window]),
            )
        } else {
            Map::empty()
        }
    }
}

/// In a valid registry a live handle belongs to one identity only.
pub proof fn lemma_owner(m: RegistryModel, identity: Seq<char>)
    requires
        m.valid(),
        m.has(identity),
    ensures
        m.live(m.instances[identity].handle),
        m.owner(m.instances[identity].handle) == identity,
{
    let handle = m.instances[identity].handle;
    assert(m.runs(identity, handle));
    let other = m.owner(handle);
    assert(m.runs(other, handle));
}

/// A handle without a live instance has nothing to abandon and nobody to
/// remember its record or to receive it.
pub proof fn lemma_not_live(m: RegistryModel, handle: u64, record: Map<Seq<char>, FieldValue>)
    requires
        !m.live(handle),
    ensures
        m.abandon(handle) == m,
        m.emit(handle, record) == m,
        m.deliveries(handle, record) == Map::<Seq<char>, Map<Seq<char>, FieldValue>>::empty(),
{
    assert forall|identity: Seq<char>| m.has(identity) implies m.instances[identity].handle
        != handle by {
        if m.instances[identity].handle == handle {
            assert(m.runs(identity, handle));
        }
    }
    assert(m.abandon(handle).instances =~= m.instances);
    assert(m.emit(handle, record).instances =~= m.instances);
}

/// In a valid registry, abandoning the handle of an instance takes out that
/// instance and no other, and a record from that handle is remembered by
/// that instance and no other and goes to its subscribers.
pub proof fn lemma_live(m: RegistryModel, identity: Seq<char>, record: Map<Seq<char>, FieldValue>)
    requires
        m.valid(),
        m.has(identity),
    ensures
        m.abandon(m.instances[identity].handle).instances == m.instances.remove(identity),
        m.emit(m.instances[identity].handle, record).instances == m.instances.insert(
            identity,
            InstanceModel { latest: Some(record), ..m.instances[identity] },
        ),
        m.deliveries(m.instances[identity].handle, record).dom()
            == m.instances[identity].subscribers.dom(),
        forall|window: Seq<char>| #[trigger]
            m.subscribed(identity, window) ==> m.deliveries(
                m.instances[identity].handle,
                record,
            )[window] == filter_model(record, m.instances[identity].subscribers[window]),
{
    let handle = m.instances[identity].handle;
    lemma_owner(m, identity);
    assert(m.deliveries(handle, record).dom() =~= m.instances[identity].subscribers.dom());
    let abandoned = m.abandon(handle).instances;
    assert forall|other: Seq<char>| abandoned.dom().contains(other) <==> m.instances.remove(
        identity,
    ).dom().contains(other) by {
        if m.has(other) && other != identity {
            assert(m.has(identity));
            assert(m.instances[other].handle != handle);
        }
    }
    assert(abandoned =~= m.instances.remove(identity));
    assert(m.emit(handle, record).instances =~= m.instances.insert(
        identity,
        InstanceModel { latest: Some(record), ..m.instances[identity] },
    ));
}

/// The empty registry is valid.
pub proof fn lemma_empty_valid()
    ensures
        RegistryModel::empty().valid(),
{
}

/// Acquiring keeps a registry valid.
pub proof fn lemma_acquire_valid(
    m: RegistryModel,
    identity: Seq<char>,
    config: ProviderConfig,
    window: Seq<char>,
    wanted: Seq<Seq<char>>,
)
    requires
        m.valid(),
    ensures
        m.acquire(identity, config, window, wanted).valid(),
{
    let after = m.acquire(identity, config, window, wanted);
    lemma_keep_known(schema(config.kind_of()), wanted);
    if m.has(identity) {
        lemma_keep_known(schema(m.instances[identity].config.kind_of()), wanted);
    }
    assert forall|id: Seq<char>, w: Seq<char>| #[trigger] after.subscribed(id, w) implies within(
        schema(after.instances[id].config.kind_of()),
        after.instances[id].subscribers[w],
    ) by {
        if !(id == identity && w == window) {
            assert(m.subscribed(id, w));
        }
    }
    assert forall|id: Seq<char>| #[trigger] after.has(id) implies {
        &&& after.instances[id].handle < after.next_handle
        &&& after.instances[id].subscribers.dom().finite()
        &&& exists|w: Seq<char>| after.subscribed(id, w)
    } by {
        if id == identity {
            assert(after.subscribed(id, window));
        } else {
            assert(m.has(id));
            let w = choose|w: Seq<char>| m.subscribed(id, w);
            assert(after.subscribed(id, w));
        }
    }
    assert forall|a: Seq<char>, b: Seq<char>|
        after.has(a) && after.has(b) && after.instances[a].handle == after.instances[b].handle implies a
        == b by {
        if a != identity {
            assert(m.has(a));
        }
        if b != identity {
            assert(m.has(b));
        }
    }
}

/// Releasing keeps a registry valid.
pub proof fn lemma_release_valid(m: RegistryModel, identity: Seq<char>, window: Seq<char>)
    requires
        m.valid(),
    ensures
        m.release(identity, window).valid(),
{
    let after = m.release(identity, window);
    assert forall|id: Seq<char>, w: Seq<char>| #[trigger] after.subscribed(id, w) implies within(
        schema(after.instances[id].config.kind_of()),
        after.instances[id].subscribers[w],
    ) by {
        assert(m.subscribed(id, w));
    }
    assert forall|id: Seq<char>| #[trigger] after.has(id) implies {
        &&& after.instances[id].handle < after.next_handle
        &&& after.instances[id].subscribers.dom().finite()
        &&& exists|w: Seq<char>| after.subscribed(id, w)
    } by {
        assert(m.has(id));
        if id == identity && m.subscribed(identity, window) {
            let rest = m.instances[identity].subscribers.remove(window);
            assert(!(rest.dom() =~= Set::<Seq<char>>::empty()));
            let w = choose|w: Seq<char>| rest.dom().contains(w);
            assert(rest.dom().contains(w));
            assert(after.subscribed(id, w));
        } else {
            let w = choose|w: Seq<char>| m.subscribed(id, w);
            assert(after.subscribed(id, w));
        }
    }
    assert forall|a: Seq<char>, b: Seq<char>|
        after.has(a) && after.has(b) && after.instances[a].handle == after.instances[b].handle implies a
        == b by {
        assert(m.has(a));
        assert(m.has(b));
    }
}

/// Abandoning a start keeps a registry valid.
pub proof fn lemma_abandon_valid(m: RegistryModel, handle: u64)
    requires
        m.valid(),
    ensures
        m.abandon(handle).valid(),
{
    let after = m.abandon(handle);
    assert(after.instances.dom().subset_of(m.instances.dom()));
    vstd::set_lib::lemma_set_subset_finite(m.instances.dom(), after.instances.dom());
    assert forall|id: Seq<char>, w: Seq<char>| #[trigger] after.subscribed(id, w) implies within(
        schema(after.instances[id].config.kind_of()),
        after.instances[id].subscribers[w],
    ) by {
        assert(m.subscribed(id, w));
    }
    assert forall|id: Seq<char>| #[trigger] after.has(id) implies {
        &&& after.instances[id].handle < after.next_handle
        &&& after.instances[id].subscribers.dom().finite()
        &&& exists|w: Seq<char>| after.subscribed(id, w)
    } by {
        assert(m.has(id));
        let w = choose|w: Seq<char>| m.subscribed(id, w);
        assert(after.subscribed(id, w));
    }
    assert forall|a: Seq<char>, b: Seq<char>|
        after.has(a) && after.has(b) && after.instances[a].handle == after.instances[b].handle implies a
        == b by {
        assert(m.has(a));
        assert(m.has(b));
    }
}

/// Remembering a record keeps a registry valid.
pub proof fn lemma_emit_valid(m: RegistryModel, handle: u64, record: Map<Seq<char>, FieldValue>)
    requires
        m.valid(),
    ensures
        m.emit(handle, record).valid(),
{
    let after = m.emit(handle, record);
    assert(after.instances.dom() =~= m.instances.dom());
    assert forall|id: Seq<char>, w: Seq<char>| #[trigger] after.subscribed(id, w) implies within(
        schema(after.instances[id].config.kind_of()),
        after.instances[id].subscribers[w],
    ) by {
        assert(m.subscribed(id, w));
    }
    assert forall|id: Seq<char>| #[trigger] after.has(id) implies {
        &&& after.instances[id].handle < after.next_handle
        &&& after.instances[id].subscribers.dom().finite()
        &&& exists|w: Seq<char>| after.subscribed(id, w)
    } by {
        assert(m.has(id));
        let w = choose|w: Seq<char>| m.subscribed(id, w);
        assert(after.subscribed(id, w));
    }
    assert forall|a: Seq<char>, b: Seq<char>|
        after.has(a) && after.has(b) && after.instances[a].handle == after.instances[b].handle implies a
        == b by {
        assert(m.has(a));
        assert(m.has(b));
    }
}

} // verus!
