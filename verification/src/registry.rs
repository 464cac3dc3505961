//! The provider registry: one instance per configuration identity, shared by
//! the windows that subscribe to it.
//!
//! The registry decides; it starts and stops nothing itself. `acquire` says
//! when a background computation is to be started and under which handle,
//! `release` says when the computation of a handle is to be stopped, and
//! `dispatch` turns a record that a computation produced into what each
//! subscriber is sent.

use crate::config::{ProviderConfig, ProviderKind};
use crate::filter::{filter, filter_model};
use crate::model::{
    lemma_abandon_valid, lemma_acquire_valid, lemma_emit_valid, lemma_live, lemma_not_live,
    lemma_owner, lemma_release_valid, Acquired, InstanceModel, RegistryModel, Released,
};
use crate::record::{FieldValue, Record};
use crate::schema::{keep_known, prune, schema};
use crate::table::Table;
use vstd::prelude::*;

verus! {

/// A filtered record on its way to one window.
#[derive(Debug)]
pub struct Delivery {
    pub window: String,
    pub record: Record,
}

/// `out` carries exactly what `expected` sends: one delivery for each window
/// of `expected`, with the record meant for it, in any order.
pub open spec fn deliveries_match(
    out: Seq<Delivery>,
    expected: Map<Seq<char>, Map<Seq<char>, FieldValue>>,
) -> bool {
    &&& expected.dom().finite()
    &&& out.len() == expected.dom().len()
    &&& forall|i: int|
        0 <= i < out.len() ==> {
            &&& (#[trigger] out[i]).record.wf()
            &&& expected.dom().contains(out[i].window@)
            &&& out[i].record@ == expected[out[i].window@]
        }
    &&& forall|i: int, j: int|
        0 <= i < j < out.len() ==> (#[trigger] out[i]).window@ != (#[trigger] out[j]).window@
    &&& forall|window: Seq<char>| #[trigger]
        expected.dom().contains(window) ==> exists|i: int|
            0 <= i < out.len() && (#[trigger] out[i]).window@ == window
}

/// The subscriber table of an instance, with the field names as text.
spec fn wanted_of(subscribers: Table<Vec<String>>) -> Map<Seq<char>, Seq<Seq<char>>> {
    Map::new(
        |window: Seq<char>| subscribers@.dom().contains(window),
        |window: Seq<char>| subscribers@[window].deep_view(),
    )
}

struct Instance {
    handle: u64,
    config: ProviderConfig,
    subscribers: Table<Vec<String>>,
    latest: Option<Record>,
}

impl Instance {
    spec fn wf(self) -> bool {
        &&& self.subscribers.wf()
        &&& self.latest matches Some(record) ==> record.wf()
    }

    spec fn model(self) -> InstanceModel {
        InstanceModel {
            handle: self.handle,
            config: self.config,
            subscribers: wanted_of(self.subscribers),
            latest: match self.latest {
                Some(record) => Some(record@),
                None => None,
            },
        }
    }
}

pub struct Registry {
    instances: Table<Instance>,
    next_handle: u64,
}

impl View for Registry {
    type V = RegistryModel;

    closed spec fn view(&self) -> RegistryModel {
        RegistryModel {
            instances: Map::new(
                |identity: Seq<char>| self.instances@.dom().contains(identity),
                |identity: Seq<char>| self.instances@[identity].model(),
            ),
            next_handle: self.next_handle as int,
        }
    }
}

impl Registry {
    pub closed spec fn wf(self) -> bool {
        &&& self.instances.wf()
        &&& forall|identity: Seq<char>| #[trigger]
            self.instances@.dom().contains(identity) ==> self.instances@[identity].wf()
        &&& self@.valid()
    }

    /// A well-formed registry has a valid model.
    pub proof fn lemma_valid(self)
        requires
            self.wf(),
        ensures
            self@.valid(),
    {
    }

    /// A registry without instances that gives out handles from 0 on.
    pub fn new() -> (r: Self)
        ensures
            r.wf(),
            r@ == RegistryModel::empty(),
    {
        Registry::starting_at(0)
    }

    /// A registry without instances that gives out handles from `first` on.
    pub fn starting_at(first: u64) -> (r: Self)
        ensures
            r.wf(),
            r@ == (RegistryModel { next_handle: first as int, ..RegistryModel::empty() }),
    {
        let r = Registry { instances: Table::new(), next_handle: first };
        assert(r@.instances =~= RegistryModel::empty().instances);
        r
    }

    /// The position of the instance with the handle `handle`.
    fn position_of(&self, handle: u64) -> (r: Option<usize>)
        requires
            self.wf(),
        ensures
            match r {
                Some(i) => i < self.instances.keys().len() && self@.runs(
                    self.instances.keys()[i as int],
                    handle,
                ) && self@.live(handle) && self@.owner(handle) == self.instances.keys()[i as int],
                None => !self@.live(handle),
            },
    {
        proof {
            self.instances.lemma_entries();
        }
        let n = self.instances.len();
        let mut i: usize = 0;
        while i < n
            invariant
                self.wf(),
                n == self.instances.keys().len(),
                i <= n,
                forall|j: int| 0 <= j < i ==> !self@.runs(self.instances.keys()[j], handle),
            decreases n - i,
        {
            proof {
                self.instances.lemma_entries();
            }
            if self.instances.value_at(i).handle == handle {
                proof {
                    let identity = self.instances.keys()[i as int];
                    assert(self@.has(identity));
                    assert(self@.runs(identity, handle));
                    lemma_owner(self@, identity);
                }
                return Some(i);
            }
            i += 1;
        }
        proof {
            self.instances.lemma_entries();
            if self@.live(handle) {
                let identity = self@.owner(handle);
                assert(self@.runs(identity, handle));
                assert(self.instances.keys().contains(identity));
                let j = choose|j: int|
                    0 <= j < self.instances.keys().len() && self.instances.keys()[j] == identity;
                assert(!self@.runs(self.instances.keys()[j], handle));
            }
        }
        None
    }

    /// Subscribes `window` to the instance under `identity`, with those of
    /// the field names `wanted` that the records of the instance have. Where
    /// no instance lives under `identity`, one is recorded with `config`, and
    /// the result names the handle under which its background computation is
    /// to be started.
    pub fn acquire(
        &mut self,
        identity: String,
        config: ProviderConfig,
        window: String,
        wanted: Vec<String>,
    ) -> (r: Acquired)
        requires
            old(self).wf(),
        ensures
            final(self).wf(),
            final(self)@ == old(self)@.acquire(identity@, config, window@, wanted.deep_view()),
            r == old(self)@.acquired(identity@),
    {
        let ghost before = *self;
        let ghost goal = before@.acquire(identity@, config, window@, wanted.deep_view());
        proof {
            before.instances.lemma_entries();
            lemma_acquire_valid(before@, identity@, config, window@, wanted.deep_view());
        }
        match self.instances.find(identity.as_str()) {
            Some(i) => {
                let ghost held = before.instances@[identity@];
                let instance = self.instances.value_at_mut(i);
                let kept = prune(instance.config.kind(), &wanted);
                instance.subscribers.insert(window, kept);
                proof {
                    let now = self.instances@[identity@];
                    assert(wanted_of(now.subscribers) =~= wanted_of(held.subscribers).insert(
                        window@,
                        keep_known(schema(held.config.kind_of()), wanted.deep_view()),
                    ));
                    assert(self@.instances =~= goal.instances);
                }
                Acquired::Joined
            },
            None => {
                if self.next_handle == u64::MAX {
                    Acquired::Exhausted
                } else {
                    let handle = self.next_handle;
                    let mut subscribers: Table<Vec<String>> = Table::new();
                    let kept = prune(config.kind(), &wanted);
                    subscribers.insert(window, kept);
                    let instance = Instance { handle, config, subscribers, latest: None };
                    self.instances.insert(identity, instance);
                    self.next_handle = handle + 1;
                    proof {
                        assert(wanted_of(subscribers) =~= Map::<Seq<char>, Seq<Seq<char>>>::empty().insert(
                            window@,
                            keep_known(schema(config.kind_of()), wanted.deep_view()),
                        ));
                        assert(self@.instances =~= goal.instances);
                    }
                    Acquired::Started(handle)
                }
            },
        }
    }

    /// Ends the subscription of `window` to the instance under `identity`.
    /// When the last subscriber leaves, the instance is taken out and the
    /// result names the handle whose background computation is to be
    /// stopped. A window that does not subscribe changes nothing.
    pub fn release(&mut self, identity: &str, window: &str) -> (r: Released)
        requires
            old(self).wf(),
        ensures
            final(self).wf(),
            final(self)@ == old(self)@.release(identity@, window@),
            r == old(self)@.released(identity@, window@),
    {
        let ghost before = *self;
        let ghost goal = before@.release(identity@, window@);
        proof {
            before.instances.lemma_entries();
            lemma_release_valid(before@, identity@, window@);
        }
        match self.instances.find(identity) {
            None => Released::Absent,
            Some(i) => {
                let ghost held = before.instances@[identity@];
                if !self.instances.value_at(i).subscribers.contains_key(window) {
                    return Released::Absent;
                }
                let instance = self.instances.value_at_mut(i);
                instance.subscribers.remove(window);
                let alone = instance.subscribers.is_empty();
                let handle = instance.handle;
                proof {
                    let now = self.instances@[identity@];
                    assert(wanted_of(now.subscribers) =~= wanted_of(held.subscribers).remove(window@));
                    assert(alone == before@.last_subscriber(identity@, window@)) by {
                        if alone {
                            assert(wanted_of(now.subscribers).dom() =~= Set::<Seq<char>>::empty());
                        } else {
                            assert(now.subscribers.keys().len() > 0);
                            now.subscribers.lemma_entries();
                            assert(wanted_of(now.subscribers).dom().contains(now.subscribers.keys()[0]));
                        }
                    }
                }
                if alone {
                    self.instances.remove(identity);
                    proof {
                        assert(self@.instances =~= goal.instances);
                    }
                    Released::Stopped(handle)
                } else {
                    proof {
                        assert(self@.instances =~= goal.instances);
                    }
                    Released::Remaining
                }
            },
        }
    }

    /// Takes back the instance that was recorded under `handle` when its
    /// background computation could not be started. Says whether an instance
    /// lived under that handle.
    pub fn start_failed(&mut self, handle: u64) -> (removed: bool)
        requires
            old(self).wf(),
        ensures
            final(self).wf(),
            final(self)@ == old(self)@.abandon(handle),
            removed == old(self)@.live(handle),
    {
        let ghost before = *self;
        proof {
            lemma_abandon_valid(before@, handle);
        }
        match self.position_of(handle) {
            Some(i) => {
                let identity = self.instances.key_at(i).clone();
                self.instances.remove(identity.as_str());
                proof {
                    lemma_live(before@, identity@, Map::empty());
                    assert(self@.instances =~= before@.instances.remove(identity@));
                }
                true
            },
            None => {
                proof {
                    lemma_not_live(before@, handle, Map::empty());
                }
                false
            },
        }
    }

    /// Takes in a record that the background computation `handle` produced
    /// and returns what goes to each subscriber of its instance. A record
    /// from a computation whose instance is gone is dropped: it reaches
    /// nobody and is not remembered.
    pub fn dispatch(&mut self, handle: u64, record: Record) -> (out: Vec<Delivery>)
        requires
            old(self).wf(),
            record.wf(),
        ensures
            final(self).wf(),
            final(self)@ == old(self)@.emit(handle, record@),
            deliveries_match(out@, old(self)@.deliveries(handle, record@)),
    {
        let ghost before = *self;
        proof {
            before.instances.lemma_entries();
            lemma_emit_valid(before@, handle, record@);
        }
        match self.position_of(handle) {
            None => {
                proof {
                    lemma_not_live(before@, handle, record@);
                }
                Vec::new()
            },
            Some(i) => {
                let ghost identity = before.instances.keys()[i as int];
                let ghost held = before.instances@[identity];
                let instance = self.instances.value_at_mut(i);
                let out = fan_out(&instance.subscribers, &record);
                instance.latest = Some(record);
                proof {
                    held.subscribers.lemma_entries();
                    lemma_live(before@, identity, record@);
                    assert(self@.instances =~= before@.instances.insert(
                        identity,
                        InstanceModel { latest: Some(record@), ..before@.instances[identity] },
                    ));
                    let expected = before@.deliveries(handle, record@);
                    assert(expected.dom() =~= held.subscribers@.dom());
                    assert forall|window: Seq<char>| #[trigger]
                        expected.dom().contains(window) implies exists|j: int|
                        0 <= j < out.len() && (#[trigger] out[j]).window@ == window by {
                        assert(held.subscribers.keys().contains(window));
                        let j = choose|j: int|
                            0 <= j < held.subscribers.keys().len() && held.subscribers.keys()[j]
                                == window;
                        assert(out[j].window@ == window);
                    }
                }
                out
            },
        }
    }

    /// The number of live instances.
    pub fn instance_count(&self) -> (n: usize)
        requires
            self.wf(),
        ensures
            n == self@.instances.dom().len(),
    {
        proof {
            assert(self@.instances.dom() =~= self.instances@.dom());
        }
        self.instances.len()
    }

    /// Whether an instance lives under `identity`.
    pub fn has_instance(&self, identity: &str) -> (b: bool)
        requires
            self.wf(),
        ensures
            b == self@.has(identity@),
    {
        self.instances.contains_key(identity)
    }

    /// The handle of the instance under `identity`.
    pub fn handle_of(&self, identity: &str) -> (r: Option<u64>)
        requires
            self.wf(),
        ensures
            r == (if self@.has(identity@) {
                Some(self@.instances[identity@].handle)
            } else {
                None
            }),
    {
        match self.instances.get(identity) {
            Some(instance) => Some(instance.handle),
            None => None,
        }
    }

    /// The configuration that the instance under `identity` was created
    /// with.
    pub fn config_of(&self, identity: &str) -> (r: Option<&ProviderConfig>)
        requires
            self.wf(),
        ensures
            r == (if self@.has(identity@) {
                Some(&self@.instances[identity@].config)
            } else {
                None
            }),
    {
        match self.instances.get(identity) {
            Some(instance) => Some(&instance.config),
            None => None,
        }
    }

    /// The number of windows that subscribe to the instance under
    /// `identity`; zero where no instance lives.
    pub fn subscriber_count(&self, identity: &str) -> (n: usize)
        requires
            self.wf(),
        ensures
            n == (if self@.has(identity@) {
                self@.instances[identity@].subscribers.dom().len()
            } else {
                0
            }),
    {
        match self.instances.get(identity) {
            Some(instance) => {
                proof {
                    assert(wanted_of(instance.subscribers).dom() =~= instance.subscribers@.dom());
                }
                instance.subscribers.len()
            },
            None => 0,
        }
    }

    /// Whether `window` subscribes to the instance under `identity`.
    pub fn is_subscribed(&self, identity: &str, window: &str) -> (b: bool)
        requires
            self.wf(),
        ensures
            b == self@.subscribed(identity@, window@),
    {
        match self.instances.get(identity) {
            Some(instance) => instance.subscribers.contains_key(window),
            None => false,
        }
    }

    /// The field names that `window` asked of the instance under `identity`.
    pub fn wanted_by(&self, identity: &str, window: &str) -> (r: Option<&Vec<String>>)
        requires
            self.wf(),
        ensures
            r is Some <==> self@.subscribed(identity@, window@),
            r matches Some(names) ==> names.deep_view()
                == self@.instances[identity@].subscribers[window@],
    {
        match self.instances.get(identity) {
            Some(instance) => instance.subscribers.get(window),
            None => None,
        }
    }

    /// The last record that the instance under `identity` produced.
    pub fn latest(&self, identity: &str) -> (r: Option<&Record>)
        requires
            self.wf(),
        ensures
            match r {
                Some(record) => record.wf() && self@.has(identity@)
                    && self@.instances[identity@].latest == Some(record@),
                None => !self@.has(identity@) || self@.instances[identity@].latest is None,
            },
    {
        match self.instances.get(identity) {
            Some(instance) => match &instance.latest {
                Some(record) => Some(record),
                None => None,
            },
            None => None,
        }
    }

    /// The variant of the instance whose background computation is
    /// `handle`.
    pub fn kind_of(&self, handle: u64) -> (r: Option<ProviderKind>)
        requires
            self.wf(),
        ensures
            r == (if self@.live(handle) {
                Some(self@.instances[self@.owner(handle)].config.kind_of())
            } else {
                None
            }),
    {
        match self.position_of(handle) {
            Some(i) => {
                proof {
                    self.instances.lemma_entries();
                }
                Some(self.instances.value_at(i).config.kind())
            },
            None => None,
        }
    }

    /// Whether a live instance has the handle `handle`.
    pub fn is_live(&self, handle: u64) -> (b: bool)
        requires
            self.wf(),
        ensures
            b == self@.live(handle),
    {
        self.position_of(handle).is_some()
    }
}

/// One delivery per subscriber, in the order of the subscriber table.
fn fan_out(subscribers: &Table<Vec<String>>, record: &Record) -> (out: Vec<Delivery>)
    requires
        subscribers.wf(),
        record.wf(),
    ensures
        out.len() == subscribers.keys().len(),
        forall|j: int|
            0 <= j < out.len() ==> {
                &&& (#[trigger] out[j]).window@ == subscribers.keys()[j]
                &&& out[j].record.wf()
                &&& out[j].record@ == filter_model(record@, subscribers@[subscribers.keys()[j]].deep_view())
            },
{
    let n = subscribers.len();
    let mut out: Vec<Delivery> = Vec::new();
    let mut i: usize = 0;
    while i < n
        invariant
            subscribers.wf(),
            record.wf(),
            n == subscribers.keys().len(),
            i <= n,
            out.len() == i,
            forall|j: int|
                0 <= j < i ==> {
                    &&& (#[trigger] out[j]).window@ == subscribers.keys()[j]
                    &&& out[j].record.wf()
                    &&& out[j].record@ == filter_model(
                        record@,
                        subscribers@[subscribers.keys()[j]].deep_view(),
                    )
                },
        decreases n - i,
    {
        let window = subscribers.key_at(i).clone();
        let filtered = filter(record, subscribers.value_at(i));
        out.push(Delivery { window, record: filtered });
        i += 1;
    }
    out
}

} // verus!
