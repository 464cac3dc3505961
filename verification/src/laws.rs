//! What holds of the registry over whole runs: one start and one stop per
//! shared instance, teardown that can be repeated, instances that do not
//! touch each other, and silence after a stop.
//!
//! The statements are over the model of the registry, which the contracts of
//! the executable registry use.

use crate::config::ProviderConfig;
use crate::model::{
    lemma_abandon_valid, lemma_acquire_valid, lemma_emit_valid, lemma_live, lemma_not_live,
    lemma_owner, lemma_release_valid, Acquired, RegistryModel, Released,
};
use crate::record::FieldValue;
use vstd::prelude::*;

verus! {

/// The registry after the windows of `windows` asked for `identity` one
/// after the other, each with its own field names from `wanted`.
pub open spec fn acquire_all(
    m: RegistryModel,
    identity: Seq<char>,
    config: ProviderConfig,
    windows: Seq<Seq<char>>,
    wanted: Seq<Seq<Seq<char>>>,
) -> RegistryModel
    decreases windows.len(),
{
    if windows.len() == 0 {
        m
    } else {
        acquire_all(m, identity, config, windows.drop_last(), wanted.drop_last()).acquire(
            identity,
            config,
            windows.last(),
            wanted.last(),
        )
    }
}

/// How many of those requests led to a start.
pub open spec fn starts_in(
    m: RegistryModel,
    identity: Seq<char>,
    config: ProviderConfig,
    windows: Seq<Seq<char>>,
    wanted: Seq<Seq<Seq<char>>>,
) -> nat
    decreases windows.len(),
{
    if windows.len() == 0 {
        0
    } else {
        let before = acquire_all(m, identity, config, windows.drop_last(), wanted.drop_last());
        let earlier = starts_in(m, identity, config, windows.drop_last(), wanted.drop_last());
        if before.acquired(identity) is Started {
            earlier + 1
        } else {
            earlier
        }
    }
}

/// The registry after the windows of `windows` gave up `identity` one after
/// the other.
pub open spec fn release_all(m: RegistryModel, identity: Seq<char>, windows: Seq<Seq<char>>) -> RegistryModel
    decreases windows.len(),
{
    if windows.len() == 0 {
        m
    } else {
        release_all(m, identity, windows.drop_last()).release(identity, windows.last())
    }
}

/// How many of those releases led to a stop.
pub open spec fn stops_in(m: RegistryModel, identity: Seq<char>, windows: Seq<Seq<char>>) -> nat
    decreases windows.len(),
{
    if windows.len() == 0 {
        0
    } else {
        let before = release_all(m, identity, windows.drop_last());
        let earlier = stops_in(m, identity, windows.drop_last());
        if before.released(identity, windows.last()) is Stopped {
            earlier + 1
        } else {
            earlier
        }
    }
}

/// The elements of a sequence are its last element and those before it.
proof fn lemma_to_set_last(s: Seq<Seq<char>>)
    requires
        s.len() > 0,
    ensures
        s.to_set() == s.drop_last().to_set().insert(s.last()),
        s.no_duplicates() ==> s.drop_last().no_duplicates() && !s.drop_last().contains(s.last()),
{
    let front = s.drop_last();
    assert forall|k: Seq<char>| s.contains(k) implies front.contains(k) || k == s.last() by {
        let j = choose|j: int| 0 <= j < s.len() && s[j] == k;
        if j < front.len() {
            assert(front[j] == k);
        }
    }
    assert forall|k: Seq<char>| front.contains(k) || k == s.last() implies s.contains(k) by {
        if front.contains(k) {
            let j = choose|j: int| 0 <= j < front.len() && front[j] == k;
            assert(s[j] == k);
        } else {
            assert(s[s.len() - 1] == k);
        }
    }
    assert(s.to_set() =~= front.to_set().insert(s.last()));
    if s.no_duplicates() {
        if front.contains(s.last()) {
            let j = choose|j: int| 0 <= j < front.len() && front[j] == s.last();
            assert(s[j] == s[s.len() - 1]);
        }
    }
}

/// After one or more windows asked for an identity that was not there, one
/// instance lives under it, started once, with those windows as subscribers.
pub proof fn lemma_acquire_all(
    m: RegistryModel,
    identity: Seq<char>,
    config: ProviderConfig,
    windows: Seq<Seq<char>>,
    wanted: Seq<Seq<Seq<char>>>,
)
    requires
        m.valid(),
        !m.has(identity),
        m.next_handle < u64::MAX,
        windows.len() > 0,
    ensures
        ({
            let after = acquire_all(m, identity, config, windows, wanted);
            &&& after.valid()
            &&& after.has(identity)
            &&& after.instances[identity].handle == m.next_handle
            &&& after.instances[identity].config == config
            &&& after.instances[identity].subscribers.dom() == windows.to_set()
            &&& after.instances.remove(identity) == m.instances
            &&& after.next_handle == m.next_handle + 1
        }),
        starts_in(m, identity, config, windows, wanted) == 1,
    decreases windows.len(),
{
    let front = windows.drop_last();
    let front_wanted = wanted.drop_last();
    let mid = acquire_all(m, identity, config, front, front_wanted);
    let after = acquire_all(m, identity, config, windows, wanted);
    lemma_to_set_last(windows);
    if front.len() == 0 {
        assert(mid == m);
        assert(starts_in(m, identity, config, front, front_wanted) == 0);
        assert(front.to_set() =~= Set::<Seq<char>>::empty());
    } else {
        lemma_acquire_all(m, identity, config, front, front_wanted);
    }
    lemma_acquire_valid(mid, identity, config, windows.last(), wanted.last());
    assert(after.instances[identity].subscribers.dom() =~= windows.to_set());
    assert(after.instances.remove(identity) =~= m.instances);
}

/// As long as some subscriber stays, releasing others stops nothing and
/// leaves the instance with the rest.
proof fn lemma_release_some(m: RegistryModel, identity: Seq<char>, leaving: Seq<Seq<char>>)
    requires
        m.has(identity),
        leaving.no_duplicates(),
        forall|i: int|
            0 <= i < leaving.len() ==> m.instances[identity].subscribers.dom().contains(
                #[trigger] leaving[i],
            ),
        exists|w: Seq<char>| #[trigger]
            m.instances[identity].subscribers.dom().contains(w) && !leaving.contains(w),
    ensures
        ({
            let after = release_all(m, identity, leaving);
            &&& after.has(identity)
            &&& after.instances[identity].subscribers == m.instances[identity].subscribers.remove_keys(
                leaving.to_set(),
            )
            &&& after.instances[identity].handle == m.instances[identity].handle
            &&& after.instances.remove(identity) == m.instances.remove(identity)
            &&& after.next_handle == m.next_handle
        }),
        stops_in(m, identity, leaving) == 0,
    decreases leaving.len(),
{
    let subscribers = m.instances[identity].subscribers;
    let stays = choose|w: Seq<char>| #[trigger]
        subscribers.dom().contains(w) && !leaving.contains(w);
    if leaving.len() == 0 {
        assert(leaving.to_set() =~= Set::<Seq<char>>::empty());
        assert(subscribers.remove_keys(leaving.to_set()) =~= subscribers);
    } else {
        let front = leaving.drop_last();
        let last = leaving.last();
        lemma_to_set_last(leaving);
        assert forall|i: int| 0 <= i < front.len() implies subscribers.dom().contains(
            #[trigger] front[i],
        ) by {
            assert(front[i] == leaving[i]);
        }
        assert(!front.contains(stays)) by {
            if front.contains(stays) {
                let j = choose|j: int| 0 <= j < front.len() && front[j] == stays;
                assert(leaving[j] == stays);
            }
        }
        lemma_release_some(m, identity, front);
        let mid = release_all(m, identity, front);
        let after = mid.release(identity, last);
        assert(subscribers.dom().contains(last));
        assert(mid.subscribed(identity, last));
        let rest = mid.instances[identity].subscribers.remove(last);
        assert(rest.dom().contains(stays)) by {
            assert(stays != last);
        }
        assert(!mid.last_subscriber(identity, last));
        assert(after.instances[identity].subscribers =~= subscribers.remove_keys(leaving.to_set()));
        assert(after.instances.remove(identity) =~= m.instances.remove(identity));
    }
}

/// When every subscriber of an instance leaves, each once and in any order,
/// the instance is stopped once, by the last of them, and is gone.
pub proof fn lemma_release_everyone(m: RegistryModel, identity: Seq<char>, leaving: Seq<Seq<char>>)
    requires
        m.has(identity),
        leaving.len() > 0,
        leaving.no_duplicates(),
        m.instances[identity].subscribers.dom() == leaving.to_set(),
    ensures
        stops_in(m, identity, leaving) == 1,
        release_all(m, identity, leaving.drop_last()).released(identity, leaving.last())
            == Released::Stopped(m.instances[identity].handle),
        release_all(m, identity, leaving) == (RegistryModel {
            instances: m.instances.remove(identity),
            ..m
        }),
{
    let subscribers = m.instances[identity].subscribers;
    let front = leaving.drop_last();
    let last = leaving.last();
    lemma_to_set_last(leaving);
    assert(subscribers.dom().contains(last));
    assert forall|i: int| 0 <= i < front.len() implies subscribers.dom().contains(
        #[trigger] front[i],
    ) by {
        assert(front[i] == leaving[i]);
        assert(leaving.contains(leaving[i]));
    }
    lemma_release_some(m, identity, front);
    let mid = release_all(m, identity, front);
    assert(mid.subscribed(identity, last));
    let rest = mid.instances[identity].subscribers.remove(last);
    assert(rest.dom() =~= Set::<Seq<char>>::empty());
    assert(mid.last_subscriber(identity, last));
    let after = mid.release(identity, last);
    assert(after.instances =~= m.instances.remove(identity)) by {
        assert(mid.instances.remove(identity) == m.instances.remove(identity));
    }
}

/// However many windows ask for one identity that was not there, exactly
/// one background computation is started; and when all of them have left
/// again, in whatever order, exactly one is stopped, the one that was
/// started, and the other instances are as they were.
pub proof fn lemma_one_start_one_stop(
    m: RegistryModel,
    identity: Seq<char>,
    config: ProviderConfig,
    windows: Seq<Seq<char>>,
    wanted: Seq<Seq<Seq<char>>>,
    leaving: Seq<Seq<char>>,
)
    requires
        m.valid(),
        !m.has(identity),
        m.next_handle < u64::MAX,
        windows.len() > 0,
        windows.no_duplicates(),
        wanted.len() == windows.len(),
        leaving.no_duplicates(),
        leaving.to_set() == windows.to_set(),
    ensures
        starts_in(m, identity, config, windows, wanted) == 1,
        acquire_all(m, identity, config, windows, wanted).instances[identity].handle
            == m.next_handle,
        stops_in(acquire_all(m, identity, config, windows, wanted), identity, leaving) == 1,
        leaving.len() > 0,
        release_all(
            acquire_all(m, identity, config, windows, wanted),
            identity,
            leaving.drop_last(),
        ).released(identity, leaving.last()) == Released::Stopped(m.next_handle as u64),
        release_all(acquire_all(m, identity, config, windows, wanted), identity, leaving)
            == (RegistryModel { instances: m.instances, next_handle: m.next_handle + 1 }),
{
    lemma_acquire_all(m, identity, config, windows, wanted);
    let shared = acquire_all(m, identity, config, windows, wanted);
    assert(leaving.len() > 0) by {
        assert(windows.to_set().contains(windows[0]));
        assert(leaving.contains(windows[0]));
    }
    lemma_release_everyone(shared, identity, leaving);
}

/// Releasing for a window that does not subscribe changes nothing and
/// reports that; it can be repeated at will.
pub proof fn lemma_release_absent(m: RegistryModel, identity: Seq<char>, window: Seq<char>)
    requires
        !m.subscribed(identity, window),
    ensures
        m.release(identity, window) == m,
        m.released(identity, window) == Released::Absent,
{
}

/// Once a window has been released it no longer subscribes, so releasing it
/// again does nothing.
pub proof fn lemma_release_twice(m: RegistryModel, identity: Seq<char>, window: Seq<char>)
    ensures
        !m.release(identity, window).subscribed(identity, window),
        m.release(identity, window).release(identity, window) == m.release(identity, window),
        m.release(identity, window).released(identity, window) == Released::Absent,
{
}

/// Acquiring, releasing and a failed start under one identity leave the
/// instance under every other identity as it was: its handle, its
/// configuration, its subscribers and its last record.
pub proof fn lemma_other_instances_untouched(
    m: RegistryModel,
    identity: Seq<char>,
    other: Seq<char>,
    config: ProviderConfig,
    window: Seq<char>,
    wanted: Seq<Seq<char>>,
    record: Map<Seq<char>, FieldValue>,
)
    requires
        m.valid(),
        other != identity,
    ensures
        m.acquire(identity, config, window, wanted).has(other) == m.has(other),
        m.has(other) ==> m.acquire(identity, config, window, wanted).instances[other]
            == m.instances[other],
        m.release(identity, window).has(other) == m.has(other),
        m.has(other) ==> m.release(identity, window).instances[other] == m.instances[other],
        m.has(identity) ==> m.abandon(m.instances[identity].handle).has(other) == m.has(other),
        m.has(identity) && m.has(other) ==> m.abandon(m.instances[identity].handle).instances[other]
            == m.instances[other],
        m.has(identity) ==> m.emit(m.instances[identity].handle, record).has(other) == m.has(other),
        m.has(identity) && m.has(other) ==> m.emit(
            m.instances[identity].handle,
            record,
        ).instances[other] == m.instances[other],
{
    if m.has(identity) {
        lemma_owner(m, identity);
    }
}

/// Two instances never share a background computation, and what one of
/// them produces goes to its own subscribers only.
pub proof fn lemma_instances_apart(
    m: RegistryModel,
    a: Seq<char>,
    b: Seq<char>,
    record: Map<Seq<char>, FieldValue>,
)
    requires
        m.valid(),
        m.has(a),
        m.has(b),
        a != b,
    ensures
        m.instances[a].handle != m.instances[b].handle,
        m.deliveries(m.instances[a].handle, record).dom() == m.instances[a].subscribers.dom(),
        forall|window: Seq<char>|
            !m.subscribed(a, window) ==> !m.deliveries(m.instances[a].handle, record).dom().contains(
                window,
            ),
{
    lemma_owner(m, a);
    assert(m.deliveries(m.instances[a].handle, record).dom() =~= m.instances[a].subscribers.dom());
}

/// One thing that can happen to a registry.
pub enum Step {
    Acquire { identity: Seq<char>, config: ProviderConfig, window: Seq<char>, wanted: Seq<Seq<char>> },
    Release { identity: Seq<char>, window: Seq<char> },
    StartFailed { handle: u64 },
    Emit { handle: u64, record: Map<Seq<char>, FieldValue> },
}

/// The registry after `step`.
pub open spec fn after_step(m: RegistryModel, step: Step) -> RegistryModel {
    match step {
        Step::Acquire { identity, config, window, wanted } => m.acquire(
            identity,
            config,
            window,
            wanted,
        ),
        Step::Release { identity, window } => m.release(identity, window),
        Step::StartFailed { handle } => m.abandon(handle),
        Step::Emit { handle, record } => m.emit(handle, record),
    }
}

/// The registry after the steps of `steps`, one after the other.
pub open spec fn after_steps(m: RegistryModel, steps: Seq<Step>) -> RegistryModel
    decreases steps.len(),
{
    if steps.len() == 0 {
        m
    } else {
        after_step(after_steps(m, steps.drop_last()), steps.last())
    }
}

/// A start that failed leaves no trace but the handle it used up: the
/// instances are those from before the window asked, and a later release by
/// that window finds nothing.
pub proof fn lemma_failed_start_leaves_nothing(
    m: RegistryModel,
    identity: Seq<char>,
    config: ProviderConfig,
    window: Seq<char>,
    wanted: Seq<Seq<char>>,
)
    requires
        m.valid(),
        m.acquired(identity) is Started,
    ensures
        m.acquire(identity, config, window, wanted).abandon(m.acquired(identity)->Started_0)
            == (RegistryModel { instances: m.instances, next_handle: m.next_handle + 1 }),
        m.acquire(identity, config, window, wanted).abandon(
            m.acquired(identity)->Started_0,
        ).released(identity, window) == Released::Absent,
{
    let started = m.acquire(identity, config, window, wanted);
    lemma_acquire_valid(m, identity, config, window, wanted);
    lemma_live(started, identity, Map::empty());
    assert(started.instances.remove(identity) =~= m.instances);
}

/// While the computation of a handle lives, its instance keeps its identity
/// and the configuration it was created with, whatever happens to the
/// registry.
pub proof fn lemma_config_is_fixed(m: RegistryModel, step: Step, identity: Seq<char>)
    requires
        m.valid(),
        m.has(identity),
        after_step(m, step).live(m.instances[identity].handle),
    ensures
        after_step(m, step).has(identity),
        after_step(m, step).instances[identity].handle == m.instances[identity].handle,
        after_step(m, step).instances[identity].config == m.instances[identity].config,
{
    let after = after_step(m, step);
    let handle = m.instances[identity].handle;
    let owner = after.owner(handle);
    assert(after.runs(owner, handle));
    lemma_owner(m, identity);
    match step {
        Step::Acquire { identity: asked, config, window, wanted } => {
            if owner != identity {
                if m.has(owner) {
                    assert(m.runs(owner, handle));
                }
            }
        },
        Step::Release { identity: left, window } => {
            assert(m.runs(owner, handle));
        },
        Step::StartFailed { handle: failed } => {
            assert(m.runs(owner, handle));
        },
        Step::Emit { handle: source, record } => {
            if m.live(source) {
                lemma_owner(m, m.owner(source));
            }
            assert(m.has(owner));
            assert(m.runs(owner, handle));
        },
    }
}

/// The handle that a release stops is retired by it, and so is the handle
/// of a start that failed.
pub proof fn lemma_stop_retires(m: RegistryModel, identity: Seq<char>, window: Seq<char>, handle: u64)
    requires
        m.valid(),
    ensures
        m.released(identity, window) == Released::Stopped(handle) ==> m.live(handle) && m.release(
            identity,
            window,
        ).retired(handle),
        handle < m.next_handle ==> m.abandon(handle).retired(handle),
{
    if m.released(identity, window) == Released::Stopped(handle) {
        lemma_owner(m, identity);
        let after = m.release(identity, window);
        assert forall|id: Seq<char>| !after.runs(id, handle) by {
            if after.runs(id, handle) {
                assert(m.has(id));
            }
        }
    }
    if handle < m.next_handle {
        let after = m.abandon(handle);
        assert forall|id: Seq<char>| !after.runs(id, handle) by {
            if after.runs(id, handle) {
                assert(m.runs(id, handle));
                lemma_owner(m, id);
            }
        }
    }
}

/// No step brings a retired handle back.
pub proof fn lemma_step_keeps_retired(m: RegistryModel, step: Step, handle: u64)
    requires
        m.valid(),
        m.retired(handle),
    ensures
        after_step(m, step).valid(),
        after_step(m, step).retired(handle),
{
    let after = after_step(m, step);
    match step {
        Step::Acquire { identity, config, window, wanted } => {
            lemma_acquire_valid(m, identity, config, window, wanted);
        },
        Step::Release { identity, window } => {
            lemma_release_valid(m, identity, window);
        },
        Step::StartFailed { handle: failed } => {
            lemma_abandon_valid(m, failed);
        },
        Step::Emit { handle: source, record } => {
            lemma_emit_valid(m, source, record);
        },
    }
    assert forall|id: Seq<char>| !after.runs(id, handle) by {
        if after.runs(id, handle) {
            if m.has(id) {
                assert(m.runs(id, handle));
            }
        }
    }
}

/// After the computation of a handle was stopped, whatever happens to the
/// registry later, a record from that computation reaches no subscriber, is
/// not remembered, and the handle is never asked to stop again.
pub proof fn lemma_silent_after_stop(
    m: RegistryModel,
    steps: Seq<Step>,
    handle: u64,
    record: Map<Seq<char>, FieldValue>,
)
    requires
        m.valid(),
        m.retired(handle),
    ensures
        after_steps(m, steps).valid(),
        after_steps(m, steps).retired(handle),
        after_steps(m, steps).deliveries(handle, record) == Map::<
            Seq<char>,
            Map<Seq<char>, FieldValue>,
        >::empty(),
        after_steps(m, steps).emit(handle, record) == after_steps(m, steps),
        forall|identity: Seq<char>, window: Seq<char>|
            after_steps(m, steps).released(identity, window) != Released::Stopped(handle),
        forall|identity: Seq<char>|
            after_steps(m, steps).acquired(identity) != Acquired::Started(handle),
    decreases steps.len(),
{
    if steps.len() > 0 {
        lemma_silent_after_stop(m, steps.drop_last(), handle, record);
        lemma_step_keeps_retired(after_steps(m, steps.drop_last()), steps.last(), handle);
    }
    let now = after_steps(m, steps);
    lemma_not_live(now, handle, record);
    assert forall|identity: Seq<char>, window: Seq<char>|
        now.released(identity, window) != Released::Stopped(handle) by {
        if now.released(identity, window) == Released::Stopped(handle) {
            assert(now.runs(identity, handle));
        }
    }
}

} // verus!
