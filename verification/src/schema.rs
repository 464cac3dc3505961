//! The output contract of the providers: which fields the record of each
//! variant has. A field that a sample lacks is reported as unavailable, never
//! left out, so that a subscriber can tell a field it did not ask for from a
//! field that could not be obtained.

use crate::config::ProviderKind;
use crate::filter::filter_model;
use crate::record::{FieldValue, Record};
use vstd::prelude::*;

verus! {

/// The field names of the records of `kind`.
pub open spec fn schema(kind: ProviderKind) -> Seq<Seq<char>> {
    match kind {
        ProviderKind::Battery => seq!["charge_percent"@, "is_charging"@, "time_remaining"@],
        ProviderKind::Cpu => seq![
            "usage"@,
            "frequency"@,
            "logical_core_count"@,
            "physical_core_count"@,
        ],
        ProviderKind::Host => seq!["hostname"@, "os_name"@, "os_version"@, "uptime"@],
        ProviderKind::Ip => seq!["address"@, "approx_city"@, "approx_country"@],
        ProviderKind::Komorebi => seq!["monitors"@, "focused_monitor"@, "focused_workspace"@],
        ProviderKind::Memory => seq!["usage"@, "total_memory"@, "used_memory"@, "free_memory"@],
        ProviderKind::Network => seq!["default_interface"@, "default_gateway"@, "interfaces"@],
        ProviderKind::Weather => seq!["temperature"@, "status"@, "wind_speed"@, "is_daytime"@],
    }
}

/// The record with exactly the fields `names`: each with the value that
/// `sample` has for it, and unavailable where `sample` has none.
pub open spec fn complete_model(names: Seq<Seq<char>>, sample: Map<Seq<char>, FieldValue>) -> Map<
    Seq<char>,
    FieldValue,
> {
    Map::new(
        |name: Seq<char>| names.contains(name),
        |name: Seq<char>|
            if sample.dom().contains(name) {
                sample[name]
            } else {
                FieldValue::Unavailable
            },
    )
}

/// Every name of `list` is one of `names`.
pub open spec fn within(names: Seq<Seq<char>>, list: Seq<Seq<char>>) -> bool {
    forall|i: int| 0 <= i < list.len() ==> names.contains(#[trigger] list[i])
}

/// The names of `wanted` that are among `names`, in the order of `wanted`.
pub open spec fn keep_known(names: Seq<Seq<char>>, wanted: Seq<Seq<char>>) -> Seq<Seq<char>>
    decreases wanted.len(),
{
    if wanted.len() == 0 {
        wanted
    } else if names.contains(wanted.last()) {
        keep_known(names, wanted.drop_last()).push(wanted.last())
    } else {
        keep_known(names, wanted.drop_last())
    }
}

/// What is kept are exactly the wanted names that are known.
pub proof fn lemma_keep_known(names: Seq<Seq<char>>, wanted: Seq<Seq<char>>)
    ensures
        within(names, keep_known(names, wanted)),
        forall|name: Seq<char>|
            keep_known(names, wanted).contains(name) <==> names.contains(name) && wanted.contains(name),
    decreases wanted.len(),
{
    let kept = keep_known(names, wanted);
    if wanted.len() > 0 {
        let front = wanted.drop_last();
        let last = wanted.last();
        let before = keep_known(names, front);
        lemma_keep_known(names, front);
        assert forall|name: Seq<char>| wanted.contains(name) <==> front.contains(name) || name == last by {
            if wanted.contains(name) {
                let j = choose|j: int| 0 <= j < wanted.len() && wanted[j] == name;
                if j < front.len() {
                    assert(front[j] == name);
                }
            }
            if front.contains(name) {
                let j = choose|j: int| 0 <= j < front.len() && front[j] == name;
                assert(wanted[j] == name);
            }
            if name == last {
                assert(wanted[wanted.len() - 1] == name);
            }
        }
        assert forall|name: Seq<char>| kept.contains(name) <==> names.contains(name) && wanted.contains(
            name,
        ) by {
            if names.contains(last) {
                if kept.contains(name) {
                    let j = choose|j: int| 0 <= j < kept.len() && kept[j] == name;
                    if j < before.len() {
                        assert(before[j] == name);
                    }
                }
                if before.contains(name) {
                    let j = choose|j: int| 0 <= j < before.len() && before[j] == name;
                    assert(kept[j] == name);
                }
                if name == last {
                    assert(kept[kept.len() - 1] == name);
                }
            }
        }
        assert forall|i: int| 0 <= i < kept.len() implies names.contains(#[trigger] kept[i]) by {
            assert(kept.contains(kept[i]));
        }
    }
}

/// For a subscriber it makes no difference whether it asks with all its
/// names or only with the known ones: the filter gives the same.
pub proof fn lemma_keep_known_filters_alike(
    names: Seq<Seq<char>>,
    sample: Map<Seq<char>, FieldValue>,
    wanted: Seq<Seq<char>>,
)
    ensures
        filter_model(complete_model(names, sample), keep_known(names, wanted)) == filter_model(
            complete_model(names, sample),
            wanted,
        ),
{
    lemma_keep_known(names, wanted);
    assert(filter_model(complete_model(names, sample), keep_known(names, wanted)) =~= filter_model(
        complete_model(names, sample),
        wanted,
    ));
}

/// The field names of the records of `kind`, in the order of [`schema`].
pub fn field_names(kind: ProviderKind) -> (names: Vec<&'static str>)
    ensures
        names.len() == schema(kind).len(),
        forall|i: int| 0 <= i < names.len() ==> (#[trigger] names[i])@ == schema(kind)[i],
{
    match kind {
        ProviderKind::Battery => vec!["charge_percent", "is_charging", "time_remaining"],
        ProviderKind::Cpu => vec!["usage", "frequency", "logical_core_count", "physical_core_count"],
        ProviderKind::Host => vec!["hostname", "os_name", "os_version", "uptime"],
        ProviderKind::Ip => vec!["address", "approx_city", "approx_country"],
        ProviderKind::Komorebi => vec!["monitors", "focused_monitor", "focused_workspace"],
        ProviderKind::Memory => vec!["usage", "total_memory", "used_memory", "free_memory"],
        ProviderKind::Network => vec!["default_interface", "default_gateway", "interfaces"],
        ProviderKind::Weather => vec!["temperature", "status", "wind_speed", "is_daytime"],
    }
}

/// Whether the records of `kind` have a field `name`.
pub fn is_field(kind: ProviderKind, name: &str) -> (b: bool)
    ensures
        b == schema(kind).contains(name@),
{
    let names = field_names(kind);
    let mut i: usize = 0;
    while i < names.len()
        invariant
            i <= names.len(),
            names.len() == schema(kind).len(),
            forall|j: int| 0 <= j < names.len() ==> (#[trigger] names[j])@ == schema(kind)[j],
            forall|j: int| 0 <= j < i ==> schema(kind)[j] != name@,
        decreases names.len() - i,
    {
        if names[i].eq(name) {
            assert(schema(kind)[i as int] == name@);
            return true;
        }
        i += 1;
    }
    false
}

/// The names of `wanted` that are fields of the records of `kind`.
pub fn prune(kind: ProviderKind, wanted: &Vec<String>) -> (kept: Vec<String>)
    ensures
        kept.deep_view() == keep_known(schema(kind), wanted.deep_view()),
{
    let ghost all = wanted.deep_view();
    let mut kept: Vec<String> = Vec::new();
    let mut i: usize = 0;
    assert(kept.deep_view() =~= keep_known(schema(kind), all.subrange(0, 0)));
    while i < wanted.len()
        invariant
            i <= wanted.len(),
            all == wanted.deep_view(),
            kept.deep_view() == keep_known(schema(kind), all.subrange(0, i as int)),
        decreases wanted.len() - i,
    {
        let ghost before = kept.deep_view();
        proof {
            let next = all.subrange(0, i as int + 1);
            assert(next.drop_last() =~= all.subrange(0, i as int));
            assert(next.last() == wanted[i as int]@);
        }
        if is_field(kind, wanted[i].as_str()) {
            kept.push(wanted[i].clone());
            assert(kept.deep_view() =~= before.push(wanted[i as int]@));
        }
        i += 1;
    }
    assert(all.subrange(0, i as int) =~= all);
    kept
}

/// Brings a sample to the schema of `kind`: the result has every field of
/// the schema and no other. A field that the sample has keeps its value; a
/// field that the sample lacks is unavailable.
pub fn complete(kind: ProviderKind, sample: &Record) -> (out: Record)
    requires
        sample.wf(),
    ensures
        out.wf(),
        out@ == complete_model(schema(kind), sample@),
{
    let names = field_names(kind);
    let ghost all = schema(kind);
    let mut out = Record::new();
    let mut i: usize = 0;
    while i < names.len()
        invariant
            i <= names.len(),
            names.len() == all.len(),
            forall|j: int| 0 <= j < names.len() ==> (#[trigger] names[j])@ == all[j],
            sample.wf(),
            out.wf(),
            out@ == complete_model(all.subrange(0, i as int), sample@),
        decreases names.len() - i,
    {
        let name = names[i];
        let value = match sample.get(name) {
            Some(v) => v.clone(),
            None => FieldValue::Unavailable,
        };
        proof {
            let seen = all.subrange(0, i as int);
            let next = all.subrange(0, i as int + 1);
            assert(name@ == all[i as int]);
            assert forall|k: Seq<char>| next.contains(k) <==> seen.contains(k) || k == name@ by {
                if next.contains(k) {
                    let j = choose|j: int| 0 <= j < next.len() && next[j] == k;
                    if j < seen.len() {
                        assert(seen[j] == k);
                    }
                }
                if seen.contains(k) {
                    let j = choose|j: int| 0 <= j < seen.len() && seen[j] == k;
                    assert(next[j] == k);
                }
                if k == name@ {
                    assert(next[i as int] == k);
                }
            }
            assert(complete_model(seen, sample@).insert(name@, value) =~= complete_model(next, sample@));
        }
        out.set(name.to_owned(), value);
        i += 1;
    }
    assert(all.subrange(0, i as int) =~= all);
    out
}

/// The record of `kind` after a sample failed altogether: every field is
/// there and unavailable.
pub fn unavailable(kind: ProviderKind) -> (out: Record)
    ensures
        out.wf(),
        out@ == complete_model(schema(kind), Map::<Seq<char>, FieldValue>::empty()),
        forall|name: Seq<char>| #[trigger] out@.dom().contains(name) ==> out@[name] is Unavailable,
{
    let empty = Record::new();
    complete(kind, &empty)
}

/// Of a completed record a subscriber is sent the fields that it asked for
/// and that the schema has, and only those. So a field that was asked for
/// and is missing from what was sent is no field of the provider, while a
/// field that could not be obtained is sent as unavailable.
pub proof fn lemma_delivered_fields(
    names: Seq<Seq<char>>,
    sample: Map<Seq<char>, FieldValue>,
    wanted: Seq<Seq<char>>,
)
    ensures
        forall|name: Seq<char>| #[trigger]
            filter_model(complete_model(names, sample), wanted).dom().contains(name) <==> names.contains(
                name,
            ) && wanted.contains(name),
        forall|name: Seq<char>|
            names.contains(name) && wanted.contains(name) && !sample.dom().contains(name)
                ==> #[trigger] filter_model(complete_model(names, sample), wanted)[name]
                is Unavailable,
        forall|name: Seq<char>|
            names.contains(name) && wanted.contains(name) && sample.dom().contains(name)
                ==> #[trigger] filter_model(complete_model(names, sample), wanted)[name]
                == sample[name],
{
}

} // verus!
