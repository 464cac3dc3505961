//! The tracked-access filter: the part of a record that one subscriber asked
//! for.

use crate::record::{FieldValue, Record};
use vstd::prelude::*;

verus! {

/// The fields of `record` whose names occur in `wanted`, each with the
/// value it has in `record`.
pub open spec fn filter_model(record: Map<Seq<char>, FieldValue>, wanted: Seq<Seq<char>>) -> Map<
    Seq<char>,
    FieldValue,
> {
    record.restrict(wanted.to_set())
}

/// Projects `record` down to the fields named in `wanted`. A name that the
/// record does not have, or that `wanted` repeats, adds nothing.
pub fn filter(record: &Record, wanted: &Vec<String>) -> (out: Record)
    requires
        record.wf(),
    ensures
        out.wf(),
        out@ == filter_model(record@, wanted.deep_view()),
{
    let ghost names = wanted.deep_view();
    let mut out = Record::new();
    let mut i: usize = 0;
    while i < wanted.len()
        invariant
            i <= wanted.len(),
            names == wanted.deep_view(),
            record.wf(),
            out.wf(),
            out@ == record@.restrict(names.subrange(0, i as int).to_set()),
        decreases wanted.len() - i,
    {
        let name = &wanted[i];
        let ghost seen = names.subrange(0, i as int);
        let ghost next = names.subrange(0, i as int + 1);
        proof {
            assert(names[i as int] == name@);
            assert(next =~= seen.push(name@));
            assert(next.to_set() =~= seen.to_set().insert(name@)) by {
                assert forall|k: Seq<char>| next.contains(k) implies seen.contains(k) || k == name@ by {
                    let j = choose|j: int| 0 <= j < next.len() && next[j] == k;
                    if j < seen.len() {
                        assert(seen[j] == k);
                    }
                }
                assert forall|k: Seq<char>| seen.contains(k) || k == name@ implies next.contains(k) by {
                    if seen.contains(k) {
                        let j = choose|j: int| 0 <= j < seen.len() && seen[j] == k;
                        assert(next[j] == k);
                    } else {
                        assert(next[i as int] == k);
                    }
                }
            }
        }
        match record.get(name.as_str()) {
            Some(value) => {
                out.set(name.clone(), value.clone());
                assert(out@ =~= record@.restrict(next.to_set()));
            },
            None => {
                assert(out@ =~= record@.restrict(next.to_set()));
            },
        }
        i += 1;
    }
    assert(names.subrange(0, i as int) =~= names);
    out
}

/// The filtered record holds a field exactly when the record has it and the
/// tracked names ask for it, and then with the record's value.
pub proof fn lemma_filter_exact(record: Map<Seq<char>, FieldValue>, wanted: Seq<Seq<char>>)
    ensures
        forall|name: Seq<char>| #[trigger]
            filter_model(record, wanted).dom().contains(name) <==> record.dom().contains(name)
                && wanted.contains(name),
        forall|name: Seq<char>| #[trigger]
            filter_model(record, wanted).dom().contains(name) ==> filter_model(record, wanted)[name]
                == record[name],
{
}

/// The filtered record does not depend on the order of the tracked names,
/// nor on how often one of them is repeated.
pub proof fn lemma_filter_order(
    record: Map<Seq<char>, FieldValue>,
    first: Seq<Seq<char>>,
    second: Seq<Seq<char>>,
)
    requires
        forall|name: Seq<char>| first.contains(name) <==> second.contains(name),
    ensures
        filter_model(record, first) == filter_model(record, second),
{
    assert(first.to_set() =~= second.to_set());
}

/// Two lists of tracked names that are rearrangements of each other give the
/// same filtered record.
pub proof fn lemma_filter_reordered(
    record: Map<Seq<char>, FieldValue>,
    first: Seq<Seq<char>>,
    second: Seq<Seq<char>>,
)
    requires
        first.to_multiset() == second.to_multiset(),
    ensures
        filter_model(record, first) == filter_model(record, second),
{
    first.to_multiset_ensures();
    second.to_multiset_ensures();
    assert forall|name: Seq<char>| first.contains(name) <==> second.contains(name) by {
        assert(first.contains(name) <==> first.to_multiset().count(name) > 0);
        assert(second.contains(name) <==> second.to_multiset().count(name) > 0);
    }
    lemma_filter_order(record, first, second);
}

} // verus!
