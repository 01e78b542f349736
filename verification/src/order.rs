//! The registry as three maps, and why the order in which the documents of
//! a round are merged does not show in them.

use crate::argo::application::{application_of, ApplicationView};
use crate::argo::render::RenderOutcomeView;
use crate::model::{AppProjectView, NamespaceView, StateView};
use crate::registry::{lemma_to_map_upserted, to_map};
use crate::resolve::{
    classified, classified_all, kind_of, lemma_merged_concat, merged, rendered_documents, Kind,
};
use crate::util::name_of;
use crate::yaml::Value;
use vstd::prelude::*;

verus! {

/// What the registry holds under each name, without the order of
/// discovery.
#[verifier::ext_equal]
pub struct Registry {
    pub applications: Map<Seq<char>, ApplicationView>,
    pub app_projects: Map<Seq<char>, AppProjectView>,
    pub namespaces: Map<Seq<char>, NamespaceView>,
}

impl StateView {
    /// The three registries as maps.
    pub open spec fn registry(self) -> Registry {
        Registry {
            applications: to_map(self.applications),
            app_projects: to_map(self.app_projects),
            namespaces: to_map(self.namespaces),
        }
    }
}

/// A document that can be sorted in: it is of none of the three kinds, or
/// it has what its kind requires.
pub open spec fn sortable(v: Value) -> bool {
    match kind_of(v) {
        Some(Kind::Application) => application_of(v) is Some,
        Some(_) => name_of(v) is Some,
        None => true,
    }
}

/// Kind and name of a document that the registry keeps.
pub open spec fn identity(v: Value) -> Option<(Kind, Seq<char>)> {
    match (kind_of(v), name_of(v)) {
        (Some(kind), Some(name)) => Some((kind, name)),
        _ => None,
    }
}

/// Two documents that are not stored under the same kind and name.
pub open spec fn unrelated(v: Value, w: Value) -> bool {
    identity(v) is None || identity(w) is None || identity(v) != identity(w)
}

/// The maps after a document was sorted in: it is stored under its kind
/// and name, in place of what was there.
pub open spec fn stored(r: Registry, v: Value) -> Registry {
    match kind_of(v) {
        Some(Kind::Application) => match application_of(v) {
            Some(application) => Registry {
                applications: r.applications.insert(application.name, application),
                ..r
            },
            None => r,
        },
        Some(Kind::AppProject) => match name_of(v) {
            Some(name) => Registry {
                app_projects: r.app_projects.insert(name, AppProjectView { name, yaml: v }),
                ..r
            },
            None => r,
        },
        Some(Kind::Namespace) => match name_of(v) {
            Some(name) => Registry {
                namespaces: r.namespaces.insert(name, NamespaceView { name, yaml: v }),
                ..r
            },
            None => r,
        },
        None => r,
    }
}

/// The maps after a batch of documents was sorted in, one after the other.
pub open spec fn stored_all(r: Registry, documents: Seq<Value>) -> Registry
    decreases documents.len(),
{
    if documents.len() == 0 {
        r
    } else {
        stored_all(stored(r, documents[0]), documents.drop_first())
    }
}

/// Sorting a document into a state does to its maps what `stored` says.
pub proof fn lemma_classified_registry(s: StateView, v: Value)
    requires
        s.distinct(),
        sortable(v),
    ensures
        classified(s, v) is Ok,
        classified(s, v)->Ok_0.distinct(),
        classified(s, v)->Ok_0.registry() == stored(s.registry(), v),
{
    match kind_of(v) {
        Some(Kind::Application) => {
            let application = application_of(v)->0;
            lemma_to_map_upserted(s.applications, application.name, application);
        },
        Some(Kind::AppProject) => {
            let name = name_of(v)->0;
            lemma_to_map_upserted(s.app_projects, name, AppProjectView { name, yaml: v });
        },
        Some(Kind::Namespace) => {
            let name = name_of(v)->0;
            lemma_to_map_upserted(s.namespaces, name, NamespaceView { name, yaml: v });
        },
        None => {},
    }
}

/// Sorting a batch of sortable documents into a state never fails, and
/// does to its maps what `stored_all` says.
pub proof fn lemma_classified_all_registry(s: StateView, documents: Seq<Value>)
    requires
        s.distinct(),
        forall|i: int| 0 <= i < documents.len() ==> sortable(#[trigger] documents[i]),
    ensures
        classified_all(s, documents).1 is None,
        classified_all(s, documents).0.distinct(),
        classified_all(s, documents).0.registry() == stored_all(s.registry(), documents),
    decreases documents.len(),
{
    if documents.len() > 0 {
        lemma_classified_registry(s, documents[0]);
        let next = classified(s, documents[0])->Ok_0;
        let rest = documents.drop_first();
        assert forall|i: int| 0 <= i < rest.len() implies sortable(#[trigger] rest[i]) by {
            assert(rest[i] == documents[i + 1]);
        }
        lemma_classified_all_registry(next, rest);
    }
}

/// Sorting a document in twice is the same as sorting it in once.
pub proof fn lemma_stored_twice(r: Registry, v: Value)
    ensures
        stored(stored(r, v), v) == stored(r, v),
{
    assert(stored(stored(r, v), v) =~= stored(r, v));
}

/// Two documents of different kind or name can be sorted in in either
/// order.
pub proof fn lemma_stored_commutes(r: Registry, v: Value, w: Value)
    requires
        unrelated(v, w),
    ensures
        stored(stored(r, v), w) == stored(stored(r, w), v),
{
    assert(stored(stored(r, v), w) =~= stored(stored(r, w), v));
}

/// A document can be sorted in before or after a batch that holds none of
/// its kind and name.
pub proof fn lemma_stored_past(r: Registry, v: Value, batch: Seq<Value>)
    requires
        forall|j: int| 0 <= j < batch.len() ==> unrelated(v, #[trigger] batch[j]),
    ensures
        stored_all(stored(r, v), batch) == stored(stored_all(r, batch), v),
    decreases batch.len(),
{
    if batch.len() > 0 {
        let rest = batch.drop_first();
        lemma_stored_commutes(r, v, batch[0]);
        assert forall|j: int| 0 <= j < rest.len() implies unrelated(v, #[trigger] rest[j]) by {
            assert(rest[j] == batch[j + 1]);
        }
        lemma_stored_past(stored(r, batch[0]), v, rest);
    }
}

/// Sorting in two batches, one behind the other, is sorting in the first
/// and then the second.
pub proof fn lemma_stored_concat(r: Registry, first: Seq<Value>, second: Seq<Value>)
    ensures
        stored_all(r, first + second) == stored_all(stored_all(r, first), second),
    decreases first.len(),
{
    if first.len() == 0 {
        assert(first + second =~= second);
    } else {
        assert((first + second)[0] == first[0]);
        assert((first + second).drop_first() =~= first.drop_first() + second);
        lemma_stored_concat(stored(r, first[0]), first.drop_first(), second);
    }
}

/// Two batches that share no kind and name can be sorted in in either
/// order.
pub proof fn lemma_stored_swap(r: Registry, first: Seq<Value>, second: Seq<Value>)
    requires
        forall|i: int, j: int|
            0 <= i < first.len() && 0 <= j < second.len() ==> unrelated(
                #[trigger] first[i],
                #[trigger] second[j],
            ),
    ensures
        stored_all(r, first + second) == stored_all(r, second + first),
    decreases first.len(),
{
    if first.len() == 0 {
        assert(first + second =~= second);
        assert(second + first =~= second);
    } else {
        let v = first[0];
        let rest = first.drop_first();
        assert forall|i: int, j: int|
            0 <= i < rest.len() && 0 <= j < second.len() implies unrelated(
            #[trigger] rest[i],
            #[trigger] second[j],
        ) by {
            assert(rest[i] == first[i + 1]);
        }
        // first + second starts with v.
        assert((first + second)[0] == v);
        assert((first + second).drop_first() =~= rest + second);
        lemma_stored_swap(stored(r, v), rest, second);
        lemma_stored_concat(stored(r, v), second, rest);
        assert forall|j: int| 0 <= j < second.len() implies unrelated(v, #[trigger] second[j]) by {
            assert(unrelated(first[0], second[j]));
        }
        lemma_stored_past(r, v, second);
        // second + first is second, then v, then the rest.
        lemma_stored_concat(r, second, first);
        assert(stored_all(stored_all(r, second), first) == stored_all(
            stored(stored_all(r, second), v),
            rest,
        ));
    }
}

/// Merge order does not show in the registry: where the documents of two
/// renderings are sortable and no kind and name occurs in both, sorting
/// them in as one batch gives the same maps whichever rendering comes
/// first, and neither order fails.
pub proof fn lemma_batch_order(s: StateView, first: Seq<Value>, second: Seq<Value>)
    requires
        s.distinct(),
        forall|i: int| 0 <= i < first.len() ==> sortable(#[trigger] first[i]),
        forall|j: int| 0 <= j < second.len() ==> sortable(#[trigger] second[j]),
        forall|i: int, j: int|
            0 <= i < first.len() && 0 <= j < second.len() ==> unrelated(
                #[trigger] first[i],
                #[trigger] second[j],
            ),
    ensures
        classified_all(s, first + second).1 is None,
        classified_all(s, second + first).1 is None,
        classified_all(s, first + second).0.registry() == classified_all(
            s,
            second + first,
        ).0.registry(),
{
    lemma_classified_all_registry(s, first + second);
    lemma_classified_all_registry(s, second + first);
    lemma_stored_swap(s.registry(), first, second);
}

/// Sorting is idempotent: a sortable document that is sorted in a second
/// time leaves the maps as they are.
pub proof fn lemma_classified_twice(s: StateView, v: Value)
    requires
        s.distinct(),
        sortable(v),
    ensures
        classified(s, v) is Ok,
        classified(classified(s, v)->Ok_0, v) is Ok,
        classified(classified(s, v)->Ok_0, v)->Ok_0.registry() == classified(
            s,
            v,
        )->Ok_0.registry(),
{
    lemma_classified_registry(s, v);
    lemma_classified_registry(classified(s, v)->Ok_0, v);
    lemma_stored_twice(s.registry(), v);
}

/// The documents that one rendering adds to the batch of its round: those
/// that it gave, and none where it failed or cannot be read.
pub open spec fn outcome_documents(outcome: RenderOutcomeView) -> Seq<Value> {
    match rendered_documents(outcome.result) {
        Ok(documents) => documents,
        Err(_) => Seq::empty(),
    }
}

/// Every document of the batch can be sorted in.
pub open spec fn all_sortable(batch: Seq<Value>) -> bool {
    forall|k: int| 0 <= k < batch.len() ==> sortable(#[trigger] batch[k])
}

/// No kind and name occurs in both batches.
pub open spec fn apart(first: Seq<Value>, second: Seq<Value>) -> bool {
    forall|i: int, j: int|
        0 <= i < first.len() && 0 <= j < second.len() ==> unrelated(
            #[trigger] first[i],
            #[trigger] second[j],
        )
}

/// Renderings that do not get in each other's way: no outcome occurs
/// twice, the documents of every outcome can be sorted in, and no kind and
/// name occurs in the documents of two outcomes.
pub open spec fn independent(outcomes: Seq<RenderOutcomeView>) -> bool {
    &&& outcomes.no_duplicates()
    &&& forall|x: RenderOutcomeView| #[trigger]
        outcomes.contains(x) ==> all_sortable(outcome_documents(x))
    &&& forall|x: RenderOutcomeView, y: RenderOutcomeView|
        #![trigger outcomes.contains(x), outcomes.contains(y)]
        outcomes.contains(x) && outcomes.contains(y) && x != y ==> apart(
            outcome_documents(x),
            outcome_documents(y),
        )
}

/// Every document of a merged batch is a document of one of the outcomes.
pub proof fn lemma_merged_member(outcomes: Seq<RenderOutcomeView>, k: int)
    requires
        0 <= k < merged(outcomes).documents.len(),
    ensures
        exists|j: int, l: int|
            0 <= j < outcomes.len() && 0 <= l < outcome_documents(outcomes[j]).len()
                && #[trigger] outcome_documents(outcomes[j])[l] == merged(outcomes).documents[k],
    decreases outcomes.len(),
{
    let earlier = merged(outcomes.drop_last()).documents;
    if k < earlier.len() {
        lemma_merged_member(outcomes.drop_last(), k);
        let (j, l) = choose|j: int, l: int|
            0 <= j < outcomes.drop_last().len() && 0 <= l < outcome_documents(
                outcomes.drop_last()[j],
            ).len() && #[trigger] outcome_documents(outcomes.drop_last()[j])[l] == earlier[k];
        assert(outcomes[j] == outcomes.drop_last()[j]);
        assert(outcome_documents(outcomes[j])[l] == merged(outcomes).documents[k]);
    } else {
        let j = outcomes.len() - 1;
        let l = k - earlier.len();
        assert(outcome_documents(outcomes[j])[l] == merged(outcomes).documents[k]);
    }
}

/// The merged batch of independent renderings can be sorted in.
pub proof fn lemma_merged_sortable(outcomes: Seq<RenderOutcomeView>)
    requires
        independent(outcomes),
    ensures
        all_sortable(merged(outcomes).documents),
{
    assert forall|k: int| 0 <= k < merged(outcomes).documents.len() implies sortable(
        #[trigger] merged(outcomes).documents[k],
    ) by {
        lemma_merged_member(outcomes, k);
        let (j, l) = choose|j: int, l: int|
            0 <= j < outcomes.len() && 0 <= l < outcome_documents(outcomes[j]).len()
                && #[trigger] outcome_documents(outcomes[j])[l] == merged(outcomes).documents[k];
        assert(outcomes.contains(outcomes[j]));
        assert(all_sortable(outcome_documents(outcomes[j])));
    }
}

/// The merged batch of one outcome behind others.
proof fn lemma_merged_push(outcomes: Seq<RenderOutcomeView>, x: RenderOutcomeView)
    ensures
        merged(outcomes.push(x)).documents == merged(outcomes).documents + outcome_documents(x),
{
    assert(outcomes.push(x).drop_last() =~= outcomes);
    assert(merged(outcomes).documents + Seq::<Value>::empty() =~= merged(outcomes).documents);
}

/// Independent renderings stay independent where one of them is left out,
/// and the documents of the one left out share no kind and name with the
/// merged batch of the others.
proof fn lemma_independent_without(outcomes: Seq<RenderOutcomeView>, i: int)
    requires
        independent(outcomes),
        0 <= i < outcomes.len(),
    ensures
        independent(outcomes.remove(i)),
        apart(outcome_documents(outcomes[i]), merged(outcomes.remove(i)).documents),
        apart(
            outcome_documents(outcomes[i]),
            merged(outcomes.subrange(i + 1, outcomes.len() as int)).documents,
        ),
{
    let rest = outcomes.remove(i);
    let x = outcomes[i];
    assert forall|y: RenderOutcomeView| rest.contains(y) implies outcomes.contains(y) && y != x by {
        let j = choose|j: int| 0 <= j < rest.len() && rest[j] == y;
        if j < i {
            assert(outcomes[j] == y);
        } else {
            assert(outcomes[j + 1] == y);
        }
    }
    assert(rest.no_duplicates()) by {
        assert forall|a: int, b: int|
            0 <= a < rest.len() && 0 <= b < rest.len() && a != b implies rest[a] != rest[b] by {
            let a0 = if a < i { a } else { a + 1 };
            let b0 = if b < i { b } else { b + 1 };
            assert(rest[a] == outcomes[a0]);
            assert(rest[b] == outcomes[b0]);
        }
    }
    assert(outcomes.contains(x));
    assert forall|k: int, l: int|
        0 <= k < outcome_documents(x).len() && 0 <= l < merged(
            rest,
        ).documents.len() implies unrelated(
        #[trigger] outcome_documents(x)[k],
        #[trigger] merged(rest).documents[l],
    ) by {
        lemma_merged_member(rest, l);
        let (j, m) = choose|j: int, m: int|
            0 <= j < rest.len() && 0 <= m < outcome_documents(rest[j]).len()
                && #[trigger] outcome_documents(rest[j])[m] == merged(rest).documents[l];
        assert(rest.contains(rest[j]));
        assert(apart(outcome_documents(x), outcome_documents(rest[j])));
    }
    let behind = outcomes.subrange(i + 1, outcomes.len() as int);
    assert forall|k: int, l: int|
        0 <= k < outcome_documents(x).len() && 0 <= l < merged(
            behind,
        ).documents.len() implies unrelated(
        #[trigger] outcome_documents(x)[k],
        #[trigger] merged(behind).documents[l],
    ) by {
        lemma_merged_member(behind, l);
        let (j, m) = choose|j: int, m: int|
            0 <= j < behind.len() && 0 <= m < outcome_documents(behind[j]).len()
                && #[trigger] outcome_documents(behind[j])[m] == merged(behind).documents[l];
        assert(behind[j] == outcomes[i + 1 + j]);
        assert(outcomes.contains(behind[j]));
        assert(apart(outcome_documents(x), outcome_documents(behind[j])));
    }
}

/// Leaving one of a list of independent renderings out and sorting its
/// documents in behind those of the others gives the same maps as sorting
/// the whole list in.
proof fn lemma_stored_moved(r: Registry, outcomes: Seq<RenderOutcomeView>, i: int)
    requires
        independent(outcomes),
        0 <= i < outcomes.len(),
    ensures
        stored_all(r, merged(outcomes).documents) == stored_all(
            stored_all(r, merged(outcomes.remove(i)).documents),
            outcome_documents(outcomes[i]),
        ),
{
    let x = outcomes[i];
    let before = outcomes.subrange(0, i);
    let behind = outcomes.subrange(i + 1, outcomes.len() as int);
    let a = merged(before).documents;
    let d = outcome_documents(x);
    let b = merged(behind).documents;
    assert(outcomes =~= before.push(x) + behind);
    assert(outcomes.remove(i) =~= before + behind);
    lemma_merged_push(before, x);
    lemma_merged_concat(before.push(x), behind);
    lemma_merged_concat(before, behind);
    lemma_independent_without(outcomes, i);
    let r0 = stored_all(r, a);
    // The whole list: the ones before, the one at `i`, the ones behind.
    assert(merged(outcomes).documents =~= a + (d + b));
    lemma_stored_concat(r, a, d + b);
    lemma_stored_swap(r0, d, b);
    lemma_stored_concat(r0, b, d);
    lemma_stored_concat(r, a, b);
}

/// The order of independent renderings does not show in the maps: two
/// lists that hold the same outcomes give the same maps.
pub proof fn lemma_stored_permutation(
    r: Registry,
    first: Seq<RenderOutcomeView>,
    second: Seq<RenderOutcomeView>,
)
    requires
        first.to_multiset() == second.to_multiset(),
        independent(first),
        independent(second),
    ensures
        stored_all(r, merged(first).documents) == stored_all(r, merged(second).documents),
    decreases first.len(),
{
    broadcast use vstd::seq_lib::group_to_multiset_ensures;

    if first.len() == 0 {
        assert(second.to_multiset().len() == 0);
        assert(second.len() == 0);
        assert(first =~= second);
    } else {
        let x = first.last();
        assert(first.contains(x));
        assert(second.to_multiset().count(x) > 0);
        assert(second.contains(x));
        let i = choose|i: int| 0 <= i < second.len() && second[i] == x;
        let last = first.len() - 1;
        assert(first.remove(last) =~= first.drop_last());
        lemma_independent_without(first, last);
        lemma_independent_without(second, i);
        assert(first.remove(last).to_multiset() == second.remove(i).to_multiset());
        lemma_stored_permutation(r, first.remove(last), second.remove(i));
        lemma_stored_moved(r, first, last);
        lemma_stored_moved(r, second, i);
    }
}

/// Independence goes by the outcomes that a list holds, not by their
/// order.
pub proof fn lemma_independent_permutation(
    first: Seq<RenderOutcomeView>,
    second: Seq<RenderOutcomeView>,
)
    requires
        first.to_multiset() == second.to_multiset(),
        independent(first),
    ensures
        independent(second),
{
    broadcast use vstd::seq_lib::group_to_multiset_ensures;

    first.lemma_multiset_has_no_duplicates();
    second.lemma_multiset_has_no_duplicates_conv();
    assert forall|x: RenderOutcomeView| second.contains(x) implies first.contains(x) by {
        assert(second.to_multiset().count(x) > 0);
    }
}

} // verus!
