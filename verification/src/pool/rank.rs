//! The rank of endpoints in a pool: by priority, and among equals as listed.

use vstd::prelude::*;

use crate::config::EndpointView;

verus! {

/// `ranked` with one more endpoint, behind all that do not yield to it.
pub open spec fn insert_ranked(ranked: Seq<EndpointView>, endpoint: EndpointView) -> Seq<
    EndpointView,
>
    decreases ranked.len(),
{
    if ranked.len() == 0 || ranked.last().priority <= endpoint.priority {
        ranked.push(endpoint)
    } else {
        insert_ranked(ranked.drop_last(), endpoint).push(ranked.last())
    }
}

/// The endpoints by ascending priority, ties in the order of the list.
pub open spec fn by_priority(endpoints: Seq<EndpointView>) -> Seq<EndpointView>
    decreases endpoints.len(),
{
    if endpoints.len() == 0 {
        endpoints
    } else {
        insert_ranked(by_priority(endpoints.drop_last()), endpoints.last())
    }
}

/// Priorities never fall along the list.
pub open spec fn ascending(endpoints: Seq<EndpointView>) -> bool {
    forall|i: int, j: int|
        0 <= i <= j < endpoints.len() ==> (#[trigger] endpoints[i]).priority <= (
        #[trigger] endpoints[j]).priority
}

/// The endpoints of one priority, in their order.
pub open spec fn tier(endpoints: Seq<EndpointView>, priority: u32) -> Seq<EndpointView>
    decreases endpoints.len(),
{
    if endpoints.len() == 0 {
        endpoints
    } else {
        let rest = tier(endpoints.drop_last(), priority);
        if endpoints.last().priority == priority {
            rest.push(endpoints.last())
        } else {
            rest
        }
    }
}

/// Where an endpoint is inserted.
pub proof fn lemma_insert_ranked_at(ranked: Seq<EndpointView>, endpoint: EndpointView, pos: int)
    requires
        0 <= pos <= ranked.len(),
        pos > 0 ==> ranked[pos - 1].priority <= endpoint.priority,
        forall|k: int|
            pos <= k < ranked.len() ==> (#[trigger] ranked[k]).priority > endpoint.priority,
    ensures
        insert_ranked(ranked, endpoint) == ranked.insert(pos, endpoint),
    decreases ranked.len(),
{
    if pos == ranked.len() {
        assert(ranked.insert(pos, endpoint) =~= ranked.push(endpoint));
    } else {
        let shorter = ranked.drop_last();
        assert(ranked[ranked.len() - 1].priority > endpoint.priority);
        assert forall|k: int| pos <= k < shorter.len() implies (#[trigger] shorter[k]).priority
            > endpoint.priority by {
            assert(shorter[k] == ranked[k]);
        }
        lemma_insert_ranked_at(shorter, endpoint, pos);
        assert(shorter.insert(pos, endpoint).push(ranked.last()) =~= ranked.insert(pos, endpoint));
    }
}

proof fn lemma_insert_ranked(ranked: Seq<EndpointView>, endpoint: EndpointView)
    requires
        ascending(ranked),
    ensures
        ascending(insert_ranked(ranked, endpoint)),
        insert_ranked(ranked, endpoint).len() == ranked.len() + 1,
        insert_ranked(ranked, endpoint).to_multiset() == ranked.to_multiset().insert(endpoint),
        forall|priority: u32|
            #![trigger tier(insert_ranked(ranked, endpoint), priority)]
            tier(insert_ranked(ranked, endpoint), priority) == if priority == endpoint.priority {
                tier(ranked, priority).push(endpoint)
            } else {
                tier(ranked, priority)
            },
        insert_ranked(ranked, endpoint).last().priority >= endpoint.priority,
        ranked.len() > 0 ==> insert_ranked(ranked, endpoint).last().priority
            >= ranked.last().priority,
        insert_ranked(ranked, endpoint).last() == endpoint || (ranked.len() > 0 && insert_ranked(
            ranked,
            endpoint,
        ).last() == ranked.last()),
    decreases ranked.len(),
{
    broadcast use vstd::seq_lib::group_to_multiset_ensures;

    let result = insert_ranked(ranked, endpoint);
    if ranked.len() == 0 || ranked.last().priority <= endpoint.priority {
        assert(result.drop_last() =~= ranked);
        assert forall|i: int, j: int| 0 <= i <= j < result.len() implies (
        #[trigger] result[i]).priority <= (#[trigger] result[j]).priority by {
            if j == ranked.len() && i < ranked.len() {
                assert(ranked[i].priority <= ranked[ranked.len() - 1].priority);
            }
        }
    } else {
        let shorter = ranked.drop_last();
        let inner = insert_ranked(shorter, endpoint);
        assert(ascending(shorter)) by {
            assert forall|i: int, j: int| 0 <= i <= j < shorter.len() implies (
            #[trigger] shorter[i]).priority <= (#[trigger] shorter[j]).priority by {
                assert(ranked[i].priority <= ranked[j].priority);
            }
        }
        lemma_insert_ranked(shorter, endpoint);
        assert(result.drop_last() =~= inner);
        assert(shorter.push(ranked.last()) =~= ranked);
        assert(inner.last().priority <= ranked.last().priority) by {
            if shorter.len() > 0 {
                assert(ranked[shorter.len() - 1].priority <= ranked[ranked.len() - 1].priority);
            }
        }
        assert forall|i: int, j: int| 0 <= i <= j < result.len() implies (
        #[trigger] result[i]).priority <= (#[trigger] result[j]).priority by {
            if j == inner.len() && i < inner.len() {
                assert(inner[i].priority <= inner[inner.len() - 1].priority);
            } else if j < inner.len() {
                assert(inner[i].priority <= inner[j].priority);
            }
        }
        assert(result.to_multiset() =~= ranked.to_multiset().insert(endpoint));
        assert forall|priority: u32| #[trigger]
            tier(result, priority) == if priority == endpoint.priority {
                tier(ranked, priority).push(endpoint)
            } else {
                tier(ranked, priority)
            } by {
            let kept = tier(inner, priority);
        }
    }
}

/// Ranking is a stable sort: the same endpoints, by ascending priority, and
/// those of one priority in the order in which they were listed.
pub proof fn law_ranking_is_a_stable_sort(endpoints: Seq<EndpointView>)
    ensures
        ascending(by_priority(endpoints)),
        by_priority(endpoints).len() == endpoints.len(),
        by_priority(endpoints).to_multiset() == endpoints.to_multiset(),
        forall|priority: u32|
            #![trigger tier(by_priority(endpoints), priority)]
            tier(by_priority(endpoints), priority) == tier(endpoints, priority),
    decreases endpoints.len(),
{
    broadcast use vstd::seq_lib::group_to_multiset_ensures;

    if endpoints.len() > 0 {
        let shorter = endpoints.drop_last();
        law_ranking_is_a_stable_sort(shorter);
        lemma_insert_ranked(by_priority(shorter), endpoints.last());
        assert(shorter.push(endpoints.last()) =~= endpoints);
    }
}

} // verus!
