//! What holds of queries as a whole.
use crate::dcql::{Claim, Component, Credential, DcqlError, DcqlGate, Query, SetQuery, TypeContent};
use crate::dcql::evaluate::{
    claim_found, claim_set_found, claims_found, gate_of, leads, matches_some, named_claim_found,
    option_met, query_met, reached, selected, set_met, sets_met, type_matches,
};
use crate::dcql::parse::{
    claim_of, claims_in, credential_of, every, has_duplicate_ids, impossible_option, items_in,
    query_of, readable, set_of,
};
use crate::dcql::role::{reconciled_role, type_role};
use crate::json::Json;
use crate::types::{Attr, Format, IssuerRole};
use vstd::prelude::*;

verus! {

/// A presentation passes only where a query was read, and the presentation is of the format and the
/// type and holds the claims that one of its credential queries asks for.
pub proof fn law_satisfied_is_what_was_asked_for(
    query: Result<Query, DcqlError>,
    format: Format,
    credential_type: TypeContent,
    presented: Map<Seq<char>, Attr>,
)
    requires
        gate_of(query, format, credential_type, presented) == DcqlGate::Satisfied,
    ensures
        query is Ok,
        exists|i: int|
            {
                &&& 0 <= i < query->Ok_0.credentials.len()
                &&& type_matches(#[trigger] query->Ok_0.credentials[i], format, credential_type)
                &&& claims_found(query->Ok_0.credentials[i], presented)
            },
{
    let credentials = query->Ok_0.credentials;
    let i = choose|i: int|
        0 <= i < credentials.len() && query_met(
            #[trigger] credentials[i],
            format,
            credential_type,
            presented,
        );
    assert(type_matches(credentials[i], format, credential_type));
}

proof fn lemma_dead_end(value: Attr, path: Seq<Component>, k: int, target: Attr)
    requires
        0 <= k < path.len(),
        path[k] is Unrepresentable,
    ensures
        !reached(value, path, target),
    decreases path.len(),
{
    if reached(value, path, target) {
        let next = choose|next: Attr| #[trigger]
            leads(value, path[0], next) && reached(next, path.drop_first(), target);
        if k > 0 {
            assert(path.drop_first()[k - 1] is Unrepresentable);
            lemma_dead_end(next, path.drop_first(), k - 1, target);
        }
    }
}

/// A claim whose path holds a step that leads nowhere is never found, and neither is one whose
/// wanted values no claim can have: what cannot be represented fails closed.
pub proof fn law_unrepresentable_is_never_found(
    presented: Map<Seq<char>, Attr>,
    claim: Claim,
    k: int,
)
    requires
        (0 <= k < claim.path.len() && claim.path[k] is Unrepresentable) || (claim.values is Some
            && forall|j: int|
            0 <= j < claim.values->Some_0.len() ==> #[trigger] claim.values->Some_0[j]
                is Unrepresentable),
    ensures
        !claim_found(presented, claim),
{
    if claim_found(presented, claim) {
        let target = choose|target: Attr| #[trigger]
            selected(presented, claim.path, target) && (claim.values matches Some(expected)
                ==> matches_some(target, expected));
        if 0 <= k < claim.path.len() && claim.path[k] is Unrepresentable {
            lemma_dead_end(Attr::Fields(presented), claim.path, k, target);
        }
    }
}

/// A presentation that holds the claims that were asked for still holds them when more is
/// disclosed.
pub proof fn law_more_disclosed_is_never_less(
    query: Credential,
    presented: Map<Seq<char>, Attr>,
    more: Map<Seq<char>, Attr>,
)
    requires
        forall|key: Seq<char>| #[trigger]
            presented.contains_key(key) ==> more.contains_key(key) && more[key] == presented[key],
        claims_found(query, presented),
    ensures
        claims_found(query, more),
{
    assert forall|claim: Claim| claim_found(presented, claim) implies #[trigger] claim_found(
        more,
        claim,
    ) by {
        let target = choose|target: Attr| #[trigger]
            selected(presented, claim.path, target) && (claim.values matches Some(expected)
                ==> matches_some(target, expected));
        let next = choose|next: Attr| #[trigger]
            leads(Attr::Fields(presented), claim.path[0], next) && reached(
                next,
                claim.path.drop_first(),
                target,
            );
        let key = claim.path[0]->Key_0;
        assert(presented.contains_key(key));
        assert(leads(Attr::Fields(more), claim.path[0], next));
        assert(selected(more, claim.path, target));
    }
    if query.claims.len() > 0 && query.claim_sets.len() > 0 {
        let i = choose|i: int|
            0 <= i < query.claim_sets.len() && claim_set_found(
                presented,
                query.claims,
                #[trigger] query.claim_sets[i],
            );
        let ids = query.claim_sets[i];
        assert forall|j: int| 0 <= j < ids.len() implies named_claim_found(
            more,
            query.claims,
            #[trigger] ids[j],
        ) by {
            assert(named_claim_found(presented, query.claims, ids[j]));
            let c = choose|c: int|
                0 <= c < query.claims.len() && (#[trigger] query.claims[c]).id == Some(ids[j])
                    && claim_found(presented, query.claims[c]);
            assert(claim_found(more, query.claims[c]));
        }
        assert(claim_set_found(more, query.claims, query.claim_sets[i]));
    }
}

/// A query as a whole stays met when more of its credentials are there.
pub proof fn law_more_credentials_are_never_less(
    query: Query,
    satisfied: Seq<Seq<char>>,
    more: Seq<Seq<char>>,
)
    requires
        forall|id: Seq<char>| #[trigger] satisfied.contains(id) ==> more.contains(id),
        sets_met(query, satisfied),
    ensures
        sets_met(query, more),
{
    if query.credential_sets.len() > 0 {
        assert forall|i: int| 0 <= i < query.credential_sets.len() implies set_met(
            #[trigger] query.credential_sets[i],
            more,
        ) by {
            let set = query.credential_sets[i];
            assert(set_met(set, satisfied));
            if set.required {
                let o = choose|o: int|
                    0 <= o < set.options.len() && option_met(#[trigger] set.options[o], satisfied);
                assert(option_met(set.options[o], more));
            }
        }
    }
}

/// Nothing is never what was asked for: without any credential, a query is met only where it lists
/// combinations and requires none of them.
pub proof fn law_nothing_presented_meets_no_requirement(query: Query)
    ensures
        sets_met(query, Seq::empty()) <==> query.credential_sets.len() > 0 && forall|i: int|
            0 <= i < query.credential_sets.len() ==> !(
            #[trigger] query.credential_sets[i]).required,
{
    let none = Seq::<Seq<char>>::empty();
    assert forall|set: SetQuery| #[trigger] set_met(set, none) <==> !set.required by {
        if set.required && set_met(set, none) {
            let o = choose|o: int|
                0 <= o < set.options.len() && option_met(#[trigger] set.options[o], none);
            assert(none.contains(set.options[o][0]));
        }
    }
    if query.credential_sets.len() == 0 && sets_met(query, none) {
        assert(none.contains(query.credentials[0].id));
    }
    if sets_met(query, none) {
        assert forall|i: int| 0 <= i < query.credential_sets.len() implies !(
        #[trigger] query.credential_sets[i]).required by {
            assert(set_met(query.credential_sets[i], none));
        }
    }
}

proof fn lemma_readable<T>(items: Seq<Json>, read: spec_fn(Json) -> Option<T>, i: int) -> (at: int)
    requires
        0 <= i < readable(items, read).len(),
    ensures
        0 <= at < items.len(),
        read(items[at]) == Some(readable(items, read)[i]),
    decreases items.len(),
{
    let earlier = readable(items.drop_last(), read);
    if i < earlier.len() {
        let at = lemma_readable(items.drop_last(), read, i);
        assert(items.drop_last()[at] == items[at]);
        at
    } else {
        items.len() - 1
    }
}

/// The credential queries of a query that was read have names, no two of them the same; each stands
/// in the request; and a claim that can be named in a combination has a name that is not empty.
pub proof fn law_read_queries_are_well_formed(value: Json, query: Query)
    requires
        query_of(value) == Ok::<Query, DcqlError>(query),
    ensures
        !has_duplicate_ids(query.credentials),
        forall|i: int|
            0 <= i < query.credentials.len() ==> (#[trigger] query.credentials[i]).id.len() > 0,
        forall|i: int, j: int|
            0 <= i < query.credentials.len() && 0 <= j < query.credentials[i].claims.len() ==> ((
            #[trigger] query.credentials[i].claims[j]).id matches Some(id) ==> id.len() > 0),
        forall|i: int|
            0 <= i < query.credential_sets.len() ==> (
            #[trigger] query.credential_sets[i]).options.len() > 0,
{
    let read = |item: Json| credential_of(item);
    let items = items_in(value, "credentials"@);
    assert forall|i: int| 0 <= i < query.credentials.len() implies (
    #[trigger] query.credentials[i]).id.len() > 0 by {
        let at = lemma_readable(items, read, i);
    }
    assert forall|i: int, j: int|
        0 <= i < query.credentials.len() && 0 <= j < query.credentials[i].claims.len() implies ((
    #[trigger] query.credentials[i].claims[j]).id matches Some(id) ==> id.len() > 0) by {
        let at = lemma_readable(items, read, i);
        let claims = claims_in(items[at])->Some_0;
        assert(query.credentials[i].claims == claims);
        let listed = crate::json::member(items[at], "claims"@)->Some_0->Array_0;
        let read_claim = |item: Json| claim_of(item);
        assert(every(listed, read_claim) is Some);
        assert(read_claim(listed[j]) is Some);
        assert(claims[j] == claim_of(listed[j])->Some_0);
    }
    let read_set = |item: Json| set_of(item);
    let sets = items_in(value, "credential_sets"@);
    assert forall|i: int| 0 <= i < query.credential_sets.len() implies (
    #[trigger] query.credential_sets[i]).options.len() > 0 by {
        let at = lemma_readable(sets, read_set, i);
    }
}

/// A combination of claims that could not be read is met by nothing, since no claim has an empty
/// name.
pub proof fn law_unreadable_combination_is_never_met(
    presented: Map<Seq<char>, Attr>,
    claims: Seq<Claim>,
)
    requires
        forall|j: int|
            0 <= j < claims.len() ==> ((#[trigger] claims[j]).id matches Some(id) ==> id.len() > 0),
    ensures
        !claim_set_found(presented, claims, impossible_option()),
{
    if claim_set_found(presented, claims, impossible_option()) {
        assert(named_claim_found(presented, claims, impossible_option()[0]));
    }
}

/// Person identification data is checked under its own role alone, and any other type under the
/// role that the caller names.
pub proof fn law_role_of_person_identification_data(
    caller: IssuerRole,
    format: Format,
    type_id: Seq<char>,
)
    ensures
        type_role(format, type_id) == Some(IssuerRole::Pid) ==> (reconciled_role(
            caller,
            format,
            type_id,
        ) is Some <==> caller == IssuerRole::Pid),
        type_role(format, type_id) is None ==> reconciled_role(caller, format, type_id) == Some(
            caller,
        ),
        reconciled_role(caller, format, type_id) matches Some(role) ==> role == caller,
{
}

} // verus!
