//! Evaluating a query against a verified presentation.
use crate::dcql::parse::query_in;
use crate::dcql::{
    each, Claim, ClaimValue, ClaimsQuery, Component, Credential, CredentialMeta, CredentialQuery,
    CredentialSetQuery, CredentialType, DcqlError, DcqlGate, DcqlQuery, Meta, PathComponent, Query,
    SetQuery, TypeContent, Wanted,
};
use crate::text::{blank, contains_text, is_blank, str_eq, texts};
use crate::text_map::TextMap;
use crate::types::{attr_map, lemma_fields_content, Attr, AttributeValue, Format};
use vstd::prelude::*;

verus! {

/// Whether a step of a path leads from a value to another.
pub open spec fn leads(value: Attr, component: Component, next: Attr) -> bool {
    match component {
        Component::Key(key) => value is Fields && value->Fields_0.contains_key(key) && next
            == value->Fields_0[key],
        Component::Index(index) => value is Array && index < value->Array_0.len() && next
            == value->Array_0[index as int],
        Component::AllElements => value is Array && value->Array_0.contains(next),
        Component::Unrepresentable => false,
    }
}

/// Whether a path leads from a value to another.
pub open spec fn reached(value: Attr, path: Seq<Component>, target: Attr) -> bool
    decreases path.len(),
{
    if path.len() == 0 {
        target == value
    } else {
        exists|next: Attr| #[trigger]
            leads(value, path[0], next) && reached(next, path.drop_first(), target)
    }
}

/// Whether a path leads to a value from the claims of a presentation. It has to start with a key.
pub open spec fn selected(
    presented: Map<Seq<char>, Attr>,
    path: Seq<Component>,
    target: Attr,
) -> bool {
    path.len() > 0 && path[0] is Key && reached(Attr::Fields(presented), path, target)
}

/// The values that a step of a path leads to from a value, in order.
pub open spec fn next_values(value: Attr, component: Component) -> Seq<Attr> {
    match (component, value) {
        (Component::Key(key), Attr::Fields(fields)) => if fields.contains_key(key) {
            seq![fields[key]]
        } else {
            Seq::empty()
        },
        (Component::Index(index), Attr::Array(items)) => if index < items.len() {
            seq![items[index as int]]
        } else {
            Seq::empty()
        },
        (Component::AllElements, Attr::Array(items)) => items,
        _ => Seq::empty(),
    }
}

/// The values that a step of a path leads to from the values of a list, one after the other.
pub open spec fn stepped(values: Seq<Attr>, component: Component) -> Seq<Attr>
    decreases values.len(),
{
    if values.len() == 0 {
        Seq::empty()
    } else {
        stepped(values.drop_last(), component) + next_values(values.last(), component)
    }
}

/// The values that a path leads to from the values of a list, in order.
pub open spec fn walked(values: Seq<Attr>, path: Seq<Component>) -> Seq<Attr>
    decreases path.len(),
{
    if path.len() == 0 {
        values
    } else {
        walked(stepped(values, path[0]), path.drop_first())
    }
}

/// The values that a path leads to from the claims of a presentation, in order. The path has to
/// start with a key.
pub open spec fn resolved(presented: Map<Seq<char>, Attr>, path: Seq<Component>) -> Seq<Attr> {
    if path.len() > 0 && path[0] is Key {
        walked(seq![Attr::Fields(presented)], path)
    } else {
        Seq::empty()
    }
}

/// Whether a value is the one that is wanted. Only values of one kind can be the same.
pub open spec fn is_wanted(value: Attr, wanted: Wanted) -> bool {
    match (wanted, value) {
        (Wanted::Text(text), Attr::Text(actual)) => text == actual,
        (Wanted::Integer(integer), Attr::Integer(actual)) => integer == actual,
        (Wanted::Boolean(boolean), Attr::Boolean(actual)) => boolean == actual,
        _ => false,
    }
}

/// Whether a value is one of those that are wanted.
pub open spec fn matches_some(value: Attr, expected: Seq<Wanted>) -> bool {
    exists|i: int| 0 <= i < expected.len() && is_wanted(value, #[trigger] expected[i])
}

/// Whether a value is one of those that are wanted.
pub fn value_matches(value: &AttributeValue, expected: &[ClaimValue]) -> (out: bool)
    ensures
        out == matches_some(value@, each(expected@)),
{
    let ghost all = each(expected@);
    let mut i: usize = 0;
    while i < expected.len()
        invariant
            i <= expected@.len(),
            all == each(expected@),
            forall|j: int| 0 <= j < i ==> !is_wanted(value@, #[trigger] all[j]),
        decreases expected@.len() - i,
    {
        assert(all[i as int] == expected@[i as int]@);
        let same = match (&expected[i], value) {
            (ClaimValue::Text(text), AttributeValue::Text(actual)) => str_eq(
                text.as_str(),
                actual.as_str(),
            ),
            (ClaimValue::Integer(integer), AttributeValue::Integer(actual)) => *integer == *actual,
            (ClaimValue::Boolean(boolean), AttributeValue::Boolean(actual)) => *boolean == *actual,
            _ => false,
        };
        if same {
            assert(is_wanted(value@, all[i as int]));
            return true;
        }
        i += 1;
    }
    false
}

/// The contents of a list of values.
pub open spec fn values_of(values: Seq<&AttributeValue>) -> Seq<Attr> {
    values.map_values(|value: &AttributeValue| value@)
}

/// Whether a step leads to a value from some value of a list.
pub(crate) open spec fn some_leads(values: Seq<Attr>, component: Component, next: Attr) -> bool {
    exists|i: int| 0 <= i < values.len() && leads(#[trigger] values[i], component, next)
}

/// Whether a path leads to a value from some value of a list.
spec fn some_reached(values: Seq<Attr>, path: Seq<Component>, target: Attr) -> bool {
    exists|i: int| 0 <= i < values.len() && reached(#[trigger] values[i], path, target)
}

proof fn lemma_array_values(items: Vec<AttributeValue>)
    ensures
        AttributeValue::Array(items)@ == Attr::Array(each(items@)),
{
    assert(AttributeValue::Array(items)@->Array_0 =~= each(items@));
}

fn follow<'a>(
    value: &'a AttributeValue,
    component: &PathComponent,
    out: &mut Vec<&'a AttributeValue>,
)
    ensures
        values_of(final(out)@) == values_of(old(out)@) + next_values(value@, component@),
{
    let ghost before = values_of(out@);
    assert(before + Seq::<Attr>::empty() =~= before);
    match (component, value) {
        (PathComponent::Key(key), AttributeValue::Fields(map)) => {
            proof {
                lemma_fields_content(*map);
            }
            if let Some(found) = map.get(key.as_str()) {
                out.push(found);
                assert(values_of(out@) =~= before + seq![found@]);
            }
        },
        (PathComponent::Index(index), AttributeValue::Array(items)) => {
            proof {
                lemma_array_values(*items);
            }
            if *index < items.len() as u64 {
                let at: usize = *index as usize;
                out.push(&items[at]);
                assert(each(items@)[at as int] == items@[at as int]@);
                assert(values_of(out@) =~= before + seq![items@[at as int]@]);
            }
        },
        (PathComponent::AllElements, AttributeValue::Array(items)) => {
            proof {
                lemma_array_values(*items);
            }
            let ghost all = each(items@);
            assert(before + all.take(0) =~= before);
            let mut j: usize = 0;
            while j < items.len()
                invariant
                    j <= items@.len(),
                    all == each(items@),
                    values_of(out@) == before + all.take(j as int),
                decreases items@.len() - j,
            {
                let ghost so_far = values_of(out@);
                out.push(&items[j]);
                assert(all[j as int] == items@[j as int]@);
                assert(values_of(out@) =~= so_far.push(all[j as int]));
                assert(values_of(out@) =~= before + all.take(j as int + 1));
                j += 1;
            }
            assert(all.take(j as int) =~= all);
        },
        _ => {},
    }
}

/// Take one step of a path from every value of a list, in order.
pub fn select<'a>(current: &Vec<&'a AttributeValue>, component: &PathComponent) -> (out: Vec<
    &'a AttributeValue,
>)
    ensures
        values_of(out@) == stepped(values_of(current@), component@),
{
    let ghost all = values_of(current@);
    let mut out: Vec<&'a AttributeValue> = Vec::new();
    let mut i: usize = 0;
    assert(values_of(out@) =~= stepped(all.take(0), component@));
    while i < current.len()
        invariant
            i <= current@.len(),
            all == values_of(current@),
            values_of(out@) == stepped(all.take(i as int), component@),
        decreases current@.len() - i,
    {
        follow(current[i], component, &mut out);
        assert(all.take(i as int + 1).drop_last() =~= all.take(i as int));
        assert(all.take(i as int + 1).last() == current@[i as int]@);
        i += 1;
    }
    assert(all.take(i as int) =~= all);
    out
}

/// A step from two lists, one after the other, leads to what it leads to from each, one after the
/// other; from no value it leads nowhere, and from one value to the next values of it.
pub proof fn law_steps_distribute(a: Seq<Attr>, b: Seq<Attr>, value: Attr, component: Component)
    ensures
        stepped(a + b, component) == stepped(a, component) + stepped(b, component),
        stepped(Seq::empty(), component) == Seq::<Attr>::empty(),
        stepped(seq![value], component) == next_values(value, component),
        component is Unrepresentable ==> stepped(a, component) == Seq::<Attr>::empty(),
    decreases a.len() + b.len(),
{
    assert(seq![value].drop_last() =~= Seq::<Attr>::empty());
    assert(stepped(seq![value], component) == stepped(Seq::empty(), component) + next_values(
        value,
        component,
    ));
    assert(Seq::<Attr>::empty() + next_values(value, component) =~= next_values(value, component));
    if b.len() == 0 {
        assert(a + b =~= a);
        assert(stepped(a, component) + Seq::<Attr>::empty() =~= stepped(a, component));
        if a.len() > 0 {
            law_steps_distribute(a.drop_last(), b, value, component);
            assert(component is Unrepresentable ==> stepped(a, component) =~= Seq::<
                Attr,
            >::empty());
        }
    } else {
        law_steps_distribute(a, b.drop_last(), value, component);
        assert((a + b).drop_last() =~= a + b.drop_last());
        assert((a + b).last() == b.last());
        assert(stepped(a + b, component) =~= stepped(a, component) + stepped(b, component));
    }
}

pub(crate) proof fn lemma_stepped_contains(values: Seq<Attr>, component: Component, t: Attr)
    ensures
        stepped(values, component).contains(t) <==> some_leads(values, component, t),
    decreases values.len(),
{
    if values.len() > 0 {
        let shorter = values.drop_last();
        let earlier = stepped(shorter, component);
        let last = next_values(values.last(), component);
        let all = stepped(values, component);
        lemma_stepped_contains(shorter, component, t);
        assert(last.contains(t) <==> leads(values.last(), component, t)) by {
            if leads(values.last(), component, t) && !(component is AllElements) {
                assert(last[0] == t);
            }
        }
        if all.contains(t) {
            let i = choose|i: int| 0 <= i < all.len() && all[i] == t;
            if i < earlier.len() {
                assert(earlier[i] == t);
                let j = choose|j: int|
                    0 <= j < shorter.len() && leads(#[trigger] shorter[j], component, t);
                assert(leads(values[j], component, t));
            } else {
                assert(last[i - earlier.len()] == t);
                assert(leads(values[values.len() - 1], component, t));
            }
        }
        if some_leads(values, component, t) {
            let j = choose|j: int|
                0 <= j < values.len() && leads(#[trigger] values[j], component, t);
            if j < shorter.len() {
                assert(leads(shorter[j], component, t));
                let i = choose|i: int| 0 <= i < earlier.len() && earlier[i] == t;
                assert(all[i] == t);
            } else {
                let i = choose|i: int| 0 <= i < last.len() && last[i] == t;
                assert(all[earlier.len() + i] == t);
            }
        }
    }
}

proof fn lemma_walked_contains(values: Seq<Attr>, path: Seq<Component>, target: Attr)
    ensures
        walked(values, path).contains(target) <==> some_reached(values, path, target),
    decreases path.len(),
{
    if path.len() == 0 {
        if values.contains(target) {
            let i = choose|i: int| 0 <= i < values.len() && values[i] == target;
            assert(reached(values[i], path, target));
        }
    } else {
        let next = stepped(values, path[0]);
        assert forall|t: Attr| #[trigger] next.contains(t) <==> some_leads(values, path[0], t) by {
            lemma_stepped_contains(values, path[0], t);
        }
        lemma_walked_contains(next, path.drop_first(), target);
        lemma_step(values, path, next, target);
    }
}

/// The values that a path is resolved to are those that it leads to.
pub proof fn law_resolved_are_selected(
    presented: Map<Seq<char>, Attr>,
    path: Seq<Component>,
    target: Attr,
)
    ensures
        resolved(presented, path).contains(target) <==> selected(presented, path, target),
{
    if path.len() > 0 && path[0] is Key {
        let top = seq![Attr::Fields(presented)];
        lemma_walked_contains(top, path, target);
        if selected(presented, path, target) {
            assert(reached(top[0], path, target));
        }
    }
}

proof fn lemma_step(current: Seq<Attr>, path: Seq<Component>, next: Seq<Attr>, target: Attr)
    requires
        path.len() > 0,
        forall|t: Attr| #[trigger] next.contains(t) <==> some_leads(current, path[0], t),
    ensures
        some_reached(current, path, target) <==> some_reached(next, path.drop_first(), target),
{
    if some_reached(current, path, target) {
        let i = choose|i: int|
            0 <= i < current.len() && reached(#[trigger] current[i], path, target);
        let via = choose|via: Attr| #[trigger]
            leads(current[i], path[0], via) && reached(via, path.drop_first(), target);
        assert(some_leads(current, path[0], via));
        assert(next.contains(via));
        let j = choose|j: int| 0 <= j < next.len() && next[j] == via;
        assert(reached(next[j], path.drop_first(), target));
    }
    if some_reached(next, path.drop_first(), target) {
        let j = choose|j: int|
            0 <= j < next.len() && reached(#[trigger] next[j], path.drop_first(), target);
        assert(next.contains(next[j]));
        assert(some_leads(current, path[0], next[j]));
        let i = choose|i: int|
            0 <= i < current.len() && leads(#[trigger] current[i], path[0], next[j]);
        assert(reached(current[i], path, target));
    }
}

proof fn lemma_walked_from_nothing(path: Seq<Component>)
    ensures
        walked(Seq::empty(), path) == Seq::<Attr>::empty(),
    decreases path.len(),
{
    if path.len() > 0 {
        lemma_walked_from_nothing(path.drop_first());
    }
}

/// Find the values that a path leads to, in order.
pub fn resolve_path<'a>(root: &'a TextMap<AttributeValue>, path: &Vec<PathComponent>) -> (out: Vec<
    &'a AttributeValue,
>)
    ensures
        values_of(out@) == resolved(attr_map(root@), each(path@)),
{
    let ghost steps = each(path@);
    let ghost top = Attr::Fields(attr_map(root@));
    let ghost goal = resolved(attr_map(root@), steps);
    let mut current: Vec<&'a AttributeValue> = Vec::new();
    assert(values_of(current@) =~= Seq::<Attr>::empty());
    if path.len() == 0 {
        return current;
    }
    assert(steps[0] == path@[0]@);
    match &path[0] {
        PathComponent::Key(first) => {
            if let Some(found) = root.get(first.as_str()) {
                current.push(found);
            }
            proof {
                assert(values_of(current@) =~= next_values(top, steps[0]));
                law_steps_distribute(seq![], seq![], top, steps[0]);
                assert(steps.drop_first() =~= steps.skip(1));
            }
        },
        _ => {
            return current;
        },
    }
    let mut k: usize = 1;
    while k < path.len() && current.len() > 0
        invariant
            1 <= k <= path@.len(),
            steps == each(path@),
            goal == walked(values_of(current@), steps.skip(k as int)),
        decreases path@.len() - k,
    {
        let ghost rest = steps.skip(k as int);
        assert(rest[0] == path@[k as int]@);
        assert(rest.drop_first() =~= steps.skip(k as int + 1));
        current = select(&current, &path[k]);
        k += 1;
    }
    proof {
        if current@.len() == 0 {
            assert(values_of(current@) =~= Seq::<Attr>::empty());
            lemma_walked_from_nothing(steps.skip(k as int));
        }
    }
    current
}

/// Whether a presentation holds a claim that was asked for: its path leads somewhere, and where
/// values are wanted, to one of them.
pub open spec fn claim_found(presented: Map<Seq<char>, Attr>, claim: Claim) -> bool {
    exists|target: Attr| #[trigger]
        selected(presented, claim.path, target) && (claim.values matches Some(expected)
            ==> matches_some(target, expected))
}

/// Whether a presentation holds a claim that was asked for.
pub fn claim_resolves(claim: &ClaimsQuery, presented: &TextMap<AttributeValue>) -> (out: bool)
    ensures
        out == claim_found(attr_map(presented@), claim@),
{
    let found = resolve_path(presented, &claim.path);
    let ghost all = values_of(found@);
    let ghost content = claim@;
    assert forall|t: Attr| #[trigger] all.contains(t) <==> selected(
        attr_map(presented@),
        content.path,
        t,
    ) by {
        law_resolved_are_selected(attr_map(presented@), content.path, t);
    }
    if found.len() == 0 {
        assert forall|t: Attr| !(#[trigger] selected(attr_map(presented@), content.path, t)) by {
            assert(!all.contains(t));
        }
        return false;
    }
    match &claim.values {
        None => {
            assert(all.contains(all[0]));
            assert(selected(attr_map(presented@), content.path, all[0]));
            true
        },
        Some(expected) => {
            let mut i: usize = 0;
            while i < found.len()
                invariant
                    i <= found@.len(),
                    all == values_of(found@),
                    content == claim@,
                    content.values == Some(each(expected@)),
                    forall|t: Attr| #[trigger]
                        all.contains(t) <==> selected(attr_map(presented@), content.path, t),
                    forall|j: int| 0 <= j < i ==> !matches_some(#[trigger] all[j], each(expected@)),
                decreases found@.len() - i,
            {
                assert(all[i as int] == found@[i as int]@);
                assert(all.contains(all[i as int]));
                if value_matches(found[i], expected.as_slice()) {
                    assert(selected(attr_map(presented@), content.path, all[i as int]));
                    return true;
                }
                i += 1;
            }
            assert forall|t: Attr| #[trigger]
                selected(attr_map(presented@), content.path, t) implies !matches_some(
                t,
                each(expected@),
            ) by {
                assert(all.contains(t));
                let j = choose|j: int| 0 <= j < all.len() && all[j] == t;
                assert(!matches_some(all[j], each(expected@)));
            }
            false
        },
    }
}

/// Whether two claims have one name.
pub open spec fn has_duplicate_claim_ids(claims: Seq<Claim>) -> bool {
    exists|i: int, j: int|
        0 <= i < j < claims.len() && (#[trigger] claims[i]).id is Some && claims[i].id == (
        #[trigger] claims[j]).id
}

/// Whether a presentation holds the claim of a name.
pub open spec fn named_claim_found(
    presented: Map<Seq<char>, Attr>,
    claims: Seq<Claim>,
    id: Seq<char>,
) -> bool {
    exists|i: int|
        0 <= i < claims.len() && (#[trigger] claims[i]).id == Some(id) && claim_found(
            presented,
            claims[i],
        )
}

/// Whether a presentation holds every claim of a combination, of which there is at least one.
pub open spec fn claim_set_found(
    presented: Map<Seq<char>, Attr>,
    claims: Seq<Claim>,
    ids: Seq<Seq<char>>,
) -> bool {
    ids.len() > 0 && forall|i: int|
        0 <= i < ids.len() ==> named_claim_found(presented, claims, #[trigger] ids[i])
}

/// Whether a presentation holds the claims that a credential query asks for: all of them, or those
/// of one of its combinations. Combinations of claims that share a name are met by nothing.
pub open spec fn claims_found(query: Credential, presented: Map<Seq<char>, Attr>) -> bool {
    if query.claims.len() == 0 {
        true
    } else if query.claim_sets.len() == 0 {
        forall|i: int|
            0 <= i < query.claims.len() ==> claim_found(presented, #[trigger] query.claims[i])
    } else {
        !has_duplicate_claim_ids(query.claims) && exists|i: int|
            0 <= i < query.claim_sets.len() && claim_set_found(
                presented,
                query.claims,
                #[trigger] query.claim_sets[i],
            )
    }
}

fn find_duplicate_claim_id(claims: &Vec<ClaimsQuery>) -> (out: bool)
    ensures
        out == has_duplicate_claim_ids(each(claims@)),
{
    let ghost all = each(claims@);
    let mut j: usize = 0;
    while j < claims.len()
        invariant
            j <= claims@.len(),
            all == each(claims@),
            forall|a: int, b: int|
                0 <= a < b < j ==> (#[trigger] all[a]).id is None || all[a].id != (
                #[trigger] all[b]).id,
        decreases claims@.len() - j,
    {
        let mut i: usize = 0;
        while i < j
            invariant
                i <= j < claims@.len(),
                all == each(claims@),
                forall|a: int|
                    0 <= a < i ==> (#[trigger] all[a]).id is None || all[a].id != all[j as int].id,
            decreases j - i,
        {
            assert(all[i as int] == claims@[i as int]@);
            assert(all[j as int] == claims@[j as int]@);
            if let (Some(left), Some(right)) = (&claims[i].id, &claims[j].id) {
                if str_eq(left.as_str(), right.as_str()) {
                    assert(all[i as int].id is Some && all[i as int].id == all[j as int].id);
                    return true;
                }
            }
            i += 1;
        }
        j += 1;
    }
    false
}

fn named_claim_resolves(
    claims: &Vec<ClaimsQuery>,
    id: &str,
    presented: &TextMap<AttributeValue>,
) -> (out: bool)
    ensures
        out == named_claim_found(attr_map(presented@), each(claims@), id@),
{
    let ghost all = each(claims@);
    let mut i: usize = 0;
    while i < claims.len()
        invariant
            i <= claims@.len(),
            all == each(claims@),
            forall|j: int|
                0 <= j < i ==> (#[trigger] all[j]).id != Some(id@) || !claim_found(
                    attr_map(presented@),
                    all[j],
                ),
        decreases claims@.len() - i,
    {
        assert(all[i as int] == claims@[i as int]@);
        if let Some(name) = &claims[i].id {
            if str_eq(name.as_str(), id) && claim_resolves(&claims[i], presented) {
                assert(all[i as int].id == Some(id@));
                return true;
            }
        }
        i += 1;
    }
    false
}

fn claim_set_resolves(
    claims: &Vec<ClaimsQuery>,
    ids: &Vec<String>,
    presented: &TextMap<AttributeValue>,
) -> (out: bool)
    ensures
        out == claim_set_found(attr_map(presented@), each(claims@), texts(ids@)),
{
    let ghost all = texts(ids@);
    if ids.len() == 0 {
        return false;
    }
    let mut i: usize = 0;
    while i < ids.len()
        invariant
            i <= ids@.len(),
            ids@.len() > 0,
            all == texts(ids@),
            forall|j: int|
                0 <= j < i ==> named_claim_found(
                    attr_map(presented@),
                    each(claims@),
                    #[trigger] all[j],
                ),
        decreases ids@.len() - i,
    {
        assert(all[i as int] == ids@[i as int]@);
        if !named_claim_resolves(claims, ids[i].as_str(), presented) {
            return false;
        }
        i += 1;
    }
    true
}

/// Whether a presentation holds the claims that a credential query asks for.
pub fn claims_satisfied(query: &CredentialQuery, presented: &TextMap<AttributeValue>) -> (out: bool)
    ensures
        out == claims_found(query@, attr_map(presented@)),
{
    let ghost content = query@;
    if query.claims.len() == 0 {
        return true;
    }
    if query.claim_sets.len() == 0 {
        let mut i: usize = 0;
        while i < query.claims.len()
            invariant
                i <= query.claims@.len(),
                query.claims@.len() > 0,
                query.claim_sets@.len() == 0,
                content == query@,
                forall|j: int|
                    0 <= j < i ==> claim_found(
                        attr_map(presented@),
                        #[trigger] content.claims[j],
                    ),
            decreases query.claims@.len() - i,
        {
            assert(content.claims[i as int] == query.claims@[i as int]@);
            if !claim_resolves(&query.claims[i], presented) {
                return false;
            }
            i += 1;
        }
        return true;
    }
    if find_duplicate_claim_id(&query.claims) {
        return false;
    }
    let mut i: usize = 0;
    while i < query.claim_sets.len()
        invariant
            i <= query.claim_sets@.len(),
            query.claims@.len() > 0,
            query.claim_sets@.len() > 0,
            content == query@,
            !has_duplicate_claim_ids(content.claims),
            forall|j: int|
                0 <= j < i ==> !claim_set_found(
                    attr_map(presented@),
                    content.claims,
                    #[trigger] content.claim_sets[j],
                ),
        decreases query.claim_sets@.len() - i,
    {
        assert(content.claim_sets[i as int] == texts(query.claim_sets@[i as int]@));
        if claim_set_resolves(&query.claims, &query.claim_sets[i], presented) {
            return true;
        }
        i += 1;
    }
    false
}

/// Whether a credential is of the format and the type that a query asks for. Every document of an
/// mdoc has to be of the type, and there has to be one.
pub open spec fn type_matches(query: Credential, format: Format, credential_type: TypeContent) -> bool {
    query.format == format && match (query.meta, credential_type) {
        (Meta::SdJwtVc { vct_values }, TypeContent::Vct(vct)) => match vct_values {
            Some(allowed) => vct matches Some(vct) && allowed.contains(vct),
            None => true,
        },
        (Meta::Mdoc { doctype_value }, TypeContent::DocTypes(doc_types)) => doc_types.len() > 0
            && match doctype_value {
            Some(expected) => forall|i: int|
                0 <= i < doc_types.len() ==> #[trigger] doc_types[i] == expected,
            None => true,
        },
        _ => false,
    }
}

fn all_same(items: &Vec<String>, expected: &str) -> (out: bool)
    ensures
        out == (forall|i: int|
            0 <= i < texts(items@).len() ==> #[trigger] texts(items@)[i] == expected@),
{
    let ghost all = texts(items@);
    let mut i: usize = 0;
    while i < items.len()
        invariant
            i <= items@.len(),
            all == texts(items@),
            forall|j: int| 0 <= j < i ==> #[trigger] all[j] == expected@,
        decreases items@.len() - i,
    {
        assert(all[i as int] == items@[i as int]@);
        if !str_eq(items[i].as_str(), expected) {
            return false;
        }
        i += 1;
    }
    true
}

/// Whether a credential is of the format and the type that a query asks for.
pub fn format_and_meta_match(
    query: &CredentialQuery,
    format: Format,
    credential_type: &CredentialType,
) -> (out: bool)
    ensures
        out == type_matches(query@, format, credential_type@),
{
    if query.format != format {
        return false;
    }
    match (&query.meta, credential_type) {
        (CredentialMeta::SdJwtVc { vct_values }, CredentialType::Vct(vct)) => match vct_values {
            Some(allowed) => match vct {
                Some(vct) => contains_text(allowed, vct.as_str()),
                None => false,
            },
            None => true,
        },
        (CredentialMeta::Mdoc { doctype_value }, CredentialType::DocTypes(doc_types)) => {
            if doc_types.len() == 0 {
                return false;
            }
            match doctype_value {
                Some(expected) => all_same(doc_types, expected.as_str()),
                None => true,
            }
        },
        _ => false,
    }
}

/// Whether a presentation is what a credential query asks for.
pub open spec fn query_met(
    query: Credential,
    format: Format,
    credential_type: TypeContent,
    presented: Map<Seq<char>, Attr>,
) -> bool {
    type_matches(query, format, credential_type) && claims_found(query, presented)
}

/// Whether a presentation is what a credential query asks for.
pub fn query_satisfied_by(
    query: &CredentialQuery,
    format: Format,
    credential_type: &CredentialType,
    presented: &TextMap<AttributeValue>,
) -> (out: bool)
    ensures
        out == query_met(query@, format, credential_type@, attr_map(presented@)),
{
    format_and_meta_match(query, format, credential_type) && claims_satisfied(query, presented)
}

/// Whether every credential of a combination is there, of which there is at least one.
pub open spec fn option_met(option: Seq<Seq<char>>, satisfied: Seq<Seq<char>>) -> bool {
    option.len() > 0 && forall|i: int|
        0 <= i < option.len() ==> satisfied.contains(#[trigger] option[i])
}

/// Whether one of the combinations is there, or none is required.
pub open spec fn set_met(set: SetQuery, satisfied: Seq<Seq<char>>) -> bool {
    set.required ==> exists|i: int|
        0 <= i < set.options.len() && option_met(#[trigger] set.options[i], satisfied)
}

/// Whether the credentials that are there are what the query as a whole asks for: every one of its
/// credentials, of which there is at least one; or, where it lists combinations, one of each
/// required list.
pub open spec fn sets_met(query: Query, satisfied: Seq<Seq<char>>) -> bool {
    if query.credential_sets.len() == 0 {
        query.credentials.len() > 0 && forall|i: int|
            0 <= i < query.credentials.len() ==> satisfied.contains(
                (#[trigger] query.credentials[i]).id,
            )
    } else {
        forall|i: int|
            0 <= i < query.credential_sets.len() ==> set_met(
                #[trigger] query.credential_sets[i],
                satisfied,
            )
    }
}

fn is_option_met(option: &Vec<String>, satisfied: &Vec<String>) -> (out: bool)
    ensures
        out == option_met(texts(option@), texts(satisfied@)),
{
    let ghost all = texts(option@);
    if option.len() == 0 {
        return false;
    }
    let mut i: usize = 0;
    while i < option.len()
        invariant
            i <= option@.len(),
            option@.len() > 0,
            all == texts(option@),
            forall|j: int| 0 <= j < i ==> texts(satisfied@).contains(#[trigger] all[j]),
        decreases option@.len() - i,
    {
        assert(all[i as int] == option@[i as int]@);
        if !contains_text(satisfied, option[i].as_str()) {
            return false;
        }
        i += 1;
    }
    true
}

fn is_set_met(set: &CredentialSetQuery, satisfied: &Vec<String>) -> (out: bool)
    ensures
        out == set_met(set@, texts(satisfied@)),
{
    if !set.required {
        return true;
    }
    let ghost all = set@.options;
    let mut i: usize = 0;
    while i < set.options.len()
        invariant
            i <= set.options@.len(),
            set.required,
            all == set@.options,
            forall|j: int| 0 <= j < i ==> !option_met(#[trigger] all[j], texts(satisfied@)),
        decreases set.options@.len() - i,
    {
        assert(all[i as int] == texts(set.options@[i as int]@));
        if is_option_met(&set.options[i], satisfied) {
            return true;
        }
        i += 1;
    }
    false
}

/// Whether the credentials that are there, by their names, are what the query as a whole asks for.
pub fn credential_sets_satisfied(query: &DcqlQuery, satisfied: &Vec<String>) -> (out: bool)
    ensures
        out == sets_met(query@, texts(satisfied@)),
{
    let ghost content = query@;
    if query.credential_sets.len() == 0 {
        if query.credentials.len() == 0 {
            return false;
        }
        let mut i: usize = 0;
        while i < query.credentials.len()
            invariant
                i <= query.credentials@.len(),
                query.credentials@.len() > 0,
                query.credential_sets@.len() == 0,
                content == query@,
                forall|j: int|
                    0 <= j < i ==> texts(satisfied@).contains((#[trigger] content.credentials[j]).id),
            decreases query.credentials@.len() - i,
        {
            assert(content.credentials[i as int] == query.credentials@[i as int]@);
            if !contains_text(satisfied, query.credentials[i].id.as_str()) {
                return false;
            }
            i += 1;
        }
        return true;
    }
    let mut i: usize = 0;
    while i < query.credential_sets.len()
        invariant
            i <= query.credential_sets@.len(),
            query.credential_sets@.len() > 0,
            content == query@,
            forall|j: int|
                0 <= j < i ==> set_met(#[trigger] content.credential_sets[j], texts(satisfied@)),
        decreases query.credential_sets@.len() - i,
    {
        assert(content.credential_sets[i as int] == query.credential_sets@[i as int]@);
        if !is_set_met(&query.credential_sets[i], satisfied) {
            return false;
        }
        i += 1;
    }
    true
}

/// Whether a presentation is what some credential query asks for.
pub open spec fn some_query_met(
    query: Query,
    format: Format,
    credential_type: TypeContent,
    presented: Map<Seq<char>, Attr>,
) -> bool {
    exists|i: int|
        0 <= i < query.credentials.len() && query_met(
            #[trigger] query.credentials[i],
            format,
            credential_type,
            presented,
        )
}

/// The verdict of a query that was read, or could not be read. A query with credentials of one name
/// asks for what cannot be told apart, and is met by nothing.
pub open spec fn gate_of(
    query: Result<Query, DcqlError>,
    format: Format,
    credential_type: TypeContent,
    presented: Map<Seq<char>, Attr>,
) -> DcqlGate {
    match query {
        Err(DcqlError::DuplicateCredentialId) => DcqlGate::NotSatisfied,
        Err(_) => DcqlGate::Inactive,
        Ok(query) => if query.credentials.len() == 0 {
            DcqlGate::Inactive
        } else if some_query_met(query, format, credential_type, presented) {
            DcqlGate::Satisfied
        } else {
            DcqlGate::NotSatisfied
        },
    }
}

/// Evaluate a query that was read, or could not be read.
pub fn evaluate_query(
    query: &Result<DcqlQuery, DcqlError>,
    format: Format,
    credential_type: &CredentialType,
    presented: &TextMap<AttributeValue>,
) -> (out: DcqlGate)
    ensures
        out == gate_of(
            match query {
                Ok(query) => Ok(query@),
                Err(error) => Err(*error),
            },
            format,
            credential_type@,
            attr_map(presented@),
        ),
{
    let parsed = match query {
        Ok(parsed) => parsed,
        Err(error) => {
            return match error {
                DcqlError::DuplicateCredentialId => DcqlGate::NotSatisfied,
                _ => DcqlGate::Inactive,
            };
        },
    };
    if parsed.credentials.len() == 0 {
        return DcqlGate::Inactive;
    }
    let ghost content = parsed@;
    let mut i: usize = 0;
    while i < parsed.credentials.len()
        invariant
            i <= parsed.credentials@.len(),
            content == parsed@,
            content.credentials.len() > 0,
            *query matches Ok(given) && given@ == content,
            forall|j: int|
                0 <= j < i ==> !query_met(
                    #[trigger] content.credentials[j],
                    format,
                    credential_type@,
                    attr_map(presented@),
                ),
        decreases parsed.credentials@.len() - i,
    {
        assert(content.credentials[i as int] == parsed.credentials@[i as int]@);
        if query_satisfied_by(&parsed.credentials[i], format, credential_type, presented) {
            assert(some_query_met(content, format, credential_type@, attr_map(presented@)));
            return DcqlGate::Satisfied;
        }
        i += 1;
    }
    DcqlGate::NotSatisfied
}

/// The verdict of the text of a query. Blank text asks for nothing.
pub open spec fn text_gate(
    query_json: Seq<char>,
    format: Format,
    credential_type: TypeContent,
    presented: Map<Seq<char>, Attr>,
) -> DcqlGate {
    if blank(query_json) {
        DcqlGate::Inactive
    } else {
        gate_of(query_in(query_json), format, credential_type, presented)
    }
}

/// Evaluate the text of a query against a verified presentation.
pub fn evaluate_single(
    query_json: &str,
    format: Format,
    credential_type: &CredentialType,
    presented: &TextMap<AttributeValue>,
) -> (out: DcqlGate)
    ensures
        out == text_gate(query_json@, format, credential_type@, attr_map(presented@)),
{
    if is_blank(query_json) {
        return DcqlGate::Inactive;
    }
    let query = DcqlQuery::parse(query_json);
    evaluate_query(&query, format, credential_type, presented)
}

} // verus!
