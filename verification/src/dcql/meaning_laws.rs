//! What it means that a presentation is what a query asks for.
use crate::dcql::{
    each, evaluate_single, ClaimValue, ClaimsQuery, Component, CredentialQuery, CredentialType,
    DcqlError, DcqlGate, DcqlQuery, PathComponent,
};
use crate::dcql::evaluate::{
    claim_found, claim_resolves, is_wanted, law_resolved_are_selected, law_steps_distribute, leads,
    lemma_stepped_contains, matches_some, query_met, reached, resolve_path, select, selected,
    stepped, value_matches, values_of, walked,
};
use crate::text_map::TextMap;
use crate::types::{attr_map, Attr, AttributeValue, Format};
use vstd::prelude::*;

verus! {

proof fn lemma_wanted(value: AttributeValue, wanted: ClaimValue)
    ensures
        is_wanted(value@, wanted@) <==> ({
            ||| wanted matches ClaimValue::Boolean(b) && value == AttributeValue::Boolean(b)
            ||| wanted matches ClaimValue::Integer(n) && value == AttributeValue::Integer(n)
            ||| wanted matches ClaimValue::Text(t) && value matches AttributeValue::Text(actual)
                && actual@ == t@
        }),
{
}

/// A value matches a list exactly where the list holds its equal: a truth value is met by the same
/// truth value, an integer by the same integer, a text by the same text, and nothing by anything of
/// another kind.
pub proof fn law_values_match_their_equals(
    value: &AttributeValue,
    expected: &[ClaimValue],
    out: bool,
)
    requires
        call_ensures(value_matches, (value, expected), out),
    ensures
        out <==> exists|i: int|
            0 <= i < expected@.len() && {
                ||| #[trigger] expected@[i] matches ClaimValue::Boolean(b) && *value
                    == AttributeValue::Boolean(b)
                ||| expected@[i] matches ClaimValue::Integer(n) && *value
                    == AttributeValue::Integer(n)
                ||| expected@[i] matches ClaimValue::Text(t)
                    && *value matches AttributeValue::Text(actual) && actual@ == t@
            },
{
    let all = each(expected@);
    assert forall|i: int| 0 <= i < expected@.len() implies #[trigger] all[i] == expected@[i]@ && (
    is_wanted(value@, all[i]) <==> ({
        ||| expected@[i] matches ClaimValue::Boolean(b) && *value == AttributeValue::Boolean(b)
        ||| expected@[i] matches ClaimValue::Integer(n) && *value == AttributeValue::Integer(n)
        ||| expected@[i] matches ClaimValue::Text(t) && *value matches AttributeValue::Text(actual)
            && actual@ == t@
    })) by {
        lemma_wanted(*value, expected@[i]);
    }
    if out {
        let i = choose|i: int| 0 <= i < all.len() && is_wanted(value@, #[trigger] all[i]);
        assert(expected@[i] == expected@[i]);
    }
    if exists|i: int|
        0 <= i < expected@.len() && {
            ||| #[trigger] expected@[i] matches ClaimValue::Boolean(b) && *value
                == AttributeValue::Boolean(b)
            ||| expected@[i] matches ClaimValue::Integer(n) && *value == AttributeValue::Integer(n)
            ||| expected@[i] matches ClaimValue::Text(t)
                && *value matches AttributeValue::Text(actual) && actual@ == t@
        } {
        let i = choose|i: int|
            0 <= i < expected@.len() && {
                ||| #[trigger] expected@[i] matches ClaimValue::Boolean(b) && *value
                    == AttributeValue::Boolean(b)
                ||| expected@[i] matches ClaimValue::Integer(n) && *value
                    == AttributeValue::Integer(n)
                ||| expected@[i] matches ClaimValue::Text(t)
                    && *value matches AttributeValue::Text(actual) && actual@ == t@
            };
        assert(is_wanted(value@, all[i]));
    }
}

/// A wanted truth value is met by the same truth value alone, a wanted integer by the same integer
/// alone, and a wanted text by the same text alone.
pub proof fn law_one_wanted_value(
    value: &AttributeValue,
    expected: &[ClaimValue],
    wanted: ClaimValue,
    out: bool,
)
    requires
        expected@ == seq![wanted],
        call_ensures(value_matches, (value, expected), out),
    ensures
        value matches AttributeValue::Boolean(a) ==> (out <==> wanted == ClaimValue::Boolean(*a)),
        value matches AttributeValue::Integer(a) ==> (out <==> wanted == ClaimValue::Integer(*a)),
        value matches AttributeValue::Text(a) ==> (out <==> (wanted matches ClaimValue::Text(t)
            && t@ == a@)),
        value is Bytes || value is Array || value is Fields || value is Null ==> !out,
        wanted is Unrepresentable ==> !out,
{
    law_values_match_their_equals(value, expected, out);
    assert(expected@[0] == wanted);
}

/// Two different plain values are never both met by one wanted value.
pub proof fn law_wanted_values_tell_values_apart(
    first: &AttributeValue,
    second: &AttributeValue,
    expected: &[ClaimValue],
    wanted: ClaimValue,
)
    requires
        expected@ == seq![wanted],
        call_ensures(value_matches, (first, expected), true),
        call_ensures(value_matches, (second, expected), true),
    ensures
        first@ == second@,
        first is Boolean ==> *first == *second,
        first is Integer ==> *first == *second,
{
    law_one_wanted_value(first, expected, wanted, true);
    law_one_wanted_value(second, expected, wanted, true);
}

/// A path of one key leads to the claim under that key, and to nothing where there is none; a path
/// that starts otherwise leads nowhere.
pub proof fn law_paths_start_at_a_key(
    root: &TextMap<AttributeValue>,
    path: &Vec<PathComponent>,
    out: Vec<&AttributeValue>,
)
    requires
        call_ensures(resolve_path, (root, path), out),
    ensures
        path@.len() == 0 ==> out@.len() == 0,
        path@.len() > 0 && !(path@[0] is Key) ==> out@.len() == 0,
        path@.len() == 1 ==> (path@[0] matches PathComponent::Key(key) ==> if root@.contains_key(
            key@,
        ) {
            out@.len() == 1 && out@[0]@ == root@[key@]@
        } else {
            out@.len() == 0
        }),
{
    let steps = each(path@);
    let presented = attr_map(root@);
    assert(values_of(out@).len() == out@.len());
    if path@.len() > 0 {
        assert(steps[0] == path@[0]@);
        if path@.len() == 1 && path@[0] is Key {
            let top = Attr::Fields(presented);
            assert(steps.drop_first() =~= Seq::<Component>::empty());
            law_steps_distribute(seq![], seq![], top, steps[0]);
            let next = stepped(seq![top], steps[0]);
            assert(walked(next, steps.drop_first()) == next);
            assert(walked(seq![top], steps) == next);
            if out@.len() > 0 {
                assert(values_of(out@)[0] == out@[0]@);
            }
        }
    }
}

/// Whether a step leads from one value to another: a key to the field under it, an index to the
/// element at it, and every element of an array is reached by the step to all of them.
pub open spec fn goes_to(from: Attr, step: PathComponent, to: Attr) -> bool {
    match step {
        PathComponent::Key(key) => from matches Attr::Fields(fields) && fields.contains_key(key@)
            && fields[key@] == to,
        PathComponent::Index(index) => from matches Attr::Array(items) && index < items.len()
            && items[index as int] == to,
        PathComponent::AllElements => from matches Attr::Array(items) && exists|i: int|
            0 <= i < items.len() && #[trigger] items[i] == to,
        PathComponent::Unrepresentable => false,
    }
}

proof fn lemma_walked_push(values: Seq<Attr>, path: Seq<Component>, last: Component)
    ensures
        walked(values, path.push(last)) == stepped(walked(values, path), last),
    decreases path.len(),
{
    let longer = path.push(last);
    if path.len() == 0 {
        assert(longer.drop_first() =~= Seq::<Component>::empty());
        let next = stepped(values, last);
        assert(walked(next, longer.drop_first()) == next);
    } else {
        assert(longer.drop_first() =~= path.drop_first().push(last));
        lemma_walked_push(stepped(values, path[0]), path.drop_first(), last);
    }
}

/// A path with one step more leads to exactly the values that the step leads to from the values
/// that the path leads to.
pub proof fn law_paths_go_step_by_step(
    root: &TextMap<AttributeValue>,
    path: &Vec<PathComponent>,
    longer: &Vec<PathComponent>,
    step: PathComponent,
    before: Vec<&AttributeValue>,
    after: Vec<&AttributeValue>,
    target: Attr,
)
    requires
        path@.len() > 0,
        longer@ == path@.push(step),
        call_ensures(resolve_path, (root, path), before),
        call_ensures(resolve_path, (root, longer), after),
    ensures
        (exists|j: int| 0 <= j < after@.len() && (#[trigger] after@[j])@ == target) <==> (exists|
            i: int,
        |
            0 <= i < before@.len() && goes_to((#[trigger] before@[i])@, step, target)),
{
    let steps = each(path@);
    let presented = attr_map(root@);
    assert(each(longer@) =~= steps.push(step@));
    assert(steps[0] == path@[0]@);
    assert(each(longer@)[0] == steps[0]);
    let from = values_of(before@);
    let to = values_of(after@);
    assert forall|i: int| 0 <= i < before@.len() implies (#[trigger] from[i]) == before@[i]@ && (
    leads(from[i], step@, target) <==> goes_to(before@[i]@, step, target)) by {
        if let Attr::Array(items) = from[i] {
            if items.contains(target) {
                let k = choose|k: int| 0 <= k < items.len() && items[k] == target;
                assert(items[k] == target);
            }
        }
    }
    if path@[0] is Key {
        lemma_walked_push(seq![Attr::Fields(presented)], steps, step@);
        assert(to == stepped(from, step@));
    } else {
        assert(from.len() == 0 && to.len() == 0);
        assert(stepped(from, step@) =~= to);
    }
    lemma_stepped_contains(from, step@, target);
    if exists|j: int| 0 <= j < after@.len() && (#[trigger] after@[j])@ == target {
        let j = choose|j: int| 0 <= j < after@.len() && (#[trigger] after@[j])@ == target;
        assert(to[j] == target);
        let i = choose|i: int| 0 <= i < from.len() && leads(#[trigger] from[i], step@, target);
        assert(goes_to(before@[i]@, step, target));
    }
    if exists|i: int| 0 <= i < before@.len() && goes_to((#[trigger] before@[i])@, step, target) {
        let i = choose|i: int|
            0 <= i < before@.len() && goes_to((#[trigger] before@[i])@, step, target);
        assert(leads(from[i], step@, target));
        let j = choose|j: int| 0 <= j < to.len() && to[j] == target;
        assert(after@[j]@ == target);
    }
}

/// A step to all elements keeps their order, and a step from several values takes them in order.
pub proof fn law_steps_keep_the_order(
    current: &Vec<&AttributeValue>,
    items: Vec<AttributeValue>,
    step: &PathComponent,
    out: Vec<&AttributeValue>,
)
    requires
        current@.len() == 1,
        *current@[0] == AttributeValue::Array(items),
        step is AllElements,
        call_ensures(select, (current, step), out),
    ensures
        out@.len() == items@.len(),
        forall|i: int| 0 <= i < items@.len() ==> (#[trigger] out@[i])@ == items@[i]@,
{
    let from = values_of(current@);
    assert(from =~= seq![current@[0]@]);
    law_steps_distribute(seq![], seq![], current@[0]@, step@);
    let to = values_of(out@);
    assert(to == current@[0]@->Array_0);
    assert(to.len() == out@.len());
    assert forall|i: int| 0 <= i < items@.len() implies (#[trigger] out@[i])@ == items@[i]@ by {
        assert(to[i] == out@[i]@);
    }
}

/// A claim is found exactly where its path leads to a value, and, where values are wanted, to one
/// that equals one of them.
pub proof fn law_claims_are_found_by_their_values(
    claim: &ClaimsQuery,
    presented: &TextMap<AttributeValue>,
    reached_values: Vec<&AttributeValue>,
    out: bool,
)
    requires
        call_ensures(resolve_path, (presented, &claim.path), reached_values),
        call_ensures(claim_resolves, (claim, presented), out),
    ensures
        claim.values is None ==> (out <==> reached_values@.len() > 0),
        claim.values matches Some(values) ==> (out <==> exists|i: int, j: int|
            0 <= i < reached_values@.len() && 0 <= j < values@.len() && meets(
                *#[trigger] reached_values@[i],
                #[trigger] values@[j],
            )),
{
    let map = attr_map(presented@);
    let content = claim@;
    let all = values_of(reached_values@);
    assert(content.path == each(claim.path@));
    if out {
        let target = choose|target: Attr| #[trigger]
            selected(map, content.path, target) && (content.values matches Some(expected)
                ==> matches_some(target, expected));
        law_resolved_are_selected(map, content.path, target);
        let i = choose|i: int| 0 <= i < all.len() && all[i] == target;
        assert(all[i] == reached_values@[i]@);
        if let Some(values) = claim.values {
            let expected = each(values@);
            let j = choose|j: int|
                0 <= j < expected.len() && is_wanted(target, #[trigger] expected[j]);
            assert(expected[j] == values@[j]@);
            lemma_wanted(*reached_values@[i], values@[j]);
            assert(meets(*reached_values@[i], values@[j]));
        }
    }
    if claim.values is None && reached_values@.len() > 0 {
        assert(all[0] == reached_values@[0]@);
        assert(all.contains(all[0]));
        law_resolved_are_selected(map, content.path, all[0]);
    }
    if let Some(values) = claim.values {
        if exists|i: int, j: int|
            0 <= i < reached_values@.len() && 0 <= j < values@.len() && meets(
                *#[trigger] reached_values@[i],
                #[trigger] values@[j],
            ) {
            let (i, j) = choose|i: int, j: int|
                0 <= i < reached_values@.len() && 0 <= j < values@.len() && meets(
                    *#[trigger] reached_values@[i],
                    #[trigger] values@[j],
                );
            lemma_wanted(*reached_values@[i], values@[j]);
            let expected = each(values@);
            assert(expected[j] == values@[j]@);
            assert(all[i] == reached_values@[i]@);
            assert(all.contains(all[i]));
            law_resolved_are_selected(map, content.path, all[i]);
            assert(is_wanted(all[i], expected[j]));
            assert(matches_some(all[i], expected));
        }
    }
}

/// Whether a value is equal to a wanted one, of the same kind.
pub open spec fn meets(value: AttributeValue, wanted: ClaimValue) -> bool {
    ||| wanted matches ClaimValue::Boolean(b) && value == AttributeValue::Boolean(b)
    ||| wanted matches ClaimValue::Integer(n) && value == AttributeValue::Integer(n)
    ||| wanted matches ClaimValue::Text(t) && value matches AttributeValue::Text(actual) && actual@
        == t@
}

/// A claim of the top level is found exactly where it is presented with a wanted value.
pub proof fn law_top_claims_are_found_by_their_values(
    claim: &ClaimsQuery,
    key: String,
    presented: &TextMap<AttributeValue>,
    out: bool,
)
    requires
        claim.path@ == seq![PathComponent::Key(key)],
        call_ensures(claim_resolves, (claim, presented), out),
    ensures
        claim.values is None ==> (out <==> presented@.contains_key(key@)),
        claim.values matches Some(values) ==> (out <==> presented@.contains_key(key@) && exists|
            j: int,
        |
            0 <= j < values@.len() && {
                ||| #[trigger] values@[j] matches ClaimValue::Boolean(b) && presented@[key@]
                    == AttributeValue::Boolean(b)
                ||| values@[j] matches ClaimValue::Integer(n) && presented@[key@]
                    == AttributeValue::Integer(n)
                ||| values@[j] matches ClaimValue::Text(t)
                    && presented@[key@] matches AttributeValue::Text(actual) && actual@ == t@
            }),
{
    lemma_top_claim(claim, key, presented, out);
}

proof fn lemma_top_claim(
    claim: &ClaimsQuery,
    key: String,
    presented: &TextMap<AttributeValue>,
    out: bool,
)
    requires
        claim.path@ == seq![PathComponent::Key(key)],
        out == claim_found(attr_map(presented@), claim@),
    ensures
        claim.values is None ==> (out <==> presented@.contains_key(key@)),
        claim.values matches Some(values) ==> (out <==> presented@.contains_key(key@) && exists|
            j: int,
        |
            0 <= j < values@.len() && {
                ||| #[trigger] values@[j] matches ClaimValue::Boolean(b) && presented@[key@]
                    == AttributeValue::Boolean(b)
                ||| values@[j] matches ClaimValue::Integer(n) && presented@[key@]
                    == AttributeValue::Integer(n)
                ||| values@[j] matches ClaimValue::Text(t)
                    && presented@[key@] matches AttributeValue::Text(actual) && actual@ == t@
            }),
{
    let map = attr_map(presented@);
    let content = claim@;
    let step = Component::Key(key@);
    assert(content.path =~= seq![step]);
    assert(content.path.drop_first() =~= Seq::<Component>::empty());
    let value = presented@[key@];
    assert forall|target: Attr| #[trigger]
        selected(map, content.path, target) <==> presented@.contains_key(key@) && target
            == value@ by {
        if selected(map, content.path, target) {
            let next = choose|next: Attr| #[trigger]
                leads(Attr::Fields(map), step, next) && reached(
                    next,
                    content.path.drop_first(),
                    target,
                );
        }
        if presented@.contains_key(key@) && target == value@ {
            assert(leads(Attr::Fields(map), step, target));
            assert(reached(target, content.path.drop_first(), target));
        }
    }
    if presented@.contains_key(key@) {
        assert(selected(map, content.path, value@));
    }
    if let Some(values) = claim.values {
        let expected = each(values@);
        assert forall|j: int| 0 <= j < values@.len() implies (#[trigger] expected[j])
            == values@[j]@ && (is_wanted(value@, expected[j]) <==> meets(value, values@[j])) by {
            lemma_wanted(value, values@[j]);
        }
        if out {
            let j = choose|j: int|
                0 <= j < expected.len() && is_wanted(value@, #[trigger] expected[j]);
            assert(meets(value, values@[j]));
        }
        if presented@.contains_key(key@) && (exists|j: int|
            0 <= j < values@.len() && {
                ||| #[trigger] values@[j] matches ClaimValue::Boolean(b) && presented@[key@]
                    == AttributeValue::Boolean(b)
                ||| values@[j] matches ClaimValue::Integer(n) && presented@[key@]
                    == AttributeValue::Integer(n)
                ||| values@[j] matches ClaimValue::Text(t)
                    && presented@[key@] matches AttributeValue::Text(actual) && actual@ == t@
            }) {
            let j = choose|j: int|
                0 <= j < values@.len() && {
                    ||| #[trigger] values@[j] matches ClaimValue::Boolean(b) && presented@[key@]
                        == AttributeValue::Boolean(b)
                    ||| values@[j] matches ClaimValue::Integer(n) && presented@[key@]
                        == AttributeValue::Integer(n)
                    ||| values@[j] matches ClaimValue::Text(t)
                        && presented@[key@] matches AttributeValue::Text(actual) && actual@ == t@
                };
            assert(is_wanted(value@, expected[j]));
            assert(matches_some(value@, expected));
        }
    }
}

/// Whether the claims of a credential query that stand at the top are presented, each with a value
/// that is wanted where values are.
pub open spec fn top_claims_met(
    query: CredentialQuery,
    presented: TextMap<AttributeValue>,
) -> bool {
    forall|j: int|
        0 <= j < query.claims@.len() && (#[trigger] query.claims@[j]).path@.len() == 1
            && query.claims@[j].path@[0] is Key ==> top_claim_met(
            query.claims@[j],
            query.claims@[j].path@[0]->Key_0,
            presented,
        )
}

/// Whether a claim is presented under a name, with a value that is wanted where values are.
pub open spec fn top_claim_met(
    claim: ClaimsQuery,
    key: String,
    presented: TextMap<AttributeValue>,
) -> bool {
    &&& presented@.contains_key(key@)
    &&& claim.values matches Some(values) ==> exists|v: int|
        0 <= v < values@.len() && meets(presented@[key@], #[trigger] values@[v])
}

/// A text passes a presentation only where some part of the query that is read of it is of the
/// format of the presentation and, unless it lists combinations, finds each of its claims at the
/// top presented, with one of the wanted values where values are wanted.
pub proof fn law_satisfied_queries_have_wanted_values(
    text: &str,
    format: Format,
    credential_type: &CredentialType,
    presented: &TextMap<AttributeValue>,
    query: DcqlQuery,
)
    requires
        call_ensures(DcqlQuery::parse, (text,), Ok::<DcqlQuery, DcqlError>(query)),
        call_ensures(
            evaluate_single,
            (text, format, credential_type, presented),
            DcqlGate::Satisfied,
        ),
    ensures
        exists|i: int|
            {
                &&& 0 <= i < query.credentials@.len()
                &&& (#[trigger] query.credentials@[i]).format == format
                &&& query.credentials@[i].claim_sets@.len() == 0 ==> top_claims_met(
                    query.credentials@[i],
                    *presented,
                )
            },
{
    let content = query@;
    let map = attr_map(presented@);
    let i = choose|i: int|
        0 <= i < content.credentials.len() && query_met(
            #[trigger] content.credentials[i],
            format,
            credential_type@,
            map,
        );
    let part = query.credentials@[i];
    assert(content.credentials[i] == part@);
    assert(part.format == format);
    if part.claim_sets@.len() == 0 {
        assert forall|j: int|
            0 <= j < part.claims@.len() && (#[trigger] part.claims@[j]).path@.len() == 1
                && part.claims@[j].path@[0] is Key implies top_claim_met(
            part.claims@[j],
            part.claims@[j].path@[0]->Key_0,
            *presented,
        ) by {
            let key = part.claims@[j].path@[0]->Key_0;
            assert(part.claims@[j].path@ =~= seq![PathComponent::Key(key)]);
            assert(part@.claims[j] == part.claims@[j]@);
            assert(claim_found(map, part@.claims[j]));
            lemma_top_claim(&part.claims@[j], key, presented, true);
            if let Some(values) = part.claims@[j].values {
                let v = choose|v: int|
                    0 <= v < values@.len() && {
                        ||| #[trigger] values@[v] matches ClaimValue::Boolean(b)
                            && presented@[key@] == AttributeValue::Boolean(b)
                        ||| values@[v] matches ClaimValue::Integer(n) && presented@[key@]
                            == AttributeValue::Integer(n)
                        ||| values@[v] matches ClaimValue::Text(t)
                            && presented@[key@] matches AttributeValue::Text(actual) && actual@
                            == t@
                    };
                assert(meets(presented@[key@], values@[v]));
            }
        }
    }
}

} // verus!
