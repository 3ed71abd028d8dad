//! That a selection shows what it keeps.
use crate::crypto::SHA_256;
use crate::issuance::present::places::{child, element_behind, escaped, found, path_of, Place};
use crate::issuance::present::sd_jwt::{
    claim_behind, compact_text, digest_position, digests_in, element_position, finished, going,
    indexed, named_hash, refers_to, sd_jwt_read, Disclosed, Presenting, SdJwtContent,
};
use crate::issuance::present::sd_jwt_laws::{
    law_other_disclosures_are_shown, law_reachable_places_are_presentable,
    law_tidy_places_are_reachable, law_unselected_disclosures_stay_hidden, lemma_reachable_in_range,
    tidy_claims,
};
use crate::issuance::present::selection::{
    concealed_places, conceals, keeps, least_unselectable, lemma_below_prepend, omitted_positions,
    reachable, selection_outcome, wanted_inside,
};
use crate::issuance::present::walk::{
    below, below_at, direct, is_found, law_referred_once_is_placed_once, lemma_direct_source,
    lemma_located_in_range, lemma_located_inside, located, once, places, refers_from,
};
use crate::issuance::present::PresentFault;
use crate::json::Json;
use crate::text::decimal;
use vstd::prelude::*;

verus! {

/// Whether the digests in a value are of the right kind: those of an object are texts and stand for
/// named claims, those of an array stand for elements.
pub open spec fn right_kinds(value: Json, disclosures: Seq<Disclosed>) -> bool
    decreases value,
{
    match value {
        Json::Object(members) => {
            &&& members.contains_key("_sd"@) ==> members["_sd"@] is Array
            &&& forall|i: int|
                0 <= i < digests_in(value).len() ==> (#[trigger] digests_in(value)[i] matches Json::Text(
                    digest,
                ) && (digest_position(disclosures, digest, 0) matches Some(k)
                    ==> disclosures[k].claim_name is Some))
            &&& forall|key: Seq<char>| #[trigger]
                members.contains_key(key) ==> right_kinds(members[key], disclosures)
        },
        Json::Array(items) => forall|i: int|
            0 <= i < items.len() ==> match element_position(#[trigger] items[i], disclosures) {
                Some(k) => disclosures[k].claim_name is None,
                None => right_kinds(items[i], disclosures),
            },
        _ => true,
    }
}

/// What a value refers to has a place in it.
proof fn lemma_referred_is_found(
    value: Json,
    at: Seq<char>,
    owner: Seq<char>,
    disclosures: Seq<Disclosed>,
    position: int,
) -> (place: Place)
    requires
        right_kinds(value, disclosures),
        refers_to(value, disclosures, position),
    ensures
        found(value, at, Some(owner), disclosures, place),
        place.position == position,
    decreases value,
{
    match value {
        Json::Object(members) => {
            if exists|i: int|
                0 <= i < digests_in(value).len() && (#[trigger] digests_in(value)[i] matches Json::Text(
                    digest,
                ) && digest_position(disclosures, digest, 0) == Some(position)) {
                let i = choose|i: int|
                    0 <= i < digests_in(value).len() && (
                    #[trigger] digests_in(value)[i] matches Json::Text(digest) && digest_position(
                        disclosures,
                        digest,
                        0,
                    ) == Some(position));
                assert(claim_behind(digests_in(value)[i], disclosures) == Some(position));
                let pointer = child(at, disclosures[position].claim_name->Some_0);
                Place { position, pointer, selector: path_of(pointer) }
            } else {
                let key = choose|key: Seq<char>| #[trigger]
                    members.contains_key(key) && refers_to(members[key], disclosures, position);
                assert(right_kinds(members[key], disclosures));
                if key == "_sd"@ {
                    let items = members["_sd"@]->Array_0;
                    assert(digests_in(value) == items);
                    assert forall|i: int| 0 <= i < items.len() implies !(#[trigger] items[i]
                        is Object) by {
                        assert(digests_in(value)[i] is Text);
                    }
                    assert(false);
                }
                lemma_referred_is_found(
                    members[key],
                    child(at, escaped(key)),
                    owner,
                    disclosures,
                    position,
                )
            }
        },
        Json::Array(items) => {
            let i = choose|i: int|
                0 <= i < items.len() && #[trigger] items[i] is Object && match element_position(
                    items[i],
                    disclosures,
                ) {
                    Some(k) => k == position,
                    None => refers_to(items[i], disclosures, position),
                };
            let pointer = child(at, decimal(i as nat));
            match element_position(items[i], disclosures) {
                Some(k) => {
                    assert(element_behind(items[i], disclosures) == Some(k));
                    Place { position, pointer, selector: owner }
                },
                None => {
                    assert(element_behind(items[i], disclosures) is None);
                    lemma_referred_is_found(items[i], pointer, owner, disclosures, position)
                },
            }
        },
        _ => arbitrary(),
    }
}

/// Whether each disclosure of an SD-JWT is found, is referred to once, and refers to others as what
/// they are.
pub open spec fn referred_once(held: SdJwtContent) -> bool {
    let all = indexed(held.disclosures);
    forall|k: int|
        0 <= k < all.len() ==> {
            &&& #[trigger] is_found(held.claims->Ok_0, all, k)
            &&& once(held.claims->Ok_0, all, k)
            &&& right_kinds(all[k].claim_value, all)
        }
}

/// A selection that keeps a place keeps the one it is directly inside.
proof fn lemma_keeps_outer(
    held: SdJwtContent,
    disclose: Seq<Seq<char>>,
    outer: Place,
    place: Place,
)
    requires
        located(held.claims->Ok_0, indexed(held.disclosures), outer),
        direct(held.claims->Ok_0, indexed(held.disclosures), Some(outer), place),
        keeps(held, disclose, place),
    ensures
        keeps(held, disclose, outer),
{
    let claims = held.claims->Ok_0;
    let all = indexed(held.disclosures);
    if disclose.contains(place.selector) {
        assert(below_at(claims, all, Some(outer), 0, place));
        assert(below(claims, all, Some(outer), place));
    } else {
        let inner = choose|inner: Place| #[trigger]
            below(claims, all, Some(place), inner) && disclose.contains(inner.selector);
        let depth = choose|depth: nat| #[trigger] below_at(claims, all, Some(place), depth, inner);
        lemma_below_prepend(claims, all, outer, place, depth, inner);
        assert(below(claims, all, Some(outer), inner));
    }
    assert(wanted_inside(claims, all, disclose, outer));
}

/// What is selected is shown: where each disclosure is referred to once, and the claims are tidy, a
/// disclosure whose place the selection keeps is in the presentation.
pub proof fn law_selected_disclosures_are_shown(
    issued: Seq<char>,
    disclose: Seq<Seq<char>>,
    text: Seq<char>,
    held: SdJwtContent,
    place: Place,
)
    requires
        sd_jwt_read(issued) == Ok::<SdJwtContent, Seq<char>>(held),
        selection_outcome(issued, disclose, Ok::<Seq<char>, PresentFault>(text)),
        tidy_claims(held.claims->Ok_0, indexed(held.disclosures)),
        referred_once(held),
        places(held).contains(place),
        keeps(held, disclose, place),
    ensures
        ({
            let shown = finished(Presenting { held, omitted: omitted_positions(held, disclose) });
            &&& text == compact_text(shown)
            &&& 0 <= place.position < indexed(held.disclosures).len()
            &&& shown.disclosures.contains(indexed(held.disclosures)[place.position])
        }),
{
    let claims = held.claims->Ok_0;
    let all = indexed(held.disclosures);
    lemma_all_located(held, place);
    lemma_located_in_range(claims, all, place);
    assert(is_found(claims, all, place.position));
    assert forall|outer: Place| #[trigger]
        places(held).contains(outer) && !keeps(held, disclose, outer) implies !conceals(
        held,
        outer,
        place.position,
    ) by {
        lemma_all_located(held, outer);
        lemma_located_in_range(claims, all, outer);
        assert(is_found(claims, all, outer.position));
        law_tidy_places_are_reachable(held, outer);
        assert(concealed_places(held, disclose).contains(outer));
        assert(reachable(held, outer));
        let inner = all[outer.position].claim_value;
        if conceals(held, outer, place.position) {
            assert(going(all, inner, outer.position).contains(place.position));
            if place.position == outer.position {
                law_referred_once_is_placed_once(claims, all, place, outer);
            } else {
                let other = lemma_referred_is_found(
                    inner,
                    outer.pointer,
                    outer.selector,
                    all,
                    place.position,
                );
                assert(direct(claims, all, Some(outer), other));
                lemma_located_inside(claims, all, Some(outer), other);
                law_referred_once_is_placed_once(claims, all, place, other);
                lemma_keeps_outer(held, disclose, outer, place);
            }
        }
    }
    law_other_disclosures_are_shown(held, disclose, place.position);
}

/// Where every disclosure is found, every place is that of one.
pub(crate) proof fn lemma_all_located(held: SdJwtContent, place: Place)
    requires
        referred_once(held),
        places(held).contains(place),
    ensures
        located(held.claims->Ok_0, indexed(held.disclosures), place),
{
    if 0 <= place.position < indexed(held.disclosures).len() {
        assert(is_found(held.claims->Ok_0, indexed(held.disclosures), place.position));
    }
}

/// An SD-JWT with tidy claims, each disclosure of which is referred to once, can be presented under
/// every selection of what it can disclose, and the presentation shows exactly what the selection
/// keeps.
pub proof fn law_presentation_shows_exactly_the_selection(
    issued: Seq<char>,
    disclose: Seq<Seq<char>>,
    held: SdJwtContent,
    out: Result<Seq<char>, PresentFault>,
)
    requires
        sd_jwt_read(issued) == Ok::<SdJwtContent, Seq<char>>(held),
        held.claims is Ok,
        named_hash(held.claims->Ok_0) == SHA_256@,
        tidy_claims(held.claims->Ok_0, indexed(held.disclosures)),
        referred_once(held),
        least_unselectable(held, disclose) is None,
        selection_outcome(issued, disclose, out),
    ensures
        ({
            let shown = finished(Presenting { held, omitted: omitted_positions(held, disclose) });
            &&& out == Ok::<Seq<char>, PresentFault>(compact_text(shown))
            &&& forall|place: Place| #[trigger]
                places(held).contains(place) ==> (shown.disclosures.contains(
                    indexed(held.disclosures)[place.position],
                ) <==> keeps(held, disclose, place))
        }),
{
    let all = indexed(held.disclosures);
    assert forall|place: Place| #[trigger] places(held).contains(place) implies reachable(
        held,
        place,
    ) by {
        lemma_all_located(held, place);
        law_tidy_places_are_reachable(held, place);
    }
    law_reachable_places_are_presentable(issued, disclose, held, out);
    let text = out->Ok_0;
    let shown = finished(Presenting { held, omitted: omitted_positions(held, disclose) });
    assert forall|place: Place| #[trigger] places(held).contains(place) implies (
    shown.disclosures.contains(all[place.position]) <==> keeps(held, disclose, place)) by {
        if keeps(held, disclose, place) {
            law_selected_disclosures_are_shown(issued, disclose, text, held, place);
        } else {
            law_unselected_disclosures_stay_hidden(issued, disclose, text, held, place);
        }
    }
}

/// Where something is inside a place, something is directly inside it.
pub(crate) proof fn lemma_inside_is_direct(
    claims: Json,
    disclosures: Seq<Disclosed>,
    outer: Place,
    depth: nat,
    inner: Place,
) -> (place: Place)
    requires
        below_at(claims, disclosures, Some(outer), depth, inner),
    ensures
        direct(claims, disclosures, Some(outer), place),
    decreases depth,
{
    if depth == 0 {
        inner
    } else {
        let middle = choose|middle: Place|
            below_at(claims, disclosures, Some(outer), (depth - 1) as nat, middle)
                && #[trigger] direct(claims, disclosures, Some(middle), inner);
        lemma_inside_is_direct(claims, disclosures, outer, (depth - 1) as nat, middle)
    }
}

/// A disclosed claim of the top level whose value refers to no disclosure is shown exactly where
/// its name is on the list, whatever characters the name holds; where no other value refers to the
/// claim, and the places that are left out can be reached.
pub proof fn law_flat_claims_are_shown_by_name(
    issued: Seq<char>,
    disclose: Seq<Seq<char>>,
    text: Seq<char>,
    held: SdJwtContent,
    place: Place,
    name: Seq<char>,
)
    requires
        sd_jwt_read(issued) == Ok::<SdJwtContent, Seq<char>>(held),
        selection_outcome(issued, disclose, Ok::<Seq<char>, PresentFault>(text)),
        direct(held.claims->Ok_0, indexed(held.disclosures), None, place),
        place.pointer == child(Seq::empty(), name),
        place.selector == name,
        once(held.claims->Ok_0, indexed(held.disclosures), place.position),
        forall|p: Place|
            !(#[trigger] refers_from(
                held.claims->Ok_0,
                indexed(held.disclosures),
                place.position + 1,
                p,
            )),
        forall|j: int|
            0 <= j < indexed(held.disclosures).len() ==> !refers_to(
                (#[trigger] indexed(held.disclosures)[j]).claim_value,
                indexed(held.disclosures),
                place.position,
            ),
        forall|other: Place| #[trigger]
            places(held).contains(other) && !keeps(held, disclose, other) ==> reachable(
                held,
                other,
            ),
    ensures
        ({
            let shown = finished(Presenting { held, omitted: omitted_positions(held, disclose) });
            &&& text == compact_text(shown)
            &&& shown.disclosures.contains(indexed(held.disclosures)[place.position])
                <==> disclose.contains(name)
        }),
{
    let claims = held.claims->Ok_0;
    let all = indexed(held.disclosures);
    lemma_located_inside(claims, all, None, place);
    lemma_located_in_range(claims, all, place);
    assert(places(held).contains(place));
    if wanted_inside(claims, all, disclose, place) {
        let inner = choose|inner: Place| #[trigger]
            below(claims, all, Some(place), inner) && disclose.contains(inner.selector);
        let depth = choose|depth: nat| #[trigger] below_at(claims, all, Some(place), depth, inner);
        let first = lemma_inside_is_direct(claims, all, place, depth, inner);
        let rel = lemma_direct_source(claims, all, Some(place), first);
        assert(refers_from(claims, all, place.position + 1, rel));
    }
    if !disclose.contains(name) {
        law_unselected_disclosures_stay_hidden(issued, disclose, text, held, place);
    } else {
        assert forall|other: Place| #[trigger]
            places(held).contains(other) && !keeps(held, disclose, other) implies !conceals(
            held,
            other,
            place.position,
        ) by {
            assert(concealed_places(held, disclose).contains(other));
            lemma_reachable_in_range(held, other);
            let inner = all[other.position].claim_value;
            if conceals(held, other, place.position) {
                assert(going(all, inner, other.position).contains(place.position));
                assert(other.position == place.position);
                assert(is_found(claims, all, place.position));
                law_referred_once_is_placed_once(claims, all, other, place);
            }
        }
        law_other_disclosures_are_shown(held, disclose, place.position);
    }
}

} // verus!
