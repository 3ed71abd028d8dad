//! How what is shown of an SD-JWT hangs together.
use crate::issuance::present::{PresentError, PresentFault};
use crate::issuance::present::flat_laws::{each_with_tilde, lemma_joined};
use crate::issuance::present::places::Place;
use crate::issuance::present::sd_jwt::{
    compact_text, finished, indexed, joined_disclosures, kept_disclosures, sd_jwt_read, Disclosed,
    Presenting, SdJwtContent,
};
use crate::issuance::present::sd_jwt_laws::tidy_claims;
use crate::issuance::present::selection::{
    keeps, least_unselectable, lemma_below_prepend, omitted_positions, select_disclosures,
    selectable, wanted_inside,
};
use crate::issuance::present::shown::{
    law_presentation_shows_exactly_the_selection, lemma_all_located, referred_once,
};
use crate::issuance::present::walk::{below, below_at, direct, located, places};
use crate::json::text_member;
use crate::text::{law_least_rejected, texts};
use vstd::prelude::*;

verus! {

/// Whether a text presents some disclosures of an SD-JWT: the issuer's JWS, the disclosures and the
/// key binding that was there.
pub open spec fn presents(held: SdJwtContent, kept: Seq<Disclosed>, text: Seq<char>) -> bool {
    text == held.jws + "~"@ + each_with_tilde(kept) + held.key_binding
}

/// Whether the disclosure at a place is among those kept.
pub open spec fn is_kept(held: SdJwtContent, kept: Seq<Disclosed>, place: Place) -> bool {
    kept.contains(indexed(held.disclosures)[place.position])
}

/// Whether a place is right inside another.
pub open spec fn right_inside(held: SdJwtContent, outer: Place, inner: Place) -> bool {
    direct(held.claims->Ok_0, indexed(held.disclosures), Some(outer), inner)
}

proof fn lemma_keeps_up(
    held: SdJwtContent,
    list: Seq<Seq<char>>,
    outer: Place,
    inner: Place,
)
    requires
        referred_once(held),
        places(held).contains(outer),
        right_inside(held, outer, inner),
        keeps(held, list, inner),
    ensures
        keeps(held, list, outer),
{
    let claims = held.claims->Ok_0;
    let all = indexed(held.disclosures);
    lemma_all_located(held, outer);
    if list.contains(inner.selector) {
        assert(below_at(claims, all, Some(outer), 0, inner));
        assert(below(claims, all, Some(outer), inner));
    } else {
        let last = choose|last: Place| #[trigger]
            below(claims, all, Some(inner), last) && list.contains(last.selector);
        let depth = choose|depth: nat| #[trigger] below_at(claims, all, Some(inner), depth, last);
        lemma_below_prepend(claims, all, outer, inner, depth, last);
        assert(below(claims, all, Some(outer), last));
    }
    assert(wanted_inside(claims, all, list, outer));
}

proof fn lemma_first_inside(held: SdJwtContent, outer: Place, depth: nat, last: Place) -> (first:
    Place)
    requires
        below_at(held.claims->Ok_0, indexed(held.disclosures), Some(outer), depth, last),
    ensures
        right_inside(held, outer, first),
        first == last || below(held.claims->Ok_0, indexed(held.disclosures), Some(first), last),
    decreases depth,
{
    let claims = held.claims->Ok_0;
    let all = indexed(held.disclosures);
    if depth == 0 {
        last
    } else {
        let middle = choose|middle: Place|
            below_at(claims, all, Some(outer), (depth - 1) as nat, middle) && #[trigger] direct(
                claims,
                all,
                Some(middle),
                last,
            );
        let first = lemma_first_inside(held, outer, (depth - 1) as nat, middle);
        if first == middle {
            assert(below_at(claims, all, Some(first), 0, last));
        } else {
            let rest = choose|rest: nat| #[trigger]
                below_at(claims, all, Some(first), rest, middle);
            assert(below_at(claims, all, Some(first), rest + 1, last));
        }
        first
    }
}

proof fn lemma_keeps_down(held: SdJwtContent, list: Seq<Seq<char>>, outer: Place) -> (first: Place)
    requires
        keeps(held, list, outer),
        !list.contains(outer.selector),
    ensures
        right_inside(held, outer, first),
        list.contains(first.selector) || wanted_inside(
            held.claims->Ok_0,
            indexed(held.disclosures),
            list,
            first,
        ),
{
    let claims = held.claims->Ok_0;
    let all = indexed(held.disclosures);
    let last = choose|last: Place| #[trigger]
        below(claims, all, Some(outer), last) && list.contains(last.selector);
    let depth = choose|depth: nat| #[trigger] below_at(claims, all, Some(outer), depth, last);
    let first = lemma_first_inside(held, outer, depth, last);
    if first != last {
        assert(wanted_inside(claims, all, list, first));
    }
    first
}

proof fn lemma_kept_filled(disclosures: Seq<Disclosed>, omitted: Set<int>)
    requires
        forall|k: int| 0 <= k < disclosures.len() ==> (#[trigger] disclosures[k]).text.len() > 0,
    ensures
        kept_disclosures(disclosures, omitted).len() > 0 ==> joined_disclosures(
            kept_disclosures(disclosures, omitted),
        ).len() > 0,
    decreases disclosures.len(),
{
    if disclosures.len() > 0 {
        let shorter = disclosures.drop_last();
        assert forall|k: int| 0 <= k < shorter.len() implies (#[trigger] shorter[k]).text.len()
            > 0 by {
            assert(shorter[k] == disclosures[k]);
        }
        lemma_kept_filled(shorter, omitted);
        assert(disclosures[disclosures.len() - 1].text.len() > 0);
        let kept = kept_disclosures(disclosures, omitted);
        let before = kept_disclosures(shorter, omitted);
        if kept.len() > before.len() {
            assert(kept.last() == disclosures.last());
            assert(kept.drop_last() =~= before);
        }
    }
}

/// What is presented of an SD-JWT hangs together: what is on the list is kept; what holds something
/// that is kept is kept too, since it could not be found without it; and nothing else is, neither
/// for its own sake nor for that of something inside it.
pub proof fn law_presentations_hang_together(
    issued: &str,
    disclose: &Vec<String>,
    text: String,
    held: SdJwtContent,
)
    requires
        sd_jwt_read(issued@) == Ok::<SdJwtContent, Seq<char>>(held),
        held.claims is Ok,
        text_member(held.claims->Ok_0, "_sd_alg"@) is None || text_member(
            held.claims->Ok_0,
            "_sd_alg"@,
        ) == Some("sha-256"@),
        tidy_claims(held.claims->Ok_0, indexed(held.disclosures)),
        referred_once(held),
        forall|k: int|
            0 <= k < indexed(held.disclosures).len() ==> (#[trigger] indexed(
                held.disclosures,
            )[k]).text.len() > 0,
        call_ensures(select_disclosures, (issued, disclose), Ok(text)),
    ensures
        exists|kept: Seq<Disclosed>| #[trigger]
            presents(held, kept, text@) && {
                &&& forall|place: Place| #[trigger]
                    places(held).contains(place) && texts(disclose@).contains(place.selector)
                        ==> is_kept(held, kept, place)
                &&& forall|outer: Place, inner: Place|
                    places(held).contains(outer) && places(held).contains(inner)
                        && #[trigger] right_inside(held, outer, inner) && is_kept(held, kept, inner)
                        ==> is_kept(held, kept, outer)
                &&& forall|place: Place| #[trigger]
                    places(held).contains(place) && is_kept(held, kept, place) && !texts(
                        disclose@,
                    ).contains(place.selector) ==> exists|inner: Place| #[trigger]
                        right_inside(held, place, inner) && is_kept(held, kept, inner)
            },
{
    let list = texts(disclose@);
    let all = indexed(held.disclosures);
    let claims = held.claims->Ok_0;
    law_presentation_shows_exactly_the_selection(
        issued@,
        list,
        held,
        Ok::<Seq<char>, PresentFault>(text@),
    );
    let omitted = omitted_positions(held, list);
    let shown = finished(Presenting { held, omitted });
    let kept = shown.disclosures;
    lemma_kept_filled(all, omitted);
    if kept.len() > 0 {
        lemma_joined(kept);
    }
    assert(compact_text(shown) =~= held.jws + "~"@ + each_with_tilde(kept) + held.key_binding);
    assert(presents(held, kept, text@));
    assert forall|place: Place| #[trigger] places(held).contains(place) implies (is_kept(
        held,
        kept,
        place,
    ) <==> keeps(held, list, place)) by {}
    assert forall|outer: Place, inner: Place|
        places(held).contains(outer) && places(held).contains(inner) && #[trigger] right_inside(
            held,
            outer,
            inner,
        ) && is_kept(held, kept, inner) implies is_kept(held, kept, outer) by {
        lemma_keeps_up(held, list, outer, inner);
    }
    assert forall|place: Place| #[trigger]
        places(held).contains(place) && is_kept(held, kept, place) && !list.contains(
            place.selector,
        ) implies exists|inner: Place| #[trigger]
        right_inside(held, place, inner) && is_kept(held, kept, inner) by {
        let first = lemma_keeps_down(held, list, place);
        lemma_all_located(held, place);
        crate::issuance::present::walk::lemma_located_inside(claims, all, Some(place), first);
        assert(located(claims, all, first));
        assert(places(held).contains(first));
    }
}

/// Whether some disclosure is chosen by a text.
pub open spec fn chooses(held: SdJwtContent, text: Seq<char>) -> bool {
    exists|place: Place| #[trigger] places(held).contains(place) && place.selector == text
}

/// A list is refused exactly where it holds something that no disclosure is chosen by, and then for
/// such an entry of it.
pub proof fn law_unknown_claims_are_refused(
    issued: &str,
    disclose: &Vec<String>,
    out: Result<String, PresentError>,
    held: SdJwtContent,
)
    requires
        sd_jwt_read(issued@) == Ok::<SdJwtContent, Seq<char>>(held),
        held.claims is Ok,
        call_ensures(select_disclosures, (issued, disclose), out),
    ensures
        (out matches Err(PresentError::UndisclosableClaim(_))) <==> exists|i: int|
            0 <= i < disclose@.len() && !chooses(held, (#[trigger] disclose@[i])@),
        out matches Err(PresentError::UndisclosableClaim(name)) ==> texts(disclose@).contains(name@)
            && !chooses(held, name@),
{
    let list = texts(disclose@);
    let accepted = |selector: Seq<char>| selectable(held, selector);
    law_least_rejected(list, accepted);
    assert forall|text: Seq<char>| #[trigger] chooses(held, text) == selectable(held, text) by {}
    if exists|i: int| 0 <= i < disclose@.len() && !chooses(held, (#[trigger] disclose@[i])@) {
        let i = choose|i: int|
            0 <= i < disclose@.len() && !chooses(held, (#[trigger] disclose@[i])@);
        assert(list[i] == disclose@[i]@);
        assert(!accepted(list[i]));
    }
    if let Some(text) = least_unselectable(held, list) {
        assert(!accepted(text));
        let i = choose|i: int| 0 <= i < list.len() && list[i] == text;
        assert(disclose@[i]@ == text);
    }
}

/// A text that is no SD-JWT is malformed, and one that names another hash than `sha-256` cannot be
/// presented.
pub proof fn law_other_texts_are_not_presented(
    issued: &str,
    disclose: &Vec<String>,
    out: Result<String, PresentError>,
)
    requires
        call_ensures(select_disclosures, (issued, disclose), out),
    ensures
        sd_jwt_read(issued@) is Err ==> out matches Err(PresentError::Malformed(_)),
        sd_jwt_read(issued@) matches Ok(held) ==> (held.claims matches Ok(claims) ==> (text_member(
            claims,
            "_sd_alg"@,
        ) matches Some(name) ==> (name != "sha-256"@ ==> out is Err))),
{
}

} // verus!
