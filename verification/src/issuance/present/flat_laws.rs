//! What is presented of an SD-JWT whose disclosed claims all stand at the top.
use crate::crypto::{base64url_text, sha256_digest, SHA_256};
use crate::issuance::present::{
    prepare_present, prepared_content, HeldAttestation, Prepared, PreparedKind,
    PreparedPresentation, PresentError, PresentFault,
};
use crate::issuance::present::places::{
    child, escaped, found, found_by_digest, found_by_key, lemma_digest_position,
    lemma_found_in_object, path_of, top_claim, Place,
};
use crate::issuance::present::sd_jwt::{
    claim_behind, compact_text, digest_position, digests_in, disclosure_digest, element_position,
    finished, going, indexed, joined_disclosures, kept_disclosures, leads_nowhere, leads_to,
    named_hash, named_position, open_claims, plain_tokens, refers_to, sd_jwt_read, slashed,
    Disclosed, Presenting, SdJwtContent,
};
use crate::issuance::present::selection::{
    concealable, concealed_places, conceals, keeps, least_unselectable, omitted_positions,
    reachable, select_disclosures, selectable, selection_outcome, unconcealable,
};
use crate::issuance::present::walk::{
    astray, below_at, direct, is_found, lemma_located_inside, lemma_located_outer, located, places,
};
use crate::issuance::signer::{kb_input, signer_message};
use crate::json::{text_member, Json};
use crate::openid4vp::PresentationRequest;
use crate::text::{decimal, law_least_rejected, texts};
use vstd::prelude::*;
use vstd::utf8::encode_utf8;

verus! {

/// Whether a value refers to no disclosure, however deep.
pub open spec fn inert(value: Json) -> bool
    decreases value,
{
    match value {
        Json::Object(members) => forall|key: Seq<char>| #[trigger]
            members.contains_key(key) ==> key != "_sd"@ && key != "..."@ && inert(members[key]),
        Json::Array(items) => forall|i: int| 0 <= i < items.len() ==> inert(#[trigger] items[i]),
        _ => true,
    }
}

/// Whether every disclosure of an SD-JWT is a claim of the top level: its digest is listed there,
/// it has a name of its own, and neither the claims nor the disclosed values refer to anything
/// else.
pub open spec fn flat(held: SdJwtContent) -> bool {
    let all = held.disclosures;
    &&& held.claims matches Ok(Json::Object(members)) && {
        &&& forall|key: Seq<char>| #[trigger]
            members.contains_key(key) && key != "_sd"@ ==> inert(members[key])
        &&& members.contains_key("_sd"@) && members["_sd"@] is Array
        &&& forall|k: int|
            0 <= k < all.len() ==> members["_sd"@]->Array_0.contains(
                Json::Text(
                    base64url_text(sha256_digest(encode_utf8((#[trigger] all[k]).text))),
                ),
            )
        &&& forall|k: int|
            0 <= k < all.len() ==> {
                &&& (#[trigger] all[k]).claim_name matches Some(name) && name.len() > 0
                    && !name.contains('/') && name != "_sd"@ && !members.contains_key(name)
                &&& inert(all[k].claim_value)
            }
    }
    &&& forall|j: int, k: int|
        0 <= j < k < all.len() ==> (#[trigger] all[j]).claim_name != (
        #[trigger] all[k]).claim_name && base64url_text(sha256_digest(encode_utf8(all[j].text)))
            != base64url_text(sha256_digest(encode_utf8(all[k].text)))
}

proof fn lemma_inert(
    value: Json,
    at: Seq<char>,
    owner: Option<Seq<char>>,
    disclosures: Seq<Disclosed>,
    place: Place,
    position: int,
)
    requires
        inert(value),
    ensures
        !found(value, at, owner, disclosures, place),
        !refers_to(value, disclosures, position),
    decreases value,
{
    match value {
        Json::Object(members) => {
            assert(!members.contains_key("_sd"@));
            assert(digests_in(value).len() == 0);
            if found(value, at, owner, disclosures, place) {
                lemma_found_in_object(value, at, owner, disclosures, place);
                let key = choose|key: Seq<char>| #[trigger]
                    found_by_key(value, key, at, owner, disclosures, place);
                assert(members.contains_key(key));
                lemma_inert(
                    members[key],
                    child(at, escaped(key)),
                    top_claim(owner, key),
                    disclosures,
                    place,
                    position,
                );
            }
            if refers_to(value, disclosures, position) {
                let key = choose|key: Seq<char>| #[trigger]
                    members.contains_key(key) && refers_to(members[key], disclosures, position);
                lemma_inert(members[key], at, owner, disclosures, place, position);
            }
        },
        Json::Array(items) => {
            assert forall|i: int| 0 <= i < items.len() implies text_member(
                #[trigger] items[i],
                "..."@,
            ) is None by {
                assert(inert(items[i]));
                if let Json::Object(members) = items[i] {
                    assert(!members.contains_key("..."@));
                }
            }
            if found(value, at, owner, disclosures, place) {
                let i = crate::issuance::present::walk::lemma_found_item(
                    items,
                    at,
                    owner,
                    disclosures,
                    place,
                );
                lemma_inert(
                    items[i],
                    child(at, decimal(i as nat)),
                    owner,
                    disclosures,
                    place,
                    position,
                );
            }
            if refers_to(value, disclosures, position) {
                let i = choose|i: int|
                    0 <= i < items.len() && #[trigger] items[i] is Object && match element_position(
                        items[i],
                        disclosures,
                    ) {
                        Some(k) => k == position,
                        None => refers_to(items[i], disclosures, position),
                    };
                lemma_inert(items[i], at, owner, disclosures, place, position);
            }
        },
        _ => {},
    }
}

proof fn lemma_indexed_same(disclosures: Seq<Disclosed>)
    requires
        forall|j: int, k: int|
            0 <= j < k < disclosures.len() ==> disclosure_digest(#[trigger] disclosures[j])
                != disclosure_digest(#[trigger] disclosures[k]),
    ensures
        indexed(disclosures) == disclosures,
    decreases disclosures.len(),
{
    if disclosures.len() > 0 {
        let shorter = disclosures.drop_last();
        assert forall|j: int, k: int| 0 <= j < k < shorter.len() implies disclosure_digest(
            #[trigger] shorter[j],
        ) != disclosure_digest(#[trigger] shorter[k]) by {
            assert(shorter[j] == disclosures[j] && shorter[k] == disclosures[k]);
        }
        lemma_indexed_same(shorter);
        let last = disclosures.last();
        lemma_digest_position(shorter, disclosure_digest(last), 0);
        if let Some(i) = digest_position(shorter, disclosure_digest(last), 0) {
            assert(shorter[i] == disclosures[i]);
            assert(disclosures[disclosures.len() - 1] == last);
        }
        assert(shorter.push(last) =~= disclosures);
    } else {
        assert(indexed(disclosures) =~= disclosures);
    }
}

/// The place of a disclosed claim of the top level.
spec fn top_place(held: SdJwtContent, k: int) -> Place {
    let name = held.disclosures[k].claim_name->Some_0;
    Place { position: k, pointer: child(Seq::empty(), name), selector: name }
}

proof fn lemma_flat_indexed(held: SdJwtContent)
    requires
        flat(held),
    ensures
        indexed(held.disclosures) == held.disclosures,
{
    let all = held.disclosures;
    assert forall|j: int, k: int| 0 <= j < k < all.len() implies disclosure_digest(
        #[trigger] all[j],
    ) != disclosure_digest(#[trigger] all[k]) by {
        assert(all[j].claim_name != all[k].claim_name);
    }
    lemma_indexed_same(all);
}

proof fn lemma_path_of_top(name: Seq<char>)
    ensures
        path_of(child(Seq::empty(), name)) == name,
{
    reveal_strlit("/");
    assert(path_of(child(Seq::empty(), name)) =~= name);
}

proof fn lemma_digest_of(held: SdJwtContent, k: int) -> (i: int)
    requires
        flat(held),
        0 <= k < held.disclosures.len(),
    ensures
        0 <= i < digests_in(held.claims->Ok_0).len(),
        claim_behind(digests_in(held.claims->Ok_0)[i], held.disclosures) == Some(k),
{
    let all = held.disclosures;
    let claims = held.claims->Ok_0;
    let listed = claims->Object_0["_sd"@]->Array_0;
    assert(digests_in(claims) == listed);
    let digest = base64url_text(sha256_digest(encode_utf8(all[k].text)));
    assert(listed.contains(Json::Text(digest)));
    let i = choose|i: int| 0 <= i < listed.len() && listed[i] == Json::Text(digest);
    lemma_digest_position(all, digest, 0);
    assert(disclosure_digest(all[k]) == digest);
    let found_at = digest_position(all, digest, 0)->Some_0;
    if found_at < k {
        assert(all[found_at].claim_name != all[k].claim_name);
    } else if k < found_at {
        assert(all[k].claim_name != all[found_at].claim_name);
    }
    i
}

proof fn lemma_flat_places(held: SdJwtContent, place: Place)
    requires
        flat(held),
    ensures
        places(held).contains(place) <==> 0 <= place.position < held.disclosures.len() && place
            == top_place(held, place.position),
        places(held).contains(place) ==> located(
            held.claims->Ok_0,
            indexed(held.disclosures),
            place,
        ),
{
    lemma_flat_indexed(held);
    let all = held.disclosures;
    let claims = held.claims->Ok_0;
    let at = Seq::<char>::empty();
    assert forall|k: int| 0 <= k < all.len() implies direct(
        claims,
        all,
        None,
        #[trigger] top_place(held, k),
    ) by {
        let i = lemma_digest_of(held, k);
        lemma_path_of_top(all[k].claim_name->Some_0);
        assert(digests_in(claims)[i] == digests_in(claims)[i]);
    }
    if located(claims, all, place) {
        let outer = lemma_located_outer(claims, all, place);
        match outer {
            None => {
                lemma_found_in_object(claims, at, None, all, place);
                if exists|i: int|
                    0 <= i < digests_in(claims).len() && #[trigger] found_by_digest(
                        claims,
                        i,
                        at,
                        all,
                        place,
                    ) {
                    let i = choose|i: int|
                        0 <= i < digests_in(claims).len() && #[trigger] found_by_digest(
                            claims,
                            i,
                            at,
                            all,
                            place,
                        );
                    lemma_digest_position(all, digests_in(claims)[i]->Text_0, 0);
                    let k = place.position;
                    lemma_path_of_top(all[k].claim_name->Some_0);
                    assert(place == top_place(held, k));
                } else {
                    let key = choose|key: Seq<char>| #[trigger]
                        found_by_key(claims, key, at, None, all, place);
                    assert(claims->Object_0.contains_key(key));
                    lemma_inert(
                        claims->Object_0[key],
                        child(at, escaped(key)),
                        top_claim(None, key),
                        all,
                        place,
                        0,
                    );
                }
            },
            Some(outer) => {
                assert(inert(all[outer.position].claim_value));
                lemma_inert(
                    all[outer.position].claim_value,
                    outer.pointer,
                    Some(outer.selector),
                    all,
                    place,
                    0,
                );
            },
        }
    }
    if astray(claims, all, place) {
        let k = place.position;
        let own = top_place(held, k);
        assert(direct(claims, all, None, own));
        lemma_located_inside(claims, all, None, own);
        assert(is_found(claims, all, k));
    }
    if 0 <= place.position < all.len() && place == top_place(held, place.position) {
        assert(direct(claims, all, None, top_place(held, place.position)));
        lemma_located_inside(claims, all, None, place);
    }
}

proof fn lemma_named_at(
    digests: Seq<Json>,
    name: Seq<char>,
    disclosures: Seq<Disclosed>,
    i: nat,
    at: int,
    k: int,
)
    requires
        i <= at < digests.len(),
        claim_behind(digests[at], disclosures) == Some(k),
        0 <= k < disclosures.len(),
        disclosures[k].claim_name == Some(name),
        forall|j: int|
            0 <= j < disclosures.len() && (#[trigger] disclosures[j]).claim_name == Some(name)
                ==> j == k,
    ensures
        named_position(digests, name, disclosures, i) == Some(k),
    decreases digests.len() - i,
{
    match claim_behind(digests[i as int], disclosures) {
        Some(j) => {
            lemma_digest_position(disclosures, digests[i as int]->Text_0, 0);
            if disclosures[j].claim_name == Some(name) {
                assert(j == k);
            } else {
                lemma_named_at(digests, name, disclosures, i + 1, at, k);
            }
        },
        None => {
            lemma_named_at(digests, name, disclosures, i + 1, at, k);
        },
    }
}

proof fn lemma_flat_reachable(held: SdJwtContent, k: int)
    requires
        flat(held),
        0 <= k < held.disclosures.len(),
    ensures
        reachable(held, top_place(held, k)),
{
    lemma_flat_indexed(held);
    let all = held.disclosures;
    let claims = held.claims->Ok_0;
    let root = open_claims(claims);
    let name = all[k].claim_name->Some_0;
    let value = all[k].claim_value;
    let i = lemma_digest_of(held, k);
    assert forall|j: int|
        0 <= j < all.len() && (#[trigger] all[j]).claim_name == Some(name) implies j == k by {
        if j < k {
            assert(all[j].claim_name != all[k].claim_name);
        } else if k < j {
            assert(all[k].claim_name != all[j].claim_name);
        }
    }
    lemma_named_at(digests_in(claims), name, all, 0, i, k);
    assert(digests_in(root) == digests_in(claims));
    let tokens = seq![name];
    assert(tokens.drop_first() =~= Seq::<Seq<char>>::empty());
    assert(leads_to(value, tokens.drop_first(), all, Some(k), value, k));
    assert(!root->Object_0.contains_key(name));
    assert(leads_to(root, tokens, all, None, value, k));
    assert(slashed(tokens.drop_first()) =~= Seq::<char>::empty());
    assert(slashed(tokens) =~= child(Seq::empty(), name));
    assert(plain_tokens(tokens));
}

/// The disclosures whose names are on a list, in order.
pub open spec fn named_on(disclosures: Seq<Disclosed>, list: Seq<Seq<char>>) -> Seq<Disclosed>
    decreases disclosures.len(),
{
    if disclosures.len() == 0 {
        Seq::empty()
    } else if list.contains(disclosures.last().claim_name->Some_0) {
        named_on(disclosures.drop_last(), list).push(disclosures.last())
    } else {
        named_on(disclosures.drop_last(), list)
    }
}

/// The disclosures of a presentation, each with a tilde behind it.
pub open spec fn each_with_tilde(disclosures: Seq<Disclosed>) -> Seq<char>
    decreases disclosures.len(),
{
    if disclosures.len() == 0 {
        Seq::empty()
    } else {
        each_with_tilde(disclosures.drop_last()) + disclosures.last().text + "~"@
    }
}

pub(crate) proof fn lemma_joined(disclosures: Seq<Disclosed>)
    requires
        disclosures.len() > 0,
    ensures
        joined_disclosures(disclosures) + "~"@ == each_with_tilde(disclosures),
    decreases disclosures.len(),
{
    let shorter = disclosures.drop_last();
    if disclosures.len() == 1 {
        assert(each_with_tilde(shorter) =~= Seq::<char>::empty());
        assert(joined_disclosures(disclosures) + "~"@ =~= each_with_tilde(disclosures));
    } else {
        lemma_joined(shorter);
        assert(joined_disclosures(disclosures) + "~"@ =~= each_with_tilde(disclosures));
    }
}

proof fn lemma_kept_named(
    disclosures: Seq<Disclosed>,
    omitted: Set<int>,
    list: Seq<Seq<char>>,
)
    requires
        forall|k: int|
            0 <= k < disclosures.len() ==> (omitted.contains(k) <==> !list.contains(
                (#[trigger] disclosures[k]).claim_name->Some_0,
            )),
    ensures
        kept_disclosures(disclosures, omitted) == named_on(disclosures, list),
    decreases disclosures.len(),
{
    if disclosures.len() > 0 {
        let shorter = disclosures.drop_last();
        assert forall|k: int| 0 <= k < shorter.len() implies (omitted.contains(k)
            <==> !list.contains((#[trigger] shorter[k]).claim_name->Some_0)) by {
            assert(shorter[k] == disclosures[k]);
        }
        lemma_kept_named(shorter, omitted, list);
        let n = disclosures.len() - 1;
        assert(disclosures[n] == disclosures.last());
    }
}

/// Whether a text names a disclosed claim.
pub open spec fn is_claim_name(held: SdJwtContent, name: Seq<char>) -> bool {
    exists|k: int|
        0 <= k < held.disclosures.len() && (#[trigger] held.disclosures[k]).claim_name == Some(name)
}

proof fn lemma_flat_outcome(
    issued: Seq<char>,
    list: Seq<Seq<char>>,
    out: Result<Seq<char>, PresentFault>,
    held: SdJwtContent,
)
    requires
        presentable(issued, held),
        selection_outcome(issued, list, out),
    ensures
        (forall|i: int| 0 <= i < list.len() ==> is_claim_name(held, #[trigger] list[i])) ==> out
            == Ok::<Seq<char>, PresentFault>(
            held.jws + "~"@ + each_with_tilde(named_on(held.disclosures, list)) + held.key_binding,
        ),
        (exists|i: int| 0 <= i < list.len() && !is_claim_name(held, #[trigger] list[i])) ==> (
        out matches Err(PresentFault::UndisclosableClaim(name)) && list.contains(name)
            && !is_claim_name(held, name)),
{
    lemma_flat_indexed(held);
    let all = held.disclosures;
    let claims = held.claims->Ok_0;
    assert forall|selector: Seq<char>| #[trigger] selectable(held, selector) <==> is_claim_name(
        held,
        selector,
    ) by {
        if selectable(held, selector) {
            let place = choose|place: Place| #[trigger]
                places(held).contains(place) && place.selector == selector;
            lemma_flat_places(held, place);
            assert(all[place.position].claim_name == Some(selector));
        }
        if is_claim_name(held, selector) {
            let k = choose|k: int|
                0 <= k < all.len() && (#[trigger] all[k]).claim_name == Some(selector);
            lemma_flat_places(held, top_place(held, k));
        }
    }
    let accepted = |selector: Seq<char>| selectable(held, selector);
    law_least_rejected(list, accepted);
    if forall|i: int| 0 <= i < list.len() ==> is_claim_name(held, #[trigger] list[i]) {
        assert forall|i: int| 0 <= i < list.len() implies accepted(#[trigger] list[i]) by {
            assert(is_claim_name(held, list[i]));
        }
        assert(least_unselectable(held, list) is None);
        assert(named_hash(claims) == SHA_256@);
        let omitted = omitted_positions(held, list);
        if !concealable(held, list) {
            assert(unconcealable(held, list));
            let place = choose|place: Place| #[trigger]
                concealed_places(held, list).contains(place) && leads_nowhere(held, place.pointer);
            assert(places(held).contains(place));
            lemma_flat_places(held, place);
            lemma_flat_reachable(held, place.position);
        }
        assert forall|k: int| 0 <= k < all.len() implies (omitted.contains(k) <==> !list.contains(
            (#[trigger] all[k]).claim_name->Some_0,
        )) by {
            lemma_flat_omitted(held, list, k);
        }
        lemma_kept_named(all, omitted, list);
        let kept = named_on(all, list);
        lemma_kept_texts(all, list);
        if kept.len() > 0 {
            lemma_joined(kept);
            lemma_joined_filled(kept);
        }
        assert(compact_text(finished(Presenting { held, omitted })) =~= held.jws + "~"@
            + each_with_tilde(kept) + held.key_binding);
    }
    if exists|i: int| 0 <= i < list.len() && !is_claim_name(held, #[trigger] list[i]) {
        let i = choose|i: int| 0 <= i < list.len() && !is_claim_name(held, #[trigger] list[i]);
        assert(!accepted(list[i]));
        let text = least_unselectable(held, list)->Some_0;
        assert(!accepted(text));
    }
}

/// Whether a text is read as an SD-JWT with disclosed claims at the top alone, under the hash that
/// disclosures are referred to by.
pub open spec fn presentable(issued: Seq<char>, held: SdJwtContent) -> bool {
    &&& sd_jwt_read(issued) == Ok::<SdJwtContent, Seq<char>>(held)
    &&& flat(held)
    &&& text_member(held.claims->Ok_0, "_sd_alg"@) is None || text_member(
        held.claims->Ok_0,
        "_sd_alg"@,
    ) == Some("sha-256"@)
    &&& forall|k: int|
        0 <= k < held.disclosures.len() ==> (#[trigger] held.disclosures[k]).text.len() > 0
}

/// Whether every entry of a list names a disclosed claim.
pub open spec fn all_names(held: SdJwtContent, list: Seq<String>) -> bool {
    forall|i: int| 0 <= i < list.len() ==> is_claim_name(held, (#[trigger] list[i])@)
}

proof fn lemma_all_names(held: SdJwtContent, list: Seq<String>)
    ensures
        all_names(held, list) <==> forall|i: int|
            0 <= i < texts(list).len() ==> is_claim_name(held, #[trigger] texts(list)[i]),
{
    let names = texts(list);
    if all_names(held, list) {
        assert forall|i: int| 0 <= i < names.len() implies is_claim_name(
            held,
            #[trigger] names[i],
        ) by {
            assert(is_claim_name(held, list[i]@));
        }
    }
    if forall|i: int| 0 <= i < names.len() ==> is_claim_name(held, #[trigger] names[i]) {
        assert forall|i: int| 0 <= i < list.len() implies is_claim_name(
            held,
            (#[trigger] list[i])@,
        ) by {
            assert(is_claim_name(held, names[i]));
        }
    }
}

/// Of an SD-JWT with claims at the top alone, exactly the disclosures whose names are on the list
/// are presented, in the order of issue, behind the issuer's JWS; a list with another entry is
/// refused for such an entry.
pub proof fn law_flat_presentations_show_the_list(
    issued: &str,
    disclose: &Vec<String>,
    out: Result<String, PresentError>,
    held: SdJwtContent,
)
    requires
        presentable(issued@, held),
        call_ensures(select_disclosures, (issued, disclose), out),
    ensures
        all_names(held, disclose@) ==> (out matches Ok(text) && text@ == held.jws + "~"@
            + each_with_tilde(named_on(held.disclosures, texts(disclose@))) + held.key_binding),
        !all_names(held, disclose@) ==> (out matches Err(PresentError::UndisclosableClaim(name))
            && texts(disclose@).contains(name@) && !is_claim_name(held, name@)),
{
    let content = match out {
        Ok(text) => Ok::<Seq<char>, PresentFault>(text@),
        Err(error) => Err::<Seq<char>, PresentFault>(error@),
    };
    lemma_flat_outcome(issued@, texts(disclose@), content, held);
    lemma_all_names(held, disclose@);
}

/// A prepared presentation of an SD-JWT with claims at the top alone holds, before its key binding,
/// exactly the disclosures whose names are on the list, in the order of issue, behind the issuer's
/// JWS; a list with another entry is refused for such an entry.
pub proof fn law_flat_preparations_show_the_list(
    issued: String,
    attestation: &HeldAttestation,
    request: &PresentationRequest,
    disclose: &Vec<String>,
    iat: i64,
    out: Result<PreparedPresentation, PresentError>,
    held: SdJwtContent,
)
    requires
        *attestation == (HeldAttestation::SdJwtVc { issued }),
        presentable(issued@, held),
        call_ensures(prepare_present, (attestation, request, disclose, iat), out),
    ensures
        out matches Ok(prepared) ==> all_names(held, disclose@) && (
        prepared.kind matches PreparedKind::SdJwtVc { presentation_prefix, .. }
            && presentation_prefix@ == held.jws + "~"@ + each_with_tilde(
            named_on(held.disclosures, texts(disclose@)),
        ) + held.key_binding),
        !all_names(held, disclose@) ==> (out matches Err(PresentError::UndisclosableClaim(name))
            && texts(disclose@).contains(name@) && !is_claim_name(held, name@)),
{
    let list = texts(disclose@);
    lemma_all_names(held, disclose@);
    let content = prepared_content(out);
    let selected = choose|selected: Result<Seq<char>, PresentFault>|
        {
            &&& #[trigger] selection_outcome(issued@, list, selected)
            &&& match selected {
                Err(fault) => content == Err::<Prepared, PresentFault>(fault),
                Ok(presentation_prefix) => match kb_input(
                    request.audience@,
                    base64url_text(request.nonce@),
                    iat,
                    presentation_prefix,
                ) {
                    Err(fault) => content == Err::<Prepared, PresentFault>(
                        PresentFault::Build(signer_message(fault)),
                    ),
                    Ok(kb) => content == Ok::<Prepared, PresentFault>(
                        Prepared::SdJwtVc { presentation_prefix, kb },
                    ),
                },
            }
        };
    lemma_flat_outcome(issued@, list, selected, held);
}

proof fn lemma_kept_texts(disclosures: Seq<Disclosed>, list: Seq<Seq<char>>)
    requires
        forall|k: int| 0 <= k < disclosures.len() ==> (#[trigger] disclosures[k]).text.len() > 0,
    ensures
        forall|k: int|
            0 <= k < named_on(disclosures, list).len() ==> (#[trigger] named_on(
                disclosures,
                list,
            )[k]).text.len() > 0,
    decreases disclosures.len(),
{
    if disclosures.len() > 0 {
        let shorter = disclosures.drop_last();
        assert forall|k: int| 0 <= k < shorter.len() implies (#[trigger] shorter[k]).text.len()
            > 0 by {
            assert(shorter[k] == disclosures[k]);
        }
        lemma_kept_texts(shorter, list);
        assert(disclosures[disclosures.len() - 1].text.len() > 0);
        let kept = named_on(disclosures, list);
        assert forall|k: int| 0 <= k < kept.len() implies (#[trigger] kept[k]).text.len() > 0 by {
            if k < named_on(shorter, list).len() {
                assert(kept[k] == named_on(shorter, list)[k]);
            }
        }
    }
}

proof fn lemma_joined_filled(disclosures: Seq<Disclosed>)
    requires
        disclosures.len() > 0,
        forall|k: int| 0 <= k < disclosures.len() ==> (#[trigger] disclosures[k]).text.len() > 0,
    ensures
        joined_disclosures(disclosures).len() > 0,
{
    assert(disclosures[0].text.len() > 0);
    assert(disclosures[disclosures.len() - 1].text.len() > 0);
}

proof fn lemma_flat_omitted(held: SdJwtContent, list: Seq<Seq<char>>, k: int)
    requires
        flat(held),
        0 <= k < held.disclosures.len(),
        crate::issuance::present::selection::hides(held, list),
    ensures
        omitted_positions(held, list).contains(k) <==> !list.contains(
            held.disclosures[k].claim_name->Some_0,
        ),
{
    lemma_flat_indexed(held);
    let all = held.disclosures;
    let claims = held.claims->Ok_0;
    assert forall|place: Place| #[trigger]
        places(held).contains(place) implies keeps(held, list, place) == list.contains(
        place.selector,
    ) by {
        lemma_flat_places(held, place);
        if crate::issuance::present::selection::wanted_inside(claims, all, list, place) {
            let inner = choose|inner: Place| #[trigger]
                crate::issuance::present::walk::below(claims, all, Some(place), inner)
                    && list.contains(inner.selector);
            let depth = choose|depth: nat| #[trigger]
                below_at(claims, all, Some(place), depth, inner);
            let first = crate::issuance::present::shown::lemma_inside_is_direct(
                claims,
                all,
                place,
                depth,
                inner,
            );
            assert(inert(all[place.position].claim_value));
            lemma_inert(
                all[place.position].claim_value,
                place.pointer,
                Some(place.selector),
                all,
                first,
                0,
            );
        }
    }
    let own = top_place(held, k);
    lemma_flat_places(held, own);
    lemma_flat_reachable(held, k);
    if !list.contains(own.selector) {
        assert(concealed_places(held, list).contains(own));
        assert(going(all, all[k].claim_value, k).contains(k));
        assert(conceals(held, own, k));
    }
    if omitted_positions(held, list).contains(k) {
        let place = choose|place: Place| #[trigger]
            concealed_places(held, list).contains(place) && conceals(held, place, k);
        assert(places(held).contains(place));
        lemma_flat_places(held, place);
        lemma_flat_reachable(held, place.position);
        let j = place.position;
        assert(going(all, all[j].claim_value, j).contains(k));
        if j != k {
            assert(inert(all[j].claim_value));
            lemma_inert(all[j].claim_value, Seq::empty(), None, all, place, k);
        }
        assert(!keeps(held, list, place));
    }
}

} // verus!
