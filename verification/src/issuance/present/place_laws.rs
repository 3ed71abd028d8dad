//! Where disclosures are found.
use crate::crypto::{base64url_text, sha256_digest};
use crate::issuance::present::places::{
    child, escaped, found, path_of, place_contents, top_claim, Place,
};
use crate::issuance::present::sd_jwt::{
    claim_behind, digest_position, digests_in, disclosed, disclosure_digest, Disclosed,
    SdDisclosure,
};
use crate::issuance::present::walk::{
    direct, disclosure_places, lemma_located_inside, located, once, DisclosurePlaces,
};
use crate::json::{member, Json, JsonValue};
use crate::text::decimal;
use vstd::prelude::*;
use vstd::utf8::encode_utf8;

verus! {

/// Whether a chain of names leads from a value to another, through the members of objects.
pub open spec fn leads_by(value: Json, keys: Seq<Seq<char>>, to: Json) -> bool
    decreases keys.len(),
{
    if keys.len() == 0 {
        to == value
    } else {
        exists|parent: Json|
            leads_by(value, keys.drop_last(), parent) && #[trigger] member(parent, keys.last())
                == Some(to)
    }
}

/// Whether names can stand in a path as they are: no digest list among them, no tilde and no slash
/// in them.
pub open spec fn plain_names(keys: Seq<Seq<char>>) -> bool {
    forall|i: int|
        0 <= i < keys.len() ==> (#[trigger] keys[i]) != "_sd"@ && !keys[i].contains('~')
            && !keys[i].contains('/')
}

/// A path of names below another.
pub open spec fn path_below(at: Seq<char>, keys: Seq<Seq<char>>) -> Seq<char>
    decreases keys.len(),
{
    if keys.len() == 0 {
        at
    } else {
        path_below(at, keys.drop_last()) + "/"@ + keys.last()
    }
}

/// The claim that array elements go with: the one given, or else the first name of the path.
pub open spec fn owner_below(owner: Option<Seq<char>>, keys: Seq<Seq<char>>) -> Option<Seq<char>> {
    if owner is Some || keys.len() == 0 {
        owner
    } else {
        Some(keys[0])
    }
}

proof fn lemma_plain_escaped(key: Seq<char>)
    requires
        !key.contains('~'),
        !key.contains('/'),
    ensures
        escaped(key) == key,
    decreases key.len(),
{
    if key.len() > 0 {
        let rest = key.drop_first();
        assert(key.contains(key[0]));
        assert forall|c: char| rest.contains(c) implies key.contains(c) by {
            let i = choose|i: int| 0 <= i < rest.len() && rest[i] == c;
            assert(key[i + 1] == c);
        }
        lemma_plain_escaped(rest);
        assert(escaped(key) =~= key);
    } else {
        assert(escaped(key) =~= key);
    }
}

proof fn lemma_found_below(
    value: Json,
    at: Seq<char>,
    owner: Option<Seq<char>>,
    keys: Seq<Seq<char>>,
    to: Json,
    disclosures: Seq<Disclosed>,
    place: Place,
)
    requires
        leads_by(value, keys, to),
        plain_names(keys),
        found(to, path_below(at, keys), owner_below(owner, keys), disclosures, place),
    ensures
        found(value, at, owner, disclosures, place),
    decreases keys.len(),
{
    if keys.len() > 0 {
        let shorter = keys.drop_last();
        let parent = choose|parent: Json|
            leads_by(value, keys.drop_last(), parent) && #[trigger] member(parent, keys.last())
                == Some(to);
        assert(keys[keys.len() - 1] == keys.last());
        lemma_plain_escaped(keys.last());
        assert(plain_names(shorter)) by {
            assert forall|i: int| 0 <= i < shorter.len() implies (#[trigger] shorter[i]) != "_sd"@
                && !shorter[i].contains('~') && !shorter[i].contains('/') by {
                assert(shorter[i] == keys[i]);
            }
        }
        assert(path_below(at, keys) == child(path_below(at, shorter), escaped(keys.last())));
        assert(owner_below(owner, keys) == top_claim(owner_below(owner, shorter), keys.last())) by {
            if shorter.len() > 0 {
                assert(shorter[0] == keys[0]);
            }
        }
        let members = parent->Object_0;
        assert(members.contains_key(keys.last()));
        assert(found(parent, path_below(at, shorter), owner_below(owner, shorter), disclosures, place));
        lemma_found_below(value, at, owner, shorter, parent, disclosures, place);
    }
}

/// Whether a text is the digest of the disclosure at a position, and of none before it.
pub open spec fn refers(disclosures: Seq<SdDisclosure>, text: Seq<char>, k: int) -> bool {
    &&& 0 <= k < disclosures.len()
    &&& text == base64url_text(sha256_digest(encode_utf8(disclosures[k].text@)))
    &&& forall|j: int|
        0 <= j < k ==> text != base64url_text(
            sha256_digest(encode_utf8((#[trigger] disclosures[j]).text@)),
        )
}

proof fn lemma_refers(disclosures: Seq<SdDisclosure>, text: Seq<char>, k: int)
    requires
        refers(disclosures, text, k),
    ensures
        digest_position(disclosed(disclosures), text, 0) == Some(k),
{
    let all = disclosed(disclosures);
    assert forall|j: int| 0 <= j < all.len() implies disclosure_digest(#[trigger] all[j])
        == base64url_text(sha256_digest(encode_utf8(disclosures[j].text@))) by {
        assert(all[j] == disclosures[j]@);
    }
    lemma_first(all, text, 0, k);
}

proof fn lemma_first(all: Seq<Disclosed>, text: Seq<char>, from: nat, k: int)
    requires
        from <= k < all.len(),
        disclosure_digest(all[k]) == text,
        forall|j: int| from <= j < k ==> disclosure_digest(#[trigger] all[j]) != text,
    ensures
        digest_position(all, text, from) == Some(k),
    decreases k - from,
{
    if from < k {
        assert(disclosure_digest(all[from as int]) != text);
        lemma_first(all, text, from + 1, k);
    }
}

/// Whether an object lists a digest.
pub open spec fn lists_digest(object: Json, text: Seq<char>) -> bool {
    member(object, "_sd"@) matches Some(Json::Array(digests)) && digests.contains(Json::Text(text))
}

/// Whether a place is among those that were located.
pub open spec fn is_located(places: DisclosurePlaces, place: Place) -> bool {
    place_contents(places.located@).contains(place)
}

/// A disclosed claim whose digest an object lists is located at the path of that object and its own
/// name, and is chosen by that path without the slash in front.
pub proof fn law_claims_are_located_by_their_path(
    claims: &JsonValue,
    disclosures: &Vec<SdDisclosure>,
    keys: Seq<Seq<char>>,
    object: Json,
    text: Seq<char>,
    k: int,
    name: Seq<char>,
    out: DisclosurePlaces,
)
    requires
        call_ensures(disclosure_places, (claims, disclosures), out),
        leads_by(claims@, keys, object),
        plain_names(keys),
        lists_digest(object, text),
        refers(disclosures@, text, k),
        disclosures@[k].claim_name is Some && disclosures@[k].claim_name->Some_0@ == name,
    ensures
        is_located(
            out,
            Place {
                position: k,
                pointer: path_below(Seq::empty(), keys.push(name)),
                selector: path_below(Seq::empty(), keys.push(name)).skip(1),
            },
        ),
{
    let all = disclosed(disclosures@);
    let at = Seq::<char>::empty();
    let place = Place {
        position: k,
        pointer: path_below(at, keys.push(name)),
        selector: path_below(at, keys.push(name)).skip(1),
    };
    lemma_found_claim(object, path_below(at, keys), owner_below(None, keys), disclosures@, text, k);
    assert(keys.push(name).drop_last() =~= keys);
    assert(path_below(at, keys.push(name)) == child(path_below(at, keys), name));
    reveal_strlit("/");
    lemma_found_below(claims@, at, None, keys, object, all, place);
    assert(direct(claims@, all, None, place));
    lemma_located_inside(claims@, all, None, place);
    assert(located(claims@, all, place));
}

proof fn lemma_found_claim(
    object: Json,
    at: Seq<char>,
    owner: Option<Seq<char>>,
    disclosures: Seq<SdDisclosure>,
    text: Seq<char>,
    k: int,
)
    requires
        lists_digest(object, text),
        refers(disclosures, text, k),
        disclosures[k].claim_name is Some,
    ensures
        ({
            let pointer = child(at, disclosures[k].claim_name->Some_0@);
            found(
                object,
                at,
                owner,
                disclosed(disclosures),
                Place { position: k, pointer, selector: pointer.skip(1) },
            )
        }),
{
    let all = disclosed(disclosures);
    lemma_refers(disclosures, text, k);
    assert(all[k] == disclosures[k]@);
    reveal_strlit("/");
    let digests = digests_in(object);
    let i = choose|i: int| 0 <= i < digests.len() && digests[i] == Json::Text(text);
    assert(claim_behind(digests[i], all) == Some(k));
    let pointer = child(at, disclosures[k].claim_name->Some_0@);
    assert(path_of(pointer) == pointer.skip(1));
}

/// A disclosed claim whose digest stands inside another disclosed value is located below the place
/// of that value.
pub proof fn law_inner_claims_are_located_below(
    claims: &JsonValue,
    disclosures: &Vec<SdDisclosure>,
    outer: Place,
    keys: Seq<Seq<char>>,
    object: Json,
    text: Seq<char>,
    k: int,
    name: Seq<char>,
    out: DisclosurePlaces,
)
    requires
        call_ensures(disclosure_places, (claims, disclosures), out),
        is_located(out, outer),
        0 <= outer.position < disclosures@.len(),
        once(claims@, disclosed(disclosures@), outer.position),
        leads_by(disclosures@[outer.position].claim_value@, keys, object),
        plain_names(keys),
        lists_digest(object, text),
        refers(disclosures@, text, k),
        disclosures@[k].claim_name is Some && disclosures@[k].claim_name->Some_0@ == name,
    ensures
        is_located(
            out,
            Place {
                position: k,
                pointer: path_below(outer.pointer, keys.push(name)),
                selector: path_below(outer.pointer, keys.push(name)).skip(1),
            },
        ),
{
    let all = disclosed(disclosures@);
    let at = outer.pointer;
    let place = Place {
        position: k,
        pointer: path_below(at, keys.push(name)),
        selector: path_below(at, keys.push(name)).skip(1),
    };
    let owner = Some(outer.selector);
    lemma_found_claim(object, path_below(at, keys), owner_below(owner, keys), disclosures@, text, k);
    assert(keys.push(name).drop_last() =~= keys);
    assert(path_below(at, keys.push(name)) == child(path_below(at, keys), name));
    assert(all[outer.position] == disclosures@[outer.position]@);
    lemma_found_below(all[outer.position].claim_value, at, owner, keys, object, all, place);
    assert(direct(claims@, all, Some(outer), place));
    lemma_located_inside(claims@, all, Some(outer), place);
    assert(located(claims@, all, place));
}

/// A disclosed array element is located at its index, and is chosen by the claim at the top of its
/// path.
pub proof fn law_elements_are_located_by_their_index(
    claims: &JsonValue,
    disclosures: &Vec<SdDisclosure>,
    keys: Seq<Seq<char>>,
    items: Seq<Json>,
    i: int,
    text: Seq<char>,
    k: int,
    out: DisclosurePlaces,
)
    requires
        call_ensures(disclosure_places, (claims, disclosures), out),
        keys.len() > 0,
        leads_by(claims@, keys, Json::Array(items)),
        plain_names(keys),
        0 <= i < items.len(),
        member(items[i], "..."@) == Some(Json::Text(text)),
        refers(disclosures@, text, k),
        disclosures@[k].claim_name is None,
    ensures
        is_located(
            out,
            Place {
                position: k,
                pointer: path_below(Seq::empty(), keys) + "/"@ + decimal(i as nat),
                selector: keys[0],
            },
        ),
{
    let all = disclosed(disclosures@);
    let at = Seq::<char>::empty();
    let pointer = child(path_below(at, keys), decimal(i as nat));
    let place = Place { position: k, pointer, selector: keys[0] };
    lemma_refers(disclosures@, text, k);
    assert(all[k] == disclosures@[k]@);
    assert(crate::issuance::present::places::element_behind(items[i], all) == Some(k));
    assert(found(
        Json::Array(items),
        path_below(at, keys),
        owner_below(None, keys),
        all,
        place,
    ));
    lemma_found_below(claims@, at, None, keys, Json::Array(items), all, place);
    assert(direct(claims@, all, None, place));
    lemma_located_inside(claims@, all, None, place);
    assert(located(claims@, all, place));
}

} // verus!
