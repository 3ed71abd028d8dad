//! Where the disclosures of an SD-JWT belong among its claims.
use crate::cbor::reversed;
use crate::crypto::sd_hash;
use crate::issuance::present::sd_jwt::{
    claim_behind, digest_position, digests_in, disclosed, disclosure_digest, indexed, Disclosed,
    SdDisclosure,
};
use crate::json::{
    contents, get_array, get_text, lemma_array_content, lemma_object_content, member_contents,
    text_member, Json, JsonValue,
};
use crate::text::{chars_of, decimal, decimal_text, joined3, seen, str_eq};
use crate::text_map::{first_entry, key_at, key_index};
use vstd::prelude::*;

verus! {

/// A character of a key inside a JSON pointer.
pub open spec fn escaped_char(c: char) -> Seq<char> {
    if c == '~' {
        seq!['~', '0']
    } else if c == '/' {
        seq!['~', '1']
    } else {
        seq![c]
    }
}

/// A key as a reference token of a JSON pointer.
pub open spec fn escaped(key: Seq<char>) -> Seq<char>
    decreases key.len(),
{
    if key.len() == 0 {
        Seq::empty()
    } else {
        escaped_char(key[0]) + escaped(key.drop_first())
    }
}

/// Escape a key for a JSON pointer.
pub fn escape_json_pointer(key: &str) -> (out: String)
    ensures
        out@ == escaped(key@),
{
    let chars = chars_of(key);
    let mut out = String::new();
    let mut i: usize = 0;
    assert(chars@.skip(0) =~= chars@);
    assert(out@ + escaped(chars@) =~= escaped(chars@));
    while i < chars.len()
        invariant
            i <= chars@.len(),
            out@ + escaped(chars@.skip(i as int)) == escaped(chars@),
        decreases chars@.len() - i,
    {
        let c: char = chars[i];
        let ghost before = out@;
        let ghost rest = chars@.skip(i as int);
        if c == '~' {
            out.push('~');
            out.push('0');
        } else if c == '/' {
            out.push('~');
            out.push('1');
        } else {
            out.push(c);
        }
        proof {
            assert(rest[0] == c);
            assert(rest.drop_first() =~= chars@.skip(i as int + 1));
            assert(out@ =~= before + escaped_char(c));
            assert(out@ + escaped(chars@.skip(i as int + 1)) =~= before + escaped(rest));
        }
        i += 1;
    }
    assert(out@ + escaped(chars@.skip(i as int)) =~= out@);
    out
}

/// The key that a reference token stands for.
pub open spec fn unescaped(token: Seq<char>) -> Seq<char>
    decreases token.len(),
{
    if token.len() == 0 {
        Seq::empty()
    } else if token.len() >= 2 && token[0] == '~' {
        seq![
            if token[1] == '0' {
                '~'
            } else {
                '/'
            },
        ] + unescaped(token.skip(2))
    } else {
        seq![token[0]] + unescaped(token.drop_first())
    }
}

/// A reference token holds no slash, and the key can be read back from it. So no two keys share a
/// token.
pub proof fn law_escaped_keys(key: Seq<char>)
    ensures
        !escaped(key).contains('/'),
        unescaped(escaped(key)) == key,
    decreases key.len(),
{
    if key.len() > 0 {
        let rest = escaped(key.drop_first());
        let token = escaped(key);
        law_escaped_keys(key.drop_first());
        assert forall|i: int| 0 <= i < token.len() implies token[i] != '/' by {
            let head = escaped_char(key[0]);
            if i >= head.len() {
                assert(token[i] == rest[i - head.len()]);
                assert(rest.contains(rest[i - head.len()]));
            } else {
                assert(token[i] == head[i]);
            }
        }
        if key[0] == '~' || key[0] == '/' {
            assert(token.skip(2) =~= rest);
        } else {
            assert(token.drop_first() =~= rest);
        }
        assert(unescaped(token) =~= key);
    } else {
        assert(unescaped(escaped(key)) =~= key);
    }
}

/// Where a disclosure belongs: its position, the pointer at which it is concealed, and the selector
/// by which it is chosen. A named claim is chosen by its own path; an array element goes with the
/// named claim it is part of, or else with the claim at the top.
pub struct Place {
    pub position: int,
    pub pointer: Seq<char>,
    pub selector: Seq<char>,
}

/// The executable form of a [`Place`].
#[derive(Debug)]
pub struct DisclosurePlace {
    /// The position of the disclosure.
    pub position: usize,
    /// The pointer at which the disclosure is concealed.
    pub pointer: String,
    /// The selector by which it is chosen.
    pub selector: String,
}

impl View for DisclosurePlace {
    type V = Place;

    open spec fn view(&self) -> Place {
        Place { position: self.position as int, pointer: self.pointer@, selector: self.selector@ }
    }
}

/// The contents of a list of places.
pub open spec fn place_contents(places: Seq<DisclosurePlace>) -> Seq<Place> {
    places.map_values(|place: DisclosurePlace| place@)
}

/// The pointer one token further down.
pub open spec fn child(at: Seq<char>, token: Seq<char>) -> Seq<char> {
    at + "/"@ + token
}

/// A pointer without its leading slash.
pub open spec fn path_of(pointer: Seq<char>) -> Seq<char> {
    if pointer.len() == 0 {
        pointer
    } else {
        pointer.skip(1)
    }
}

/// The position of the array element that an item stands for.
pub open spec fn element_behind(item: Json, disclosures: Seq<Disclosed>) -> Option<int> {
    match text_member(item, "..."@) {
        Some(text) => match digest_position(disclosures, text, 0) {
            Some(k) => if disclosures[k].claim_name is None {
                Some(k)
            } else {
                None
            },
            None => None,
        },
        None => None,
    }
}

/// The claim at the top: the one given, or else this key.
pub open spec fn top_claim(owner: Option<Seq<char>>, key: Seq<char>) -> Option<Seq<char>> {
    match owner {
        Some(claim) => Some(claim),
        None => Some(key),
    }
}

/// Whether a disclosure belongs at `place`, where `value` is what stands at the pointer `at` and
/// `owner` is the claim that array elements there go with. Disclosed values are not looked into.
pub open spec fn found(
    value: Json,
    at: Seq<char>,
    owner: Option<Seq<char>>,
    disclosures: Seq<Disclosed>,
    place: Place,
) -> bool
    decreases value,
{
    match value {
        Json::Object(members) => {
            ||| exists|i: int|
                0 <= i < digests_in(value).len() && match claim_behind(
                    #[trigger] digests_in(value)[i],
                    disclosures,
                ) {
                    Some(k) => {
                        let pointer = child(at, disclosures[k].claim_name->Some_0);
                        place == Place { position: k, pointer, selector: path_of(pointer) }
                    },
                    None => false,
                }
            ||| exists|key: Seq<char>| #[trigger]
                members.contains_key(key) && key != "_sd"@ && found(
                    members[key],
                    child(at, escaped(key)),
                    top_claim(owner, key),
                    disclosures,
                    place,
                )
        },
        Json::Array(items) => exists|i: int|
            0 <= i < items.len() && match element_behind(#[trigger] items[i], disclosures) {
                Some(k) => {
                    let pointer = child(at, decimal(i as nat));
                    owner is Some && place == Place {
                        position: k,
                        pointer,
                        selector: owner->Some_0,
                    }
                },
                None => found(
                    items[i],
                    child(at, decimal(i as nat)),
                    owner,
                    disclosures,
                    place,
                ),
            },
        _ => false,
    }
}

/// What `found` says of one digest of an object.
pub(crate) open spec fn found_by_digest(
    value: Json,
    i: int,
    at: Seq<char>,
    disclosures: Seq<Disclosed>,
    place: Place,
) -> bool {
    match claim_behind(digests_in(value)[i], disclosures) {
        Some(k) => {
            let pointer = child(at, disclosures[k].claim_name->Some_0);
            place == Place { position: k, pointer, selector: path_of(pointer) }
        },
        None => false,
    }
}

/// What `found` says of the first `n` digests of an object.
spec fn claims_upto(
    value: Json,
    n: int,
    at: Seq<char>,
    disclosures: Seq<Disclosed>,
    place: Place,
) -> bool {
    exists|i: int| 0 <= i < n && #[trigger] found_by_digest(value, i, at, disclosures, place)
}

/// What `found` says of one member of an object.
pub(crate) open spec fn found_by_key(
    value: Json,
    key: Seq<char>,
    at: Seq<char>,
    owner: Option<Seq<char>>,
    disclosures: Seq<Disclosed>,
    place: Place,
) -> bool {
    &&& value->Object_0.contains_key(key)
    &&& key != "_sd"@
    &&& found(
        value->Object_0[key],
        child(at, escaped(key)),
        top_claim(owner, key),
        disclosures,
        place,
    )
}

/// What `found` says of the members under the first `n` keys.
spec fn members_upto(
    value: Json,
    keys: Seq<Seq<char>>,
    n: int,
    at: Seq<char>,
    owner: Option<Seq<char>>,
    disclosures: Seq<Disclosed>,
    place: Place,
) -> bool {
    exists|i: int|
        0 <= i < n && found_by_key(
            value,
            #[trigger] keys[i],
            at,
            owner,
            disclosures,
            place,
        )
}

/// What `found` says of one item of an array.
spec fn item_part(
    items: Seq<Json>,
    i: int,
    at: Seq<char>,
    owner: Option<Seq<char>>,
    disclosures: Seq<Disclosed>,
    place: Place,
) -> bool {
    match element_behind(items[i], disclosures) {
        Some(k) => {
            let pointer = child(at, decimal(i as nat));
            owner is Some && place == Place {
                        position: k,
                        pointer,
                        selector: owner->Some_0,
                    }
        },
        None => found(items[i], child(at, decimal(i as nat)), owner, disclosures, place),
    }
}

/// What `found` says of the first `n` items of an array.
spec fn items_upto(
    items: Seq<Json>,
    n: int,
    at: Seq<char>,
    owner: Option<Seq<char>>,
    disclosures: Seq<Disclosed>,
    place: Place,
) -> bool {
    exists|i: int|
        0 <= i < n && #[trigger] item_part(items, i, at, owner, disclosures, place)
}

proof fn lemma_found_object(
    value: Json,
    keys: Seq<Seq<char>>,
    at: Seq<char>,
    owner: Option<Seq<char>>,
    disclosures: Seq<Disclosed>,
    place: Place,
)
    requires
        value is Object,
        forall|key: Seq<char>| #[trigger] value->Object_0.contains_key(key) ==> keys.contains(key),
    ensures
        found(value, at, owner, disclosures, place) <==> claims_upto(
            value,
            digests_in(value).len() as int,
            at,
            disclosures,
            place,
        ) || members_upto(
            value,
            keys,
            keys.len() as int,
            at,
            owner,
            disclosures,
            place,
        ),
{
    let members = value->Object_0;
    let n = digests_in(value).len() as int;
    if found(value, at, owner, disclosures, place) && !claims_upto(
        value,
        n,
        at,
        disclosures,
        place,
    ) {
        assert forall|i: int| 0 <= i < n implies !found_by_digest(
            value,
            i,
            at,
            disclosures,
            place,
        ) by {}
        assert(!(exists|i: int|
            0 <= i < n && match claim_behind(#[trigger] digests_in(value)[i], disclosures) {
                Some(k) => {
                    let pointer = child(at, disclosures[k].claim_name->Some_0);
                    place == Place { position: k, pointer, selector: path_of(pointer) }
                },
                None => false,
            })) by {
            assert forall|i: int| 0 <= i < n implies !(match claim_behind(
                #[trigger] digests_in(value)[i],
                disclosures,
            ) {
                Some(k) => {
                    let pointer = child(at, disclosures[k].claim_name->Some_0);
                    place == Place { position: k, pointer, selector: path_of(pointer) }
                },
                None => false,
            }) by {
                assert(!found_by_digest(value, i, at, disclosures, place));
            }
        }
        let key = choose|key: Seq<char>| #[trigger]
            members.contains_key(key) && key != "_sd"@ && found(
                members[key],
                child(at, escaped(key)),
                top_claim(owner, key),
                disclosures,
                place,
            );
        let j = choose|j: int| 0 <= j < keys.len() && keys[j] == key;
        assert(found_by_key(value, keys[j], at, owner, disclosures, place));
    }
    if claims_upto(value, n, at, disclosures, place) {
        let i = choose|i: int|
            0 <= i < n && #[trigger] found_by_digest(value, i, at, disclosures, place);
        assert(digests_in(value)[i] == digests_in(value)[i]);
    }
}

proof fn lemma_found_array(
    items: Seq<Json>,
    at: Seq<char>,
    owner: Option<Seq<char>>,
    disclosures: Seq<Disclosed>,
    place: Place,
)
    ensures
        found(Json::Array(items), at, owner, disclosures, place) <==> items_upto(
            items,
            items.len() as int,
            at,
            owner,
            disclosures,
            place,
        ),
{
    if items_upto(items, items.len() as int, at, owner, disclosures, place) {
        let i = choose|i: int|
            0 <= i < items.len() && #[trigger] item_part(
                items,
                i,
                at,
                owner,
                disclosures,
                place,
            );
        assert(items[i] == items[i]);
    }
    if !items_upto(items, items.len() as int, at, owner, disclosures, place) {
        assert forall|i: int| 0 <= i < items.len() implies !(match element_behind(
            #[trigger] items[i],
            disclosures,
        ) {
            Some(k) => {
                let pointer = child(at, decimal(i as nat));
                owner is Some && place == Place {
                        position: k,
                        pointer,
                        selector: owner->Some_0,
                    }
            },
            None => found(
                items[i],
                child(at, decimal(i as nat)),
                owner,
                disclosures,
                place,
            ),
        }) by {
            assert(!item_part(items, i, at, owner, disclosures, place));
        }
    }
}

/// In an object a place is found by a digest or by a key.
pub(crate) proof fn lemma_found_in_object(
    value: Json,
    at: Seq<char>,
    owner: Option<Seq<char>>,
    disclosures: Seq<Disclosed>,
    place: Place,
)
    requires
        value is Object,
        found(value, at, owner, disclosures, place),
    ensures
        (exists|i: int|
            0 <= i < digests_in(value).len() && #[trigger] found_by_digest(
                value,
                i,
                at,
                disclosures,
                place,
            )) || (exists|key: Seq<char>| #[trigger]
            found_by_key(value, key, at, owner, disclosures, place)),
{
    let members = value->Object_0;
    if exists|key: Seq<char>| #[trigger]
        members.contains_key(key) && key != "_sd"@ && found(
            members[key],
            child(at, escaped(key)),
            top_claim(owner, key),
            disclosures,
            place,
        ) {
        let key = choose|key: Seq<char>| #[trigger]
            members.contains_key(key) && key != "_sd"@ && found(
                members[key],
                child(at, escaped(key)),
                top_claim(owner, key),
                disclosures,
                place,
            );
        assert(found_by_key(value, key, at, owner, disclosures, place));
    } else {
        let i = choose|i: int|
            0 <= i < digests_in(value).len() && match claim_behind(
                #[trigger] digests_in(value)[i],
                disclosures,
            ) {
                Some(k) => {
                    let pointer = child(at, disclosures[k].claim_name->Some_0);
                    place == Place { position: k, pointer, selector: path_of(pointer) }
                },
                None => false,
            };
        assert(found_by_digest(value, i, at, disclosures, place));
    }
}

pub(crate) proof fn lemma_place_push(places: Seq<DisclosurePlace>, place: DisclosurePlace, p: Place)
    ensures
        place_contents(places.push(place)).contains(p) <==> place_contents(places).contains(p) || p
            == place@,
{
    let longer = place_contents(places.push(place));
    if place_contents(places).contains(p) {
        let i = choose|i: int|
            0 <= i < place_contents(places).len() && place_contents(places)[i] == p;
        assert(longer[i] == p);
    }
    assert(longer[places.len() as int] == place@);
    if longer.contains(p) {
        let i = choose|i: int| 0 <= i < longer.len() && longer[i] == p;
        if i < places.len() {
            assert(place_contents(places)[i] == p);
        }
    }
}

pub(crate) proof fn lemma_place_concat(a: Seq<DisclosurePlace>, b: Seq<DisclosurePlace>, p: Place)
    ensures
        place_contents(a + b).contains(p) <==> place_contents(a).contains(p) || place_contents(
            b,
        ).contains(p),
{
    let both = place_contents(a + b);
    if place_contents(a).contains(p) {
        let i = choose|i: int| 0 <= i < place_contents(a).len() && place_contents(a)[i] == p;
        assert(both[i] == p);
    }
    if place_contents(b).contains(p) {
        let i = choose|i: int| 0 <= i < place_contents(b).len() && place_contents(b)[i] == p;
        assert(both[a.len() + i] == p);
    }
    if both.contains(p) {
        let i = choose|i: int| 0 <= i < both.len() && both[i] == p;
        if i < a.len() {
            assert(place_contents(a)[i] == p);
        } else {
            assert(place_contents(b)[i - a.len()] == p);
        }
    }
}

/// Compute the digests of disclosures.
pub(crate) fn digests_of(disclosures: &Vec<SdDisclosure>) -> (out: Vec<String>)
    ensures
        out@.len() == disclosures@.len(),
        forall|i: int|
            0 <= i < out@.len() ==> (#[trigger] out@[i])@ == disclosure_digest(disclosures@[i]@),
{
    let mut out: Vec<String> = Vec::new();
    let mut i: usize = 0;
    while i < disclosures.len()
        invariant
            i <= disclosures@.len(),
            out@.len() == i,
            forall|j: int|
                0 <= j < i ==> (#[trigger] out@[j])@ == disclosure_digest(disclosures@[j]@),
        decreases disclosures@.len() - i,
    {
        out.push(sd_hash(disclosures[i].text.as_str()));
        i += 1;
    }
    out
}

/// Whether `digests` are those of `disclosures`.
pub(crate) open spec fn digests_match(disclosures: Seq<SdDisclosure>, digests: Seq<String>) -> bool {
    &&& digests.len() == disclosures.len()
    &&& forall|i: int|
        0 <= i < digests.len() ==> (#[trigger] digests[i])@ == disclosure_digest(disclosures[i]@)
}

pub(crate) fn find_digest(disclosures: &Vec<SdDisclosure>, digests: &Vec<String>, digest: &str) -> (out:
    Option<usize>)
    requires
        digests_match(disclosures@, digests@),
    ensures
        match out {
            Some(k) => digest_position(disclosed(disclosures@), digest@, 0) == Some(k as int) && k
                < disclosures@.len(),
            None => digest_position(disclosed(disclosures@), digest@, 0) is None,
        },
{
    let mut k: usize = 0;
    while k < digests.len()
        invariant
            k <= digests@.len(),
            digests_match(disclosures@, digests@),
            digest_position(disclosed(disclosures@), digest@, 0) == digest_position(
                disclosed(disclosures@),
                digest@,
                k as nat,
            ),
        decreases digests@.len() - k,
    {
        assert(digests@[k as int]@ == disclosure_digest(disclosed(disclosures@)[k as int]));
        if str_eq(digests[k].as_str(), digest) {
            return Some(k);
        }
        k += 1;
    }
    None
}

/// Keep one disclosure for each digest.
pub fn index_disclosures(disclosures: Vec<SdDisclosure>) -> (out: Vec<SdDisclosure>)
    ensures
        disclosed(out@) == indexed(disclosed(disclosures@)),
{
    let ghost listed = disclosures@;
    let ghost all = disclosed(listed);
    let mut rest = reversed(disclosures);
    let mut out: Vec<SdDisclosure> = Vec::new();
    let mut digests: Vec<String> = Vec::new();
    let ghost mut n: int = 0;
    assert(disclosed(out@) =~= indexed(all.take(0)));
    while rest.len() > 0
        invariant
            all == disclosed(listed),
            0 <= n,
            n + rest@.len() == listed.len(),
            rest@ == listed.reverse().take(rest@.len() as int),
            digests_match(out@, digests@),
            disclosed(out@) == indexed(all.take(n)),
        decreases rest@.len(),
    {
        let ghost before = disclosed(out@);
        proof {
            assert(all.take(n + 1).drop_last() =~= all.take(n));
        }
        match rest.pop() {
            Some(disclosure) => {
                let ghost last = disclosure@;
                assert(disclosure == listed[n]);
                assert(all.take(n + 1).last() == last);
                let digest = sd_hash(disclosure.text.as_str());
                match find_digest(&out, &digests, digest.as_str()) {
                    Some(k) => {
                        proof {
                            lemma_digest_position(before, digest@, 0);
                        }
                        out.set(k, disclosure);
                        assert(disclosed(out@) =~= before.update(k as int, last));
                    },
                    None => {
                        out.push(disclosure);
                        digests.push(digest);
                        assert(disclosed(out@) =~= before.push(last));
                    },
                }
            },
            None => {},
        }
        proof {
            n = n + 1;
        }
        assert(rest@ =~= listed.reverse().take(rest@.len() as int));
    }
    assert(all.take(n) =~= all);
    out
}

/// Where a digest is found, it is the digest of the disclosure there.
pub proof fn lemma_digest_position(disclosures: Seq<Disclosed>, digest: Seq<char>, k: nat)
    ensures
        digest_position(disclosures, digest, k) matches Some(i) ==> k <= i < disclosures.len()
            && disclosure_digest(disclosures[i]) == digest,
        digest_position(disclosures, digest, k) is None ==> forall|i: int|
            k <= i < disclosures.len() ==> disclosure_digest(#[trigger] disclosures[i]) != digest,
    decreases disclosures.len() - k,
{
    if k < disclosures.len() {
        lemma_digest_position(disclosures, digest, k + 1);
    }
}

pub(crate) fn without_first(text: &str) -> (out: String)
    ensures
        out@ == path_of(text@),
{
    let chars = chars_of(text);
    if chars.len() == 0 {
        return text.to_owned();
    }
    let rest = vstd::slice::slice_subrange(chars.as_slice(), 1, chars.len());
    let out = crate::text::text_of(rest);
    assert(out@ =~= path_of(text@));
    out
}

pub(crate) fn collect(
    value: &JsonValue,
    at: &str,
    owner: Option<&str>,
    disclosures: &Vec<SdDisclosure>,
    digests: &Vec<String>,
) -> (out: Vec<DisclosurePlace>)
    requires
        digests_match(disclosures@, digests@),
    ensures
        forall|p: Place| #[trigger]
            place_contents(out@).contains(p) <==> found(
                value@,
                at@,
                seen(owner),
                disclosed(disclosures@),
                p,
            ),
    decreases value, 1nat,
{
    match value {
        JsonValue::Object(members) => {
            let mut out = collect_claims(value, at, disclosures, digests);
            let ghost claims = out@;
            let mut rest = collect_members(value, at, owner, disclosures, digests);
            let ghost below = rest@;
            out.append(&mut rest);
            proof {
                let keys = entry_keys(members.entries@);
                lemma_object_content(*members);
                assert forall|key: Seq<char>| #[trigger] value@->Object_0.contains_key(
                    key,
                ) implies keys.contains(key) by {
                    let i = key_index(members.entries@, key);
                    assert(key_at(members.entries@, key, i));
                    assert(keys[i] == key);
                }
                assert forall|p: Place| #[trigger] place_contents(out@).contains(p) <==> found(
                    value@,
                    at@,
                    seen(owner),
                    disclosed(disclosures@),
                    p,
                ) by {
                    lemma_place_concat(claims, below, p);
                    lemma_found_object(
                        value@,
                        keys,
                        at@,
                        seen(owner),
                        disclosed(disclosures@),
                        p,
                    );
                }
            }
            out
        },
        JsonValue::Array(items) => {
            let out = collect_items(items, at, owner, disclosures, digests);
            proof {
                lemma_array_content(*items);
                assert forall|p: Place| #[trigger] place_contents(out@).contains(p) <==> found(
                    value@,
                    at@,
                    seen(owner),
                    disclosed(disclosures@),
                    p,
                ) by {
                    lemma_found_array(
                        contents(items@),
                        at@,
                        seen(owner),
                        disclosed(disclosures@),
                        p,
                    );
                }
            }
            out
        },
        _ => Vec::new(),
    }
}

/// The keys of a list of entries.
spec fn entry_keys(entries: Seq<(String, JsonValue)>) -> Seq<Seq<char>> {
    entries.map_values(|entry: (String, JsonValue)| entry.0@)
}

fn collect_members(
    value: &JsonValue,
    at: &str,
    owner: Option<&str>,
    disclosures: &Vec<SdDisclosure>,
    digests: &Vec<String>,
) -> (out: Vec<DisclosurePlace>)
    requires
        digests_match(disclosures@, digests@),
        value is Object,
    ensures
        forall|p: Place| #[trigger]
            place_contents(out@).contains(p) <==> members_upto(
                value@,
                entry_keys(value->Object_0.entries@),
                entry_keys(value->Object_0.entries@).len() as int,
                at@,
                seen(owner),
                disclosed(disclosures@),
                p,
            ),
    decreases value, 0nat,
{
    let ghost all = disclosed(disclosures@);
    let mut out: Vec<DisclosurePlace> = Vec::new();
    if let JsonValue::Object(members) = value {
        let ghost keys = entry_keys(members.entries@);
        proof {
            lemma_object_content(*members);
        }
        let mut i: usize = 0;
        while i < members.entries.len()
            invariant
                i <= members.entries@.len(),
                all == disclosed(disclosures@),
                digests_match(disclosures@, digests@),
                value@ == Json::Object(member_contents(members@)),
                keys == entry_keys(members.entries@),
                decreases_to!(value => members.entries),
                forall|p: Place| #[trigger]
                    place_contents(out@).contains(p) <==> members_upto(
                        value@,
                        keys,
                        i as int,
                        at@,
                        seen(owner),
                        all,
                        p,
                    ),
            decreases members.entries@.len() - i,
        {
            let ghost before = out@;
            let key: &str = members.entries[i].0.as_str();
            assert(keys[i as int] == key@);
            if !str_eq(key, "_sd") {
                let first: usize = first_entry(members, i);
                let token = escape_json_pointer(key);
                let pointer = joined3(at, "/", token.as_str());
                let claim: &str = match owner {
                    Some(claim) => claim,
                    None => key,
                };
                let mut below = collect(
                    &members.entries[first].1,
                    pointer.as_str(),
                    Some(claim),
                    disclosures,
                    digests,
                );
                let ghost deeper = below@;
                out.append(&mut below);
                assert forall|p: Place| #[trigger] place_contents(out@).contains(p)
                    <==> place_contents(before).contains(p) || place_contents(deeper).contains(
                    p,
                ) by {
                    lemma_place_concat(before, deeper, p);
                }
                assert forall|p: Place| #[trigger] place_contents(deeper).contains(p)
                    <==> found_by_key(
                    value@,
                    key@,
                    at@,
                    seen(owner),
                    all,
                    p,
                ) by {
                    assert(member_contents(members@).contains_key(key@));
                    assert(member_contents(members@)[key@] == members.entries@[first as int].1@);
                    assert(seen(Some(claim)) == top_claim(seen(owner), key@));
                }
            }
            proof {
                assert forall|p: Place| #[trigger] place_contents(out@).contains(p) <==> (
                members_upto(value@, keys, i as int, at@, seen(owner), all, p)
                    || found_by_key(
                    value@,
                    keys[i as int],
                    at@,
                    seen(owner),
                    all,
                    p,
                )) by {
                    assert(place_contents(before).contains(p) <==> members_upto(
                        value@,
                        keys,
                        i as int,
                        at@,
                        seen(owner),
                        all,
                        p,
                    ));
                }
                assert forall|p: Place| #[trigger] place_contents(out@).contains(p)
                    <==> members_upto(
                    value@,
                    keys,
                    i as int + 1,
                    at@,
                    seen(owner),
                    all,
                    p,
                ) by {
                    if members_upto(
                        value@,
                        keys,
                        i as int + 1,
                        at@,
                        seen(owner),
                        all,
                        p,
                    ) {
                        let j = choose|j: int|
                            0 <= j < i as int + 1 && found_by_key(
                                value@,
                                #[trigger] keys[j],
                                at@,
                                seen(owner),
                                all,
                                p,
                            );
                        if j < i {
                            assert(members_upto(
                                value@,
                                keys,
                                i as int,
                                at@,
                                seen(owner),
                                all,
                                p,
                            ));
                        }
                    }
                }
            }
            i += 1;
        }
    }
    out
}

fn collect_items(
    items: &Vec<JsonValue>,
    at: &str,
    owner: Option<&str>,
    disclosures: &Vec<SdDisclosure>,
    digests: &Vec<String>,
) -> (out: Vec<DisclosurePlace>)
    requires
        digests_match(disclosures@, digests@),
    ensures
        forall|p: Place| #[trigger]
            place_contents(out@).contains(p) <==> items_upto(
                contents(items@),
                items@.len() as int,
                at@,
                seen(owner),
                disclosed(disclosures@),
                p,
            ),
    decreases items, 0nat,
{
    let ghost all = disclosed(disclosures@);
    let ghost values = contents(items@);
    let mut out: Vec<DisclosurePlace> = Vec::new();
    let mut i: usize = 0;
    while i < items.len()
        invariant
            i <= items@.len(),
            all == disclosed(disclosures@),
            values == contents(items@),
            digests_match(disclosures@, digests@),
            forall|p: Place| #[trigger]
                place_contents(out@).contains(p) <==> items_upto(
                    values,
                    i as int,
                    at@,
                    seen(owner),
                    all,
                    p,
                ),
        decreases items@.len() - i,
    {
        let ghost before = out@;
        assert(values[i as int] == items@[i as int]@);
        let pointer = joined3(at, "/", decimal_text(i as u64).as_str());
        let element: Option<usize> = match get_text(&items[i], "...") {
            Some(digest) => match find_digest(disclosures, digests, digest.as_str()) {
                Some(k) => {
                    assert(all[k as int] == disclosures@[k as int]@);
                    if disclosures[k].claim_name.is_none() {
                        Some(k)
                    } else {
                        None
                    }
                },
                None => None,
            },
            None => None,
        };
        match element {
            Some(k) => {
                assert(element_behind(values[i as int], all) == Some(k as int));
                assert(all[k as int] == disclosures@[k as int]@);
                if let Some(claim) = owner {
                    let own = DisclosurePlace {
                        position: k,
                        pointer: pointer.clone(),
                        selector: claim.to_owned(),
                    };
                    out.push(own);
                    assert forall|p: Place| #[trigger] place_contents(out@).contains(p)
                        <==> place_contents(before).contains(p) || p == own@ by {
                        lemma_place_push(before, own, p);
                    }
                }
            },
            None => {
                assert(element_behind(values[i as int], all) is None);
                let mut below = collect(
                    &items[i],
                    pointer.as_str(),
                    owner,
                    disclosures,
                    digests,
                );
                let ghost deeper = below@;
                out.append(&mut below);
                assert forall|p: Place| #[trigger] place_contents(out@).contains(p)
                    <==> place_contents(before).contains(p) || place_contents(deeper).contains(
                    p,
                ) by {
                    lemma_place_concat(before, deeper, p);
                }
            },
        }
        proof {
            assert forall|p: Place| #[trigger] place_contents(out@).contains(p) <==> (items_upto(
                values,
                i as int,
                at@,
                seen(owner),
                all,
                p,
            ) || item_part(values, i as int, at@, seen(owner), all, p)) by {
                assert(place_contents(before).contains(p) <==> items_upto(
                    values,
                    i as int,
                    at@,
                    seen(owner),
                    all,
                    p,
                ));
            }
            assert forall|p: Place| #[trigger] place_contents(out@).contains(p) <==> items_upto(
                values,
                i as int + 1,
                at@,
                seen(owner),
                all,
                p,
            ) by {
                if item_part(values, i as int, at@, seen(owner), all, p) {
                    assert(items_upto(
                        values,
                        i as int + 1,
                        at@,
                        seen(owner),
                        all,
                        p,
                    ));
                }
                if items_upto(values, i as int, at@, seen(owner), all, p) {
                    assert(items_upto(
                        values,
                        i as int + 1,
                        at@,
                        seen(owner),
                        all,
                        p,
                    ));
                }
            }
        }
        i += 1;
    }
    out
}

fn collect_claims(
    value: &JsonValue,
    at: &str,
    disclosures: &Vec<SdDisclosure>,
    digests: &Vec<String>,
) -> (out: Vec<DisclosurePlace>)
    requires
        digests_match(disclosures@, digests@),
    ensures
        forall|p: Place| #[trigger]
            place_contents(out@).contains(p) <==> claims_upto(
                value@,
                digests_in(value@).len() as int,
                at@,
                disclosed(disclosures@),
                p,
            ),
    decreases value, 0nat,
{
    let ghost all = disclosed(disclosures@);
    let mut out: Vec<DisclosurePlace> = Vec::new();
    let items = match get_array(value, "_sd") {
        Some(items) => items,
        None => {
            return out;
        },
    };
    let mut i: usize = 0;
    while i < items.len()
        invariant
            i <= items@.len(),
            all == disclosed(disclosures@),
            digests_match(disclosures@, digests@),
            digests_in(value@) == contents(items@),
            forall|p: Place| #[trigger]
                place_contents(out@).contains(p) <==> claims_upto(
                    value@,
                    i as int,
                    at@,
                    all,
                    p,
                ),
        decreases items@.len() - i,
    {
        let ghost before = out@;
        assert(digests_in(value@)[i as int] == items@[i as int]@);
        let behind: Option<usize> = match &items[i] {
            JsonValue::Text(digest) => find_digest(disclosures, digests, digest.as_str()),
            _ => None,
        };
        if let Some(k) = behind {
            assert(all[k as int] == disclosures@[k as int]@);
            if let Some(name) = &disclosures[k].claim_name {
                let pointer = joined3(at, "/", name.as_str());
                let selector = without_first(pointer.as_str());
                let own = DisclosurePlace { position: k, pointer, selector };
                out.push(own);
                assert forall|p: Place| #[trigger] place_contents(out@).contains(p)
                    <==> place_contents(before).contains(p) || p == own@ by {
                    lemma_place_push(before, own, p);
                }
            }
        }
        proof {
            assert forall|p: Place| #[trigger] place_contents(out@).contains(p) <==> (claims_upto(
                value@,
                i as int,
                at@,
                all,
                p,
            ) || found_by_digest(value@, i as int, at@, all, p)) by {
                assert(place_contents(before).contains(p) <==> claims_upto(
                    value@,
                    i as int,
                    at@,
                    all,
                    p,
                ));
            }
            assert forall|p: Place| #[trigger] place_contents(out@).contains(p) <==> claims_upto(
                value@,
                i as int + 1,
                at@,
                all,
                p,
            ) by {
                if found_by_digest(value@, i as int, at@, all, p) {
                    assert(claims_upto(value@, i as int + 1, at@, all, p));
                }
                if claims_upto(value@, i as int, at@, all, p) {
                    assert(claims_upto(value@, i as int + 1, at@, all, p));
                }
            }
        }
        i += 1;
    }
    out
}

pub(crate) fn has_position(places: &Vec<DisclosurePlace>, position: usize) -> (out: bool)
    ensures
        out <==> exists|place: Place| #[trigger]
            place_contents(places@).contains(place) && place.position == position,
{
    let mut i: usize = 0;
    while i < places.len()
        invariant
            i <= places@.len(),
            forall|j: int| 0 <= j < i ==> (#[trigger] places@[j])@.position != position,
        decreases places@.len() - i,
    {
        if places[i].position == position {
            proof {
                assert(place_contents(places@)[i as int] == places@[i as int]@);
                assert(place_contents(places@).contains(places@[i as int]@));
            }
            return true;
        }
        i += 1;
    }
    proof {
        assert forall|place: Place| #[trigger] place_contents(places@).contains(place) implies
            place.position != position by {
            let j = choose|j: int|
                0 <= j < place_contents(places@).len() && place_contents(places@)[j] == place;
            assert(places@[j]@ == place);
        }
    }
    false
}

pub(crate) fn is_listed(places: &Vec<DisclosurePlace>, place: &DisclosurePlace) -> (out: bool)
    ensures
        out == place_contents(places@).contains(place@),
{
    let mut i: usize = 0;
    while i < places.len()
        invariant
            i <= places@.len(),
            forall|j: int| 0 <= j < i ==> (#[trigger] places@[j])@ != place@,
        decreases places@.len() - i,
    {
        let other = &places[i];
        if other.position == place.position && str_eq(
            other.pointer.as_str(),
            place.pointer.as_str(),
        ) && str_eq(other.selector.as_str(), place.selector.as_str()) {
            assert(place_contents(places@)[i as int] == place@);
            return true;
        }
        i += 1;
    }
    proof {
        if place_contents(places@).contains(place@) {
            let j = choose|j: int|
                0 <= j < place_contents(places@).len() && place_contents(places@)[j] == place@;
            assert(places@[j]@ == place@);
        }
    }
    false
}

/// A list of places, each of them once.
pub(crate) fn listed_once(places: &Vec<DisclosurePlace>) -> (out: Vec<DisclosurePlace>)
    ensures
        place_contents(out@).no_duplicates(),
        forall|p: Place| #[trigger]
            place_contents(out@).contains(p) <==> place_contents(places@).contains(p),
{
    let ghost all = place_contents(places@);
    let mut out: Vec<DisclosurePlace> = Vec::new();
    let mut i: usize = 0;
    while i < places.len()
        invariant
            i <= places@.len(),
            all == place_contents(places@),
            place_contents(out@).no_duplicates(),
            forall|p: Place| #[trigger]
                place_contents(out@).contains(p) <==> all.take(i as int).contains(p),
        decreases places@.len() - i,
    {
        let ghost before = out@;
        let place = &places[i];
        assert(all[i as int] == place@);
        if !is_listed(&out, place) {
            let own = DisclosurePlace {
                position: place.position,
                pointer: place.pointer.clone(),
                selector: place.selector.clone(),
            };
            out.push(own);
            proof {
                assert(place_contents(out@) =~= place_contents(before).push(place@));
                assert forall|j: int, k: int|
                    0 <= j < k < place_contents(out@).len() implies place_contents(out@)[j]
                    != place_contents(out@)[k] by {
                    assert(place_contents(out@)[j] == place_contents(before)[j]);
                    assert(place_contents(before).contains(place_contents(before)[j]));
                }
            }
        }
        assert forall|p: Place| #[trigger] place_contents(out@).contains(p) <==> all.take(
            i as int + 1,
        ).contains(p) by {
            assert(all.take(i as int + 1) =~= all.take(i as int).push(place@));
            assert(place_contents(before).contains(p) <==> all.take(i as int).contains(p));
            lemma_push_contains(all.take(i as int), place@, p);
            lemma_push_contains(place_contents(before), place@, p);
        }
        i += 1;
    }
    assert(all.take(i as int) =~= all);
    out
}

pub(crate) proof fn lemma_push_contains(places: Seq<Place>, place: Place, p: Place)
    ensures
        places.push(place).contains(p) <==> places.contains(p) || p == place,
{
    let longer = places.push(place);
    assert(longer[places.len() as int] == place);
    if places.contains(p) {
        let i = choose|i: int| 0 <= i < places.len() && places[i] == p;
        assert(longer[i] == p);
    }
    if longer.contains(p) {
        let i = choose|i: int| 0 <= i < longer.len() && longer[i] == p;
        if i < places.len() {
            assert(places[i] == p);
        }
    }
}

} // verus!
