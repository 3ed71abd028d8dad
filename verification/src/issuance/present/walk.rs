//! Where the disclosures of an SD-JWT are found, from its claims through the disclosed values.
use crate::issuance::present::places::{
    child, collect, digests_match, digests_of, element_behind, escaped, found, found_by_digest,
    found_by_key, has_position, lemma_digest_position, lemma_found_in_object, lemma_place_concat,
    lemma_place_push, listed_once, path_of, place_contents, top_claim, DisclosurePlace, Place,
};
use crate::issuance::present::sd_jwt::{
    claim_behind, digests_in, disclosed, indexed, Disclosed, SdDisclosure, SdJwtContent,
};
use crate::json::{text_member, Json, JsonValue};
use crate::text::{decimal, joined, str_eq};
use vstd::prelude::*;

verus! {

/// Whether a value refers to a disclosure at a place, counted from the value: the claims where `s`
/// is zero, or else what the disclosure before position `s` holds.
pub open spec fn refers_from(
    claims: Json,
    disclosures: Seq<Disclosed>,
    s: int,
    place: Place,
) -> bool {
    if s == 0 {
        found(claims, Seq::empty(), None, disclosures, place)
    } else {
        0 < s <= disclosures.len() && found(
            disclosures[s - 1].claim_value,
            Seq::empty(),
            Some(Seq::empty()),
            disclosures,
            place,
        )
    }
}

/// Whether at most one value refers to the disclosure at a position, and at one place only.
pub open spec fn once(claims: Json, disclosures: Seq<Disclosed>, position: int) -> bool {
    forall|s: int, p: Place, t: int, q: Place|
        #![trigger refers_from(claims, disclosures, s, p), refers_from(claims, disclosures, t, q)]
        refers_from(claims, disclosures, s, p) && refers_from(claims, disclosures, t, q)
            && p.position == position && q.position == position ==> s == t && p == q
}

/// Whether a place is directly inside another: what the disclosure there holds refers to it. What
/// is referred to more than once is not looked into. Without another place, those among the claims
/// are meant.
pub open spec fn direct(
    claims: Json,
    disclosures: Seq<Disclosed>,
    outer: Option<Place>,
    place: Place,
) -> bool {
    match outer {
        None => found(claims, Seq::empty(), None, disclosures, place),
        Some(outer) => {
            &&& 0 <= outer.position < disclosures.len()
            &&& once(claims, disclosures, outer.position)
            &&& found(
                disclosures[outer.position].claim_value,
                outer.pointer,
                Some(outer.selector),
                disclosures,
                place,
            )
        },
    }
}

/// Whether a place is inside another, with `depth` places between them.
pub open spec fn below_at(
    claims: Json,
    disclosures: Seq<Disclosed>,
    outer: Option<Place>,
    depth: nat,
    place: Place,
) -> bool
    decreases depth,
{
    if depth == 0 {
        direct(claims, disclosures, outer, place)
    } else {
        exists|middle: Place|
            below_at(claims, disclosures, outer, (depth - 1) as nat, middle) && #[trigger] direct(
                claims,
                disclosures,
                Some(middle),
                place,
            )
    }
}

/// Whether a place is inside another, or anywhere among the claims.
pub open spec fn below(
    claims: Json,
    disclosures: Seq<Disclosed>,
    outer: Option<Place>,
    place: Place,
) -> bool {
    exists|depth: nat| #[trigger] below_at(claims, disclosures, outer, depth, place)
}

/// Whether a place is found among the claims, or inside what is found there.
pub open spec fn located(claims: Json, disclosures: Seq<Disclosed>, place: Place) -> bool {
    below(claims, disclosures, None, place)
}

/// Whether a disclosure is found.
pub open spec fn is_found(claims: Json, disclosures: Seq<Disclosed>, position: int) -> bool {
    exists|place: Place| #[trigger]
        located(claims, disclosures, place) && place.position == position
}

/// Whether this is the place of a disclosed claim that is not found: it is taken to be one of the
/// top level.
pub open spec fn astray(claims: Json, disclosures: Seq<Disclosed>, place: Place) -> bool {
    &&& 0 <= place.position < disclosures.len()
    &&& !is_found(claims, disclosures, place.position)
    &&& disclosures[place.position].claim_name matches Some(name) && place.pointer == child(
        Seq::empty(),
        name,
    ) && place.selector == name
}

/// Whether a disclosure has this place.
pub open spec fn placed(claims: Json, disclosures: Seq<Disclosed>, place: Place) -> bool {
    ||| located(claims, disclosures, place)
    ||| astray(claims, disclosures, place)
}

/// The places of the disclosures of an SD-JWT.
pub open spec fn places(held: SdJwtContent) -> Set<Place> {
    Set::new(|place: Place| placed(held.claims->Ok_0, indexed(held.disclosures), place))
}

pub(crate) proof fn lemma_found_in_range(
    value: Json,
    at: Seq<char>,
    owner: Option<Seq<char>>,
    disclosures: Seq<Disclosed>,
    place: Place,
)
    requires
        found(value, at, owner, disclosures, place),
    ensures
        0 <= place.position < disclosures.len(),
        place.pointer.len() > 0,
    decreases value,
{
    reveal_strlit("/");
    match value {
        Json::Object(members) => {
            lemma_found_in_object(value, at, owner, disclosures, place);
            if exists|i: int|
                0 <= i < digests_in(value).len() && #[trigger] found_by_digest(
                    value,
                    i,
                    at,
                    disclosures,
                    place,
                ) {
                let i = choose|i: int|
                    0 <= i < digests_in(value).len() && #[trigger] found_by_digest(
                        value,
                        i,
                        at,
                        disclosures,
                        place,
                    );
                lemma_digest_position(disclosures, digests_in(value)[i]->Text_0, 0);
            } else {
                let key = choose|key: Seq<char>| #[trigger]
                    found_by_key(value, key, at, owner, disclosures, place);
                assert(members.contains_key(key));
                lemma_found_in_range(
                    members[key],
                    child(at, escaped(key)),
                    top_claim(owner, key),
                    disclosures,
                    place,
                );
            }
        },
        Json::Array(items) => {
            let i = lemma_found_item(items, at, owner, disclosures, place);
            match element_behind(items[i], disclosures) {
                Some(k) => {
                    lemma_digest_position(
                        disclosures,
                        text_member(items[i], "..."@)->Some_0,
                        0,
                    );
                },
                None => {
                    lemma_found_in_range(
                        items[i],
                        child(at, decimal(i as nat)),
                        owner,
                        disclosures,
                        place,
                    );
                },
            }
        },
        _ => {},
    }
}

/// A place that is found in an array is found by one of its items.
pub(crate) proof fn lemma_found_item(
    items: Seq<Json>,
    at: Seq<char>,
    owner: Option<Seq<char>>,
    disclosures: Seq<Disclosed>,
    place: Place,
) -> (i: int)
    requires
        found(Json::Array(items), at, owner, disclosures, place),
    ensures
        0 <= i < items.len(),
        match element_behind(items[i], disclosures) {
            Some(k) => owner is Some && place == (Place {
                position: k,
                pointer: child(at, decimal(i as nat)),
                selector: owner->Some_0,
            }),
            None => found(items[i], child(at, decimal(i as nat)), owner, disclosures, place),
        },
{
    choose|i: int|
        0 <= i < items.len() && match element_behind(#[trigger] items[i], disclosures) {
            Some(k) => {
                let pointer = child(at, decimal(i as nat));
                owner is Some && place == Place { position: k, pointer, selector: owner->Some_0 }
            },
            None => found(items[i], child(at, decimal(i as nat)), owner, disclosures, place),
        }
}

/// A place counted from a value, where the value stands at a pointer and array elements in it go
/// with a claim.
pub open spec fn moved(
    disclosures: Seq<Disclosed>,
    base: Seq<char>,
    owner: Seq<char>,
    place: Place,
) -> Place {
    let pointer = base + place.pointer;
    Place {
        position: place.position,
        pointer,
        selector: if disclosures[place.position].claim_name is Some {
            path_of(pointer)
        } else {
            owner
        },
    }
}

/// What is found in a value at a pointer is what is found in it when counted from the value.
proof fn lemma_found_moves(
    value: Json,
    base: Seq<char>,
    at: Seq<char>,
    owner: Seq<char>,
    disclosures: Seq<Disclosed>,
    place: Place,
) -> (rel: Place)
    requires
        found(value, base + at, Some(owner), disclosures, place),
    ensures
        found(value, at, Some(Seq::empty()), disclosures, rel),
        place == moved(disclosures, base, owner, rel),
    decreases value,
{
    match value {
        Json::Object(members) => {
            lemma_found_in_object(value, base + at, Some(owner), disclosures, place);
            if exists|i: int|
                0 <= i < digests_in(value).len() && #[trigger] found_by_digest(
                    value,
                    i,
                    base + at,
                    disclosures,
                    place,
                ) {
                let i = choose|i: int|
                    0 <= i < digests_in(value).len() && #[trigger] found_by_digest(
                        value,
                        i,
                        base + at,
                        disclosures,
                        place,
                    );
                let k = claim_behind(digests_in(value)[i], disclosures)->Some_0;
                let name = disclosures[k].claim_name->Some_0;
                let pointer = child(at, name);
                assert(base + pointer =~= child(base + at, name));
                Place { position: k, pointer, selector: path_of(pointer) }
            } else {
                let key = choose|key: Seq<char>| #[trigger]
                    found_by_key(value, key, base + at, Some(owner), disclosures, place);
                assert(members.contains_key(key));
                let lower = child(at, escaped(key));
                assert(base + lower =~= child(base + at, escaped(key)));
                lemma_found_moves(members[key], base, lower, owner, disclosures, place)
            }
        },
        Json::Array(items) => {
            let i = lemma_found_item(items, base + at, Some(owner), disclosures, place);
            let lower = child(at, decimal(i as nat));
            assert(base + lower =~= child(base + at, decimal(i as nat)));
            match element_behind(items[i], disclosures) {
                Some(k) => Place { position: k, pointer: lower, selector: Seq::empty() },
                None => lemma_found_moves(items[i], base, lower, owner, disclosures, place),
            }
        },
        _ => arbitrary(),
    }
}

/// The value that a place directly inside another is found in.
pub open spec fn source_of(outer: Option<Place>) -> int {
    match outer {
        None => 0,
        Some(outer) => outer.position + 1,
    }
}

/// A place directly inside another is where the value refers to it.
pub(crate) proof fn lemma_direct_source(
    claims: Json,
    disclosures: Seq<Disclosed>,
    outer: Option<Place>,
    place: Place,
) -> (rel: Place)
    requires
        direct(claims, disclosures, outer, place),
    ensures
        refers_from(claims, disclosures, source_of(outer), rel),
        rel.position == place.position,
        match outer {
            None => place == rel,
            Some(outer) => place == moved(disclosures, outer.pointer, outer.selector, rel),
        },
{
    match outer {
        None => place,
        Some(outer) => {
            assert(outer.pointer + Seq::<char>::empty() =~= outer.pointer);
            lemma_found_moves(
                disclosures[outer.position].claim_value,
                outer.pointer,
                Seq::empty(),
                outer.selector,
                disclosures,
                place,
            )
        },
    }
}

/// A disclosure that is referred to once has one place.
proof fn lemma_one_place(
    claims: Json,
    disclosures: Seq<Disclosed>,
    d: nat,
    p: Place,
    e: nat,
    q: Place,
)
    requires
        below_at(claims, disclosures, None, d, p),
        below_at(claims, disclosures, None, e, q),
        p.position == q.position,
        once(claims, disclosures, p.position),
    ensures
        p == q,
    decreases d + e,
{
    let p_outer = if d == 0 {
        None
    } else {
        Some(
            choose|middle: Place|
                below_at(claims, disclosures, None, (d - 1) as nat, middle) && #[trigger] direct(
                    claims,
                    disclosures,
                    Some(middle),
                    p,
                ),
        )
    };
    let q_outer = if e == 0 {
        None
    } else {
        Some(
            choose|middle: Place|
                below_at(claims, disclosures, None, (e - 1) as nat, middle) && #[trigger] direct(
                    claims,
                    disclosures,
                    Some(middle),
                    q,
                ),
        )
    };
    let p_rel = lemma_direct_source(claims, disclosures, p_outer, p);
    let q_rel = lemma_direct_source(claims, disclosures, q_outer, q);
    if d > 0 && e > 0 {
        lemma_one_place(
            claims,
            disclosures,
            (d - 1) as nat,
            p_outer->Some_0,
            (e - 1) as nat,
            q_outer->Some_0,
        );
    }
}

/// No two places of a disclosure that is referred to once.
pub proof fn law_referred_once_is_placed_once(
    claims: Json,
    disclosures: Seq<Disclosed>,
    p: Place,
    q: Place,
)
    requires
        located(claims, disclosures, p),
        located(claims, disclosures, q),
        p.position == q.position,
        once(claims, disclosures, p.position),
    ensures
        p == q,
{
    let d = choose|d: nat| #[trigger] below_at(claims, disclosures, None, d, p);
    let e = choose|e: nat| #[trigger] below_at(claims, disclosures, None, e, q);
    lemma_one_place(claims, disclosures, d, p, e, q);
}

pub(crate) proof fn lemma_located_in_range(claims: Json, disclosures: Seq<Disclosed>, place: Place)
    requires
        located(claims, disclosures, place),
    ensures
        0 <= place.position < disclosures.len(),
        place.pointer.len() > 0,
{
    let outer = lemma_located_outer(claims, disclosures, place);
    match outer {
        None => lemma_found_in_range(claims, Seq::empty(), None, disclosures, place),
        Some(outer) => lemma_found_in_range(
            disclosures[outer.position].claim_value,
            outer.pointer,
            Some(outer.selector),
            disclosures,
            place,
        ),
    }
}

/// The place that a place is directly inside.
pub(crate) proof fn lemma_located_outer(
    claims: Json,
    disclosures: Seq<Disclosed>,
    place: Place,
) -> (outer: Option<Place>)
    requires
        located(claims, disclosures, place),
    ensures
        direct(claims, disclosures, outer, place),
        outer matches Some(outer) ==> located(claims, disclosures, outer),
{
    let d = choose|d: nat| #[trigger] below_at(claims, disclosures, None, d, place);
    if d == 0 {
        None
    } else {
        let middle = choose|middle: Place|
            below_at(claims, disclosures, None, (d - 1) as nat, middle) && #[trigger] direct(
                claims,
                disclosures,
                Some(middle),
                place,
            );
        Some(middle)
    }
}

/// What is directly inside a place that is found is found.
pub(crate) proof fn lemma_located_inside(
    claims: Json,
    disclosures: Seq<Disclosed>,
    outer: Option<Place>,
    place: Place,
)
    requires
        outer matches Some(outer) ==> located(claims, disclosures, outer),
        direct(claims, disclosures, outer, place),
    ensures
        located(claims, disclosures, place),
{
    match outer {
        None => {
            assert(below_at(claims, disclosures, None, 0, place));
        },
        Some(outer) => {
            let d = choose|d: nat| #[trigger] below_at(claims, disclosures, None, d, outer);
            assert(below_at(claims, disclosures, None, d + 1, place));
        },
    }
}

/// The executable form of what [`refers_from`] says.
#[derive(Debug)]
struct Reference {
    source: usize,
    place: DisclosurePlace,
}

spec fn reference_contents(references: Seq<Reference>) -> Seq<(int, Place)> {
    references.map_values(
        |reference: Reference| (reference.source as int, reference.place@),
    )
}

fn copy_place(place: &DisclosurePlace) -> (out: DisclosurePlace)
    ensures
        out@ == place@,
{
    DisclosurePlace {
        position: place.position,
        pointer: place.pointer.clone(),
        selector: place.selector.clone(),
    }
}

fn add_references(out: &mut Vec<Reference>, source: usize, places: &Vec<DisclosurePlace>)
    ensures
        forall|s: int, p: Place| #[trigger]
            reference_contents(final(out)@).contains((s, p)) <==> reference_contents(
                old(out)@,
            ).contains((s, p)) || (s == source && place_contents(places@).contains(p)),
{
    let ghost before = reference_contents(out@);
    let ghost all = place_contents(places@);
    let mut i: usize = 0;
    while i < places.len()
        invariant
            i <= places@.len(),
            all == place_contents(places@),
            before == reference_contents(old(out)@),
            forall|s: int, p: Place| #[trigger]
                reference_contents(out@).contains((s, p)) <==> before.contains((s, p)) || (s
                    == source && all.take(i as int).contains(p)),
        decreases places@.len() - i,
    {
        let ghost so_far = reference_contents(out@);
        let place = copy_place(&places[i]);
        let ghost own = (source as int, place@);
        out.push(Reference { source, place });
        proof {
            assert(all[i as int] == own.1);
            assert(reference_contents(out@) =~= so_far.push(own));
            assert(all.take(i as int + 1) =~= all.take(i as int).push(own.1));
            assert forall|s: int, p: Place| #[trigger] reference_contents(out@).contains((s, p))
                <==> before.contains((s, p)) || (s == source && all.take(i as int + 1).contains(
                p,
            )) by {
                lemma_contains_push(so_far, own, (s, p));
                lemma_contains_push(all.take(i as int), own.1, p);
            }
        }
        i += 1;
    }
    assert(all.take(i as int) =~= all);
}

proof fn lemma_contains_push<T>(list: Seq<T>, last: T, x: T)
    ensures
        list.push(last).contains(x) <==> list.contains(x) || x == last,
{
    let longer = list.push(last);
    assert(longer[list.len() as int] == last);
    if list.contains(x) {
        let i = choose|i: int| 0 <= i < list.len() && list[i] == x;
        assert(longer[i] == x);
    }
    if longer.contains(x) {
        let i = choose|i: int| 0 <= i < longer.len() && longer[i] == x;
        if i < list.len() {
            assert(list[i] == x);
        }
    }
}

/// List all references, those of the claims and those of each disclosed value.
fn references(claims: &JsonValue, disclosures: &Vec<SdDisclosure>, digests: &Vec<String>) -> (out:
    Vec<Reference>)
    requires
        digests_match(disclosures@, digests@),
    ensures
        forall|s: int, p: Place| #[trigger]
            reference_contents(out@).contains((s, p)) <==> refers_from(
                claims@,
                disclosed(disclosures@),
                s,
                p,
            ),
{
    let ghost all = disclosed(disclosures@);
    let mut out: Vec<Reference> = Vec::new();
    proof {
        reveal_strlit("");
        assert(""@ =~= Seq::<char>::empty());
    }
    let top = collect(claims, "", None, disclosures, digests);
    add_references(&mut out, 0, &top);
    let mut k: usize = 0;
    while k < disclosures.len()
        invariant
            k <= disclosures@.len(),
            all == disclosed(disclosures@),
            ""@ == Seq::<char>::empty(),
            digests_match(disclosures@, digests@),
            forall|s: int, p: Place| #[trigger]
                reference_contents(out@).contains((s, p)) <==> s <= k && refers_from(
                    claims@,
                    all,
                    s,
                    p,
                ),
        decreases disclosures@.len() - k,
    {
        let ghost before = reference_contents(out@);
        let inner = collect(&disclosures[k].claim_value, "", Some(""), disclosures, digests);
        assert(all[k as int] == disclosures@[k as int]@);
        add_references(&mut out, k + 1, &inner);
        assert forall|s: int, p: Place| #[trigger] reference_contents(out@).contains((s, p))
            <==> s <= k + 1 && refers_from(claims@, all, s, p) by {
            assert(before.contains((s, p)) <==> s <= k && refers_from(claims@, all, s, p));
        }
        k += 1;
    }
    out
}

/// Whether all references on a list to a position are the same.
spec fn alike(references: Seq<(int, Place)>, position: int) -> bool {
    forall|i: int, j: int|
        0 <= i < references.len() && 0 <= j < references.len() && (#[trigger] references[i]).1.position
            == position && (#[trigger] references[j]).1.position == position ==> references[i]
            == references[j]
}

fn are_alike(references: &Vec<Reference>, position: usize) -> (out: bool)
    ensures
        out == alike(reference_contents(references@), position as int),
{
    let ghost all = reference_contents(references@);
    let mut first: Option<usize> = None;
    let mut i: usize = 0;
    while i < references.len()
        invariant
            i <= references@.len(),
            all == reference_contents(references@),
            match first {
                Some(f) => f < references@.len() && all[f as int].1.position == position && forall|
                    j: int,
                |
                    0 <= j < i && (#[trigger] all[j]).1.position == position ==> all[j]
                        == all[f as int],
                None => forall|j: int| 0 <= j < i ==> (#[trigger] all[j]).1.position != position,
            },
        decreases references@.len() - i,
    {
        let here = &references[i];
        assert(all[i as int] == (here.source as int, here.place@));
        if here.place.position == position {
            match first {
                Some(f) => {
                    let earlier = &references[f];
                    assert(all[f as int] == (earlier.source as int, earlier.place@));
                    if earlier.source != here.source || !str_eq(
                        earlier.place.pointer.as_str(),
                        here.place.pointer.as_str(),
                    ) || !str_eq(
                        earlier.place.selector.as_str(),
                        here.place.selector.as_str(),
                    ) {
                        assert(all[i as int] != all[f as int]);
                        return false;
                    }
                },
                None => {
                    first = Some(i);
                },
            }
        }
        i += 1;
    }
    true
}

proof fn lemma_alike_is_once(
    claims: Json,
    disclosures: Seq<Disclosed>,
    references: Seq<(int, Place)>,
    position: int,
)
    requires
        forall|s: int, p: Place| #[trigger]
            references.contains((s, p)) <==> refers_from(claims, disclosures, s, p),
    ensures
        alike(references, position) == once(claims, disclosures, position),
{
    if alike(references, position) {
        assert forall|s: int, p: Place, t: int, q: Place|
            #![trigger refers_from(claims, disclosures, s, p), refers_from(claims, disclosures, t, q)]
            refers_from(claims, disclosures, s, p) && refers_from(claims, disclosures, t, q)
                && p.position == position && q.position == position implies s == t && p == q by {
            assert(references.contains((s, p)));
            assert(references.contains((t, q)));
            let i = choose|i: int| 0 <= i < references.len() && references[i] == (s, p);
            let j = choose|j: int| 0 <= j < references.len() && references[j] == (t, q);
            assert(references[i] == references[j]);
        }
    }
    if once(claims, disclosures, position) {
        assert forall|i: int, j: int|
            0 <= i < references.len() && 0 <= j < references.len() && (
            #[trigger] references[i]).1.position == position && (
            #[trigger] references[j]).1.position == position implies references[i]
            == references[j] by {
            let (s, p) = references[i];
            let (t, q) = references[j];
            assert(references.contains((s, p)));
            assert(references.contains((t, q)));
            assert(refers_from(claims, disclosures, s, p));
            assert(refers_from(claims, disclosures, t, q));
        }
    }
}

/// Tell which disclosures are referred to at most once.
fn referred_once(claims: &JsonValue, disclosures: &Vec<SdDisclosure>, digests: &Vec<String>) -> (out:
    Vec<bool>)
    requires
        digests_match(disclosures@, digests@),
    ensures
        out@.len() == disclosures@.len(),
        forall|k: int|
            0 <= k < out@.len() ==> #[trigger] out@[k] == once(
                claims@,
                disclosed(disclosures@),
                k,
            ),
{
    let all = references(claims, disclosures, digests);
    let mut out: Vec<bool> = Vec::new();
    while out.len() < disclosures.len()
        invariant
            out@.len() <= disclosures@.len(),
            forall|s: int, p: Place| #[trigger]
                reference_contents(all@).contains((s, p)) <==> refers_from(
                    claims@,
                    disclosed(disclosures@),
                    s,
                    p,
                ),
            forall|k: int|
                0 <= k < out@.len() ==> #[trigger] out@[k] == once(
                    claims@,
                    disclosed(disclosures@),
                    k,
                ),
        decreases disclosures@.len() - out@.len(),
    {
        proof {
            lemma_alike_is_once(
                claims@,
                disclosed(disclosures@),
                reference_contents(all@),
                out@.len() as int,
            );
        }
        let position: usize = out.len();
        out.push(are_alike(&all, position));
    }
    out
}

/// The places of the disclosures of an SD-JWT: those that are found, each with the position of the
/// disclosure it is directly inside, and those of claims that are not found.
#[derive(Debug)]
pub struct DisclosurePlaces {
    /// The places that are found.
    pub located: Vec<DisclosurePlace>,
    /// For each of them, the disclosure it is directly inside.
    pub within: Vec<Option<usize>>,
    /// The places of disclosed claims that are not found.
    pub astray: Vec<DisclosurePlace>,
}

/// Whether a place on a list is directly inside the disclosure that stands beside it.
pub open spec fn stands_within(
    claims: Json,
    disclosures: Seq<Disclosed>,
    place: Place,
    within: Option<usize>,
) -> bool {
    match within {
        None => direct(claims, disclosures, None, place),
        Some(k) => {
            &&& k < disclosures.len()
            &&& once(claims, disclosures, k as int)
            &&& is_found(claims, disclosures, k as int)
            &&& forall|outer: Place| #[trigger]
                located(claims, disclosures, outer) && outer.position == k ==> direct(
                    claims,
                    disclosures,
                    Some(outer),
                    place,
                )
        },
    }
}

/// Whether a place is on a list beside the disclosure it is directly inside.
pub open spec fn listed_within(
    places: Seq<Place>,
    within: Seq<Option<usize>>,
    place: Place,
    position: int,
) -> bool {
    exists|j: int|
        0 <= j < places.len() && #[trigger] places[j] == place && within[j] is Some
            && within[j]->Some_0 == position
}

/// Whether a list of places with what they are directly inside is complete and correct.
pub open spec fn is_walk(
    claims: Json,
    disclosures: Seq<Disclosed>,
    places: Seq<Place>,
    within: Seq<Option<usize>>,
) -> bool {
    &&& places.len() == within.len()
    &&& forall|p: Place| #[trigger] places.contains(p) <==> located(claims, disclosures, p)
    &&& forall|j: int|
        0 <= j < places.len() ==> stands_within(
            claims,
            disclosures,
            #[trigger] places[j],
            within[j],
        )
    &&& forall|outer: Place, p: Place|
        located(claims, disclosures, outer) && #[trigger] direct(
            claims,
            disclosures,
            Some(outer),
            p,
        ) ==> listed_within(places, within, p, outer.position)
}

/// How many are not marked yet.
pub(crate) open spec fn unmarked(marks: Seq<bool>) -> nat
    decreases marks.len(),
{
    if marks.len() == 0 {
        0
    } else {
        unmarked(marks.drop_last()) + if marks.last() {
            0nat
        } else {
            1
        }
    }
}

pub(crate) proof fn lemma_mark(marks: Seq<bool>, k: int)
    requires
        0 <= k < marks.len(),
        !marks[k],
    ensures
        unmarked(marks.update(k, true)) < unmarked(marks),
    decreases marks.len(),
{
    let after = marks.update(k, true);
    if k == marks.len() - 1 {
        assert(after.drop_last() =~= marks.drop_last());
    } else {
        lemma_mark(marks.drop_last(), k);
        assert(after.drop_last() =~= marks.drop_last().update(k, true));
    }
}

/// Whether what is directly inside the places of a disclosure is on a list.
spec fn looked_into(
    claims: Json,
    disclosures: Seq<Disclosed>,
    places: Seq<Place>,
    within: Seq<Option<usize>>,
    position: int,
) -> bool {
    forall|outer: Place, p: Place|
        located(claims, disclosures, outer) && outer.position == position && #[trigger] direct(
            claims,
            disclosures,
            Some(outer),
            p,
        ) ==> listed_within(places, within, p, position)
}

/// A list that holds what is found in the claims, and with each place what is directly inside it,
/// holds all.
proof fn lemma_walk_complete(
    claims: Json,
    disclosures: Seq<Disclosed>,
    places: Seq<Place>,
    depth: nat,
    place: Place,
)
    requires
        forall|p: Place| #[trigger] direct(claims, disclosures, None, p) ==> places.contains(p),
        forall|outer: Place, p: Place|
            places.contains(outer) && #[trigger] direct(claims, disclosures, Some(outer), p)
                ==> places.contains(p),
        below_at(claims, disclosures, None, depth, place),
    ensures
        places.contains(place),
    decreases depth,
{
    if depth > 0 {
        let middle = choose|middle: Place|
            below_at(claims, disclosures, None, (depth - 1) as nat, middle) && #[trigger] direct(
                claims,
                disclosures,
                Some(middle),
                place,
            );
        lemma_walk_complete(claims, disclosures, places, (depth - 1) as nat, middle);
    }
}

/// Put places behind those of a list, directly inside a disclosure.
fn add_places(
    places: &mut Vec<DisclosurePlace>,
    within: &mut Vec<Option<usize>>,
    more: &Vec<DisclosurePlace>,
    inside: Option<usize>,
)
    requires
        old(places)@.len() == old(within)@.len(),
    ensures
        place_contents(final(places)@) == place_contents(old(places)@) + place_contents(more@),
        final(within)@ == old(within)@ + Seq::new(more@.len(), |i: int| inside),
{
    let ghost before = place_contents(places@);
    let ghost inside_before = within@;
    let ghost all = place_contents(more@);
    let mut i: usize = 0;
    assert(before + all.take(0) =~= before);
    assert(inside_before + Seq::new(0, |i: int| inside) =~= inside_before);
    while i < more.len()
        invariant
            i <= more@.len(),
            all == place_contents(more@),
            place_contents(places@) == before + all.take(i as int),
            within@ == inside_before + Seq::new(i as nat, |i: int| inside),
        decreases more@.len() - i,
    {
        let ghost so_far = place_contents(places@);
        places.push(copy_place(&more[i]));
        within.push(inside);
        proof {
            assert(all[i as int] == more@[i as int]@);
            assert(place_contents(places@) =~= so_far.push(all[i as int]));
            assert(place_contents(places@) =~= before + all.take(i as int + 1));
            assert(within@ =~= inside_before + Seq::new((i + 1) as nat, |i: int| inside));
        }
        i += 1;
    }
    assert(all.take(i as int) =~= all);
}

/// Find the places among the claims and, one after the other, directly inside the places that were
/// found. What a disclosure holds is looked into once.
fn walk_claims(
    claims: &JsonValue,
    disclosures: &Vec<SdDisclosure>,
    digests: &Vec<String>,
    flags: &Vec<bool>,
) -> (out: (Vec<DisclosurePlace>, Vec<Option<usize>>))
    requires
        digests_match(disclosures@, digests@),
        flags@.len() == disclosures@.len(),
        forall|k: int|
            0 <= k < flags@.len() ==> #[trigger] flags@[k] == once(
                claims@,
                disclosed(disclosures@),
                k,
            ),
    ensures
        is_walk(claims@, disclosed(disclosures@), place_contents(out.0@), out.1@),
{
    let ghost all = disclosed(disclosures@);
    let ghost c = claims@;
    proof {
        reveal_strlit("");
        assert(""@ =~= Seq::<char>::empty());
    }
    let mut places: Vec<DisclosurePlace> = Vec::new();
    let mut within: Vec<Option<usize>> = Vec::new();
    let top = collect(claims, "", None, disclosures, digests);
    add_places(&mut places, &mut within, &top, None);
    proof {
        assert(place_contents(places@) =~= place_contents(top@));
        assert forall|j: int| 0 <= j < places@.len() implies {
            let p = #[trigger] place_contents(places@)[j];
            located(c, all, p) && stands_within(c, all, p, within@[j])
        } by {
            let p = place_contents(places@)[j];
            assert(place_contents(top@).contains(p));
            lemma_located_inside(c, all, None, p);
        }
    }
    let mut visited: Vec<bool> = Vec::new();
    while visited.len() < disclosures.len()
        invariant
            visited@.len() <= disclosures@.len(),
            forall|k: int| 0 <= k < visited@.len() ==> !(#[trigger] visited@[k]),
        decreases disclosures@.len() - visited@.len(),
    {
        visited.push(false);
    }
    let mut i: usize = 0;
    while i < places.len()
        invariant
            i <= places@.len(),
            c == claims@,
            all == disclosed(disclosures@),
            all.len() == disclosures@.len(),
            places@.len() == within@.len(),
            visited@.len() == all.len(),
            flags@.len() == all.len(),
            digests_match(disclosures@, digests@),
            forall|k: int| 0 <= k < flags@.len() ==> #[trigger] flags@[k] == once(c, all, k),
            forall|j: int|
                0 <= j < places@.len() ==> {
                    let p = #[trigger] place_contents(places@)[j];
                    located(c, all, p) && stands_within(c, all, p, within@[j])
                },
            forall|p: Place| #[trigger]
                direct(c, all, None, p) ==> place_contents(places@).contains(p),
            forall|k: int|
                0 <= k < visited@.len() && #[trigger] visited@[k] ==> once(c, all, k)
                    && looked_into(c, all, place_contents(places@), within@, k),
            forall|j: int|
                0 <= j < i ==> {
                    let k = (#[trigger] place_contents(places@)[j]).position;
                    once(c, all, k) ==> visited@[k]
                },
        decreases unmarked(visited@), places@.len() - i,
    {
        let k: usize = places[i].position;
        let ghost here = places@[i as int]@;
        let ghost before = place_contents(places@);
        let ghost within_before = within@;
        let ghost visited_before = visited@;
        proof {
            assert(before[i as int] == here);
            assert(located(c, all, here));
            lemma_located_in_range(c, all, here);
        }
        if flags[k] && !visited[k] {
            let inner = collect(
                &disclosures[k].claim_value,
                places[i].pointer.as_str(),
                Some(places[i].selector.as_str()),
                disclosures,
                digests,
            );
            assert(all[k as int] == disclosures@[k as int]@);
            add_places(&mut places, &mut within, &inner, Some(k));
            visited.set(k, true);
            proof {
                lemma_mark(visited_before, k as int);
                let after = place_contents(places@);
                let n = before.len() as int;
                assert forall|p: Place| #[trigger] place_contents(inner@).contains(p)
                    <==> direct(c, all, Some(here), p) by {}
                assert forall|outer: Place|
                    #[trigger] located(c, all, outer) && outer.position == k implies outer
                    == here by {
                    law_referred_once_is_placed_once(c, all, outer, here);
                }
                assert(is_found(c, all, k as int));
                assert forall|j: int| 0 <= j < after.len() implies {
                    let p = #[trigger] after[j];
                    located(c, all, p) && stands_within(c, all, p, within@[j])
                } by {
                    if j < n {
                        assert(after[j] == before[j]);
                        assert(within@[j] == within_before[j]);
                    } else {
                        assert(after[j] == place_contents(inner@)[j - n]);
                        assert(place_contents(inner@).contains(after[j]));
                        assert(direct(c, all, Some(here), after[j]));
                        lemma_located_inside(c, all, Some(here), after[j]);
                        assert(within@[j] == Some(k));
                    }
                }
                assert forall|p: Place| #[trigger] direct(c, all, None, p) implies after.contains(
                    p,
                ) by {
                    assert(before.contains(p));
                    let j = choose|j: int| 0 <= j < before.len() && before[j] == p;
                    assert(after[j] == p);
                }
                assert forall|m: int|
                    0 <= m < visited@.len() && #[trigger] visited@[m] implies once(c, all, m)
                    && looked_into(c, all, after, within@, m) by {
                    assert forall|outer: Place, p: Place|
                        located(c, all, outer) && outer.position == m && #[trigger] direct(
                            c,
                            all,
                            Some(outer),
                            p,
                        ) implies listed_within(after, within@, p, m) by {
                        if m == k {
                            assert(place_contents(inner@).contains(p));
                            let j = choose|j: int|
                                0 <= j < place_contents(inner@).len() && place_contents(inner@)[j]
                                    == p;
                            assert(after[n + j] == p);
                            assert(within@[n + j] == Some(k));
                        } else {
                            assert(visited_before[m]);
                            assert(looked_into(c, all, before, within_before, m));
                            assert(listed_within(before, within_before, p, m));
                            let j = choose|j: int|
                                0 <= j < before.len() && #[trigger] before[j] == p
                                    && within_before[j] is Some && within_before[j]->Some_0 == m;
                            assert(after[j] == p);
                            assert(within@[j] == within_before[j]);
                        }
                    }
                }
                assert forall|j: int| 0 <= j < i + 1 implies {
                    let m = (#[trigger] after[j]).position;
                    once(c, all, m) ==> visited@[m]
                } by {
                    assert(after[j] == before[j]);
                    lemma_located_in_range(c, all, after[j]);
                }
            }
        }
        i += 1;
    }
    proof {
        let listed = place_contents(places@);
        assert forall|outer: Place, p: Place|
            listed.contains(outer) && #[trigger] direct(c, all, Some(outer), p) implies listed_within(
            listed,
            within@,
            p,
            outer.position,
        ) by {
            let j = choose|j: int| 0 <= j < listed.len() && listed[j] == outer;
            assert(located(c, all, listed[j]));
            lemma_located_in_range(c, all, outer);
            assert(visited@[outer.position]);
            assert(looked_into(c, all, listed, within@, outer.position));
        }
        assert forall|p: Place| #[trigger] listed.contains(p) <==> located(c, all, p) by {
            if listed.contains(p) {
                let j = choose|j: int| 0 <= j < listed.len() && listed[j] == p;
                assert(located(c, all, listed[j]));
            }
            if located(c, all, p) {
                assert forall|outer: Place, q: Place|
                    listed.contains(outer) && #[trigger] direct(
                        c,
                        all,
                        Some(outer),
                        q,
                    ) implies listed.contains(q) by {
                    assert(listed_within(listed, within@, q, outer.position));
                }
                let depth = choose|depth: nat| #[trigger] below_at(c, all, None, depth, p);
                lemma_walk_complete(c, all, listed, depth, p);
            }
        }
    }
    (places, within)
}

/// Find the places of the disclosures among the claims and inside the disclosed values.
pub fn disclosure_places(claims: &JsonValue, disclosures: &Vec<SdDisclosure>) -> (out:
    DisclosurePlaces)
    ensures
        is_walk(
            claims@,
            disclosed(disclosures@),
            place_contents(out.located@),
            out.within@,
        ),
        forall|p: Place| #[trigger]
            place_contents(out.astray@).contains(p) <==> astray(
                claims@,
                disclosed(disclosures@),
                p,
            ),
{
    let ghost all = disclosed(disclosures@);
    let digests = digests_of(disclosures);
    let flags = referred_once(claims, disclosures, &digests);
    let (located, within) = walk_claims(claims, disclosures, &digests, &flags);
    let mut strays: Vec<DisclosurePlace> = Vec::new();
    proof {
        reveal_strlit("/");
    }
    let mut k: usize = 0;
    while k < disclosures.len()
        invariant
            k <= disclosures@.len(),
            all == disclosed(disclosures@),
            "/"@ == seq!['/'],
            is_walk(claims@, all, place_contents(located@), within@),
            forall|p: Place| #[trigger]
                place_contents(strays@).contains(p) <==> astray(claims@, all, p) && p.position < k,
        decreases disclosures@.len() - k,
    {
        let ghost before = strays@;
        let known = has_position(&located, k);
        proof {
            assert(all[k as int] == disclosures@[k as int]@);
            if known {
                let p = choose|p: Place| #[trigger]
                    place_contents(located@).contains(p) && p.position == k;
                assert(self::located(claims@, all, p));
            }
            if is_found(claims@, all, k as int) {
                let p = choose|p: Place| #[trigger]
                    self::located(claims@, all, p) && p.position == k;
                assert(place_contents(located@).contains(p));
            }
            assert(known == is_found(claims@, all, k as int));
        }
        if !known {
            if let Some(name) = &disclosures[k].claim_name {
                let own = DisclosurePlace {
                    position: k,
                    pointer: joined("/", name.as_str()),
                    selector: name.clone(),
                };
                assert(own@.pointer =~= child(Seq::empty(), name@));
                strays.push(own);
                assert forall|p: Place| #[trigger] place_contents(strays@).contains(p)
                    <==> place_contents(before).contains(p) || p == own@ by {
                    lemma_place_push(before, own, p);
                }
            }
        }
        k += 1;
    }
    DisclosurePlaces { located, within, astray: strays }
}

impl DisclosurePlaces {
    /// All places, each once.
    pub fn listed(&self) -> (out: Vec<DisclosurePlace>)
        ensures
            place_contents(out@).no_duplicates(),
            forall|p: Place| #[trigger]
                place_contents(out@).contains(p) <==> place_contents(self.located@).contains(p)
                    || place_contents(self.astray@).contains(p),
    {
        let mut both: Vec<DisclosurePlace> = Vec::new();
        let mut within: Vec<Option<usize>> = Vec::new();
        add_places(&mut both, &mut within, &self.located, None);
        add_places(&mut both, &mut within, &self.astray, None);
        proof {
            assert(place_contents(both@) =~= place_contents(self.located@ + self.astray@));
            assert forall|p: Place| #[trigger] place_contents(both@).contains(p)
                <==> place_contents(self.located@).contains(p) || place_contents(
                self.astray@,
            ).contains(p) by {
                lemma_place_concat(self.located@, self.astray@, p);
            }
        }
        listed_once(&both)
    }
}

} // verus!
