//! Choosing which disclosures of an SD-JWT are presented.
use crate::crypto::SHA_256;
use crate::issuance::present::places::{index_disclosures, place_contents, DisclosurePlace, Place};
use crate::issuance::present::sd_jwt::{
    compact_text, conceal, concealment, disclosed, Disclosed, SdDisclosure, finish_presentation,
    finished, going, hash_refusal, indexed, leads_nowhere, named_hash, parse_sd_jwt, path_leads,
    path_refusal, presentation_text, presenting, sd_jwt_claims, sd_jwt_content, sd_jwt_disclosures,
    sd_jwt_read, start_presentation, takes_away, Presenting, SdJwtContent,
};
use crate::issuance::present::walk::{
    below, below_at, direct, disclosure_places, is_found, is_walk, astray, lemma_direct_source,
    lemma_located_in_range, lemma_located_inside, lemma_mark, listed_within, located, once, placed,
    places, refers_from, stands_within, unmarked, DisclosurePlaces,
};
use crate::issuance::present::{PresentError, PresentFault};
use crate::json::{tree_content, Json, JsonValue};
use crate::text::{contains_text, is_text_less, least_rejected, str_eq, texts};
use vstd::prelude::*;

verus! {

/// Whether something inside a place is selected.
pub open spec fn wanted_inside(
    claims: Json,
    disclosures: Seq<Disclosed>,
    disclose: Seq<Seq<char>>,
    place: Place,
) -> bool {
    exists|inner: Place| #[trigger]
        below(claims, disclosures, Some(place), inner) && disclose.contains(inner.selector)
}

/// Whether a selection keeps the disclosure at a place: it is selected, or it is found and
/// something inside its value is selected, which could not be shown without it.
pub open spec fn kept_at(
    claims: Json,
    disclosures: Seq<Disclosed>,
    disclose: Seq<Seq<char>>,
    place: Place,
) -> bool {
    ||| disclose.contains(place.selector)
    ||| located(claims, disclosures, place) && wanted_inside(claims, disclosures, disclose, place)
}

/// Whether a selection keeps the disclosure at a place of an SD-JWT.
pub open spec fn keeps(held: SdJwtContent, disclose: Seq<Seq<char>>, place: Place) -> bool {
    kept_at(held.claims->Ok_0, indexed(held.disclosures), disclose, place)
}

pub(crate) proof fn lemma_below_prepend(
    claims: Json,
    disclosures: Seq<Disclosed>,
    outer: Place,
    middle: Place,
    depth: nat,
    inner: Place,
)
    requires
        direct(claims, disclosures, Some(outer), middle),
        below_at(claims, disclosures, Some(middle), depth, inner),
    ensures
        below_at(claims, disclosures, Some(outer), depth + 1, inner),
    decreases depth,
{
    if depth == 0 {
        assert(below_at(claims, disclosures, Some(outer), 0, middle));
    } else {
        let last = choose|last: Place|
            below_at(claims, disclosures, Some(middle), (depth - 1) as nat, last) && #[trigger] direct(
                claims,
                disclosures,
                Some(last),
                inner,
            );
        lemma_below_prepend(claims, disclosures, outer, middle, (depth - 1) as nat, last);
        assert(below_at(claims, disclosures, Some(outer), depth, last));
    }
}

proof fn lemma_located_below(
    claims: Json,
    disclosures: Seq<Disclosed>,
    outer: Place,
    depth: nat,
    inner: Place,
)
    requires
        located(claims, disclosures, outer),
        below_at(claims, disclosures, Some(outer), depth, inner),
    ensures
        located(claims, disclosures, inner),
    decreases depth,
{
    if depth == 0 {
        lemma_located_inside(claims, disclosures, Some(outer), inner);
    } else {
        let last = choose|last: Place|
            below_at(claims, disclosures, Some(outer), (depth - 1) as nat, last) && #[trigger] direct(
                claims,
                disclosures,
                Some(last),
                inner,
            );
        lemma_located_below(claims, disclosures, outer, (depth - 1) as nat, last);
        lemma_located_inside(claims, disclosures, Some(last), inner);
    }
}

/// Whether each disclosure that is referred to once has the disclosure beside it that it is
/// directly inside.
spec fn holders_match(
    claims: Json,
    disclosures: Seq<Disclosed>,
    places: Seq<Place>,
    within: Seq<Option<usize>>,
    holders: Seq<Option<usize>>,
    n: int,
) -> bool {
    &&& holders.len() == disclosures.len()
    &&& forall|j: int|
        0 <= j < n ==> {
            let k = (#[trigger] places[j]).position;
            once(claims, disclosures, k) ==> holders[k] == within[j]
        }
}

/// Two entries for a disclosure that is referred to once are inside the same disclosure.
proof fn lemma_same_holder(
    claims: Json,
    disclosures: Seq<Disclosed>,
    places: Seq<Place>,
    within: Seq<Option<usize>>,
    i: int,
    j: int,
)
    requires
        is_walk(claims, disclosures, places, within),
        0 <= i < places.len(),
        0 <= j < places.len(),
        places[i].position == places[j].position,
        once(claims, disclosures, places[i].position),
    ensures
        within[i] == within[j],
{
    let (a, p) = lemma_entry_source(claims, disclosures, places, within, i);
    let (b, q) = lemma_entry_source(claims, disclosures, places, within, j);
    assert(a == b);
}

proof fn lemma_entry_source(
    claims: Json,
    disclosures: Seq<Disclosed>,
    places: Seq<Place>,
    within: Seq<Option<usize>>,
    j: int,
) -> (out: (int, Place))
    requires
        is_walk(claims, disclosures, places, within),
        0 <= j < places.len(),
    ensures
        refers_from(claims, disclosures, out.0, out.1),
        out.1.position == places[j].position,
        out.0 == (match within[j] {
            None => 0,
            Some(k) => k + 1,
        }),
{
    assert(stands_within(claims, disclosures, places[j], within[j]));
    match within[j] {
        None => (0, lemma_direct_source(claims, disclosures, None, places[j])),
        Some(k) => {
            let outer = choose|outer: Place| #[trigger]
                located(claims, disclosures, outer) && outer.position == k as int;
            (k + 1, lemma_direct_source(claims, disclosures, Some(outer), places[j]))
        },
    }
}

fn holders_of(
    found: &DisclosurePlaces,
    count: usize,
    Ghost(claims): Ghost<Json>,
    Ghost(disclosures): Ghost<Seq<Disclosed>>,
) -> (out: Vec<Option<usize>>)
    requires
        is_walk(claims, disclosures, place_contents(found.located@), found.within@),
        count == disclosures.len(),
    ensures
        holders_match(
            claims,
            disclosures,
            place_contents(found.located@),
            found.within@,
            out@,
            found.located@.len() as int,
        ),
{
    let ghost listed = place_contents(found.located@);
    let mut out: Vec<Option<usize>> = Vec::new();
    while out.len() < count
        invariant
            out@.len() <= count,
        decreases count - out@.len(),
    {
        out.push(None);
    }
    let mut i: usize = 0;
    while i < found.located.len()
        invariant
            i <= found.located@.len(),
            listed == place_contents(found.located@),
            is_walk(claims, disclosures, listed, found.within@),
            holders_match(claims, disclosures, listed, found.within@, out@, i as int),
        decreases found.located@.len() - i,
    {
        let k: usize = found.located[i].position;
        let ghost before = out@;
        proof {
            assert(listed[i as int] == found.located@[i as int]@);
            assert(listed.contains(listed[i as int]));
            lemma_located_in_range(claims, disclosures, listed[i as int]);
        }
        out.set(k, found.within[i]);
        assert forall|j: int| 0 <= j < i + 1 implies {
            let m = (#[trigger] listed[j]).position;
            once(claims, disclosures, m) ==> out@[m] == found.within@[j]
        } by {
            assert(listed.contains(listed[j]));
            lemma_located_in_range(claims, disclosures, listed[j]);
            if listed[j].position == k && once(claims, disclosures, k as int) {
                lemma_same_holder(claims, disclosures, listed, found.within@, i as int, j);
            }
        }
        i += 1;
    }
    out
}

/// Whether a mark is right: something inside the places of the disclosure is selected.
spec fn rightly_marked(
    claims: Json,
    disclosures: Seq<Disclosed>,
    disclose: Seq<Seq<char>>,
    k: int,
) -> bool {
    &&& 0 <= k < disclosures.len()
    &&& once(claims, disclosures, k)
    &&& is_found(claims, disclosures, k)
    &&& forall|outer: Place| #[trigger]
        located(claims, disclosures, outer) && outer.position == k ==> wanted_inside(
            claims,
            disclosures,
            disclose,
            outer,
        )
}

/// What a marked disclosure is inside is rightly marked too.
proof fn lemma_holder_is_marked(
    claims: Json,
    disclosures: Seq<Disclosed>,
    places: Seq<Place>,
    within: Seq<Option<usize>>,
    holders: Seq<Option<usize>>,
    disclose: Seq<Seq<char>>,
    k: int,
)
    requires
        is_walk(claims, disclosures, places, within),
        holders_match(claims, disclosures, places, within, holders, places.len() as int),
        rightly_marked(claims, disclosures, disclose, k),
    ensures
        holders[k] matches Some(m) ==> rightly_marked(claims, disclosures, disclose, m as int),
{
    let own = choose|own: Place| #[trigger]
        located(claims, disclosures, own) && own.position == k;
    assert(places.contains(own));
    let j = choose|j: int| 0 <= j < places.len() && places[j] == own;
    assert(holders[k] == within[j]);
    assert(stands_within(claims, disclosures, places[j], within[j]));
    if let Some(m) = holders[k] {
        assert forall|outer: Place| #[trigger]
            located(claims, disclosures, outer) && outer.position == m as int implies wanted_inside(
            claims,
            disclosures,
            disclose,
            outer,
        ) by {
            assert(direct(claims, disclosures, Some(outer), own));
            let inner = choose|inner: Place| #[trigger]
                below(claims, disclosures, Some(own), inner) && disclose.contains(inner.selector);
            let depth = choose|depth: nat| #[trigger]
                below_at(claims, disclosures, Some(own), depth, inner);
            lemma_below_prepend(claims, disclosures, outer, own, depth, inner);
            assert(below(claims, disclosures, Some(outer), inner));
        }
    }
}

/// Mark a disclosure, and those that it is inside.
fn climb(
    marks: &mut Vec<bool>,
    holders: &Vec<Option<usize>>,
    start: Option<usize>,
    Ghost(claims): Ghost<Json>,
    Ghost(disclosures): Ghost<Seq<Disclosed>>,
    Ghost(places): Ghost<Seq<Place>>,
    Ghost(within): Ghost<Seq<Option<usize>>>,
    Ghost(disclose): Ghost<Seq<Seq<char>>>,
)
    requires
        is_walk(claims, disclosures, places, within),
        holders_match(claims, disclosures, places, within, holders@, places.len() as int),
        old(marks)@.len() == disclosures.len(),
        start matches Some(k) ==> rightly_marked(claims, disclosures, disclose, k as int),
        forall|k: int|
            0 <= k < old(marks)@.len() && #[trigger] old(marks)@[k] ==> rightly_marked(
                claims,
                disclosures,
                disclose,
                k,
            ),
        forall|k: int|
            0 <= k < old(marks)@.len() && #[trigger] old(marks)@[k] ==> (holders@[k] matches Some(m)
                ==> m < old(marks)@.len() && old(marks)@[m as int]),
    ensures
        final(marks)@.len() == disclosures.len(),
        start matches Some(k) ==> final(marks)@[k as int],
        forall|k: int|
            0 <= k < final(marks)@.len() && old(marks)@[k] ==> #[trigger] final(marks)@[k],
        forall|k: int|
            0 <= k < final(marks)@.len() && #[trigger] final(marks)@[k] ==> rightly_marked(
                claims,
                disclosures,
                disclose,
                k,
            ),
        forall|k: int|
            0 <= k < final(marks)@.len() && #[trigger] final(marks)@[k] ==> (
            holders@[k] matches Some(m) ==> m < final(marks)@.len() && final(marks)@[m as int]),
{
    let ghost before = marks@;
    let mut current: Option<usize> = start;
    let mut done = false;
    while !done
        invariant
            is_walk(claims, disclosures, places, within),
            holders_match(claims, disclosures, places, within, holders@, places.len() as int),
            before == old(marks)@,
            marks@.len() == disclosures.len(),
            before.len() == disclosures.len(),
            current matches Some(k) ==> rightly_marked(claims, disclosures, disclose, k as int),
            start matches Some(k) ==> marks@[k as int] || current == start,
            start matches Some(k) ==> 0 <= k < disclosures.len(),
            forall|k: int| 0 <= k < marks@.len() && before[k] ==> #[trigger] marks@[k],
            forall|k: int|
                0 <= k < marks@.len() && #[trigger] marks@[k] ==> rightly_marked(
                    claims,
                    disclosures,
                    disclose,
                    k,
                ),
            forall|k: int|
                0 <= k < marks@.len() && #[trigger] marks@[k] ==> (holders@[k] matches Some(m)
                    ==> m < marks@.len() && (marks@[m as int] || current == Some(m))),
            done ==> (current matches Some(k) ==> marks@[k as int]),
        decreases unmarked(marks@), !done as int,
    {
        match current {
            Some(k) => {
                if marks[k] {
                    done = true;
                } else {
                    proof {
                        lemma_mark(marks@, k as int);
                        lemma_holder_is_marked(
                            claims,
                            disclosures,
                            places,
                            within,
                            holders@,
                            disclose,
                            k as int,
                        );
                    }
                    marks.set(k, true);
                    current = holders[k];
                }
            },
            None => {
                done = true;
            },
        }
    }
}

/// A place inside which something is selected, or marked, is marked.
proof fn lemma_marked(
    claims: Json,
    disclosures: Seq<Disclosed>,
    places: Seq<Place>,
    within: Seq<Option<usize>>,
    holders: Seq<Option<usize>>,
    marks: Seq<bool>,
    disclose: Seq<Seq<char>>,
    outer: Place,
    depth: nat,
    inner: Place,
)
    requires
        is_walk(claims, disclosures, places, within),
        holders_match(claims, disclosures, places, within, holders, places.len() as int),
        marks.len() == disclosures.len(),
        forall|k: int|
            0 <= k < marks.len() && #[trigger] marks[k] ==> (holders[k] matches Some(m)
                ==> m < marks.len() && marks[m as int]),
        forall|j: int|
            0 <= j < places.len() && disclose.contains((#[trigger] places[j]).selector) ==> (
            within[j] matches Some(k) ==> marks[k as int]),
        located(claims, disclosures, outer),
        below_at(claims, disclosures, Some(outer), depth, inner),
        disclose.contains(inner.selector) || (once(claims, disclosures, inner.position)
            && marks[inner.position]),
    ensures
        marks[outer.position],
    decreases depth,
{
    lemma_located_below(claims, disclosures, outer, depth, inner);
    lemma_located_in_range(claims, disclosures, inner);
    lemma_located_in_range(claims, disclosures, outer);
    let middle = if depth == 0 {
        outer
    } else {
        choose|middle: Place|
            below_at(claims, disclosures, Some(outer), (depth - 1) as nat, middle) && #[trigger] direct(
                claims,
                disclosures,
                Some(middle),
                inner,
            )
    };
    if depth > 0 {
        lemma_located_below(claims, disclosures, outer, (depth - 1) as nat, middle);
        lemma_located_in_range(claims, disclosures, middle);
    }
    assert(direct(claims, disclosures, Some(middle), inner));
    assert(listed_within(places, within, inner, middle.position));
    let j = choose|j: int|
        0 <= j < places.len() && #[trigger] places[j] == inner && within[j] is Some
            && within[j]->Some_0 == middle.position;
    assert(stands_within(claims, disclosures, places[j], within[j]));
    assert(marks[middle.position]);
    if depth > 0 {
        lemma_marked(
            claims,
            disclosures,
            places,
            within,
            holders,
            marks,
            disclose,
            outer,
            (depth - 1) as nat,
            middle,
        );
    }
}

/// Mark the disclosures inside which something is selected.
fn marks_of(
    found: &DisclosurePlaces,
    count: usize,
    disclose: &Vec<String>,
    Ghost(claims): Ghost<Json>,
    Ghost(disclosures): Ghost<Seq<Disclosed>>,
) -> (out: Vec<bool>)
    requires
        is_walk(claims, disclosures, place_contents(found.located@), found.within@),
        count == disclosures.len(),
    ensures
        out@.len() == disclosures.len(),
        forall|place: Place| #[trigger]
            located(claims, disclosures, place) ==> out@[place.position] == wanted_inside(
                claims,
                disclosures,
                texts(disclose@),
                place,
            ),
{
    let ghost listed = place_contents(found.located@);
    let ghost wanted = texts(disclose@);
    let holders = holders_of(found, count, Ghost(claims), Ghost(disclosures));
    let mut out: Vec<bool> = Vec::new();
    while out.len() < count
        invariant
            out@.len() <= count,
            forall|k: int| 0 <= k < out@.len() ==> !(#[trigger] out@[k]),
        decreases count - out@.len(),
    {
        out.push(false);
    }
    let mut i: usize = 0;
    while i < found.located.len()
        invariant
            i <= found.located@.len(),
            listed == place_contents(found.located@),
            wanted == texts(disclose@),
            is_walk(claims, disclosures, listed, found.within@),
            holders_match(
                claims,
                disclosures,
                listed,
                found.within@,
                holders@,
                listed.len() as int,
            ),
            out@.len() == disclosures.len(),
            forall|k: int|
                0 <= k < out@.len() && #[trigger] out@[k] ==> rightly_marked(
                    claims,
                    disclosures,
                    wanted,
                    k,
                ),
            forall|k: int|
                0 <= k < out@.len() && #[trigger] out@[k] ==> (holders@[k] matches Some(m)
                    ==> m < out@.len() && out@[m as int]),
            forall|j: int|
                0 <= j < i && wanted.contains((#[trigger] listed[j]).selector) ==> (
                found.within@[j] matches Some(k) ==> out@[k as int]),
        decreases found.located@.len() - i,
    {
        assert(listed[i as int] == found.located@[i as int]@);
        assert(stands_within(claims, disclosures, listed[i as int], found.within@[i as int]));
        if contains_text(disclose, found.located[i].selector.as_str()) {
            let ghost before = out@;
            proof {
                if let Some(k) = found.within@[i as int] {
                    assert forall|outer: Place| #[trigger]
                        located(claims, disclosures, outer) && outer.position
                            == k as int implies wanted_inside(
                        claims,
                        disclosures,
                        wanted,
                        outer,
                    ) by {
                        assert(below_at(claims, disclosures, Some(outer), 0, listed[i as int]));
                        assert(below(claims, disclosures, Some(outer), listed[i as int]));
                    }
                }
            }
            climb(
                &mut out,
                &holders,
                found.within[i],
                Ghost(claims),
                Ghost(disclosures),
                Ghost(listed),
                Ghost(found.within@),
                Ghost(wanted),
            );
            assert forall|j: int|
                0 <= j < i + 1 && wanted.contains((#[trigger] listed[j]).selector) implies (
            found.within@[j] matches Some(k) ==> out@[k as int]) by {
                if j < i {
                    assert(stands_within(claims, disclosures, listed[j], found.within@[j]));
                    if let Some(k) = found.within@[j] {
                        assert(before[k as int]);
                    }
                }
            }
        }
        i += 1;
    }
    proof {
        assert forall|place: Place| #[trigger] located(claims, disclosures, place) implies out@[
        place.position] == wanted_inside(claims, disclosures, wanted, place) by {
            lemma_located_in_range(claims, disclosures, place);
            if wanted_inside(claims, disclosures, wanted, place) {
                let inner = choose|inner: Place| #[trigger]
                    below(claims, disclosures, Some(place), inner) && wanted.contains(
                        inner.selector,
                    );
                let depth = choose|depth: nat| #[trigger]
                    below_at(claims, disclosures, Some(place), depth, inner);
                lemma_marked(
                    claims,
                    disclosures,
                    listed,
                    found.within@,
                    holders@,
                    out@,
                    wanted,
                    place,
                    depth,
                    inner,
                );
            }
        }
    }
    out
}

/// Whether a selector chooses some disclosure.
pub open spec fn selectable(held: SdJwtContent, selector: Seq<char>) -> bool {
    exists|place: Place| #[trigger] places(held).contains(place) && place.selector == selector
}

/// Of the selectors that choose nothing, the one that comes first.
pub open spec fn least_unselectable(held: SdJwtContent, disclose: Seq<Seq<char>>) -> Option<
    Seq<char>,
> {
    least_rejected(disclose, |selector: Seq<char>| selectable(held, selector))
}

/// The places whose disclosures a selection leaves out.
pub open spec fn concealed_places(held: SdJwtContent, disclose: Seq<Seq<char>>) -> Set<Place> {
    places(held).filter(|place: Place| !keeps(held, disclose, place))
}

/// Whether every place that a selection leaves out can be concealed.
pub open spec fn concealable(held: SdJwtContent, disclose: Seq<Seq<char>>) -> bool {
    forall|place: Place| #[trigger]
        concealed_places(held, disclose).contains(place) ==> concealment(held, place.pointer) is Some
}

/// Whether concealing a place leaves out a position.
pub open spec fn conceals(held: SdJwtContent, place: Place, position: int) -> bool {
    concealment(held, place.pointer) matches Some(positions) && positions.contains(position)
}

/// The positions of the disclosures that a selection leaves out.
pub open spec fn omitted_positions(held: SdJwtContent, disclose: Seq<Seq<char>>) -> Set<int> {
    Set::new(
        |position: int|
            exists|place: Place| #[trigger]
                concealed_places(held, disclose).contains(place) && conceals(
                    held,
                    place,
                    position,
                ),
    )
}

/// What an SD-JWT is presented as, before the key binding.
pub open spec fn presented(held: SdJwtContent, disclose: Seq<Seq<char>>) -> Seq<char> {
    compact_text(finished(Presenting { held, omitted: omitted_positions(held, disclose) }))
}

/// Whether the pointer of a place leads to what the disclosure of the place holds.
pub open spec fn reachable(held: SdJwtContent, place: Place) -> bool {
    path_leads(
        held,
        place.pointer,
        indexed(held.disclosures)[place.position].claim_value,
        place.position,
    )
}

/// Whether concealing a place that a selection leaves out, and that is reachable, takes away the
/// disclosure of the place and those that its value refers to.
pub open spec fn hides(held: SdJwtContent, disclose: Seq<Seq<char>>) -> bool {
    forall|place: Place| #[trigger]
        concealed_places(held, disclose).contains(place) && reachable(held, place) ==> concealment(
            held,
            place.pointer,
        ) == Some(
            going(
                indexed(held.disclosures),
                indexed(held.disclosures)[place.position].claim_value,
                place.position,
            ),
        )
}

/// Whether the pointer of some place that a selection leaves out leads nowhere.
pub open spec fn unconcealable(held: SdJwtContent, disclose: Seq<Seq<char>>) -> bool {
    exists|place: Place| #[trigger]
        concealed_places(held, disclose).contains(place) && leads_nowhere(held, place.pointer)
}

/// Whether `out` is what presenting an issued SD-JWT under a selection gives: the text before the
/// key binding, or the fault. Where several places cannot be concealed, the fault names one of
/// them.
pub open spec fn selection_outcome(
    issued: Seq<char>,
    disclose: Seq<Seq<char>>,
    out: Result<Seq<char>, PresentFault>,
) -> bool {
    match sd_jwt_read(issued) {
        Err(message) => out == Err::<Seq<char>, PresentFault>(PresentFault::Malformed(message)),
        Ok(held) => match held.claims {
            Err(message) => out == Err::<Seq<char>, PresentFault>(PresentFault::Build(message)),
            Ok(claims) => match least_unselectable(held, disclose) {
                Some(selector) => out == Err::<Seq<char>, PresentFault>(
                    PresentFault::UndisclosableClaim(selector),
                ),
                None => if named_hash(claims) != SHA_256@ {
                    out == Err::<Seq<char>, PresentFault>(
                        PresentFault::Build(hash_refusal(named_hash(claims))),
                    )
                } else if concealable(held, disclose) {
                    out == Ok::<Seq<char>, PresentFault>(presented(held, disclose)) && hides(
                        held,
                        disclose,
                    )
                } else {
                    out == Err::<Seq<char>, PresentFault>(PresentFault::Build(path_refusal()))
                        && unconcealable(held, disclose)
                },
            },
        },
    }
}

fn is_selectable(places: &Vec<DisclosurePlace>, selector: &str) -> (out: bool)
    ensures
        out <==> exists|place: Place| #[trigger]
            place_contents(places@).contains(place) && place.selector == selector@,
{
    let mut i: usize = 0;
    while i < places.len()
        invariant
            i <= places@.len(),
            forall|j: int| 0 <= j < i ==> (#[trigger] places@[j])@.selector != selector@,
        decreases places@.len() - i,
    {
        if str_eq(places[i].selector.as_str(), selector) {
            proof {
                assert(place_contents(places@)[i as int] == places@[i as int]@);
                assert(place_contents(places@).contains(places@[i as int]@));
            }
            return true;
        }
        i += 1;
    }
    proof {
        assert forall|place: Place| #[trigger] place_contents(places@).contains(place) implies
            place.selector != selector@ by {
            let j = choose|j: int|
                0 <= j < place_contents(places@).len() && place_contents(places@)[j] == place;
            assert(places@[j]@ == place);
        }
    }
    false
}

fn check_selectable(places: &Vec<DisclosurePlace>, disclose: &Vec<String>, Ghost(held): Ghost<
    SdJwtContent,
>) -> (out: Result<(), PresentError>)
    requires
        forall|p: Place| #[trigger]
            place_contents(places@).contains(p) <==> self::places(held).contains(p),
    ensures
        match least_unselectable(held, texts(disclose@)) {
            None => out is Ok,
            Some(selector) => out matches Err(error) && error@ == PresentFault::UndisclosableClaim(
                selector,
            ),
        },
{
    let ghost all = texts(disclose@);
    let ghost accepted = |selector: Seq<char>| selectable(held, selector);
    let mut least: Option<usize> = None;
    let mut i: usize = disclose.len();
    while i > 0
        invariant
            i <= disclose@.len(),
            all == texts(disclose@),
            accepted == (|selector: Seq<char>| selectable(held, selector)),
            forall|p: Place| #[trigger]
                place_contents(places@).contains(p) <==> self::places(held).contains(p),
            match least {
                Some(k) => k < disclose@.len() && least_rejected(all.skip(i as int), accepted)
                    == Some(disclose@[k as int]@),
                None => least_rejected(all.skip(i as int), accepted) is None,
            },
        decreases i,
    {
        i -= 1;
        assert(all.skip(i as int)[0] == disclose@[i as int]@);
        assert(all.skip(i as int).drop_first() =~= all.skip(i as int + 1));
        let known = is_selectable(places, disclose[i].as_str());
        proof {
            let selector = disclose@[i as int]@;
            if known {
                let place = choose|place: Place| #[trigger]
                    place_contents(places@).contains(place) && place.selector == selector;
                assert(self::places(held).contains(place));
            }
            if selectable(held, selector) {
                let place = choose|place: Place| #[trigger]
                    self::places(held).contains(place) && place.selector == selector;
                assert(place_contents(places@).contains(place));
            }
            assert(known == accepted(selector));
        }
        if !known {
            least = match least {
                Some(k) => if is_text_less(disclose[k].as_str(), disclose[i].as_str()) {
                    Some(k)
                } else {
                    Some(i)
                },
                None => Some(i),
            };
        }
    }
    assert(all.skip(0) =~= all);
    match least {
        Some(k) => Err(PresentError::UndisclosableClaim(disclose[k].clone())),
        None => Ok(()),
    }
}

/// Whether a pointer is that of a place that a selection leaves out.
pub open spec fn left_out(
    claims: Json,
    disclosures: Seq<Disclosed>,
    disclose: Seq<Seq<char>>,
    pointer: Seq<char>,
) -> bool {
    exists|place: Place| #[trigger]
        placed(claims, disclosures, place) && place.pointer == pointer && !kept_at(
            claims,
            disclosures,
            disclose,
            place,
        )
}

proof fn lemma_text_push(list: Seq<String>, last: String, text: Seq<char>)
    ensures
        texts(list.push(last)).contains(text) <==> texts(list).contains(text) || text == last@,
{
    let longer = texts(list.push(last));
    assert(longer[list.len() as int] == last@);
    if texts(list).contains(text) {
        let i = choose|i: int| 0 <= i < texts(list).len() && texts(list)[i] == text;
        assert(longer[i] == text);
    }
    if longer.contains(text) {
        let i = choose|i: int| 0 <= i < longer.len() && longer[i] == text;
        if i < list.len() {
            assert(texts(list)[i] == text);
        }
    }
}

/// Choose the pointers at which disclosures are concealed.
pub fn pointers_to_conceal(
    claims: &JsonValue,
    disclosures: &Vec<SdDisclosure>,
    found: &DisclosurePlaces,
    disclose: &Vec<String>,
) -> (out: Vec<String>)
    requires
        is_walk(
            claims@,
            disclosed(disclosures@),
            place_contents(found.located@),
            found.within@,
        ),
        forall|p: Place| #[trigger]
            place_contents(found.astray@).contains(p) <==> astray(
                claims@,
                disclosed(disclosures@),
                p,
            ),
    ensures
        forall|pointer: Seq<char>| #[trigger]
            texts(out@).contains(pointer) <==> left_out(
                claims@,
                disclosed(disclosures@),
                texts(disclose@),
                pointer,
            ),
{
    let ghost c = claims@;
    let ghost all = disclosed(disclosures@);
    let ghost wanted = texts(disclose@);
    let ghost listed = place_contents(found.located@);
    let ghost strays = place_contents(found.astray@);
    let marks = marks_of(found, disclosures.len(), disclose, Ghost(c), Ghost(all));
    let mut out: Vec<String> = Vec::new();
    let mut i: usize = 0;
    while i < found.located.len()
        invariant
            i <= found.located@.len(),
            listed == place_contents(found.located@),
            wanted == texts(disclose@),
            is_walk(c, all, listed, found.within@),
            marks@.len() == all.len(),
            forall|place: Place| #[trigger]
                located(c, all, place) ==> marks@[place.position] == wanted_inside(
                    c,
                    all,
                    wanted,
                    place,
                ),
            forall|pointer: Seq<char>| #[trigger]
                texts(out@).contains(pointer) <==> exists|j: int|
                    0 <= j < i && (#[trigger] listed[j]).pointer == pointer && !kept_at(
                        c,
                        all,
                        wanted,
                        listed[j],
                    ),
        decreases found.located@.len() - i,
    {
        let place = &found.located[i];
        let ghost before = out@;
        proof {
            assert(listed[i as int] == place@);
            assert(listed.contains(place@));
            lemma_located_in_range(c, all, place@);
        }
        let kept = contains_text(disclose, place.selector.as_str()) || marks[place.position];
        assert(kept == kept_at(c, all, wanted, listed[i as int]));
        if !kept {
            let pointer = place.pointer.clone();
            out.push(pointer);
            assert forall|text: Seq<char>| #[trigger] texts(out@).contains(text) <==> texts(
                before,
            ).contains(text) || text == listed[i as int].pointer by {
                lemma_text_push(before, pointer, text);
            }
        }
        assert forall|pointer: Seq<char>| #[trigger] texts(out@).contains(pointer) <==> exists|
            j: int,
        |
            0 <= j < i + 1 && (#[trigger] listed[j]).pointer == pointer && !kept_at(
                c,
                all,
                wanted,
                listed[j],
            ) by {
            assert(texts(before).contains(pointer) <==> exists|j: int|
                0 <= j < i && (#[trigger] listed[j]).pointer == pointer && !kept_at(
                    c,
                    all,
                    wanted,
                    listed[j],
                ));
        }
        i += 1;
    }
    let ghost first = texts(out@);
    let mut k: usize = 0;
    while k < found.astray.len()
        invariant
            k <= found.astray@.len(),
            strays == place_contents(found.astray@),
            wanted == texts(disclose@),
            forall|p: Place| #[trigger] strays.contains(p) <==> astray(c, all, p),
            forall|pointer: Seq<char>| #[trigger]
                texts(out@).contains(pointer) <==> first.contains(pointer) || exists|j: int|
                    0 <= j < k && (#[trigger] strays[j]).pointer == pointer && !kept_at(
                        c,
                        all,
                        wanted,
                        strays[j],
                    ),
        decreases found.astray@.len() - k,
    {
        let place = &found.astray[k];
        let ghost before = out@;
        proof {
            assert(strays[k as int] == place@);
            assert(strays.contains(place@));
            assert(astray(c, all, place@));
            if located(c, all, place@) {
                assert(is_found(c, all, place@.position));
            }
        }
        let kept = contains_text(disclose, place.selector.as_str());
        assert(kept == kept_at(c, all, wanted, strays[k as int]));
        if !kept {
            let pointer = place.pointer.clone();
            out.push(pointer);
            assert forall|text: Seq<char>| #[trigger] texts(out@).contains(text) <==> texts(
                before,
            ).contains(text) || text == strays[k as int].pointer by {
                lemma_text_push(before, pointer, text);
            }
        }
        assert forall|pointer: Seq<char>| #[trigger] texts(out@).contains(pointer) <==> (
        first.contains(pointer) || exists|j: int|
            0 <= j < k + 1 && (#[trigger] strays[j]).pointer == pointer && !kept_at(
                c,
                all,
                wanted,
                strays[j],
            )) by {
            assert(texts(before).contains(pointer) <==> first.contains(pointer) || exists|j: int|
                0 <= j < k && (#[trigger] strays[j]).pointer == pointer && !kept_at(
                    c,
                    all,
                    wanted,
                    strays[j],
                ));
        }
        k += 1;
    }
    proof {
        assert forall|pointer: Seq<char>| #[trigger] texts(out@).contains(pointer) <==> left_out(
            c,
            all,
            wanted,
            pointer,
        ) by {
            if first.contains(pointer) {
                let j = choose|j: int|
                    0 <= j < listed.len() && (#[trigger] listed[j]).pointer == pointer && !kept_at(
                        c,
                        all,
                        wanted,
                        listed[j],
                    );
                assert(listed.contains(listed[j]));
                assert(placed(c, all, listed[j]));
            } else if texts(out@).contains(pointer) {
                let j = choose|j: int|
                    0 <= j < strays.len() && (#[trigger] strays[j]).pointer == pointer && !kept_at(
                        c,
                        all,
                        wanted,
                        strays[j],
                    );
                assert(strays.contains(strays[j]));
                assert(placed(c, all, strays[j]));
            }
            if left_out(c, all, wanted, pointer) {
                let place = choose|place: Place| #[trigger]
                    placed(c, all, place) && place.pointer == pointer && !kept_at(
                        c,
                        all,
                        wanted,
                        place,
                    );
                if located(c, all, place) {
                    assert(listed.contains(place));
                    let j = choose|j: int| 0 <= j < listed.len() && listed[j] == place;
                    assert(listed[j].pointer == pointer);
                } else {
                    assert(strays.contains(place));
                    let j = choose|j: int| 0 <= j < strays.len() && strays[j] == place;
                    assert(strays[j].pointer == pointer);
                }
            }
        }
    }
    out
}

/// The positions that concealing the first `n` pointers leaves out.
spec fn omitted_upto(held: SdJwtContent, pointers: Seq<Seq<char>>, n: int) -> Set<int> {
    Set::new(
        |position: int|
            exists|j: int|
                0 <= j < n && (concealment(held, #[trigger] pointers[j]) matches Some(positions)
                    && positions.contains(position)),
    )
}

proof fn lemma_omitted_step(held: SdJwtContent, pointers: Seq<Seq<char>>, n: int)
    requires
        0 <= n < pointers.len(),
        concealment(held, pointers[n]) is Some,
    ensures
        omitted_upto(held, pointers, n + 1) == omitted_upto(held, pointers, n).union(
            concealment(held, pointers[n])->Some_0,
        ),
{
    let step = concealment(held, pointers[n])->Some_0;
    let before = omitted_upto(held, pointers, n);
    let after = omitted_upto(held, pointers, n + 1);
    assert forall|position: int| after.contains(position) <==> before.union(step).contains(
        position,
    ) by {
        if after.contains(position) {
            let j = choose|j: int|
                0 <= j < n + 1 && (concealment(held, #[trigger] pointers[j]) matches Some(positions)
                    && positions.contains(position));
            if j < n {
                assert(before.contains(position));
            }
        }
        if step.contains(position) {
            assert(concealment(held, pointers[n])->Some_0.contains(position));
        }
        if before.contains(position) {
            let j = choose|j: int|
                0 <= j < n && (concealment(held, #[trigger] pointers[j]) matches Some(positions)
                    && positions.contains(position));
            assert(concealment(held, pointers[j])->Some_0.contains(position));
        }
    }
    assert(after =~= before.union(step));
}

/// Present an issued SD-JWT under a selection, up to the key binding.
pub fn select_disclosures(issued: &str, disclose: &Vec<String>) -> (out: Result<
    String,
    PresentError,
>)
    ensures
        match out {
            Ok(text) => selection_outcome(
                issued@,
                texts(disclose@),
                Ok::<Seq<char>, PresentFault>(text@),
            ),
            Err(error) => selection_outcome(
                issued@,
                texts(disclose@),
                Err::<Seq<char>, PresentFault>(error@),
            ),
        },
{
    let sd_jwt = match parse_sd_jwt(issued) {
        Ok(sd_jwt) => sd_jwt,
        Err(message) => {
            return Err(PresentError::Malformed(message));
        },
    };
    let ghost held = sd_jwt_content(sd_jwt);
    let ghost wanted = texts(disclose@);
    let disclosures = index_disclosures(sd_jwt_disclosures(&sd_jwt));
    let claims = match sd_jwt_claims(&sd_jwt) {
        Ok(tree) => tree_content(tree),
        Err(message) => {
            return Err(PresentError::Build(message));
        },
    };
    let found = disclosure_places(&claims, &disclosures);
    let listed = found.listed();
    assert forall|p: Place| #[trigger] place_contents(listed@).contains(p) <==> places(
        held,
    ).contains(p) by {
        assert(place_contents(found.located@).contains(p) <==> located(
            claims@,
            disclosed(disclosures@),
            p,
        ));
    }
    match check_selectable(&listed, disclose, Ghost(held)) {
        Ok(_) => {},
        Err(error) => {
            return Err(error);
        },
    }
    let mut builder = match start_presentation(sd_jwt) {
        Ok(builder) => builder,
        Err(message) => {
            return Err(PresentError::Build(message));
        },
    };
    let pointers = pointers_to_conceal(&claims, &disclosures, &found, disclose);
    let ghost targets = texts(pointers@);
    proof {
        assert forall|pointer: Seq<char>| #[trigger] targets.contains(pointer) implies exists|
            place: Place,
        | #[trigger]
            concealed_places(held, wanted).contains(place) && place.pointer == pointer by {
            assert(left_out(claims@, disclosed(disclosures@), wanted, pointer));
            let place = choose|place: Place| #[trigger]
                placed(claims@, disclosed(disclosures@), place) && place.pointer == pointer
                    && !kept_at(claims@, disclosed(disclosures@), wanted, place);
            assert(concealed_places(held, wanted).contains(place));
        }
        assert forall|place: Place| #[trigger]
            concealed_places(held, wanted).contains(place) implies targets.contains(
            place.pointer,
        ) by {
            assert(placed(claims@, disclosed(disclosures@), place));
            assert(left_out(claims@, disclosed(disclosures@), wanted, place.pointer));
        }
        assert(omitted_upto(held, targets, 0) =~= Set::empty());
    }
    let mut i: usize = 0;
    while i < pointers.len()
        invariant
            i <= pointers@.len(),
            sd_jwt_read(issued@) == Ok::<SdJwtContent, Seq<char>>(held),
            held.claims is Ok,
            least_unselectable(held, wanted) is None,
            named_hash(held.claims->Ok_0) == SHA_256@,
            wanted == texts(disclose@),
            targets == texts(pointers@),
            forall|pointer: Seq<char>| #[trigger]
                targets.contains(pointer) ==> exists|place: Place| #[trigger]
                    concealed_places(held, wanted).contains(place) && place.pointer == pointer,
            forall|j: int|
                0 <= j < i ==> concealment(held, #[trigger] targets[j]) is Some && takes_away(
                    held,
                    targets[j],
                    concealment(held, targets[j])->Some_0,
                ),
            presenting(builder) == (Presenting { held, omitted: omitted_upto(held, targets, i as int) }),
        decreases pointers@.len() - i,
    {
        assert(targets[i as int] == pointers@[i as int]@);
        assert(targets.contains(targets[i as int]));
        match conceal(builder, pointers[i].as_str()) {
            Ok(next) => {
                proof {
                    lemma_omitted_step(held, targets, i as int);
                }
                builder = next;
            },
            Err(message) => {
                proof {
                    let place = choose|place: Place| #[trigger]
                        concealed_places(held, wanted).contains(place) && place.pointer
                            == targets[i as int];
                    assert(concealed_places(held, wanted).contains(place));
                    assert(unconcealable(held, wanted));
                    assert(!concealable(held, wanted));
                }
                return Err(PresentError::Build(message));
            },
        }
        i += 1;
    }
    proof {
        assert forall|place: Place| #[trigger]
            concealed_places(held, wanted).contains(place) implies concealment(
            held,
            place.pointer,
        ) is Some by {
            assert(targets.contains(place.pointer));
            let j = choose|j: int| 0 <= j < targets.len() && targets[j] == place.pointer;
            assert(concealment(held, targets[j]) is Some);
        }
        assert(hides(held, wanted)) by {
            assert forall|place: Place| #[trigger]
                concealed_places(held, wanted).contains(place) && reachable(
                    held,
                    place,
                ) implies concealment(held, place.pointer) == Some(
                going(
                    indexed(held.disclosures),
                    indexed(held.disclosures)[place.position].claim_value,
                    place.position,
                ),
            ) by {
                assert(targets.contains(place.pointer));
                let j = choose|j: int| 0 <= j < targets.len() && targets[j] == place.pointer;
                assert(takes_away(held, targets[j], concealment(held, targets[j])->Some_0));
            }
        }
        let all = omitted_upto(held, targets, targets.len() as int);
        assert forall|position: int| all.contains(position) <==> omitted_positions(
            held,
            wanted,
        ).contains(position) by {
            if all.contains(position) {
                let j = choose|j: int|
                    0 <= j < targets.len() && (concealment(held, #[trigger] targets[j]) matches Some(
                        positions,
                    ) && positions.contains(position));
                assert(targets.contains(targets[j]));
                let place = choose|place: Place| #[trigger]
                    concealed_places(held, wanted).contains(place) && place.pointer == targets[j];
                assert(conceals(held, place, position));
            }
            if omitted_positions(held, wanted).contains(position) {
                let place = choose|place: Place| #[trigger]
                    concealed_places(held, wanted).contains(place) && conceals(
                        held,
                        place,
                        position,
                    );
                assert(targets.contains(place.pointer));
                let j = choose|j: int| 0 <= j < targets.len() && targets[j] == place.pointer;
                assert(concealment(held, targets[j])->Some_0.contains(position));
            }
        }
        assert(all =~= omitted_positions(held, wanted));
    }
    let chosen = finish_presentation(builder);
    Ok(presentation_text(&chosen))
}

} // verus!
