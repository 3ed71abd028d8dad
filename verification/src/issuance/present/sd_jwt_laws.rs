//! What holds of SD-JWT presentations as a whole.
use crate::crypto::SHA_256;
use crate::issuance::present::PresentFault;
use crate::issuance::present::places::{
    child, element_behind, escaped, found, found_by_digest, found_by_key, lemma_digest_position,
    lemma_found_in_object, top_claim, Place,
};
use crate::issuance::present::sd_jwt::{
    claim_behind, compact_text, digest_position, digests_in, disclosure_digest, finished, indexed,
    kept_disclosures, leads_nowhere, leads_to, named_hash, named_position, open_claims,
    plain_tokens, sd_jwt_read, slashed, Disclosed, Presenting, SdJwtContent,
};
use crate::issuance::present::selection::{
    concealable, concealed_places, conceals, keeps, least_unselectable, omitted_positions,
    presented, reachable, selection_outcome, unconcealable,
};
use crate::issuance::present::walk::{below_at, direct, located, places};
use crate::json::{text_member, Json};
use crate::text::decimal;
use vstd::prelude::*;

verus! {

proof fn lemma_indexed(disclosures: Seq<Disclosed>, i: int)
    requires
        0 <= i < indexed(disclosures).len(),
    ensures
        disclosures.contains(indexed(disclosures)[i]),
    decreases disclosures.len(),
{
    if disclosures.len() > 0 {
        let shorter = disclosures.drop_last();
        let found = indexed(disclosures)[i];
        lemma_digest_position(indexed(shorter), disclosure_digest(disclosures.last()), 0);
        if found == disclosures.last() {
            assert(disclosures[disclosures.len() - 1] == found);
        } else {
            assert(indexed(shorter)[i] == found);
            lemma_indexed(shorter, i);
            let j = choose|j: int| 0 <= j < shorter.len() && shorter[j] == found;
            assert(disclosures[j] == found);
        }
    }
}

proof fn lemma_kept_disclosures(disclosures: Seq<Disclosed>, omitted: Set<int>, i: int) -> (position:
    int)
    requires
        0 <= i < kept_disclosures(disclosures, omitted).len(),
    ensures
        0 <= position < disclosures.len(),
        disclosures[position] == kept_disclosures(disclosures, omitted)[i],
        !omitted.contains(position),
    decreases disclosures.len(),
{
    let shorter = disclosures.drop_last();
    let earlier = kept_disclosures(shorter, omitted);
    if i < earlier.len() {
        let position = lemma_kept_disclosures(shorter, omitted, i);
        assert(disclosures[position] == shorter[position]);
        position
    } else {
        disclosures.len() - 1
    }
}

/// An SD-JWT is presented with issued disclosures only, and with none that concealing an unselected
/// place takes away; the issuer's JWS and the claims are the issued ones.
pub proof fn law_presented_disclosures_are_selected(
    held: SdJwtContent,
    disclose: Seq<Seq<char>>,
    i: int,
)
    requires
        ({
            let chosen = Presenting { held, omitted: omitted_positions(held, disclose) };
            0 <= i < finished(chosen).disclosures.len()
        }),
    ensures
        ({
            let chosen = Presenting { held, omitted: omitted_positions(held, disclose) };
            let shown = finished(chosen).disclosures[i];
            &&& finished(chosen).jws == held.jws
            &&& finished(chosen).claims == held.claims
            &&& held.disclosures.contains(shown)
            &&& exists|position: int|
                {
                    &&& 0 <= position < indexed(held.disclosures).len()
                    &&& #[trigger] indexed(held.disclosures)[position] == shown
                    &&& forall|place: Place| #[trigger]
                        places(held).contains(place) && !keeps(held, disclose, place) ==> !conceals(
                            held,
                            place,
                            position,
                        )
                }
        }),
{
    let omitted = omitted_positions(held, disclose);
    let position = lemma_kept_disclosures(indexed(held.disclosures), omitted, i);
    lemma_indexed(held.disclosures, position);
    assert forall|place: Place| #[trigger]
        places(held).contains(place) && !keeps(held, disclose, place) implies !conceals(
        held,
        place,
        position,
    ) by {
        assert(concealed_places(held, disclose).contains(place));
        if conceals(held, place, position) {
            assert(omitted.contains(position));
        }
    }
    assert(indexed(held.disclosures)[position] == kept_disclosures(
        indexed(held.disclosures),
        omitted,
    )[i]);
}

proof fn lemma_kept_unless_omitted(disclosures: Seq<Disclosed>, omitted: Set<int>, position: int)
    requires
        0 <= position < disclosures.len(),
        !omitted.contains(position),
    ensures
        kept_disclosures(disclosures, omitted).contains(disclosures[position]),
    decreases disclosures.len(),
{
    let shorter = disclosures.drop_last();
    let earlier = kept_disclosures(shorter, omitted);
    let kept = kept_disclosures(disclosures, omitted);
    if position < disclosures.len() - 1 {
        lemma_kept_unless_omitted(shorter, omitted, position);
        let i = choose|i: int| 0 <= i < earlier.len() && earlier[i] == shorter[position];
        assert(kept[i] == disclosures[position]);
    } else {
        assert(kept[earlier.len() as int] == disclosures[position]);
    }
}

/// Every issued disclosure is presented, unless concealing an unselected place takes it away.
pub proof fn law_other_disclosures_are_shown(
    held: SdJwtContent,
    disclose: Seq<Seq<char>>,
    position: int,
)
    requires
        0 <= position < indexed(held.disclosures).len(),
        forall|place: Place| #[trigger]
            places(held).contains(place) && !keeps(held, disclose, place) ==> !conceals(
                held,
                place,
                position,
            ),
    ensures
        finished(
            Presenting { held, omitted: omitted_positions(held, disclose) },
        ).disclosures.contains(indexed(held.disclosures)[position]),
{
    let omitted = omitted_positions(held, disclose);
    if omitted.contains(position) {
        let place = choose|place: Place| #[trigger]
            concealed_places(held, disclose).contains(place) && conceals(held, place, position);
        assert(places(held).contains(place) && !keeps(held, disclose, place));
    }
    lemma_kept_unless_omitted(indexed(held.disclosures), omitted, position);
}

/// No two indexed disclosures have one digest.
proof fn lemma_indexed_once(disclosures: Seq<Disclosed>, i: int, j: int)
    requires
        0 <= i < j < indexed(disclosures).len(),
    ensures
        disclosure_digest(indexed(disclosures)[i]) != disclosure_digest(indexed(disclosures)[j]),
    decreases disclosures.len(),
{
    let shorter = disclosures.drop_last();
    let earlier = indexed(shorter);
    let last = disclosures.last();
    lemma_digest_position(earlier, disclosure_digest(last), 0);
    match digest_position(earlier, disclosure_digest(last), 0) {
        Some(k) => {
            lemma_indexed_once(shorter, i, j);
        },
        None => {
            if j < earlier.len() {
                lemma_indexed_once(shorter, i, j);
            }
        },
    }
}

proof fn lemma_named_position(
    digests: Seq<Json>,
    name: Seq<char>,
    disclosures: Seq<Disclosed>,
    i: nat,
)
    ensures
        named_position(digests, name, disclosures, i) matches Some(k) ==> 0 <= k
            < disclosures.len() && disclosures[k].claim_name == Some(name),
    decreases digests.len() - i,
{
    if i < digests.len() {
        if let Json::Text(text) = digests[i as int] {
            lemma_digest_position(disclosures, text, 0);
        }
        lemma_named_position(digests, name, disclosures, i + 1);
    }
}

proof fn lemma_leads_in_range(
    value: Json,
    tokens: Seq<Seq<char>>,
    disclosures: Seq<Disclosed>,
    innermost: Option<int>,
    reached: Json,
    position: int,
)
    requires
        leads_to(value, tokens, disclosures, innermost, reached, position),
        innermost matches Some(k) ==> 0 <= k < disclosures.len(),
    ensures
        0 <= position < disclosures.len(),
    decreases tokens.len(),
{
    if tokens.len() > 0 {
        let rest = tokens.drop_first();
        match value {
            Json::Object(members) => if members.contains_key(tokens[0]) {
                lemma_leads_in_range(
                    members[tokens[0]],
                    rest,
                    disclosures,
                    innermost,
                    reached,
                    position,
                );
            } else {
                lemma_named_position(digests_in(value), tokens[0], disclosures, 0);
                let k = named_position(digests_in(value), tokens[0], disclosures, 0)->Some_0;
                lemma_leads_in_range(
                    disclosures[k].claim_value,
                    rest,
                    disclosures,
                    Some(k),
                    reached,
                    position,
                );
            },
            Json::Array(items) => {
                let i = choose|i: int|
                    0 <= i < items.len() && tokens[0] == decimal(i as nat) && match text_member(
                        #[trigger] items[i],
                        "..."@,
                    ) {
                        Some(digest) => match digest_position(disclosures, digest, 0) {
                            Some(k) => leads_to(
                                disclosures[k].claim_value,
                                rest,
                                disclosures,
                                Some(k),
                                reached,
                                position,
                            ),
                            None => false,
                        },
                        None => leads_to(items[i], rest, disclosures, innermost, reached, position),
                    };
                match text_member(items[i], "..."@) {
                    Some(digest) => {
                        lemma_digest_position(disclosures, digest, 0);
                        let k = digest_position(disclosures, digest, 0)->Some_0;
                        lemma_leads_in_range(
                            disclosures[k].claim_value,
                            rest,
                            disclosures,
                            Some(k),
                            reached,
                            position,
                        );
                    },
                    None => {
                        lemma_leads_in_range(items[i], rest, disclosures, innermost, reached, position);
                    },
                }
            },
            _ => {},
        }
    }
}

/// A reachable place is that of a disclosure, and not at the top.
pub(crate) proof fn lemma_reachable_in_range(held: SdJwtContent, place: Place)
    requires
        reachable(held, place),
    ensures
        0 <= place.position < indexed(held.disclosures).len(),
        place.pointer.len() > 0,
{
    let all = indexed(held.disclosures);
    let target = all[place.position].claim_value;
    let tokens = choose|tokens: Seq<Seq<char>>|
        plain_tokens(tokens) && place.pointer == slashed(tokens) && #[trigger] leads_to(
            open_claims(held.claims->Ok_0),
            tokens,
            all,
            None,
            target,
            place.position,
        );
    lemma_leads_in_range(open_claims(held.claims->Ok_0), tokens, all, None, target, place.position);
}

/// What is not selected stays hidden: a disclosure whose place the selection does not keep, and to
/// which the pointer of the place leads, is not in the presentation.
pub proof fn law_unselected_disclosures_stay_hidden(
    issued: Seq<char>,
    disclose: Seq<Seq<char>>,
    text: Seq<char>,
    held: SdJwtContent,
    place: Place,
)
    requires
        sd_jwt_read(issued) == Ok::<SdJwtContent, Seq<char>>(held),
        selection_outcome(issued, disclose, Ok::<Seq<char>, PresentFault>(text)),
        places(held).contains(place),
        !keeps(held, disclose, place),
        reachable(held, place),
    ensures
        ({
            let shown = finished(Presenting { held, omitted: omitted_positions(held, disclose) });
            &&& text == compact_text(shown)
            &&& 0 <= place.position < indexed(held.disclosures).len()
            &&& !shown.disclosures.contains(indexed(held.disclosures)[place.position])
        }),
{
    let all = indexed(held.disclosures);
    let omitted = omitted_positions(held, disclose);
    let shown = finished(Presenting { held, omitted });
    lemma_reachable_in_range(held, place);
    assert(concealed_places(held, disclose).contains(place));
    assert(conceals(held, place, place.position));
    assert(omitted.contains(place.position));
    if shown.disclosures.contains(all[place.position]) {
        let i = choose|i: int|
            0 <= i < shown.disclosures.len() && shown.disclosures[i] == all[place.position];
        let j = lemma_kept_disclosures(all, omitted, i);
        assert(all[j] == all[place.position]);
        if j < place.position {
            lemma_indexed_once(held.disclosures, j, place.position);
        } else if place.position < j {
            lemma_indexed_once(held.disclosures, place.position, j);
        }
    }
}

/// A selection that only names what the SD-JWT can disclose is never refused for its places, where
/// the pointer of each place that it leaves out leads somewhere.
pub proof fn law_reachable_places_are_presentable(
    issued: Seq<char>,
    disclose: Seq<Seq<char>>,
    held: SdJwtContent,
    out: Result<Seq<char>, PresentFault>,
)
    requires
        sd_jwt_read(issued) == Ok::<SdJwtContent, Seq<char>>(held),
        held.claims is Ok,
        named_hash(held.claims->Ok_0) == SHA_256@,
        least_unselectable(held, disclose) is None,
        forall|place: Place| #[trigger]
            places(held).contains(place) && !keeps(held, disclose, place) ==> reachable(held, place),
        selection_outcome(issued, disclose, out),
    ensures
        out == Ok::<Seq<char>, PresentFault>(presented(held, disclose)),
{
    if !concealable(held, disclose) {
        assert(unconcealable(held, disclose));
        let place = choose|place: Place| #[trigger]
            concealed_places(held, disclose).contains(place) && leads_nowhere(held, place.pointer);
        assert(places(held).contains(place));
        assert(reachable(held, place));
    }
}

/// A key that stands for itself in a pointer.
pub open spec fn plain_key(key: Seq<char>) -> bool {
    !key.contains('/') && !key.contains('~')
}

/// Whether an item holds a digest and nothing else.
pub open spec fn lone_digest(item: Json) -> bool {
    text_member(item, "..."@) is Some && forall|key: Seq<char>| #[trigger]
        item->Object_0.contains_key(key) ==> key == "..."@
}

/// Whether pointers into a value can be followed: keys and names hold no slash, and keys no tilde;
/// no claim stands both in the clear and disclosed, and no two disclosed claims of one object have
/// one name; an item that holds a digest holds nothing else.
pub open spec fn tidy(value: Json, disclosures: Seq<Disclosed>) -> bool
    decreases value,
{
    match value {
        Json::Object(members) => {
            &&& forall|i: int|
                0 <= i < digests_in(value).len() ==> match claim_behind(
                    #[trigger] digests_in(value)[i],
                    disclosures,
                ) {
                    Some(k) => {
                        let name = disclosures[k].claim_name->Some_0;
                        &&& !name.contains('/')
                        &&& !members.contains_key(name)
                        &&& named_position(digests_in(value), name, disclosures, 0) == Some(k)
                    },
                    None => true,
                }
            &&& forall|key: Seq<char>| #[trigger]
                members.contains_key(key) && key != "_sd"@ ==> plain_key(key) && tidy(
                    members[key],
                    disclosures,
                )
        },
        Json::Array(items) => forall|i: int|
            0 <= i < items.len() ==> match element_behind(#[trigger] items[i], disclosures) {
                Some(_) => true,
                None => {
                    ||| lone_digest(items[i])
                    ||| text_member(items[i], "..."@) is None && tidy(items[i], disclosures)
                },
            },
        _ => true,
    }
}

proof fn lemma_plain_key(key: Seq<char>)
    requires
        plain_key(key),
    ensures
        escaped(key) == key,
    decreases key.len(),
{
    if key.len() > 0 {
        let rest = key.drop_first();
        assert(key.contains(key[0]));
        assert forall|c: char| rest.contains(c) implies #[trigger] key.contains(c) by {
            let i = choose|i: int| 0 <= i < rest.len() && rest[i] == c;
            assert(key[i + 1] == c);
        }
        assert(!rest.contains('/') && !rest.contains('~'));
        lemma_plain_key(rest);
        assert(escaped(key) =~= key);
    } else {
        assert(escaped(key) =~= key);
    }
}

proof fn lemma_decimal_plain(n: nat)
    ensures
        decimal(n).len() > 0,
        !decimal(n).contains('/'),
    decreases n,
{
    if n >= 10 {
        lemma_decimal_plain(n / 10);
        let text = decimal(n);
        let front = decimal(n / 10);
        assert forall|i: int| 0 <= i < text.len() implies text[i] != '/' by {
            if i < front.len() {
                assert(front.contains(front[i]));
            }
        }
    }
}

/// Whether tokens lead from the value at a pointer to the disclosure of a place.
spec fn reaches(
    value: Json,
    at: Seq<char>,
    disclosures: Seq<Disclosed>,
    innermost: Option<int>,
    place: Place,
    tokens: Seq<Seq<char>>,
) -> bool {
    &&& tokens.len() > 0
    &&& forall|i: int| 0 <= i < tokens.len() ==> !(#[trigger] tokens[i]).contains('/')
    &&& place.pointer == at + slashed(tokens)
    &&& leads_to(
        value,
        tokens,
        disclosures,
        innermost,
        disclosures[place.position].claim_value,
        place.position,
    )
}

/// One token more in front.
proof fn lemma_reaches_step(
    value: Json,
    at: Seq<char>,
    disclosures: Seq<Disclosed>,
    place: Place,
    token: Seq<char>,
    tokens: Seq<Seq<char>>,
)
    requires
        !token.contains('/'),
        forall|i: int| 0 <= i < tokens.len() ==> !(#[trigger] tokens[i]).contains('/'),
        place.pointer == child(at, token) + slashed(tokens),
    ensures
        ({
            let longer = seq![token] + tokens;
            &&& longer.len() > 0
            &&& longer[0] == token
            &&& longer.drop_first() == tokens
            &&& forall|i: int| 0 <= i < longer.len() ==> !(#[trigger] longer[i]).contains('/')
            &&& place.pointer == at + slashed(longer)
        }),
{
    let longer = seq![token] + tokens;
    assert(longer.drop_first() =~= tokens);
    assert(at + slashed(longer) =~= child(at, token) + slashed(tokens));
}

proof fn lemma_lone_digest(
    item: Json,
    at: Seq<char>,
    owner: Option<Seq<char>>,
    disclosures: Seq<Disclosed>,
    place: Place,
)
    requires
        lone_digest(item),
    ensures
        !found(item, at, owner, disclosures, place),
{
    reveal_strlit("...");
    reveal_strlit("_sd");
    assert("..."@[0] == '.' && "_sd"@[0] == '_');
    assert(!item->Object_0.contains_key("_sd"@));
    assert(digests_in(item).len() == 0);
    assert forall|key: Seq<char>| #[trigger] item->Object_0.contains_key(key) && key
        != "_sd"@ implies !found(
        item->Object_0[key],
        child(at, escaped(key)),
        top_claim(owner, key),
        disclosures,
        place,
    ) by {
        assert(item->Object_0[key] is Text);
    }
}

/// In a tidy value the pointer of every place leads to its disclosure.
proof fn lemma_tidy_reaches(
    value: Json,
    at: Seq<char>,
    owner: Option<Seq<char>>,
    disclosures: Seq<Disclosed>,
    innermost: Option<int>,
    place: Place,
)
    requires
        tidy(value, disclosures),
        found(value, at, owner, disclosures, place),
    ensures
        exists|tokens: Seq<Seq<char>>| #[trigger]
            reaches(value, at, disclosures, innermost, place, tokens),
    decreases value,
{
    match value {
        Json::Object(members) => {
            lemma_found_in_object(value, at, owner, disclosures, place);
            if exists|i: int|
                0 <= i < digests_in(value).len() && #[trigger] found_by_digest(
                    value,
                    i,
                    at,
                    disclosures,
                    place,
                ) {
                let i = choose|i: int|
                    0 <= i < digests_in(value).len() && #[trigger] found_by_digest(
                        value,
                        i,
                        at,
                        disclosures,
                        place,
                    );
                lemma_reaches_by_digest(value, i, at, disclosures, innermost, place);
            } else {
                let key = choose|key: Seq<char>| #[trigger]
                    found_by_key(value, key, at, owner, disclosures, place);
                assert(members.contains_key(key));
                lemma_plain_key(key);
                lemma_tidy_reaches(
                    members[key],
                    child(at, key),
                    top_claim(owner, key),
                    disclosures,
                    innermost,
                    place,
                );
                let tokens = choose|tokens: Seq<Seq<char>>| #[trigger]
                    reaches(
                        members[key],
                        child(at, key),
                        disclosures,
                        innermost,
                        place,
                        tokens,
                    );
                lemma_reaches_step(value, at, disclosures, place, key, tokens);
                assert(reaches(value, at, disclosures, innermost, place, seq![key] + tokens));
            }
        },
        Json::Array(items) => {
            let i = choose|i: int|
                0 <= i < items.len() && match element_behind(#[trigger] items[i], disclosures) {
                    Some(k) => {
                        let pointer = child(at, decimal(i as nat));
                        owner is Some && place == Place {
                            position: k,
                            pointer,
                            selector: owner->Some_0,
                        }
                    },
                    None => found(
                        items[i],
                        child(at, decimal(i as nat)),
                        owner,
                        disclosures,
                        place,
                    ),
                };
            let target = disclosures[place.position].claim_value;
            let token = decimal(i as nat);
            let pointer = child(at, token);
            lemma_decimal_plain(i as nat);
            match element_behind(items[i], disclosures) {
                Some(k) => {
                    let tokens = Seq::<Seq<char>>::empty();
                    assert(pointer + slashed(Seq::<Seq<char>>::empty()) =~= pointer);
                    lemma_reaches_step(value, at, disclosures, place, token, tokens);
                    let longer = seq![token] + tokens;
                    assert(leads_to(
                        disclosures[k].claim_value,
                        tokens,
                        disclosures,
                        Some(k),
                        target,
                        place.position,
                    ));
                    assert(text_member(items[i], "..."@) is Some);
                    assert(leads_to(value, longer, disclosures, innermost, target, place.position));
                    assert(reaches(value, at, disclosures, innermost, place, longer));
                },
                None => {
                    if lone_digest(items[i]) {
                        lemma_lone_digest(items[i], pointer, owner, disclosures, place);
                    }
                    lemma_tidy_reaches(
                        items[i],
                        pointer,
                        owner,
                        disclosures,
                        innermost,
                        place,
                    );
                    let tokens = choose|tokens: Seq<Seq<char>>| #[trigger]
                        reaches(items[i], pointer, disclosures, innermost, place, tokens);
                    lemma_reaches_step(value, at, disclosures, place, token, tokens);
                    let longer = seq![token] + tokens;
                    assert(leads_to(value, longer, disclosures, innermost, target, place.position));
                    assert(reaches(value, at, disclosures, innermost, place, longer));
                },
            }
        },
        _ => {},
    }
}

/// A place that is found by a digest can be reached.
proof fn lemma_reaches_by_digest(
    value: Json,
    i: int,
    at: Seq<char>,
    disclosures: Seq<Disclosed>,
    innermost: Option<int>,
    place: Place,
)
    requires
        value is Object,
        tidy(value, disclosures),
        0 <= i < digests_in(value).len(),
        found_by_digest(value, i, at, disclosures, place),
    ensures
        exists|tokens: Seq<Seq<char>>| #[trigger]
            reaches(value, at, disclosures, innermost, place, tokens),
    {
    let target = disclosures[place.position].claim_value;
    let k = claim_behind(digests_in(value)[i], disclosures)->Some_0;
    let name = disclosures[k].claim_name->Some_0;
    let pointer = child(at, name);
    let tokens = Seq::<Seq<char>>::empty();
    assert(pointer + slashed(Seq::<Seq<char>>::empty()) =~= pointer);
    lemma_reaches_step(value, at, disclosures, place, name, tokens);
    let longer = seq![name] + tokens;
    assert(leads_to(disclosures[k].claim_value, tokens, disclosures, Some(k), target, place.position));
    assert(leads_to(value, longer, disclosures, innermost, target, place.position));
    assert(reaches(value, at, disclosures, innermost, place, longer));
}

/// Whether the members that no path leads through hold no place.
pub open spec fn closed_members_are_empty(
    claims: Json,
    disclosures: Seq<Disclosed>,
) -> bool {
    forall|key: Seq<char>, place: Place|
        (key == "_sd_alg"@ || key == "cnf"@) && claims->Object_0.contains_key(key)
            ==> !#[trigger] found(
            claims->Object_0[key],
            child(Seq::empty(), escaped(key)),
            Some(key),
            disclosures,
            place,
        )
}

/// Whether pointers into the claims of an SD-JWT can be followed: they and all disclosed values are
/// tidy, no claim at the top has an empty name, and what no path leads through holds no place.
pub open spec fn tidy_claims(claims: Json, disclosures: Seq<Disclosed>) -> bool {
    &&& claims is Object
    &&& tidy(claims, disclosures)
    &&& forall|k: int|
        0 <= k < disclosures.len() ==> tidy(
            (#[trigger] disclosures[k]).claim_value,
            disclosures,
        )
    &&& closed_members_are_empty(claims, disclosures)
    &&& !claims->Object_0.contains_key(Seq::empty())
    &&& forall|i: int|
        0 <= i < digests_in(claims).len() ==> (claim_behind(
            #[trigger] digests_in(claims)[i],
            disclosures,
        ) matches Some(k) ==> disclosures[k].claim_name->Some_0.len() > 0)
}

proof fn lemma_open_claims(claims: Json, name: Seq<char>)
    requires
        claims is Object,
    ensures
        digests_in(open_claims(claims)) == digests_in(claims),
        name != "_sd"@ && !claims->Object_0.contains_key(name) ==> !open_claims(
            claims,
        )->Object_0.contains_key(name),
        name != "_sd"@ && name != "_sd_alg"@ && name != "cnf"@ && claims->Object_0.contains_key(name)
            ==> open_claims(claims)->Object_0.contains_key(name) && open_claims(
            claims,
        )->Object_0[name] == claims->Object_0[name],
{
}

/// The pointer of a place in tidy claims leads to its disclosure.
proof fn lemma_tidy_claims_reach(held: SdJwtContent, place: Place)
    requires
        held.claims is Ok,
        tidy_claims(held.claims->Ok_0, indexed(held.disclosures)),
        found(held.claims->Ok_0, Seq::empty(), None, indexed(held.disclosures), place),
    ensures
        reachable(held, place),
{
    let claims = held.claims->Ok_0;
    let root = open_claims(claims);
    let all = indexed(held.disclosures);
    let target = all[place.position].claim_value;
    let at = Seq::<char>::empty();
    lemma_found_in_object(claims, at, None, all, place);
    if exists|i: int|
        0 <= i < digests_in(claims).len() && #[trigger] found_by_digest(
            claims,
            i,
            at,
            all,
            place,
        ) {
        let i = choose|i: int|
            0 <= i < digests_in(claims).len() && #[trigger] found_by_digest(
                claims,
                i,
                at,
                all,
                place,
            );
        let k = claim_behind(digests_in(claims)[i], all)->Some_0;
        let name = all[k].claim_name->Some_0;
        let pointer = child(at, name);
        lemma_open_claims(claims, name);
        assert(claims->Object_0.contains_key("_sd"@));
        let tokens = Seq::<Seq<char>>::empty();
        assert(pointer + slashed(Seq::<Seq<char>>::empty()) =~= pointer);
        lemma_reaches_step(root, at, all, place, name, tokens);
        let longer = seq![name] + tokens;
        assert(at + slashed(longer) =~= slashed(longer));
        assert(leads_to(all[k].claim_value, tokens, all, Some(k), target, place.position));
        assert(leads_to(root, longer, all, None, target, place.position));
    } else {
        let key = choose|key: Seq<char>| #[trigger]
            found_by_key(claims, key, at, None, all, place);
        assert(claims->Object_0.contains_key(key));
        lemma_plain_key(key);
        lemma_open_claims(claims, key);
        lemma_tidy_reaches(
            claims->Object_0[key],
            child(at, key),
            Some(key),
            all,
            None,
            place,
        );
        let tokens = choose|tokens: Seq<Seq<char>>| #[trigger]
            reaches(claims->Object_0[key], child(at, key), all, None, place, tokens);
        lemma_reaches_step(root, at, all, place, key, tokens);
        let longer = seq![key] + tokens;
        assert(at + slashed(longer) =~= slashed(longer));
        if key.len() == 0 {
            assert(key =~= Seq::<char>::empty());
        }
        assert(leads_to(root, longer, all, None, target, place.position));
    }
}

/// What leads to a value, and from there on, leads there.
proof fn lemma_leads_on(
    value: Json,
    tokens: Seq<Seq<char>>,
    disclosures: Seq<Disclosed>,
    innermost: Option<int>,
    middle: Json,
    position: int,
    more: Seq<Seq<char>>,
    target: Json,
    last: int,
)
    requires
        leads_to(value, tokens, disclosures, innermost, middle, position),
        leads_to(middle, more, disclosures, Some(position), target, last),
    ensures
        leads_to(value, tokens + more, disclosures, innermost, target, last),
    decreases tokens.len(),
{
    if tokens.len() == 0 {
        assert(tokens + more =~= more);
    } else {
        let rest = tokens.drop_first();
        let all = tokens + more;
        assert(all[0] == tokens[0]);
        assert(all.drop_first() =~= rest + more);
        match value {
            Json::Object(members) => if members.contains_key(tokens[0]) {
                lemma_leads_on(
                    members[tokens[0]],
                    rest,
                    disclosures,
                    innermost,
                    middle,
                    position,
                    more,
                    target,
                    last,
                );
            } else {
                let k = named_position(digests_in(value), tokens[0], disclosures, 0)->Some_0;
                lemma_leads_on(
                    disclosures[k].claim_value,
                    rest,
                    disclosures,
                    Some(k),
                    middle,
                    position,
                    more,
                    target,
                    last,
                );
            },
            Json::Array(items) => {
                let i = choose|i: int|
                    0 <= i < items.len() && tokens[0] == decimal(i as nat) && match text_member(
                        #[trigger] items[i],
                        "..."@,
                    ) {
                        Some(digest) => match digest_position(disclosures, digest, 0) {
                            Some(k) => leads_to(
                                disclosures[k].claim_value,
                                rest,
                                disclosures,
                                Some(k),
                                middle,
                                position,
                            ),
                            None => false,
                        },
                        None => leads_to(
                            items[i],
                            rest,
                            disclosures,
                            innermost,
                            middle,
                            position,
                        ),
                    };
                match text_member(items[i], "..."@) {
                    Some(digest) => {
                        let k = digest_position(disclosures, digest, 0)->Some_0;
                        lemma_leads_on(
                            disclosures[k].claim_value,
                            rest,
                            disclosures,
                            Some(k),
                            middle,
                            position,
                            more,
                            target,
                            last,
                        );
                    },
                    None => {
                        lemma_leads_on(
                            items[i],
                            rest,
                            disclosures,
                            innermost,
                            middle,
                            position,
                            more,
                            target,
                            last,
                        );
                    },
                }
                assert(all[0] == decimal(i as nat));
            },
            _ => {},
        }
    }
}

proof fn lemma_slashed_concat(a: Seq<Seq<char>>, b: Seq<Seq<char>>)
    ensures
        slashed(a + b) == slashed(a) + slashed(b),
    decreases a.len(),
{
    if a.len() == 0 {
        assert(a + b =~= b);
        assert(slashed(a) + slashed(b) =~= slashed(b));
    } else {
        lemma_slashed_concat(a.drop_first(), b);
        assert((a + b).drop_first() =~= a.drop_first() + b);
        assert(slashed(a + b) =~= slashed(a) + slashed(b));
    }
}

proof fn lemma_tidy_reachable_at(held: SdJwtContent, depth: nat, place: Place)
    requires
        held.claims is Ok,
        tidy_claims(held.claims->Ok_0, indexed(held.disclosures)),
        below_at(held.claims->Ok_0, indexed(held.disclosures), None, depth, place),
    ensures
        reachable(held, place),
    decreases depth,
{
    let claims = held.claims->Ok_0;
    let all = indexed(held.disclosures);
    if depth == 0 {
        lemma_tidy_claims_reach(held, place);
    } else {
        let middle = choose|middle: Place|
            below_at(claims, all, None, (depth - 1) as nat, middle) && #[trigger] direct(
                claims,
                all,
                Some(middle),
                place,
            );
        lemma_tidy_reachable_at(held, (depth - 1) as nat, middle);
        let inner = all[middle.position].claim_value;
        let tokens = choose|tokens: Seq<Seq<char>>|
            plain_tokens(tokens) && middle.pointer == slashed(tokens) && #[trigger] leads_to(
                open_claims(claims),
                tokens,
                all,
                None,
                inner,
                middle.position,
            );
        lemma_tidy_reaches(
            inner,
            middle.pointer,
            Some(middle.selector),
            all,
            Some(middle.position),
            place,
        );
        let more = choose|more: Seq<Seq<char>>| #[trigger]
            reaches(inner, middle.pointer, all, Some(middle.position), place, more);
        let target = all[place.position].claim_value;
        lemma_leads_on(
            open_claims(claims),
            tokens,
            all,
            None,
            inner,
            middle.position,
            more,
            target,
            place.position,
        );
        lemma_slashed_concat(tokens, more);
        let longer = tokens + more;
        assert forall|i: int| 0 <= i < longer.len() implies !(#[trigger] longer[i]).contains(
            '/',
        ) by {
            if i < tokens.len() {
                assert(longer[i] == tokens[i]);
            } else {
                assert(longer[i] == more[i - tokens.len()]);
            }
        }
        assert(plain_tokens(longer));
        assert(leads_to(open_claims(claims), longer, all, None, target, place.position));
    }
}

/// In an SD-JWT with tidy claims and values the pointer of every place that is found leads to its
/// disclosure.
pub proof fn law_tidy_places_are_reachable(held: SdJwtContent, place: Place)
    requires
        held.claims is Ok,
        tidy_claims(held.claims->Ok_0, indexed(held.disclosures)),
        located(held.claims->Ok_0, indexed(held.disclosures), place),
    ensures
        reachable(held, place),
{
    let depth = choose|depth: nat| #[trigger]
        below_at(held.claims->Ok_0, indexed(held.disclosures), None, depth, place);
    lemma_tidy_reachable_at(held, depth, place);
}

} // verus!
