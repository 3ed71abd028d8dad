//! SD-JWTs as `sd_jwt_payload` reads, presents and writes them.
use crate::cbor::reversed;
use crate::crypto::{sd_hash_of, SHA_256};
use crate::json::{array_member, json_tree, text_member, tree_content, Json, JsonValue};
use crate::text::{decimal, seen};
use vstd::prelude::*;

verus! {

/// A parsed SD-JWT.
#[verifier::external_type_specification]
#[verifier::external_body]
pub struct ExSdJwt(sd_jwt_payload::SdJwt);

/// An SD-JWT whose disclosures are being chosen.
#[verifier::external_type_specification]
#[verifier::external_body]
pub struct ExSdJwtPresentationBuilder(sd_jwt_payload::SdJwtPresentationBuilder);

/// A disclosure of an SD-JWT.
#[derive(Debug)]
pub struct SdDisclosure {
    /// The disclosure as it stands in the SD-JWT.
    pub text: String,
    /// The name of the claim; an array element has none.
    pub claim_name: Option<String>,
    /// The value.
    pub claim_value: JsonValue,
}

/// The mathematical content of an [`SdDisclosure`].
pub struct Disclosed {
    pub text: Seq<char>,
    pub claim_name: Option<Seq<char>>,
    pub claim_value: Json,
}

impl View for SdDisclosure {
    type V = Disclosed;

    open spec fn view(&self) -> Disclosed {
        Disclosed {
            text: self.text@,
            claim_name: seen(self.claim_name),
            claim_value: self.claim_value@,
        }
    }
}

/// The contents of a list of disclosures.
pub open spec fn disclosed(disclosures: Seq<SdDisclosure>) -> Seq<Disclosed> {
    disclosures.map_values(|disclosure: SdDisclosure| disclosure@)
}

/// What an SD-JWT holds: the issuer's JWS, its claims (or why they have no JSON form), the
/// disclosures in order, and the text of the key binding, which is empty where there is none.
pub struct SdJwtContent {
    pub jws: Seq<char>,
    pub claims: Result<Json, Seq<char>>,
    pub disclosures: Seq<Disclosed>,
    pub key_binding: Seq<char>,
}

/// An SD-JWT whose disclosures are being chosen: the SD-JWT, and the positions that are left out.
pub struct Presenting {
    pub held: SdJwtContent,
    pub omitted: Set<int>,
}

/// What a parsed SD-JWT holds.
pub uninterp spec fn sd_jwt_content(sd_jwt: sd_jwt_payload::SdJwt) -> SdJwtContent;

/// What is being presented.
pub uninterp spec fn presenting(builder: sd_jwt_payload::SdJwtPresentationBuilder) -> Presenting;

/// What a compact text is read as, or the message of `sd_jwt_payload`.
pub uninterp spec fn sd_jwt_read(text: Seq<char>) -> Result<SdJwtContent, Seq<char>>;

/// The positions of the disclosures that go when the value at a path is concealed, where it can be.
/// They are positions in [`indexed`].
pub uninterp spec fn concealment(held: SdJwtContent, path: Seq<char>) -> Option<Set<int>>;

/// How a path is refused at which nothing can be concealed.
pub open spec fn path_refusal() -> Seq<char> {
    "invalid path: the referenced element doesn't exist or is not concealable"@
}

/// `sd_jwt_payload::SdJwt::parse`, its error as text.
#[verifier::external_body]
pub(crate) fn parse_sd_jwt(text: &str) -> (out: Result<sd_jwt_payload::SdJwt, String>)
    ensures
        match out {
            Ok(sd_jwt) => sd_jwt_read(text@) == Ok::<SdJwtContent, Seq<char>>(
                sd_jwt_content(sd_jwt),
            ),
            Err(message) => sd_jwt_read(text@) == Err::<SdJwtContent, Seq<char>>(message@),
        },
{
    sd_jwt_payload::SdJwt::parse(text).map_err(|e| e.to_string())
}

/// A disclosure as `sd_jwt_payload` hands it out, its value still a tree.
struct DisclosureTree {
    text: String,
    claim_name: Option<String>,
    claim_value: serde_json::Value,
}

/// The contents of a list of disclosures.
spec fn disclosure_trees(trees: Seq<DisclosureTree>) -> Seq<Disclosed> {
    trees.map_values(
        |tree: DisclosureTree|
            Disclosed {
                text: tree.text@,
                claim_name: seen(tree.claim_name),
                claim_value: json_tree(tree.claim_value),
            },
    )
}

/// `sd_jwt_payload::SdJwt::disclosures`: the disclosures in order, each by its text, its name and
/// its value.
#[verifier::external_body]
fn list_disclosures(sd_jwt: &sd_jwt_payload::SdJwt) -> (out: Vec<DisclosureTree>)
    ensures
        disclosure_trees(out@) == sd_jwt_content(*sd_jwt).disclosures,
{
    sd_jwt.disclosures().iter().map(
        |d| DisclosureTree {
            text: d.as_str().to_owned(),
            claim_name: d.claim_name.clone(),
            claim_value: d.claim_value.clone(),
        },
    ).collect()
}

pub(crate) fn sd_jwt_disclosures(sd_jwt: &sd_jwt_payload::SdJwt) -> (out: Vec<SdDisclosure>)
    ensures
        disclosed(out@) == sd_jwt_content(*sd_jwt).disclosures,
{
    let trees = list_disclosures(sd_jwt);
    let ghost all = trees@;
    let mut rest = reversed(trees);
    let mut out: Vec<SdDisclosure> = Vec::new();
    while rest.len() > 0
        invariant
            rest@.len() + out@.len() == all.len(),
            rest@ == all.reverse().take(rest@.len() as int),
            forall|i: int|
                0 <= i < out@.len() ==> (#[trigger] out@[i])@ == disclosure_trees(all)[i],
        decreases rest@.len(),
    {
        let ghost k = out@.len() as int;
        match rest.pop() {
            Some(tree) => {
                assert(tree == all[k]);
                out.push(
                    SdDisclosure {
                        text: tree.text,
                        claim_name: tree.claim_name,
                        claim_value: tree_content(tree.claim_value),
                    },
                );
            },
            None => {},
        }
        assert(rest@ =~= all.reverse().take(rest@.len() as int));
    }
    assert(disclosed(out@) =~= disclosure_trees(all));
    out
}

/// `serde_json::to_value` of `sd_jwt_payload::SdJwt::claims`, its error as text.
#[verifier::external_body]
pub(crate) fn sd_jwt_claims(sd_jwt: &sd_jwt_payload::SdJwt) -> (out: Result<serde_json::Value, String>)
    ensures
        match out {
            Ok(tree) => sd_jwt_content(*sd_jwt).claims == Ok::<Json, Seq<char>>(json_tree(tree)),
            Err(message) => sd_jwt_content(*sd_jwt).claims == Err::<Json, Seq<char>>(message@),
        },
{
    serde_json::to_value(sd_jwt.claims()).map_err(|e| e.to_string())
}

/// The hash algorithm that claims name, SHA-256 where they name none.
pub open spec fn named_hash(claims: Json) -> Seq<char> {
    match text_member(claims, "_sd_alg"@) {
        Some(name) => name,
        None => SHA_256@,
    }
}

/// How another hash algorithm than SHA-256 is refused.
pub open spec fn hash_refusal(name: Seq<char>) -> Seq<char> {
    "invalid hasher: hasher \"sha-256\" was provided, but \""@ + name + " is required\""@
}

/// `sd_jwt_payload::SdJwt::into_presentation` with the SHA-256 hasher of that crate: nothing is
/// left out yet. It fails exactly where the claims name another hash algorithm.
#[verifier::external_body]
pub(crate) fn start_presentation(sd_jwt: sd_jwt_payload::SdJwt) -> (out: Result<
    sd_jwt_payload::SdJwtPresentationBuilder,
    String,
>)
    requires
        sd_jwt_content(sd_jwt).claims is Ok,
    ensures
        match out {
            Ok(builder) => named_hash(sd_jwt_content(sd_jwt).claims->Ok_0) == SHA_256@ && presenting(
                builder,
            ) == (Presenting { held: sd_jwt_content(sd_jwt), omitted: Set::empty() }),
            Err(message) => named_hash(sd_jwt_content(sd_jwt).claims->Ok_0) != SHA_256@ && message@
                == hash_refusal(named_hash(sd_jwt_content(sd_jwt).claims->Ok_0)),
        },
{
    let hasher = sd_jwt_payload::Sha256Hasher::new();
    sd_jwt.into_presentation(&hasher).map_err(|e| e.to_string())
}

/// A path of tokens, each behind a slash.
pub open spec fn slashed(tokens: Seq<Seq<char>>) -> Seq<char>
    decreases tokens.len(),
{
    if tokens.len() == 0 {
        Seq::empty()
    } else {
        "/"@ + tokens[0] + slashed(tokens.drop_first())
    }
}

/// Whether the tokens can be told apart again in a path: none holds a slash, and the first is not
/// empty.
pub open spec fn plain_tokens(tokens: Seq<Seq<char>>) -> bool {
    &&& tokens.len() > 0
    &&& tokens[0].len() > 0
    &&& forall|i: int| 0 <= i < tokens.len() ==> !(#[trigger] tokens[i]).contains('/')
}

/// The position of the first named claim behind a digest, from digest `i` on, that has a name.
pub open spec fn named_position(
    digests: Seq<Json>,
    name: Seq<char>,
    disclosures: Seq<Disclosed>,
    i: nat,
) -> Option<int>
    decreases digests.len() - i,
{
    if i >= digests.len() {
        None
    } else {
        match claim_behind(digests[i as int], disclosures) {
            Some(k) => if disclosures[k].claim_name == Some(name) {
                Some(k)
            } else {
                named_position(digests, name, disclosures, i + 1)
            },
            None => named_position(digests, name, disclosures, i + 1),
        }
    }
}

/// Whether tokens lead from a value to `reached`, the last disclosure on the way being that at
/// `position`; `innermost` is the last one on the way before. A token is the key of a member, the
/// name of a disclosed claim where there is no such member, or the index of an item.
pub open spec fn leads_to(
    value: Json,
    tokens: Seq<Seq<char>>,
    disclosures: Seq<Disclosed>,
    innermost: Option<int>,
    reached: Json,
    position: int,
) -> bool
    decreases tokens.len(),
{
    if tokens.len() == 0 {
        innermost == Some(position) && value == reached
    } else {
        let rest = tokens.drop_first();
        match value {
            Json::Object(members) => if members.contains_key(tokens[0]) {
                leads_to(members[tokens[0]], rest, disclosures, innermost, reached, position)
            } else {
                match named_position(digests_in(value), tokens[0], disclosures, 0) {
                    Some(k) => leads_to(
                        disclosures[k].claim_value,
                        rest,
                        disclosures,
                        Some(k),
                        reached,
                        position,
                    ),
                    None => false,
                }
            },
            Json::Array(items) => exists|i: int|
                0 <= i < items.len() && tokens[0] == decimal(i as nat) && match text_member(
                    #[trigger] items[i],
                    "..."@,
                ) {
                    Some(digest) => match digest_position(disclosures, digest, 0) {
                        Some(k) => leads_to(
                            disclosures[k].claim_value,
                            rest,
                            disclosures,
                            Some(k),
                            reached,
                            position,
                        ),
                        None => false,
                    },
                    None => leads_to(items[i], rest, disclosures, innermost, reached, position),
                },
            _ => false,
        }
    }
}

/// The claims that paths lead through: all but the name of the hash algorithm and the confirmation
/// of the holder's key.
pub open spec fn open_claims(claims: Json) -> Json {
    Json::Object(
        claims->Object_0.remove("_sd_alg"@).remove("cnf"@).insert(
            "_sd"@,
            Json::Array(digests_in(claims)),
        ),
    )
}

/// Whether a path leads to a value, the last disclosure on the way being that at a position.
pub open spec fn path_leads(
    held: SdJwtContent,
    path: Seq<char>,
    reached: Json,
    position: int,
) -> bool {
    exists|tokens: Seq<Seq<char>>|
        plain_tokens(tokens) && path == slashed(tokens) && #[trigger] leads_to(
            open_claims(held.claims->Ok_0),
            tokens,
            indexed(held.disclosures),
            None,
            reached,
            position,
        )
}

/// Whether a value refers to the disclosure at a position. Disclosed values are not looked into.
pub open spec fn refers_to(value: Json, disclosures: Seq<Disclosed>, position: int) -> bool
    decreases value,
{
    match value {
        Json::Object(members) => {
            ||| exists|i: int|
                0 <= i < digests_in(value).len() && (#[trigger] digests_in(value)[i] matches Json::Text(
                    digest,
                ) && digest_position(disclosures, digest, 0) == Some(position))
            ||| exists|key: Seq<char>| #[trigger]
                members.contains_key(key) && refers_to(members[key], disclosures, position)
        },
        Json::Array(items) => exists|i: int|
            0 <= i < items.len() && #[trigger] items[i] is Object && match element_position(
                items[i],
                disclosures,
            ) {
                Some(k) => k == position,
                None => refers_to(items[i], disclosures, position),
            },
        _ => false,
    }
}

/// What goes when a value inside the disclosure at a position is concealed: the disclosure, and
/// those that the value refers to.
pub open spec fn going(disclosures: Seq<Disclosed>, value: Json, position: int) -> Set<int> {
    Set::new(|other: int| other == position || refers_to(value, disclosures, other))
}

/// Whether these positions are what goes when the value that a path leads to is concealed.
pub open spec fn takes_away(held: SdJwtContent, path: Seq<char>, positions: Set<int>) -> bool {
    forall|reached: Json, position: int| #[trigger]
        path_leads(held, path, reached, position) ==> positions == going(
            indexed(held.disclosures),
            reached,
            position,
        )
}

/// Whether a path leads to no disclosure.
pub open spec fn leads_nowhere(held: SdJwtContent, path: Seq<char>) -> bool {
    forall|reached: Json, position: int| !(#[trigger] path_leads(held, path, reached, position))
}

/// `sd_jwt_payload::SdJwtPresentationBuilder::conceal`: the positions at the path are left out too.
/// They do not depend on what was left out before. A path that leads to a disclosure is not
/// refused: the disclosure goes, and so do those that the value refers to.
#[verifier::external_body]
pub(crate) fn conceal(builder: sd_jwt_payload::SdJwtPresentationBuilder, path: &str) -> (out: Result<
    sd_jwt_payload::SdJwtPresentationBuilder,
    String,
>)
    ensures
        match out {
            Ok(next) => concealment(presenting(builder).held, path@) is Some && presenting(next)
                == (Presenting {
                held: presenting(builder).held,
                omitted: presenting(builder).omitted.union(
                    concealment(presenting(builder).held, path@)->Some_0,
                ),
            }) && takes_away(
                presenting(builder).held,
                path@,
                concealment(presenting(builder).held, path@)->Some_0,
            ),
            Err(message) => concealment(presenting(builder).held, path@) is None && message@
                == path_refusal() && leads_nowhere(presenting(builder).held, path@),
        },
{
    builder.conceal(path).map_err(|e| e.to_string())
}

/// The digest by which claims refer to a disclosure.
pub open spec fn disclosure_digest(disclosure: Disclosed) -> Seq<char> {
    sd_hash_of(disclosure.text)
}

/// The first position from `k` on whose disclosure has a digest.
pub open spec fn digest_position(
    disclosures: Seq<Disclosed>,
    digest: Seq<char>,
    k: nat,
) -> Option<int>
    decreases disclosures.len() - k,
{
    if k >= disclosures.len() {
        None
    } else if disclosure_digest(disclosures[k as int]) == digest {
        Some(k as int)
    } else {
        digest_position(disclosures, digest, k + 1)
    }
}

/// The disclosures by digest: one whose digest was there before takes the earlier place.
pub open spec fn indexed(disclosures: Seq<Disclosed>) -> Seq<Disclosed>
    decreases disclosures.len(),
{
    if disclosures.len() == 0 {
        Seq::empty()
    } else {
        let earlier = indexed(disclosures.drop_last());
        let last = disclosures.last();
        match digest_position(earlier, disclosure_digest(last), 0) {
            Some(i) => earlier.update(i, last),
            None => earlier.push(last),
        }
    }
}

/// The disclosures whose positions are not left out, in order.
pub open spec fn kept_disclosures(disclosures: Seq<Disclosed>, omitted: Set<int>) -> Seq<Disclosed>
    decreases disclosures.len(),
{
    if disclosures.len() == 0 {
        Seq::empty()
    } else {
        let earlier = kept_disclosures(disclosures.drop_last(), omitted);
        if omitted.contains(disclosures.len() - 1) {
            earlier
        } else {
            earlier.push(disclosures.last())
        }
    }
}

/// The SD-JWT that is presented.
pub open spec fn finished(chosen: Presenting) -> SdJwtContent {
    SdJwtContent {
        disclosures: kept_disclosures(indexed(chosen.held.disclosures), chosen.omitted),
        ..chosen.held
    }
}

/// `sd_jwt_payload::SdJwtPresentationBuilder::finish`: the SD-JWT with the disclosures that are not
/// left out; the JWS, the claims and the key binding stay.
#[verifier::external_body]
pub(crate) fn finish_presentation(builder: sd_jwt_payload::SdJwtPresentationBuilder) -> (out:
    sd_jwt_payload::SdJwt)
    ensures
        sd_jwt_content(out) == finished(presenting(builder)),
{
    builder.finish().0
}

/// The texts of disclosures with a tilde between them.
pub open spec fn joined_disclosures(disclosures: Seq<Disclosed>) -> Seq<char>
    decreases disclosures.len(),
{
    if disclosures.len() == 0 {
        Seq::empty()
    } else if disclosures.len() == 1 {
        disclosures[0].text
    } else {
        joined_disclosures(disclosures.drop_last()) + "~"@ + disclosures.last().text
    }
}

/// The compact text of an SD-JWT.
pub open spec fn compact_text(sd_jwt: SdJwtContent) -> Seq<char> {
    let middle = joined_disclosures(sd_jwt.disclosures);
    if middle.len() == 0 {
        sd_jwt.jws + "~"@ + sd_jwt.key_binding
    } else {
        sd_jwt.jws + "~"@ + middle + "~"@ + sd_jwt.key_binding
    }
}

/// `sd_jwt_payload::SdJwt::presentation`: the JWS, the disclosures and the key binding, with tildes
/// between them.
#[verifier::external_body]
pub(crate) fn presentation_text(sd_jwt: &sd_jwt_payload::SdJwt) -> (out: String)
    ensures
        out@ == compact_text(sd_jwt_content(*sd_jwt)),
{
    sd_jwt.presentation()
}

/// The position of the disclosure that an item of an array refers to.
pub open spec fn element_position(item: Json, disclosures: Seq<Disclosed>) -> Option<int> {
    match text_member(item, "..."@) {
        Some(digest) => digest_position(disclosures, digest, 0),
        None => None,
    }
}

/// The digests in the `_sd` member of an object.
pub open spec fn digests_in(object: Json) -> Seq<Json> {
    match array_member(object, "_sd"@) {
        Some(digests) => digests,
        None => Seq::empty(),
    }
}

/// The position of the named claim that a digest refers to.
pub open spec fn claim_behind(digest: Json, disclosures: Seq<Disclosed>) -> Option<int> {
    match digest {
        Json::Text(text) => match digest_position(disclosures, text, 0) {
            Some(k) => if disclosures[k].claim_name is Some {
                Some(k)
            } else {
                None
            },
            None => None,
        },
        _ => None,
    }
}

} // verus!
