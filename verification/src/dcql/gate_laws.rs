//! What it means that a query is satisfied, claim by claim and credential by credential.
use crate::dcql::{
    credential_sets_satisfied, evaluate_single, reconcile_role, role_from_meta, role_from_type,
    text_lists, ClaimsQuery, CredentialMeta, CredentialQuery, CredentialType, DcqlError, DcqlGate,
    DcqlQuery,
};
use crate::dcql::evaluate::{
    claim_found, claim_resolves, claim_set_found, claims_satisfied, evaluate_query,
    format_and_meta_match, has_duplicate_claim_ids, named_claim_found, option_met, query_met,
    query_satisfied_by, set_met,
};
use crate::text::texts;
use crate::text_map::TextMap;
use crate::types::{attr_map, AttributeValue, Format, IssuerRole};
use vstd::prelude::*;

verus! {

/// Whether two claims of a query have the same name.
pub open spec fn names_clash(claims: Seq<ClaimsQuery>) -> bool {
    exists|i: int, j: int|
        0 <= i < j < claims.len() && (#[trigger] claims[i]).id is Some && (
        #[trigger] claims[j]).id is Some && claims[i].id->Some_0@ == claims[j].id->Some_0@
}

/// Whether some claim of a name is among those found.
pub open spec fn found_by_name(
    claims: Seq<ClaimsQuery>,
    found: Seq<bool>,
    name: Seq<char>,
) -> bool {
    exists|i: int|
        0 <= i < claims.len() && #[trigger] found[i] && (claims[i].id matches Some(id) && id@
            == name)
}

/// The claims of a credential query are there where it asks for none, where all of them are found,
/// or, where it lists combinations and no two claims share a name, where some combination that is
/// not empty has every one of its claims found.
pub proof fn law_claims_are_there_together(
    query: &CredentialQuery,
    presented: &TextMap<AttributeValue>,
    found: Seq<bool>,
    out: bool,
)
    requires
        found.len() == query.claims@.len(),
        forall|i: int|
            0 <= i < found.len() ==> call_ensures(
                claim_resolves,
                (&query.claims@[i], presented),
                #[trigger] found[i],
            ),
        call_ensures(claims_satisfied, (query, presented), out),
    ensures
        query.claims@.len() == 0 ==> out,
        query.claims@.len() > 0 && query.claim_sets@.len() == 0 ==> (out <==> forall|i: int|
            0 <= i < found.len() ==> #[trigger] found[i]),
        query.claims@.len() > 0 && query.claim_sets@.len() > 0 ==> (out <==> !names_clash(
            query.claims@,
        ) && exists|s: int|
            {
                &&& 0 <= s < query.claim_sets@.len()
                &&& (#[trigger] query.claim_sets@[s])@.len() > 0
                &&& forall|n: int|
                    0 <= n < query.claim_sets@[s]@.len() ==> found_by_name(
                        query.claims@,
                        found,
                        (#[trigger] query.claim_sets@[s]@[n])@,
                    )
            }),
{
    let content = query@;
    let map = attr_map(presented@);
    let claims = query.claims@;
    assert forall|i: int| 0 <= i < claims.len() implies (#[trigger] content.claims[i])
        == claims[i]@ && found[i] == claim_found(map, content.claims[i]) by {
        assert(found[i] == found[i]);
    }
    if claims.len() > 0 && query.claim_sets@.len() == 0 {
        if out {
            assert forall|i: int| 0 <= i < found.len() implies #[trigger] found[i] by {
                assert(claim_found(map, content.claims[i]));
            }
        }
    }
    if claims.len() > 0 && query.claim_sets@.len() > 0 {
        assert(names_clash(claims) == has_duplicate_claim_ids(content.claims)) by {
            if names_clash(claims) {
                let (i, j) = choose|i: int, j: int|
                    0 <= i < j < claims.len() && (#[trigger] claims[i]).id is Some && (
        #[trigger] claims[j]).id is Some && claims[i].id->Some_0@ == claims[j].id->Some_0@;
                assert(content.claims[i].id is Some && content.claims[i].id
                    == content.claims[j].id);
            }
            if has_duplicate_claim_ids(content.claims) {
                let (i, j) = choose|i: int, j: int|
                    0 <= i < j < content.claims.len() && (#[trigger] content.claims[i]).id is Some
                        && content.claims[i].id == (#[trigger] content.claims[j]).id;
                assert(claims[i].id is Some && claims[j].id is Some);
            }
        }
        assert forall|name: Seq<char>| #[trigger]
            found_by_name(claims, found, name) == named_claim_found(map, content.claims, name) by {
            if found_by_name(claims, found, name) {
                let i = choose|i: int|
                    0 <= i < claims.len() && #[trigger] found[i] && (claims[i].id matches Some(id)
                        && id@ == name);
                assert(content.claims[i].id == Some(name));
            }
            if named_claim_found(map, content.claims, name) {
                let i = choose|i: int|
                    0 <= i < content.claims.len() && (#[trigger] content.claims[i]).id == Some(
                        name,
                    ) && claim_found(map, content.claims[i]);
                assert(found[i]);
            }
        }
        assert forall|s: int| 0 <= s < query.claim_sets@.len() implies (
        #[trigger] content.claim_sets[s]) == texts(query.claim_sets@[s]@) && (claim_set_found(
            map,
            content.claims,
            content.claim_sets[s],
        ) <==> query.claim_sets@[s]@.len() > 0 && forall|n: int|
            0 <= n < query.claim_sets@[s]@.len() ==> found_by_name(
                claims,
                found,
                (#[trigger] query.claim_sets@[s]@[n])@,
            )) by {
            lemma_set_found(query, presented, found, s);
        }
        if out {
            let s = choose|s: int|
                0 <= s < content.claim_sets.len() && claim_set_found(
                    map,
                    content.claims,
                    #[trigger] content.claim_sets[s],
                );
            assert(query.claim_sets@[s]@.len() > 0);
        }
        if exists|s: int|
            {
                &&& 0 <= s < query.claim_sets@.len()
                &&& (#[trigger] query.claim_sets@[s])@.len() > 0
                &&& forall|n: int|
                    0 <= n < query.claim_sets@[s]@.len() ==> found_by_name(
                        query.claims@,
                        found,
                        (#[trigger] query.claim_sets@[s]@[n])@,
                    )
            } {
            let s = choose|s: int|
                {
                    &&& 0 <= s < query.claim_sets@.len()
                    &&& (#[trigger] query.claim_sets@[s])@.len() > 0
                    &&& forall|n: int|
                        0 <= n < query.claim_sets@[s]@.len() ==> found_by_name(
                            query.claims@,
                            found,
                            (#[trigger] query.claim_sets@[s]@[n])@,
                        )
                };
            assert(claim_set_found(map, content.claims, content.claim_sets[s]));
        }
    }
}

proof fn lemma_set_found(
    query: &CredentialQuery,
    presented: &TextMap<AttributeValue>,
    found: Seq<bool>,
    s: int,
)
    requires
        0 <= s < query.claim_sets@.len(),
        forall|name: Seq<char>| #[trigger]
            found_by_name(query.claims@, found, name) == named_claim_found(
                attr_map(presented@),
                query@.claims,
                name,
            ),
    ensures
        query@.claim_sets[s] == texts(query.claim_sets@[s]@),
        claim_set_found(attr_map(presented@), query@.claims, query@.claim_sets[s]) <==> (
        query.claim_sets@[s]@.len() > 0 && forall|n: int|
            0 <= n < query.claim_sets@[s]@.len() ==> found_by_name(
                query.claims@,
                found,
                (#[trigger] query.claim_sets@[s]@[n])@,
            )),
{
    let names = query.claim_sets@[s]@;
    let ids = texts(names);
    let map = attr_map(presented@);
    assert(query@.claim_sets[s] == ids);
    assert forall|n: int| 0 <= n < names.len() implies (#[trigger] ids[n]) == names[n]@ by {}
    if claim_set_found(map, query@.claims, ids) {
        assert forall|n: int| 0 <= n < names.len() implies found_by_name(
            query.claims@,
            found,
            (#[trigger] names[n])@,
        ) by {
            assert(named_claim_found(map, query@.claims, ids[n]));
        }
    }
    if names.len() > 0 && forall|n: int|
        0 <= n < names.len() ==> found_by_name(query.claims@, found, (#[trigger] names[n])@) {
        assert forall|n: int| 0 <= n < ids.len() implies named_claim_found(
            map,
            query@.claims,
            #[trigger] ids[n],
        ) by {
            assert(found_by_name(query.claims@, found, names[n]@));
        }
    }
}

/// An SD-JWT VC is of the type asked for where its own type is on the list, or none is listed; an
/// mdoc where it holds a document and each is of the type asked for, or none is asked for. Nothing
/// is of another format than its own.
pub proof fn law_types_are_those_asked_for(
    query: &CredentialQuery,
    format: Format,
    credential_type: &CredentialType,
    out: bool,
)
    requires
        call_ensures(format_and_meta_match, (query, format, credential_type), out),
    ensures
        query.format != format ==> !out,
        (query.meta is SdJwtVc) != (credential_type is Vct) ==> !out,
        query.format == format ==> (query.meta matches CredentialMeta::SdJwtVc { vct_values }
            ==> (credential_type matches CredentialType::Vct(vct) ==> (out <==> (vct_values is None
            || (vct matches Some(own) && exists|i: int|
            0 <= i < vct_values->Some_0@.len() && (#[trigger] vct_values->Some_0@[i])@ == own@))))),
        query.format == format ==> (query.meta matches CredentialMeta::Mdoc { doctype_value }
            ==> (credential_type matches CredentialType::DocTypes(doc_types) ==> (out <==> (
        doc_types@.len() > 0 && (doctype_value is None || forall|i: int|
            0 <= i < doc_types@.len() ==> (#[trigger] doc_types@[i])@
                == doctype_value->Some_0@))))),
{
    if query.format == format {
        if let CredentialMeta::SdJwtVc { vct_values } = query.meta {
            if let CredentialType::Vct(vct) = credential_type {
                if let (Some(listed), Some(own)) = (vct_values, vct) {
                    let all = texts(listed@);
                    assert forall|i: int| 0 <= i < all.len() implies (#[trigger] all[i])
                        == listed@[i]@ by {}
                    if out {
                        assert(all.contains(own@));
                        let i = choose|i: int| 0 <= i < all.len() && all[i] == own@;
                        assert(listed@[i]@ == own@);
                    }
                    if exists|i: int|
                        0 <= i < vct_values->Some_0@.len() && (#[trigger] vct_values->Some_0@[i])@
                            == own@ {
                        let i = choose|i: int|
                            0 <= i < vct_values->Some_0@.len() && (
                            #[trigger] vct_values->Some_0@[i])@ == own@;
                        assert(all[i] == own@);
                    }
                }
            }
        }
        if let CredentialMeta::Mdoc { doctype_value } = query.meta {
            if let CredentialType::DocTypes(doc_types) = credential_type {
                let all = texts(doc_types@);
                assert forall|i: int| 0 <= i < all.len() implies (#[trigger] all[i])
                    == doc_types@[i]@ by {}
                if out {
                    assert forall|i: int|
                        0 <= i < doc_types@.len() && doctype_value is Some implies (
                    #[trigger] doc_types@[i])@ == doctype_value->Some_0@ by {
                        assert(all[i] == doctype_value->Some_0@);
                    }
                }
            }
        }
    }
}

/// A presentation is what a credential query asks for where both its type and its claims are.
pub proof fn law_type_and_claims_are_both_needed(
    query: &CredentialQuery,
    format: Format,
    credential_type: &CredentialType,
    presented: &TextMap<AttributeValue>,
    of_type: bool,
    with_claims: bool,
    out: bool,
)
    requires
        call_ensures(format_and_meta_match, (query, format, credential_type), of_type),
        call_ensures(claims_satisfied, (query, presented), with_claims),
        call_ensures(query_satisfied_by, (query, format, credential_type, presented), out),
    ensures
        out <==> of_type && with_claims,
{
}

/// A query that was read passes a presentation exactly where the presentation is what one of its
/// credential queries asks for; it is inactive where it asks for no credential or could not be
/// read, and met by nothing where two credentials share a name.
pub proof fn law_queries_pass_what_one_part_asks_for(
    query: &Result<DcqlQuery, DcqlError>,
    format: Format,
    credential_type: &CredentialType,
    presented: &TextMap<AttributeValue>,
    met: Seq<bool>,
    out: DcqlGate,
)
    requires
        query matches Ok(read) ==> met.len() == read.credentials@.len(),
        query matches Ok(read) ==> forall|i: int|
            0 <= i < met.len() ==> call_ensures(
                query_satisfied_by,
                (&read.credentials@[i], format, credential_type, presented),
                #[trigger] met[i],
            ),
        call_ensures(evaluate_query, (query, format, credential_type, presented), out),
    ensures
        out == DcqlGate::Satisfied <==> query is Ok && exists|i: int|
            0 <= i < met.len() && #[trigger] met[i],
        out == DcqlGate::Inactive <==> *query == Err::<DcqlQuery, DcqlError>(DcqlError::Json)
            || *query == Err::<DcqlQuery, DcqlError>(DcqlError::NotAnObject) || (
        query matches Ok(read) && read.credentials@.len() == 0),
{
    if let Ok(read) = query {
        let content = read@;
        assert forall|i: int| 0 <= i < met.len() implies (#[trigger] content.credentials[i])
            == read.credentials@[i]@ && met[i] == query_met(
            content.credentials[i],
            format,
            credential_type@,
            attr_map(presented@),
        ) by {
            assert(met[i] == met[i]);
        }
        if out == DcqlGate::Satisfied {
            let i = choose|i: int|
                0 <= i < content.credentials.len() && query_met(
                    #[trigger] content.credentials[i],
                    format,
                    credential_type@,
                    attr_map(presented@),
                );
            assert(met[i]);
        }
        if exists|i: int| 0 <= i < met.len() && #[trigger] met[i] {
            let i = choose|i: int| 0 <= i < met.len() && #[trigger] met[i];
            assert(query_met(
                content.credentials[i],
                format,
                credential_type@,
                attr_map(presented@),
            ));
        }
    }
}

/// The text of a query has the verdict of the query that is read of it; a text of white
/// space alone asks for nothing.
pub proof fn law_texts_have_the_verdict_of_their_query(
    text: &str,
    format: Format,
    credential_type: &CredentialType,
    presented: &TextMap<AttributeValue>,
    query: Result<DcqlQuery, DcqlError>,
    verdict: DcqlGate,
    out: DcqlGate,
)
    requires
        call_ensures(DcqlQuery::parse, (text,), query),
        call_ensures(evaluate_query, (&query, format, credential_type, presented), verdict),
        call_ensures(evaluate_single, (text, format, credential_type, presented), out),
    ensures
        (forall|i: int|
            0 <= i < text@.len() ==> #[trigger] text@[i] == ' ' || text@[i] == '\t' || text@[i] == '\n'
                || text@[i] == '\r') ==> out == DcqlGate::Inactive,
        text@.contains('{') ==> out == verdict,
        text@.contains('[') ==> out == verdict,
        out == verdict || out == DcqlGate::Inactive,
{
    if text@.contains('{') {
        let i = choose|i: int| 0 <= i < text@.len() && text@[i] == '{';
        assert(!crate::text::white_space(text@[i]));
    }
    if text@.contains('[') {
        let i = choose|i: int| 0 <= i < text@.len() && text@[i] == '[';
        assert(!crate::text::white_space(text@[i]));
    }
}

/// Whether a name is on a list.
pub open spec fn listed(names: Seq<String>, name: Seq<char>) -> bool {
    exists|i: int| 0 <= i < names.len() && (#[trigger] names[i])@ == name
}

/// Whether all names of a list that is not empty are on another list.
pub open spec fn all_listed(wanted: Seq<String>, names: Seq<String>) -> bool {
    wanted.len() > 0 && forall|i: int|
        0 <= i < wanted.len() ==> listed(names, (#[trigger] wanted[i])@)
}

proof fn lemma_listed(names: Seq<String>, name: Seq<char>)
    ensures
        listed(names, name) == texts(names).contains(name),
{
    let all = texts(names);
    if listed(names, name) {
        let i = choose|i: int| 0 <= i < names.len() && (#[trigger] names[i])@ == name;
        assert(all[i] == name);
    }
    if all.contains(name) {
        let i = choose|i: int| 0 <= i < all.len() && all[i] == name;
        assert(names[i]@ == name);
    }
}

proof fn lemma_all_listed(wanted: Seq<String>, names: Seq<String>)
    ensures
        all_listed(wanted, names) == option_met(texts(wanted), texts(names)),
{
    let ids = texts(wanted);
    if all_listed(wanted, names) {
        assert forall|i: int| 0 <= i < ids.len() implies texts(names).contains(
            #[trigger] ids[i],
        ) by {
            assert(listed(names, wanted[i]@));
            lemma_listed(names, wanted[i]@);
        }
    }
    if option_met(ids, texts(names)) {
        assert forall|i: int| 0 <= i < wanted.len() implies listed(
            names,
            (#[trigger] wanted[i])@,
        ) by {
            assert(texts(names).contains(ids[i]));
            lemma_listed(names, wanted[i]@);
        }
    }
}

/// Without combinations every credential that a query names has to be there, and there has to be
/// one; with combinations, each list that is required has to have one whose credentials are all
/// there, and a list that is not required changes nothing.
pub proof fn law_credentials_are_there_together(
    query: &DcqlQuery,
    satisfied: &Vec<String>,
    out: bool,
)
    requires
        call_ensures(credential_sets_satisfied, (query, satisfied), out),
    ensures
        query.credential_sets@.len() == 0 ==> (out <==> query.credentials@.len() > 0 && forall|
            i: int,
        |
            0 <= i < query.credentials@.len() ==> listed(
                satisfied@,
                (#[trigger] query.credentials@[i]).id@,
            )),
        query.credential_sets@.len() > 0 ==> (out <==> forall|i: int|
            0 <= i < query.credential_sets@.len() && (#[trigger] query.credential_sets@[i]).required
                ==> some_listed(query.credential_sets@[i].options@, satisfied@)),
{
    let content = query@;
    if query.credential_sets@.len() == 0 {
        if out {
            assert forall|i: int| 0 <= i < query.credentials@.len() implies listed(
                satisfied@,
                (#[trigger] query.credentials@[i]).id@,
            ) by {
                assert(texts(satisfied@).contains(content.credentials[i].id));
                lemma_listed(satisfied@, query.credentials@[i].id@);
            }
        }
        if query.credentials@.len() > 0 && forall|i: int|
            0 <= i < query.credentials@.len() ==> listed(
                satisfied@,
                (#[trigger] query.credentials@[i]).id@,
            ) {
            assert forall|i: int| 0 <= i < content.credentials.len() implies texts(
                satisfied@,
            ).contains((#[trigger] content.credentials[i]).id) by {
                assert(listed(satisfied@, query.credentials@[i].id@));
                lemma_listed(satisfied@, query.credentials@[i].id@);
            }
        }
    } else {
        assert forall|i: int| 0 <= i < query.credential_sets@.len() implies (set_met(
            #[trigger] content.credential_sets[i],
            texts(satisfied@),
        ) <==> (query.credential_sets@[i].required ==> some_listed(
            query.credential_sets@[i].options@,
            satisfied@,
        ))) by {
            let set = query.credential_sets@[i];
            assert(content.credential_sets[i] == set@);
            lemma_some_listed(set.options@, satisfied@);
            let all = set@.options;
            assert(all == text_lists(set.options@));
            if exists|o: int| 0 <= o < all.len() && option_met(#[trigger] all[o], texts(satisfied@)) {
                let o = choose|o: int|
                    0 <= o < all.len() && option_met(#[trigger] all[o], texts(satisfied@));
                assert(option_met(text_lists(set.options@)[o], texts(satisfied@)));
            }
            if some_listed(set.options@, satisfied@) {
                let o = choose|o: int|
                    0 <= o < text_lists(set.options@).len() && option_met(
                        #[trigger] text_lists(set.options@)[o],
                        texts(satisfied@),
                    );
                assert(option_met(set@.options[o], texts(satisfied@)));
            }
        }
        if out {
            assert forall|i: int|
                0 <= i < query.credential_sets@.len() && (
                #[trigger] query.credential_sets@[i]).required implies some_listed(
                query.credential_sets@[i].options@,
                satisfied@,
            ) by {
                assert(set_met(content.credential_sets[i], texts(satisfied@)));
            }
        }
        if forall|i: int|
            0 <= i < query.credential_sets@.len() && (#[trigger] query.credential_sets@[i]).required
                ==> some_listed(query.credential_sets@[i].options@, satisfied@) {
            assert forall|i: int| 0 <= i < content.credential_sets.len() implies set_met(
                #[trigger] content.credential_sets[i],
                texts(satisfied@),
            ) by {
                let set = query.credential_sets@[i];
                assert(set.required ==> some_listed(set.options@, satisfied@));
            }
        }
    }
}

/// Whether some list has all its names on another list.
pub open spec fn some_listed(options: Seq<Vec<String>>, names: Seq<String>) -> bool {
    exists|o: int| 0 <= o < options.len() && all_listed((#[trigger] options[o])@, names)
}

proof fn lemma_some_listed(options: Seq<Vec<String>>, names: Seq<String>)
    ensures
        some_listed(options, names) <==> exists|o: int|
            0 <= o < text_lists(options).len() && option_met(
                #[trigger] text_lists(options)[o],
                texts(names),
            ),
{
    let all = text_lists(options);
    if some_listed(options, names) {
        let o = choose|o: int| 0 <= o < options.len() && all_listed((#[trigger] options[o])@, names);
        lemma_all_listed(options[o]@, names);
        assert(option_met(all[o], texts(names)));
    }
    if exists|o: int| 0 <= o < all.len() && option_met(#[trigger] all[o], texts(names)) {
        let o = choose|o: int| 0 <= o < all.len() && option_met(#[trigger] all[o], texts(names));
        lemma_all_listed(options[o]@, names);
        assert(all_listed(options[o]@, names));
    }
}

/// Person identification data goes by the types `urn:eudi:pid:1` and `eu.europa.ec.eudi.pid.1`, of
/// which an mdoc has the second alone; no other type has a role of its own.
pub proof fn law_types_of_person_identification_data(
    format: Format,
    type_id: &str,
    out: Option<IssuerRole>,
)
    requires
        call_ensures(role_from_type, (format, type_id), out),
    ensures
        out is Some ==> out == Some(IssuerRole::Pid),
        out is Some <==> type_id@ == "eu.europa.ec.eudi.pid.1"@ || (format == Format::SdJwtVc
            && type_id@ == "urn:eudi:pid:1"@),
{
}

/// A caller's role stands unless the type is that of person identification data and the role is
/// another.
pub proof fn law_callers_role_is_kept_or_refused(
    caller_role: IssuerRole,
    format: Format,
    type_id: &str,
    out: Result<IssuerRole, ()>,
    own: Option<IssuerRole>,
)
    requires
        call_ensures(reconcile_role, (caller_role, format, type_id), out),
        call_ensures(role_from_type, (format, type_id), own),
    ensures
        out matches Ok(role) ==> role == caller_role,
        out is Ok <==> own is None || caller_role == IssuerRole::Pid,
{
}

/// The expected type of a credential has the role of its document type, or that of its listed
/// types where all of them have one; without any type it has none.
pub proof fn law_role_of_an_expected_type(
    meta: &CredentialMeta,
    roles: Seq<Option<IssuerRole>>,
    out: Option<IssuerRole>,
)
    requires
        meta matches CredentialMeta::SdJwtVc { vct_values: Some(types) } ==> {
            &&& roles.len() == types@.len()
            &&& forall|i: int|
                0 <= i < roles.len() ==> roles[i] == (if (#[trigger] types@[i])@
                    == "urn:eudi:pid:1"@ || types@[i]@ == "eu.europa.ec.eudi.pid.1"@ {
                    Some(IssuerRole::Pid)
                } else {
                    None
                })
        },
        call_ensures(role_from_meta, (meta,), out),
    ensures
        meta matches CredentialMeta::SdJwtVc { vct_values: None } ==> out is None,
        meta matches CredentialMeta::Mdoc { doctype_value: None } ==> out is None,
        meta matches CredentialMeta::Mdoc { doctype_value: Some(doc_type) } ==> (if doc_type@
            == "eu.europa.ec.eudi.pid.1"@ {
            out == Some(IssuerRole::Pid)
        } else {
            out is None
        }),
        meta matches CredentialMeta::SdJwtVc { vct_values: Some(types) } ==> (out == Some(
            IssuerRole::Pid,
        ) <==> types@.len() > 0 && forall|i: int|
            0 <= i < roles.len() ==> #[trigger] roles[i] is Some),
        out is Some ==> out == Some(IssuerRole::Pid),
{
    if let CredentialMeta::SdJwtVc { vct_values: Some(types) } = meta {
        let all = texts(types@);
        assert forall|i: int| 0 <= i < all.len() implies (#[trigger] all[i]) == types@[i]@
            && roles[i] == crate::dcql::role::type_role(Format::SdJwtVc, all[i]) by {}
        if out is Some {
            assert forall|i: int| 0 <= i < roles.len() implies #[trigger] roles[i] is Some by {
                assert(crate::dcql::role::type_role(Format::SdJwtVc, all[i])
                    == crate::dcql::role::type_role(Format::SdJwtVc, all[0]));
            }
        }
        if types@.len() > 0 && forall|i: int| 0 <= i < roles.len() ==> #[trigger] roles[i] is Some {
            assert forall|i: int| 0 <= i < all.len() implies crate::dcql::role::type_role(
                Format::SdJwtVc,
                #[trigger] all[i],
            ) == crate::dcql::role::type_role(Format::SdJwtVc, all[0]) by {
                assert(roles[i] is Some && roles[0] is Some);
            }
        }
    }
}

} // verus!
