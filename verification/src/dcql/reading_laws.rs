//! What is read of the JSON value of a query.
use crate::dcql::{
    each, text_lists, ClaimValue, ClaimsQuery, CredentialMeta, CredentialQuery, CredentialSetQuery,
    DcqlError, DcqlQuery, PathComponent,
};
use crate::dcql::parse::{
    claim_of, claims_in, component_of, credential_of, every, format_from_identifier,
    has_duplicate_ids, id_list_of, parse_claim_sets, parse_claim_value, parse_path,
    parse_path_component, parse_values, readable, set_of, text_of, wanted_of,
};
use crate::json::{
    contents, json_i64, json_u64, lemma_array_content, lemma_object_content, member, read_back,
    text_member, Json, JsonValue,
};
use crate::text::texts;
use crate::text_map::TextMap;
use crate::types::Format;
use vstd::prelude::*;
use vstd::utf8::encode_utf8;

verus! {

/// The formats go by the identifiers `dc+sd-jwt`, `vc+sd-jwt` and `mso_mdoc`.
pub proof fn law_formats_have_identifiers(identifier: &str, out: Option<Format>)
    requires
        call_ensures(format_from_identifier, (identifier,), out),
    ensures
        out == Some(Format::SdJwtVc) <==> identifier@ == "dc+sd-jwt"@ || identifier@
            == "vc+sd-jwt"@,
        out == Some(Format::Mdoc) <==> identifier@ == "mso_mdoc"@,
{
    reveal_strlit("dc+sd-jwt");
    reveal_strlit("vc+sd-jwt");
    reveal_strlit("mso_mdoc");
    assert("mso_mdoc"@[0] != "dc+sd-jwt"@[0]);
    assert("mso_mdoc"@[0] != "vc+sd-jwt"@[0]);
}

/// Whether a step is the one that a JSON value stands for: a text is a key, a number an index where
/// it is one, null every element.
pub open spec fn step_says(value: JsonValue, step: PathComponent) -> bool {
    match value {
        JsonValue::Text(text) => step matches PathComponent::Key(key) && key@ == text@,
        JsonValue::Null => step is AllElements,
        JsonValue::Number(number) => if json_u64(number) is Some {
            step == PathComponent::Index(json_u64(number)->Some_0)
        } else {
            step is Unrepresentable
        },
        _ => false,
    }
}

/// A step of a path is read of a text, null or a number, and of nothing else.
pub proof fn law_steps_are_read(value: &JsonValue, out: Option<PathComponent>)
    requires
        call_ensures(parse_path_component, (value,), out),
    ensures
        out is None <==> value is Bool || value is Array || value is Object,
        out matches Some(step) ==> step_says(*value, step),
{
}

/// Whether a wanted value is the one that a JSON value stands for.
pub open spec fn wanted_says(value: JsonValue, wanted: ClaimValue) -> bool {
    match value {
        JsonValue::Text(text) => wanted matches ClaimValue::Text(own) && own@ == text@,
        JsonValue::Bool(b) => wanted == ClaimValue::Boolean(b),
        JsonValue::Number(number) => if json_i64(number) is Some {
            wanted == ClaimValue::Integer(json_i64(number)->Some_0)
        } else {
            wanted is Unrepresentable
        },
        _ => false,
    }
}

/// A wanted value is read of a text, a truth value or a number, and of nothing else.
pub proof fn law_wanted_values_are_read(value: &JsonValue, out: Option<ClaimValue>)
    requires
        call_ensures(parse_claim_value, (value,), out),
    ensures
        out is None <==> value is Null || value is Array || value is Object,
        out matches Some(wanted) ==> wanted_says(*value, wanted),
{
}

/// A path is read of an array that is not empty, one step of each item, and it is none where some
/// item is no step. An empty array is a path that leads nowhere.
pub proof fn law_paths_are_read(
    value: &JsonValue,
    items: Vec<JsonValue>,
    out: Option<Vec<PathComponent>>,
)
    requires
        call_ensures(parse_path, (value,), out),
    ensures
        !(value is Array) ==> out is None,
        *value == JsonValue::Array(items) && items@.len() == 0 ==> (out matches Some(path)
            && path@.len() == 1 && path@[0] is Unrepresentable),
        *value == JsonValue::Array(items) && items@.len() > 0 ==> (out is Some <==> forall|i: int|
            0 <= i < items@.len() ==> !(#[trigger] items@[i] is Bool || items@[i] is Array
                || items@[i] is Object)),
        *value == JsonValue::Array(items) && items@.len() > 0 ==> (out matches Some(path) ==> {
            &&& path@.len() == items@.len()
            &&& forall|i: int|
                0 <= i < path@.len() ==> step_says(items@[i], #[trigger] path@[i])
        }),
{
    lemma_array_content(items);
    if *value == JsonValue::Array(items) {
        let all = contents(items@);
        let read = |item: Json| component_of(item);
        assert forall|i: int| 0 <= i < items@.len() implies (#[trigger] all[i]) == items@[i]@
            && read(all[i]) == component_of(items@[i]@) by {}
        if items@.len() == 0 {
            let path = out->Some_0;
            assert(each(path@).len() == 1);
            assert(each(path@)[0] == path@[0]@);
        } else {
            if out is Some {
                let path = out->Some_0;
                assert(every(all, read) == Some(each(path@)));
                assert forall|i: int| 0 <= i < items@.len() implies !(#[trigger] items@[i] is Bool
                    || items@[i] is Array || items@[i] is Object) by {
                    assert(read(all[i]) is Some);
                }
                assert(each(path@).len() == items@.len());
                assert forall|i: int| 0 <= i < path@.len() implies step_says(
                    items@[i],
                    #[trigger] path@[i],
                ) by {
                    assert(each(path@)[i] == path@[i]@);
                    assert(read(all[i]) is Some);
                }
            }
            if forall|i: int|
                0 <= i < items@.len() ==> !(#[trigger] items@[i] is Bool || items@[i] is Array
                    || items@[i] is Object) {
                assert forall|i: int| 0 <= i < all.len() implies read(#[trigger] all[i]) is Some by {
                    assert(!(items@[i] is Bool || items@[i] is Array || items@[i] is Object));
                }
            }
        }
    }
}

/// Wanted values are read of an array that is not empty, one of each item, and there are none where
/// some item is no value. Anything else, and the empty array, stands for a value that no claim has.
pub proof fn law_lists_of_wanted_values_are_read(
    value: &JsonValue,
    items: Vec<JsonValue>,
    out: Option<Vec<ClaimValue>>,
)
    requires
        call_ensures(parse_values, (value,), out),
    ensures
        !(value is Array) || (*value == JsonValue::Array(items) && items@.len() == 0) ==> (
        out matches Some(values) && values@.len() == 1 && values@[0] is Unrepresentable),
        *value == JsonValue::Array(items) && items@.len() > 0 ==> (out is Some <==> forall|i: int|
            0 <= i < items@.len() ==> !(#[trigger] items@[i] is Null || items@[i] is Array
                || items@[i] is Object)),
        *value == JsonValue::Array(items) && items@.len() > 0 ==> (out matches Some(values) ==> {
            &&& values@.len() == items@.len()
            &&& forall|i: int|
                0 <= i < values@.len() ==> wanted_says(items@[i], #[trigger] values@[i])
        }),
{
    lemma_array_content(items);
    if !(value is Array) || (*value == JsonValue::Array(items) && items@.len() == 0) {
        let values = out->Some_0;
        assert(each(values@).len() == 1);
        assert(each(values@)[0] == values@[0]@);
    }
    if *value == JsonValue::Array(items) && items@.len() > 0 {
        let all = contents(items@);
        let read = |item: Json| wanted_of(item);
        assert forall|i: int| 0 <= i < items@.len() implies (#[trigger] all[i]) == items@[i]@
            && read(all[i]) == wanted_of(items@[i]@) by {}
        if out is Some {
            let values = out->Some_0;
            assert(every(all, read) == Some(each(values@)));
            assert forall|i: int| 0 <= i < items@.len() implies !(#[trigger] items@[i] is Null
                || items@[i] is Array || items@[i] is Object) by {
                assert(read(all[i]) is Some);
            }
            assert(each(values@).len() == items@.len());
            assert forall|i: int| 0 <= i < values@.len() implies wanted_says(
                items@[i],
                #[trigger] values@[i],
            ) by {
                assert(each(values@)[i] == values@[i]@);
                assert(read(all[i]) is Some);
            }
        }
        if forall|i: int|
            0 <= i < items@.len() ==> !(#[trigger] items@[i] is Null || items@[i] is Array
                || items@[i] is Object) {
            assert forall|i: int| 0 <= i < all.len() implies read(#[trigger] all[i]) is Some by {
                assert(!(items@[i] is Null || items@[i] is Array || items@[i] is Object));
            }
        }
    }
}

proof fn lemma_member(members: TextMap<JsonValue>, key: Seq<char>)
    ensures
        member(JsonValue::Object(members)@, key) == (if members@.contains_key(key) {
            Some(members@[key]@)
        } else {
            None
        }),
        text_member(JsonValue::Object(members)@, key) == (if members@.contains_key(key)
            && members@[key] is Text {
            Some(members@[key]->Text_0@)
        } else {
            None
        }),
{
    lemma_object_content(members);
}

/// A claim is read of an object with the name, the path and the values that stand under `id`,
/// `path` and `values`. An empty name is none, and without a path the claim leads nowhere.
pub proof fn law_claims_are_read(
    members: TextMap<JsonValue>,
    value: &JsonValue,
    path: Option<Vec<PathComponent>>,
    values: Option<Vec<ClaimValue>>,
    out: Option<ClaimsQuery>,
)
    requires
        *value == JsonValue::Object(members),
        members@.contains_key("path"@) ==> call_ensures(parse_path, (&members@["path"@],), path),
        members@.contains_key("values"@) ==> call_ensures(
            parse_values,
            (&members@["values"@],),
            values,
        ),
        call_ensures(ClaimsQuery::parse, (value,), out),
    ensures
        out is None <==> (members@.contains_key("path"@) && path is None) || (members@.contains_key(
            "values"@,
        ) && values is None),
        out matches Some(claim) ==> {
            &&& claim.id is Some <==> members@.contains_key("id"@) && (
            members@["id"@] matches JsonValue::Text(id) && id@.len() > 0)
            &&& claim.id matches Some(id) ==> JsonValue::Text(id)@ == members@["id"@]@
            &&& claim.values is Some <==> members@.contains_key("values"@)
            &&& claim.values is Some ==> each(claim.values->Some_0@) == each(values->Some_0@)
            &&& members@.contains_key("path"@) ==> each(claim.path@) == each(path->Some_0@)
            &&& !members@.contains_key("path"@) ==> claim.path@.len() == 1
                && claim.path@[0] is Unrepresentable
        },
{
    lemma_member(members, "id"@);
    lemma_member(members, "path"@);
    lemma_member(members, "values"@);
    lemma_object_content(members);
    if let Some(claim) = out {
        if !members@.contains_key("path"@) {
            assert(each(claim.path@).len() == 1);
            assert(each(claim.path@)[0] == claim.path@[0]@);
        }
    }
}

/// What is no object is a claim that is never found.
pub proof fn law_other_values_are_claims_never_found(value: &JsonValue, out: Option<ClaimsQuery>)
    requires
        !(value is Object),
        call_ensures(ClaimsQuery::parse, (value,), out),
    ensures
        out matches Some(claim) && claim.id is None && claim.values is None && claim.path@.len()
            == 1 && claim.path@[0] is Unrepresentable,
{
    let claim = out->Some_0;
    assert(each(claim.path@).len() == 1);
    assert(each(claim.path@)[0] == claim.path@[0]@);
}

/// A credential query has the name, the format, the choice of many and the claims that stand in its
/// object under `id`, `format`, `multiple` and `claims`; it is none without a name, without a
/// format that is known, with combinations but no claims, or with claims that cannot be read.
pub proof fn law_credential_queries_are_read(
    members: TextMap<JsonValue>,
    value: &JsonValue,
    items: Vec<JsonValue>,
    claims: Seq<Option<ClaimsQuery>>,
    out: Option<CredentialQuery>,
)
    requires
        *value == JsonValue::Object(members),
        members@.contains_key("claims"@) && members@["claims"@] is Array ==> members@["claims"@]
            == JsonValue::Array(items),
        claims.len() == items@.len(),
        forall|i: int|
            0 <= i < items@.len() ==> call_ensures(
                ClaimsQuery::parse,
                (&items@[i],),
                #[trigger] claims[i],
            ),
        call_ensures(CredentialQuery::parse, (value,), out),
    ensures
        out matches Some(query) ==> {
            &&& members@.contains_key("id"@) && members@["id"@] is Text && query.id@
                == members@["id"@]->Text_0@ && query.id@.len() > 0
            &&& members@.contains_key("format"@) && members@["format"@] is Text
            &&& query.format == Format::Mdoc <==> members@["format"@]->Text_0@ == "mso_mdoc"@
            &&& query.format == Format::SdJwtVc ==> members@["format"@]->Text_0@ == "dc+sd-jwt"@
                || members@["format"@]->Text_0@ == "vc+sd-jwt"@
            &&& query.multiple <==> members@.contains_key("multiple"@) && members@["multiple"@]
                == JsonValue::Bool(true)
            &&& !members@.contains_key("claims"@) ==> query.claims@.len() == 0
            &&& members@.contains_key("claims"@) ==> {
                &&& members@["claims"@] is Array
                &&& query.claims@.len() == items@.len() && items@.len() > 0
                &&& forall|i: int|
                    0 <= i < items@.len() ==> (#[trigger] claims[i] matches Some(claim) && claim@
                        == query.claims@[i]@)
            }
            &&& !members@.contains_key("claim_sets"@) ==> query.claim_sets@.len() == 0
            &&& query.claim_sets@.len() > 0 ==> query.claims@.len() > 0
        },
        out is Some <== {
            &&& members@.contains_key("id"@) && members@["id"@] is Text
                && members@["id"@]->Text_0@.len() > 0
            &&& members@.contains_key("format"@) && members@["format"@] is Text && (
            members@["format"@]->Text_0@ == "mso_mdoc"@ || members@["format"@]->Text_0@
                == "dc+sd-jwt"@ || members@["format"@]->Text_0@ == "vc+sd-jwt"@)
            &&& members@.contains_key("claims"@) ==> members@["claims"@] is Array && items@.len()
                > 0 && forall|i: int| 0 <= i < items@.len() ==> #[trigger] claims[i] is Some
            &&& !members@.contains_key("claims"@) ==> !members@.contains_key("claim_sets"@)
        },
{
    lemma_member(members, "id"@);
    lemma_member(members, "format"@);
    lemma_member(members, "multiple"@);
    lemma_member(members, "claims"@);
    lemma_member(members, "claim_sets"@);
    lemma_array_content(items);
    let all = contents(items@);
    let read = |item: Json| claim_of(item);
    reveal_strlit("dc+sd-jwt");
    reveal_strlit("vc+sd-jwt");
    reveal_strlit("mso_mdoc");
    assert("mso_mdoc"@[0] != "dc+sd-jwt"@[0]);
    assert("mso_mdoc"@[0] != "vc+sd-jwt"@[0]);
    assert forall|i: int| 0 <= i < items@.len() implies (#[trigger] all[i]) == items@[i]@ && read(
        all[i],
    ) == (match claims[i] {
        Some(claim) => Some(claim@),
        None => None,
    }) by {
        assert(claims[i] == claims[i]);
    }
    if members@.contains_key("claims"@) && members@["claims"@] is Array {
        assert(member(value@, "claims"@) == Some(Json::Array(all)));
        if items@.len() > 0 && forall|i: int| 0 <= i < items@.len() ==> #[trigger] claims[i] is Some {
            assert forall|i: int| 0 <= i < all.len() implies read(#[trigger] all[i]) is Some by {
                assert(claims[i] is Some);
            }
            assert(every(all, read) is Some);
        }
    }
    if let Some(query) = out {
        assert(query@.claim_sets.len() == query.claim_sets@.len());
        assert(query@.claims.len() == query.claims@.len());
        if members@.contains_key("claims"@) {
            assert(claims_in(value@) == every(all, read));
            assert(every(all, read) == Some(query@.claims));
            assert forall|i: int| 0 <= i < items@.len() implies (
            #[trigger] claims[i] matches Some(claim) && claim@ == query.claims@[i]@) by {
                assert(read(all[i]) is Some);
                assert(query@.claims[i] == query.claims@[i]@);
            }
        }
    }
}

/// Whether a text is among the expected types.
pub open spec fn expects(types: Option<Vec<String>>, text: Seq<char>) -> bool {
    types matches Some(types) && exists|i: int|
        0 <= i < types@.len() && (#[trigger] types@[i])@ == text
}

/// Whether a text is among the items of an array.
pub open spec fn has_text(items: Seq<JsonValue>, text: Seq<char>) -> bool {
    exists|i: int|
        0 <= i < items.len() && #[trigger] items[i] is Text && items[i]->Text_0@ == text
}

/// The expected type stands under `doctype_value` for an mdoc; for an SD-JWT VC the texts of the
/// array under `vct_values` are the expected ones, and no text there means any type.
pub proof fn law_expected_types_are_read(
    members: TextMap<JsonValue>,
    value: &JsonValue,
    format: Format,
    items: Vec<JsonValue>,
    out: CredentialMeta,
)
    requires
        *value == JsonValue::Object(members),
        call_ensures(CredentialMeta::parse, (format, Some(value)), out),
    ensures
        format == Format::Mdoc <==> out is Mdoc,
        out matches CredentialMeta::Mdoc { doctype_value } ==> {
            &&& doctype_value is Some <==> members@.contains_key("doctype_value"@)
                && members@["doctype_value"@] is Text
            &&& doctype_value is Some ==> doctype_value->Some_0@
                == members@["doctype_value"@]->Text_0@
        },
        out matches CredentialMeta::SdJwtVc { vct_values } ==> {
            &&& !members@.contains_key("vct_values"@) || !(members@["vct_values"@] is Array)
                ==> vct_values is None
            &&& members@.contains_key("vct_values"@) && members@["vct_values"@]
                == JsonValue::Array(items) ==> forall|text: Seq<char>| #[trigger]
                expects(vct_values, text) <==> has_text(items@, text)
            &&& vct_values matches Some(types) ==> types@.len() > 0
        },
        call_ensures(CredentialMeta::parse, (format, None::<&JsonValue>), out) ==> (
        out matches CredentialMeta::Mdoc { doctype_value: None } || out matches
        CredentialMeta::SdJwtVc { vct_values: None }),
{
    lemma_member(members, "doctype_value"@);
    lemma_member(members, "vct_values"@);
    if format == Format::SdJwtVc && members@.contains_key("vct_values"@) && members@["vct_values"@]
        == JsonValue::Array(items) {
        lemma_array_content(items);
        let all = contents(items@);
        let read = |item: Json| text_of(item);
        let types = readable(all, read);
        let vct_values = out->vct_values;
        assert forall|text: Seq<char>| #[trigger] expects(vct_values, text) <==> has_text(
            items@,
            text,
        ) by {
            lemma_readable_contains(all, read, text);
            if let Some(own) = vct_values {
                assert(types == texts(own@));
                if types.contains(text) {
                    let k = choose|k: int| 0 <= k < types.len() && types[k] == text;
                    assert(own@[k]@ == text);
                }
                if expects(vct_values, text) {
                    let k = choose|k: int| 0 <= k < own@.len() && (#[trigger] own@[k])@ == text;
                    assert(types[k] == text);
                }
            } else {
                assert(types.len() == 0);
            }
            if types.contains(text) {
                let i = choose|i: int|
                    0 <= i < all.len() && read(#[trigger] all[i]) == Some(text);
                assert(items@[i] is Text && items@[i]->Text_0@ == text);
            }
            if has_text(items@, text) {
                let i = choose|i: int|
                    0 <= i < items@.len() && #[trigger] items@[i] is Text && items@[i]->Text_0@
                        == text;
                assert(all[i] == items@[i]@);
                assert(read(all[i]) == Some(text));
            }
        }
    }
}

proof fn lemma_readable_contains<T>(
    items: Seq<Json>,
    read: spec_fn(Json) -> Option<T>,
    found: T,
)
    ensures
        readable(items, read).contains(found) <==> exists|i: int|
            0 <= i < items.len() && read(#[trigger] items[i]) == Some(found),
    decreases items.len(),
{
    if items.len() > 0 {
        let shorter = items.drop_last();
        let earlier = readable(shorter, read);
        let all = readable(items, read);
        lemma_readable_contains(shorter, read, found);
        if all.contains(found) {
            let k = choose|k: int| 0 <= k < all.len() && all[k] == found;
            if k < earlier.len() {
                assert(earlier[k] == found);
                let i = choose|i: int|
                    0 <= i < shorter.len() && read(#[trigger] shorter[i]) == Some(found);
                assert(items[i] == shorter[i]);
            } else {
                assert(read(items[items.len() - 1]) == Some(found));
            }
        }
        if exists|i: int| 0 <= i < items.len() && read(#[trigger] items[i]) == Some(found) {
            let i = choose|i: int|
                0 <= i < items.len() && read(#[trigger] items[i]) == Some(found);
            if i < shorter.len() {
                assert(shorter[i] == items[i]);
                let k = choose|k: int| 0 <= k < earlier.len() && earlier[k] == found;
                assert(all[k] == found);
            } else {
                assert(all[earlier.len() as int] == found);
            }
        }
    }
}

/// What was read of those that could be, in order.
pub open spec fn those_read<T>(results: Seq<Option<T>>) -> Seq<T>
    decreases results.len(),
{
    if results.len() == 0 {
        Seq::empty()
    } else if results.last() is Some {
        those_read(results.drop_last()).push(results.last()->Some_0)
    } else {
        those_read(results.drop_last())
    }
}

proof fn lemma_those_read<T: View>(
    items: Seq<Json>,
    read: spec_fn(Json) -> Option<T::V>,
    results: Seq<Option<T>>,
)
    requires
        results.len() == items.len(),
        forall|i: int|
            0 <= i < items.len() ==> read(#[trigger] items[i]) == (match results[i] {
                Some(result) => Some(result@),
                None => None,
            }),
    ensures
        readable(items, read) == each(those_read(results)),
    decreases items.len(),
{
    if items.len() == 0 {
        assert(readable(items, read) =~= each(those_read(results)));
    } else {
        let shorter = items.drop_last();
        let fewer = results.drop_last();
        assert forall|i: int| 0 <= i < shorter.len() implies read(#[trigger] shorter[i]) == (
        match fewer[i] {
            Some(result) => Some(result@),
            None => None,
        }) by {
            assert(shorter[i] == items[i]);
        }
        lemma_those_read(shorter, read, fewer);
        assert(read(items[items.len() - 1]) == read(items.last()));
        assert(readable(items, read) =~= each(those_read(results)));
    }
}

/// A query is an object. Its credential queries are those that can be read of the array under
/// `credentials`, in order, and its combinations those of the array under `credential_sets`; it is
/// refused exactly where two of its credential queries have one name.
pub proof fn law_queries_are_read(
    members: TextMap<JsonValue>,
    value: &JsonValue,
    items: Vec<JsonValue>,
    credentials: Seq<Option<CredentialQuery>>,
    lists: Vec<JsonValue>,
    sets: Seq<Option<CredentialSetQuery>>,
    out: Result<DcqlQuery, DcqlError>,
)
    requires
        *value == JsonValue::Object(members),
        if members@.contains_key("credentials"@) && members@["credentials"@] is Array {
            members@["credentials"@] == JsonValue::Array(items)
        } else {
            items@.len() == 0
        },
        if members@.contains_key("credential_sets"@) && members@["credential_sets"@] is Array {
            members@["credential_sets"@] == JsonValue::Array(lists)
        } else {
            lists@.len() == 0
        },
        credentials.len() == items@.len(),
        sets.len() == lists@.len(),
        forall|i: int|
            0 <= i < items@.len() ==> call_ensures(
                CredentialQuery::parse,
                (&items@[i],),
                #[trigger] credentials[i],
            ),
        forall|i: int|
            0 <= i < lists@.len() ==> call_ensures(
                CredentialSetQuery::parse,
                (&lists@[i],),
                #[trigger] sets[i],
            ),
        call_ensures(DcqlQuery::from_value, (value,), out),
    ensures
        out is Err <==> exists|i: int, j: int|
            0 <= i < j < those_read(credentials).len() && (#[trigger] those_read(
                credentials,
            )[i]).id@ == (#[trigger] those_read(credentials)[j]).id@,
        out matches Err(error) ==> error == DcqlError::DuplicateCredentialId,
        out matches Ok(query) ==> {
            &&& each(query.credentials@) == each(those_read(credentials))
            &&& each(query.credential_sets@) == each(those_read(sets))
        },
{
    lemma_member(members, "credentials"@);
    lemma_member(members, "credential_sets"@);
    lemma_array_content(items);
    lemma_array_content(lists);
    lemma_object_content(members);
    let all = contents(items@);
    let all_sets = contents(lists@);
    let read = |item: Json| credential_of(item);
    let read_set = |item: Json| set_of(item);
    assert forall|i: int| 0 <= i < all.len() implies read(#[trigger] all[i]) == (
    match credentials[i] {
        Some(result) => Some(result@),
        None => None,
    }) by {
        assert(credentials[i] == credentials[i]);
        assert(all[i] == items@[i]@);
    }
    assert forall|i: int| 0 <= i < all_sets.len() implies read_set(#[trigger] all_sets[i]) == (
    match sets[i] {
        Some(result) => Some(result@),
        None => None,
    }) by {
        assert(sets[i] == sets[i]);
        assert(all_sets[i] == lists@[i]@);
    }
    lemma_those_read(all, read, credentials);
    lemma_those_read(all_sets, read_set, sets);
    assert(crate::dcql::parse::items_in(value@, "credentials"@) =~= all);
    assert(crate::dcql::parse::items_in(value@, "credential_sets"@) =~= all_sets);
    let found = those_read(credentials);
    assert forall|i: int| 0 <= i < found.len() implies (#[trigger] each(found)[i]).id
        == found[i].id@ by {}
    if out is Err {
        let (i, j) = choose|i: int, j: int|
            0 <= i < j < each(found).len() && (#[trigger] each(found)[i]).id == (
            #[trigger] each(found)[j]).id;
        assert(found[i].id@ == found[j].id@);
    }
    if exists|i: int, j: int|
        0 <= i < j < those_read(credentials).len() && (#[trigger] those_read(credentials)[i]).id@
            == (#[trigger] those_read(credentials)[j]).id@ {
        let (i, j) = choose|i: int, j: int|
            0 <= i < j < those_read(credentials).len() && (#[trigger] those_read(
                credentials,
            )[i]).id@ == (#[trigger] those_read(credentials)[j]).id@;
        assert(each(found)[i].id == each(found)[j].id);
        assert(has_duplicate_ids(each(found)));
    }
}

/// What is no object is no query.
pub proof fn law_other_values_are_no_queries(
    value: &JsonValue,
    out: Result<DcqlQuery, DcqlError>,
)
    requires
        !(value is Object),
        call_ensures(DcqlQuery::from_value, (value,), out),
    ensures
        out == Err::<DcqlQuery, DcqlError>(DcqlError::NotAnObject),
{
}

/// A list of combinations stands under `options`, an array that is not empty of arrays of texts;
/// one of them is required unless `required` is false.
pub proof fn law_combinations_are_read(
    members: TextMap<JsonValue>,
    value: &JsonValue,
    items: Vec<JsonValue>,
    out: Option<CredentialSetQuery>,
)
    requires
        *value == JsonValue::Object(members),
        call_ensures(CredentialSetQuery::parse, (value,), out),
    ensures
        out matches Some(set) ==> (set.required <==> !(members@.contains_key("required"@)
            && members@["required"@] == JsonValue::Bool(false))),
        out is Some ==> members@.contains_key("options"@) && members@["options"@] is Array,
        members@.contains_key("options"@) && members@["options"@] == JsonValue::Array(items) ==> {
            &&& out is Some <==> items@.len() > 0 && forall|i: int|
                0 <= i < items@.len() ==> is_text_list(#[trigger] items@[i])
            &&& out matches Some(set) ==> {
                &&& set.options@.len() == items@.len()
                &&& forall|i: int|
                    0 <= i < items@.len() ==> Json::Array(
                        (#[trigger] set.options@[i])@.map_values(|name: String| Json::Text(name@)),
                    ) == items@[i]@
            }
        },
{
    lemma_member(members, "options"@);
    lemma_member(members, "required"@);
    if members@.contains_key("options"@) && members@["options"@] == JsonValue::Array(items) {
        lemma_array_content(items);
        let all = contents(items@);
        let read = |item: Json| id_list_of(item);
        assert forall|i: int| 0 <= i < items@.len() implies (#[trigger] all[i]) == items@[i]@ && (
        read(all[i]) is Some <==> is_text_list(items@[i])) by {
            lemma_text_list(items@[i]);
        }
        if items@.len() > 0 && forall|i: int|
            0 <= i < items@.len() ==> is_text_list(#[trigger] items@[i]) {
            assert forall|i: int| 0 <= i < all.len() implies read(#[trigger] all[i]) is Some by {
                assert(is_text_list(items@[i]));
            }
            assert(every(all, read) is Some);
        }
        if let Some(set) = out {
            assert(every(all, read) == Some(set@.options));
            assert forall|i: int| 0 <= i < items@.len() implies is_text_list(
                #[trigger] items@[i],
            ) by {
                assert(read(all[i]) is Some);
            }
            assert(set@.options.len() == set.options@.len());
            assert forall|i: int| 0 <= i < items@.len() implies Json::Array(
                (#[trigger] set.options@[i])@.map_values(|name: String| Json::Text(name@)),
            ) == items@[i]@ by {
                assert(read(all[i]) is Some);
                assert(set@.options[i] == texts(set.options@[i]@));
                lemma_names(items@[i], set.options@[i]@);
            }
        }
    }
}

/// The combinations of claims are the lists of texts of an array, in order; what is no list of
/// texts is a combination of one empty name, which no claim has.
pub proof fn law_combinations_of_claims_are_read(
    value: &JsonValue,
    items: Vec<JsonValue>,
    out: Vec<Vec<String>>,
)
    requires
        call_ensures(parse_claim_sets, (value,), out),
    ensures
        !(value is Array) ==> out@.len() == 1 && out@[0]@.len() == 1 && out@[0]@[0]@.len() == 0,
        *value == JsonValue::Array(items) ==> {
            &&& out@.len() == items@.len()
            &&& forall|i: int|
                0 <= i < items@.len() ==> (if is_text_list(items@[i]) {
                    Json::Array(
                        (#[trigger] out@[i])@.map_values(|name: String| Json::Text(name@)),
                    ) == items@[i]@
                } else {
                    out@[i]@.len() == 1 && out@[i]@[0]@.len() == 0
                })
        },
{
    let lists = text_lists(out@);
    assert(lists.len() == out@.len());
    assert forall|i: int| 0 <= i < out@.len() implies (#[trigger] lists[i]) == texts(
        out@[i]@,
    ) && lists[i].len() == out@[i]@.len() && (out@[i]@.len() > 0 ==> lists[i][0]
        == out@[i]@[0]@) by {}
    if !(value is Array) {
        assert(lists.len() == 1);
        assert(lists[0].len() == 1 && lists[0][0].len() == 0);
    }
    if *value == JsonValue::Array(items) {
        lemma_array_content(items);
        let all = contents(items@);
        assert forall|i: int| 0 <= i < items@.len() implies (if is_text_list(items@[i]) {
            Json::Array((#[trigger] out@[i])@.map_values(|name: String| Json::Text(name@)))
                == items@[i]@
        } else {
            out@[i]@.len() == 1 && out@[i]@[0]@.len() == 0
        }) by {
            lemma_text_list(items@[i]);
            assert(all[i] == items@[i]@);
            assert(lists[i] == crate::dcql::parse::claim_set_of(all[i]));
            if is_text_list(items@[i]) {
                lemma_names(items@[i], out@[i]@);
            }
        }
    }
}

proof fn lemma_names(value: JsonValue, names: Seq<String>)
    requires
        id_list_of(value@) == Some(texts(names)),
    ensures
        Json::Array(names.map_values(|name: String| Json::Text(name@))) == value@,
{
    let inner = value->Array_0;
    assert(value == JsonValue::Array(inner));
    lemma_array_content(inner);
    let read = |item: Json| text_of(item);
    assert(every(contents(inner@), read) == Some(texts(names)));
    let back = names.map_values(|name: String| Json::Text(name@));
    assert(texts(names).len() == contents(inner@).len());
    assert forall|k: int| 0 <= k < names.len() implies back[k] == #[trigger] contents(
        inner@,
    )[k] by {
        assert(read(contents(inner@)[k]) is Some);
        assert(texts(names)[k] == names[k]@);
    }
    assert(back =~= contents(inner@));
}

/// The expected type and the combinations of claims of a credential query are those that stand in
/// its object under `meta` and `claim_sets`.
pub proof fn law_credential_queries_hold_their_parts(
    members: TextMap<JsonValue>,
    value: &JsonValue,
    query: CredentialQuery,
    meta: CredentialMeta,
    sets: Vec<Vec<String>>,
)
    requires
        *value == JsonValue::Object(members),
        call_ensures(CredentialQuery::parse, (value,), Some(query)),
        members@.contains_key("meta"@) ==> call_ensures(
            CredentialMeta::parse,
            (query.format, Some(&members@["meta"@])),
            meta,
        ),
        members@.contains_key("claim_sets"@) ==> call_ensures(
            parse_claim_sets,
            (&members@["claim_sets"@],),
            sets,
        ),
    ensures
        members@.contains_key("meta"@) ==> query.meta@ == meta@,
        !members@.contains_key("meta"@) ==> (
        query.meta matches CredentialMeta::Mdoc { doctype_value: None } || query.meta matches
        CredentialMeta::SdJwtVc { vct_values: None }),
        members@.contains_key("claim_sets"@) ==> text_lists(query.claim_sets@) == text_lists(sets@),
        query.meta is Mdoc <==> query.format == Format::Mdoc,
{
    lemma_member(members, "meta"@);
    lemma_member(members, "claim_sets"@);
}

/// Whether a value is an array of texts.
pub open spec fn is_text_list(value: JsonValue) -> bool {
    value matches JsonValue::Array(items) && forall|i: int|
        0 <= i < items@.len() ==> #[trigger] items@[i] is Text
}

proof fn lemma_text_list(value: JsonValue)
    ensures
        id_list_of(value@) is Some <==> is_text_list(value),
{
    if let JsonValue::Array(items) = value {
        lemma_array_content(items);
        let all = contents(items@);
        let read = |item: Json| text_of(item);
        assert forall|i: int| 0 <= i < items@.len() implies (#[trigger] all[i]) == items@[i]@ && (
        read(all[i]) is Some <==> items@[i] is Text) by {}
        if every(all, read) is Some {
            assert forall|i: int| 0 <= i < items@.len() implies #[trigger] items@[i] is Text by {
                assert(read(all[i]) is Some);
            }
        }
        if is_text_list(value) {
            assert forall|i: int| 0 <= i < all.len() implies read(#[trigger] all[i]) is Some by {
                assert(items@[i] is Text);
            }
        }
    }
}

/// A text is read as the query that its JSON value stands for, and is none where it is not JSON.
pub proof fn law_texts_are_read_as_json(
    text: &str,
    value: &JsonValue,
    query: Result<DcqlQuery, DcqlError>,
    out: Result<DcqlQuery, DcqlError>,
)
    requires
        call_ensures(DcqlQuery::parse, (text,), out),
        read_back(encode_utf8(text@)) matches Some(json) ==> value@ == json,
        call_ensures(DcqlQuery::from_value, (value,), query),
    ensures
        read_back(encode_utf8(text@)) is None ==> out == Err::<DcqlQuery, DcqlError>(
            DcqlError::Json,
        ),
        read_back(encode_utf8(text@)) is Some ==> (match query {
            Ok(read) => out matches Ok(same) && same@ == read@,
            Err(error) => out == Err::<DcqlQuery, DcqlError>(error),
        }),
{
}

} // verus!
