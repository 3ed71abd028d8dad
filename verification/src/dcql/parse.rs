//! Reading a query from its JSON text.
use crate::dcql::{
    each, text_lists, Claim, ClaimValue, ClaimsQuery, Component, Credential, CredentialMeta,
    CredentialQuery, CredentialSetQuery, DcqlError, DcqlQuery, Meta, PathComponent, Query, SetQuery,
    Wanted,
};
use crate::json::{
    array_member, contents, get_array, get_member, get_text, json_i64, json_read, json_u64,
    lemma_array_content, member, number_i64, number_u64, parse, text_member, Json, JsonValue,
};
use crate::text::{str_eq, text_bytes, texts};
use crate::types::Format;
use vstd::prelude::*;
use vstd::utf8::encode_utf8;

verus! {

/// What is read of every item, or nothing where some item is no such thing.
pub open spec fn every<T>(items: Seq<Json>, read: spec_fn(Json) -> Option<T>) -> Option<Seq<T>> {
    if forall|i: int| 0 <= i < items.len() ==> read(#[trigger] items[i]) is Some {
        Some(items.map_values(|item: Json| read(item)->Some_0))
    } else {
        None
    }
}

/// What is read of the items that are such a thing, in order.
pub open spec fn readable<T>(items: Seq<Json>, read: spec_fn(Json) -> Option<T>) -> Seq<T>
    decreases items.len(),
{
    if items.len() == 0 {
        Seq::empty()
    } else {
        let earlier = readable(items.drop_last(), read);
        match read(items.last()) {
            Some(value) => earlier.push(value),
            None => earlier,
        }
    }
}

/// The format that an identifier names, where it is a supported one.
pub open spec fn named_format(identifier: Seq<char>) -> Option<Format> {
    if identifier == "dc+sd-jwt"@ || identifier == "vc+sd-jwt"@ {
        Some(Format::SdJwtVc)
    } else if identifier == "mso_mdoc"@ {
        Some(Format::Mdoc)
    } else {
        None
    }
}

/// The format that an identifier names.
pub fn format_from_identifier(identifier: &str) -> (out: Option<Format>)
    ensures
        out == named_format(identifier@),
{
    if str_eq(identifier, "dc+sd-jwt") || str_eq(identifier, "vc+sd-jwt") {
        Some(Format::SdJwtVc)
    } else if str_eq(identifier, "mso_mdoc") {
        Some(Format::Mdoc)
    } else {
        None
    }
}

/// A step of a path: a text is a key, a number an index, null every element. A number that is no
/// index leads nowhere; anything else is no step.
pub open spec fn component_of(value: Json) -> Option<Component> {
    match value {
        Json::Text(key) => Some(Component::Key(key)),
        Json::Null => Some(Component::AllElements),
        Json::Number(number) => match json_u64(number) {
            Some(index) => Some(Component::Index(index)),
            None => Some(Component::Unrepresentable),
        },
        _ => None,
    }
}

/// Read a step of a path.
pub fn parse_path_component(value: &JsonValue) -> (out: Option<PathComponent>)
    ensures
        match out {
            Some(component) => component_of(value@) == Some(component@),
            None => component_of(value@) is None,
        },
{
    match value {
        JsonValue::Text(key) => Some(PathComponent::Key(key.clone())),
        JsonValue::Null => Some(PathComponent::AllElements),
        JsonValue::Number(number) => match number_u64(number) {
            Some(index) => Some(PathComponent::Index(index)),
            None => Some(PathComponent::Unrepresentable),
        },
        _ => None,
    }
}

/// A path: an array of steps. The empty array leads nowhere; what is no array, or holds what is no
/// step, is no path.
pub open spec fn path_in(value: Json) -> Option<Seq<Component>> {
    match value {
        Json::Array(items) => if items.len() == 0 {
            Some(seq![Component::Unrepresentable])
        } else {
            every(items, |item: Json| component_of(item))
        },
        _ => None,
    }
}

/// Read a path.
pub fn parse_path(value: &JsonValue) -> (out: Option<Vec<PathComponent>>)
    ensures
        match out {
            Some(path) => path_in(value@) == Some(each(path@)),
            None => path_in(value@) is None,
        },
{
    match value {
        JsonValue::Array(items) => {
            proof {
                lemma_array_content(*items);
            }
            let ghost all = contents(items@);
            let ghost read = |item: Json| component_of(item);
            if items.len() == 0 {
                let nowhere = vec![PathComponent::Unrepresentable];
                assert(each(nowhere@) =~= seq![Component::Unrepresentable]);
                return Some(nowhere);
            }
            let mut path: Vec<PathComponent> = Vec::new();
            let mut i: usize = 0;
            while i < items.len()
                invariant
                    i <= items@.len(),
                    items@.len() > 0,
                    all == contents(items@),
                    value@ == Json::Array(all),
                    path@.len() == i,
                    forall|j: int|
                        0 <= j < i ==> component_of(#[trigger] all[j]) == Some(path@[j]@),
                decreases items@.len() - i,
            {
                assert(all[i as int] == items@[i as int]@);
                match parse_path_component(&items[i]) {
                    Some(component) => {
                        path.push(component);
                    },
                    None => {
                        proof {
                            let read = |item: Json| component_of(item);
                            assert(read(all[i as int]) is None);
                        }
                        return None;
                    },
                }
                i += 1;
            }
            proof {
                assert(each(path@) =~= all.map_values(|item: Json| read(item)->Some_0));
            }
            Some(path)
        },
        _ => None,
    }
}

/// A wanted value: a text, an integer or a truth value. A number that is no integer in range is one
/// that no claim has; anything else is no value.
pub open spec fn wanted_of(value: Json) -> Option<Wanted> {
    match value {
        Json::Text(text) => Some(Wanted::Text(text)),
        Json::Bool(boolean) => Some(Wanted::Boolean(boolean)),
        Json::Number(number) => match json_i64(number) {
            Some(integer) => Some(Wanted::Integer(integer)),
            None => Some(Wanted::Unrepresentable),
        },
        _ => None,
    }
}

/// Read a wanted value.
pub fn parse_claim_value(value: &JsonValue) -> (out: Option<ClaimValue>)
    ensures
        match out {
            Some(wanted) => wanted_of(value@) == Some(wanted@),
            None => wanted_of(value@) is None,
        },
{
    match value {
        JsonValue::Text(text) => Some(ClaimValue::Text(text.clone())),
        JsonValue::Bool(boolean) => Some(ClaimValue::Boolean(*boolean)),
        JsonValue::Number(number) => match number_i64(number) {
            Some(integer) => Some(ClaimValue::Integer(integer)),
            None => Some(ClaimValue::Unrepresentable),
        },
        _ => None,
    }
}

/// Wanted values: an array of them. What is no array, and the empty array, is one that no claim
/// has; an array that holds what is no value is nothing.
pub open spec fn values_in(value: Json) -> Option<Seq<Wanted>> {
    match value {
        Json::Array(items) => if items.len() == 0 {
            Some(seq![Wanted::Unrepresentable])
        } else {
            every(items, |item: Json| wanted_of(item))
        },
        _ => Some(seq![Wanted::Unrepresentable]),
    }
}

/// Read wanted values.
pub fn parse_values(value: &JsonValue) -> (out: Option<Vec<ClaimValue>>)
    ensures
        match out {
            Some(values) => values_in(value@) == Some(each(values@)),
            None => values_in(value@) is None,
        },
{
    let unmatched = vec![ClaimValue::Unrepresentable];
    assert(each(unmatched@) =~= seq![Wanted::Unrepresentable]);
    match value {
        JsonValue::Array(items) => {
            proof {
                lemma_array_content(*items);
            }
            let ghost all = contents(items@);
            let ghost read = |item: Json| wanted_of(item);
            if items.len() == 0 {
                return Some(unmatched);
            }
            let mut values: Vec<ClaimValue> = Vec::new();
            let mut i: usize = 0;
            while i < items.len()
                invariant
                    i <= items@.len(),
                    items@.len() > 0,
                    all == contents(items@),
                    value@ == Json::Array(all),
                    values@.len() == i,
                    forall|j: int|
                        0 <= j < i ==> wanted_of(#[trigger] all[j]) == Some(values@[j]@),
                decreases items@.len() - i,
            {
                assert(all[i as int] == items@[i as int]@);
                match parse_claim_value(&items[i]) {
                    Some(wanted) => {
                        values.push(wanted);
                    },
                    None => {
                        proof {
                            let read = |item: Json| wanted_of(item);
                            assert(read(all[i as int]) is None);
                        }
                        return None;
                    },
                }
                i += 1;
            }
            proof {
                assert(each(values@) =~= all.map_values(|item: Json| read(item)->Some_0));
            }
            Some(values)
        },
        _ => Some(unmatched),
    }
}

/// A claim that is never found.
pub open spec fn unsatisfiable_claim() -> Claim {
    Claim { id: None, path: seq![Component::Unrepresentable], values: None }
}

/// A text that is not empty.
pub open spec fn filled(text: Option<Seq<char>>) -> Option<Seq<char>> {
    match text {
        Some(text) => if text.len() > 0 {
            Some(text)
        } else {
            None
        },
        None => None,
    }
}

/// A request for a claim. What is no object, and an object without a path, asks for what is never
/// found; a path or values that cannot be read make it no request.
pub open spec fn claim_of(value: Json) -> Option<Claim> {
    if !(value is Object) {
        Some(unsatisfiable_claim())
    } else {
        let path = match member(value, "path"@) {
            Some(path) => path_in(path),
            None => Some(seq![Component::Unrepresentable]),
        };
        let values = match member(value, "values"@) {
            Some(values) => match values_in(values) {
                Some(wanted) => Some(Some(wanted)),
                None => None,
            },
            None => Some(None),
        };
        match (path, values) {
            (Some(path), Some(values)) => Some(
                Claim { id: filled(text_member(value, "id"@)), path, values },
            ),
            _ => None,
        }
    }
}

fn filled_text(text: Option<&String>) -> (out: Option<String>)
    ensures
        match out {
            Some(found) => filled(
                match text {
                    Some(text) => Some(text@),
                    None => None,
                },
            ) == Some(found@),
            None => filled(
                match text {
                    Some(text) => Some(text@),
                    None => None,
                },
            ) is None,
        },
{
    match text {
        Some(text) => if str_eq(text.as_str(), "") {
            proof {
                reveal_strlit("");
            }
            None
        } else {
            proof {
                reveal_strlit("");
                if text@.len() == 0 {
                    assert(text@ =~= ""@);
                }
            }
            Some(text.clone())
        },
        None => None,
    }
}

impl ClaimsQuery {
    /// A claim that is never found.
    pub fn unsatisfiable() -> (out: ClaimsQuery)
        ensures
            out@ == unsatisfiable_claim(),
    {
        let out = ClaimsQuery {
            id: None,
            path: vec![PathComponent::Unrepresentable],
            values: None,
        };
        assert(out@.path =~= seq![Component::Unrepresentable]);
        out
    }

    /// Read a request for a claim.
    pub fn parse(value: &JsonValue) -> (out: Option<ClaimsQuery>)
        ensures
            match out {
                Some(claim) => claim_of(value@) == Some(claim@),
                None => claim_of(value@) is None,
            },
    {
        match value {
            JsonValue::Object(_) => {},
            _ => {
                return Some(ClaimsQuery::unsatisfiable());
            },
        }
        let id = filled_text(get_text(value, "id"));
        let path = match get_member(value, "path") {
            Some(path) => match parse_path(path) {
                Some(path) => path,
                None => {
                    return None;
                },
            },
            None => {
                let nowhere = vec![PathComponent::Unrepresentable];
                assert(each(nowhere@) =~= seq![Component::Unrepresentable]);
                nowhere
            },
        };
        let values = match get_member(value, "values") {
            Some(values) => match parse_values(values) {
                Some(values) => Some(values),
                None => {
                    return None;
                },
            },
            None => None,
        };
        Some(ClaimsQuery { id, path, values })
    }
}

/// A text item.
pub open spec fn text_of(value: Json) -> Option<Seq<char>> {
    match value {
        Json::Text(text) => Some(text),
        _ => None,
    }
}

/// A list of names.
pub open spec fn id_list_of(value: Json) -> Option<Seq<Seq<char>>> {
    match value {
        Json::Array(items) => every(items, |item: Json| text_of(item)),
        _ => None,
    }
}

/// Read a list of names.
pub fn parse_id_list(value: &JsonValue) -> (out: Option<Vec<String>>)
    ensures
        match out {
            Some(ids) => id_list_of(value@) == Some(texts(ids@)),
            None => id_list_of(value@) is None,
        },
{
    match value {
        JsonValue::Array(items) => {
            proof {
                lemma_array_content(*items);
            }
            let ghost all = contents(items@);
            let ghost read = |item: Json| text_of(item);
            let mut ids: Vec<String> = Vec::new();
            let mut i: usize = 0;
            while i < items.len()
                invariant
                    i <= items@.len(),
                    all == contents(items@),
                    value@ == Json::Array(all),
                    ids@.len() == i,
                    forall|j: int| 0 <= j < i ==> text_of(#[trigger] all[j]) == Some(ids@[j]@),
                decreases items@.len() - i,
            {
                assert(all[i as int] == items@[i as int]@);
                match &items[i] {
                    JsonValue::Text(id) => {
                        ids.push(id.clone());
                    },
                    _ => {
                        proof {
                            let read = |item: Json| text_of(item);
                            assert(read(all[i as int]) is None);
                        }
                        return None;
                    },
                }
                i += 1;
            }
            proof {
                assert(texts(ids@) =~= all.map_values(|item: Json| read(item)->Some_0));
            }
            Some(ids)
        },
        _ => None,
    }
}

/// A combination that no claim can meet: its only name is empty.
pub open spec fn impossible_option() -> Seq<Seq<char>> {
    seq![Seq::empty()]
}

/// A combination of claims; one that cannot be read is one that no claim can meet.
pub open spec fn claim_set_of(value: Json) -> Seq<Seq<char>> {
    match id_list_of(value) {
        Some(ids) => ids,
        None => impossible_option(),
    }
}

/// The combinations of claims.
pub open spec fn claim_sets_in(value: Json) -> Seq<Seq<Seq<char>>> {
    match value {
        Json::Array(items) => items.map_values(|item: Json| claim_set_of(item)),
        _ => seq![impossible_option()],
    }
}

fn impossible_ids() -> (out: Vec<String>)
    ensures
        texts(out@) == impossible_option(),
{
    let out = vec![String::new()];
    assert(out@[0]@ =~= Seq::<char>::empty());
    assert(texts(out@) =~= impossible_option());
    out
}

/// Read the combinations of claims.
pub fn parse_claim_sets(value: &JsonValue) -> (out: Vec<Vec<String>>)
    ensures
        text_lists(out@) == claim_sets_in(value@),
{
    match value {
        JsonValue::Array(items) => {
            proof {
                lemma_array_content(*items);
            }
            let ghost all = contents(items@);
            let mut sets: Vec<Vec<String>> = Vec::new();
            let mut i: usize = 0;
            while i < items.len()
                invariant
                    i <= items@.len(),
                    all == contents(items@),
                    sets@.len() == i,
                    forall|j: int|
                        0 <= j < i ==> texts((#[trigger] sets@[j])@) == claim_set_of(all[j]),
                decreases items@.len() - i,
            {
                assert(all[i as int] == items@[i as int]@);
                let set = match parse_id_list(&items[i]) {
                    Some(ids) => ids,
                    None => impossible_ids(),
                };
                sets.push(set);
                i += 1;
            }
            assert(text_lists(sets@) =~= claim_sets_in(value@));
            sets
        },
        _ => {
            let sets = vec![impossible_ids()];
            assert(text_lists(sets@) =~= claim_sets_in(value@));
            sets
        },
    }
}

/// What the type of a credential has to be. Without a readable constraint it may be any.
pub open spec fn meta_in(format: Format, meta: Option<Json>) -> Meta {
    match format {
        Format::SdJwtVc => Meta::SdJwtVc {
            vct_values: match meta {
                Some(meta) => match array_member(meta, "vct_values"@) {
                    Some(items) => {
                        let types = readable(items, |item: Json| text_of(item));
                        if types.len() > 0 {
                            Some(types)
                        } else {
                            None
                        }
                    },
                    None => None,
                },
                None => None,
            },
        },
        Format::Mdoc => Meta::Mdoc {
            doctype_value: match meta {
                Some(meta) => text_member(meta, "doctype_value"@),
                None => None,
            },
        },
    }
}

fn parse_texts(items: &Vec<JsonValue>) -> (out: Vec<String>)
    ensures
        texts(out@) == readable(contents(items@), |item: Json| text_of(item)),
{
    let ghost all = contents(items@);
    let ghost read = |item: Json| text_of(item);
    let mut out: Vec<String> = Vec::new();
    let mut i: usize = 0;
    assert(texts(out@) =~= readable(all.take(0), read));
    while i < items.len()
        invariant
            i <= items@.len(),
            all == contents(items@),
            read == (|item: Json| text_of(item)),
            texts(out@) == readable(all.take(i as int), read),
        decreases items@.len() - i,
    {
        let ghost before = texts(out@);
        assert(all.take(i as int + 1).drop_last() =~= all.take(i as int));
        assert(all.take(i as int + 1).last() == items@[i as int]@);
        if let JsonValue::Text(text) = &items[i] {
            out.push(text.clone());
            assert(texts(out@) =~= before.push(text@));
        }
        i += 1;
    }
    assert(all.take(i as int) =~= all);
    out
}

impl CredentialMeta {
    /// Read what the type of a credential has to be.
    pub fn parse(format: Format, meta: Option<&JsonValue>) -> (out: CredentialMeta)
        ensures
            out@ == meta_in(
                format,
                match meta {
                    Some(meta) => Some(meta@),
                    None => None,
                },
            ),
    {
        match format {
            Format::SdJwtVc => {
                let vct_values = match meta {
                    Some(meta) => match get_array(meta, "vct_values") {
                        Some(items) => {
                            let types = parse_texts(items);
                            if types.len() > 0 {
                                Some(types)
                            } else {
                                None
                            }
                        },
                        None => None,
                    },
                    None => None,
                };
                CredentialMeta::SdJwtVc { vct_values }
            },
            Format::Mdoc => {
                let doctype_value = match meta {
                    Some(meta) => match get_text(meta, "doctype_value") {
                        Some(doc_type) => Some(doc_type.clone()),
                        None => None,
                    },
                    None => None,
                };
                CredentialMeta::Mdoc { doctype_value }
            },
        }
    }
}

/// A truth value under a key, or what stands for it.
pub open spec fn bool_member(value: Json, key: Seq<char>, default: bool) -> bool {
    match member(value, key) {
        Some(Json::Bool(boolean)) => boolean,
        _ => default,
    }
}

fn get_bool(value: &JsonValue, key: &str, default: bool) -> (out: bool)
    ensures
        out == bool_member(value@, key@, default),
{
    match get_member(value, key) {
        Some(JsonValue::Bool(boolean)) => *boolean,
        _ => default,
    }
}

/// The claims of a credential query: none where the query has no such member; a member that is no
/// array, is empty or holds what is no request for a claim cannot be read.
pub open spec fn claims_in(value: Json) -> Option<Seq<Claim>> {
    match member(value, "claims"@) {
        None => Some(Seq::empty()),
        Some(Json::Array(items)) => if items.len() == 0 {
            None
        } else {
            every(items, |item: Json| claim_of(item))
        },
        Some(_) => None,
    }
}

fn parse_claims(value: &JsonValue) -> (out: Option<Vec<ClaimsQuery>>)
    ensures
        match out {
            Some(claims) => claims_in(value@) == Some(each(claims@)),
            None => claims_in(value@) is None,
        },
{
    let mut claims: Vec<ClaimsQuery> = Vec::new();
    match get_member(value, "claims") {
        None => {
            assert(each(claims@) =~= Seq::<Claim>::empty());
            Some(claims)
        },
        Some(JsonValue::Array(items)) => {
            proof {
                lemma_array_content(*items);
            }
            let ghost all = contents(items@);
            let ghost read = |item: Json| claim_of(item);
            if items.len() == 0 {
                return None;
            }
            let mut i: usize = 0;
            while i < items.len()
                invariant
                    i <= items@.len(),
                    items@.len() > 0,
                    all == contents(items@),
                    member(value@, "claims"@) == Some(Json::Array(all)),
                    claims@.len() == i,
                    forall|j: int|
                        0 <= j < i ==> claim_of(#[trigger] all[j]) == Some(claims@[j]@),
                decreases items@.len() - i,
            {
                assert(all[i as int] == items@[i as int]@);
                match ClaimsQuery::parse(&items[i]) {
                    Some(claim) => {
                        claims.push(claim);
                    },
                    None => {
                        proof {
                            let read = |item: Json| claim_of(item);
                            assert(read(all[i as int]) is None);
                        }
                        return None;
                    },
                }
                i += 1;
            }
            proof {
                assert(each(claims@) =~= all.map_values(|item: Json| read(item)->Some_0));
            }
            Some(claims)
        },
        Some(_) => None,
    }
}

/// A request for a credential, where it has a name, a supported format and readable claims. One
/// with combinations of claims but no claims is none.
pub open spec fn credential_of(value: Json) -> Option<Credential> {
    match (
        filled(text_member(value, "id"@)),
        text_member(value, "format"@),
        claims_in(value),
    ) {
        (Some(id), Some(identifier), Some(claims)) => match named_format(identifier) {
            None => None,
            Some(format) => {
                let claim_sets = match member(value, "claim_sets"@) {
                    Some(sets) => claim_sets_in(sets),
                    None => Seq::empty(),
                };
                if claim_sets.len() > 0 && claims.len() == 0 {
                    None
                } else {
                    Some(
                        Credential {
                            id,
                            format,
                            meta: meta_in(format, member(value, "meta"@)),
                            claims,
                            claim_sets,
                            multiple: bool_member(value, "multiple"@, false),
                        },
                    )
                }
            },
        },
        _ => None,
    }
}

impl CredentialQuery {
    /// Read a request for a credential.
    pub fn parse(value: &JsonValue) -> (out: Option<CredentialQuery>)
        ensures
            match out {
                Some(query) => credential_of(value@) == Some(query@),
                None => credential_of(value@) is None,
            },
    {
        let id = match filled_text(get_text(value, "id")) {
            Some(id) => id,
            None => {
                return None;
            },
        };
        let format = match get_text(value, "format") {
            Some(identifier) => match format_from_identifier(identifier.as_str()) {
                Some(format) => format,
                None => {
                    return None;
                },
            },
            None => {
                return None;
            },
        };
        let meta = CredentialMeta::parse(format, get_member(value, "meta"));
        let multiple = get_bool(value, "multiple", false);
        let claims = match parse_claims(value) {
            Some(claims) => claims,
            None => {
                return None;
            },
        };
        let claim_sets = match get_member(value, "claim_sets") {
            Some(sets) => parse_claim_sets(sets),
            None => {
                let none: Vec<Vec<String>> = Vec::new();
                assert(text_lists(none@) =~= Seq::<Seq<Seq<char>>>::empty());
                none
            },
        };
        if claim_sets.len() > 0 && claims.len() == 0 {
            return None;
        }
        Some(CredentialQuery { id, format, meta, claims, claim_sets, multiple })
    }
}

/// A request for one of several combinations, where its options are a non-empty array of lists of
/// names.
pub open spec fn set_of(value: Json) -> Option<SetQuery> {
    match array_member(value, "options"@) {
        Some(items) => match every(items, |item: Json| id_list_of(item)) {
            Some(options) => if options.len() == 0 {
                None
            } else {
                Some(SetQuery { options, required: bool_member(value, "required"@, true) })
            },
            None => None,
        },
        None => None,
    }
}

impl CredentialSetQuery {
    /// Read a request for one of several combinations.
    pub fn parse(value: &JsonValue) -> (out: Option<CredentialSetQuery>)
        ensures
            match out {
                Some(query) => set_of(value@) == Some(query@),
                None => set_of(value@) is None,
            },
    {
        let items = match get_array(value, "options") {
            Some(items) => items,
            None => {
                return None;
            },
        };
        let ghost all = contents(items@);
        let ghost read = |item: Json| id_list_of(item);
        let mut options: Vec<Vec<String>> = Vec::new();
        let mut i: usize = 0;
        while i < items.len()
            invariant
                i <= items@.len(),
                all == contents(items@),
                array_member(value@, "options"@) == Some(all),
                options@.len() == i,
                forall|j: int|
                    0 <= j < i ==> id_list_of(#[trigger] all[j]) == Some(texts(options@[j]@)),
            decreases items@.len() - i,
        {
            assert(all[i as int] == items@[i as int]@);
            match parse_id_list(&items[i]) {
                Some(ids) => {
                    options.push(ids);
                },
                None => {
                    proof {
                        let read = |item: Json| id_list_of(item);
                        assert(read(all[i as int]) is None);
                    }
                    return None;
                },
            }
            i += 1;
        }
        proof {
            assert(text_lists(options@) =~= all.map_values(|item: Json| read(item)->Some_0));
        }
        if options.len() == 0 {
            return None;
        }
        Some(CredentialSetQuery { options, required: get_bool(value, "required", true) })
    }
}

/// The items of an array under a key; none where there is no such array.
pub open spec fn items_in(value: Json, key: Seq<char>) -> Seq<Json> {
    match array_member(value, key) {
        Some(items) => items,
        None => Seq::empty(),
    }
}

/// Whether two credential queries have one name.
pub open spec fn has_duplicate_ids(credentials: Seq<Credential>) -> bool {
    exists|i: int, j: int|
        0 <= i < j < credentials.len() && (#[trigger] credentials[i]).id == (
        #[trigger] credentials[j]).id
}

/// The query that an object stands for. Requests that cannot be read, or are of another format, are
/// left out.
pub open spec fn query_of(value: Json) -> Result<Query, DcqlError> {
    if !(value is Object) {
        Err(DcqlError::NotAnObject)
    } else {
        let credentials = readable(
            items_in(value, "credentials"@),
            |item: Json| credential_of(item),
        );
        if has_duplicate_ids(credentials) {
            Err(DcqlError::DuplicateCredentialId)
        } else {
            Ok(
                Query {
                    credentials,
                    credential_sets: readable(
                        items_in(value, "credential_sets"@),
                        |item: Json| set_of(item),
                    ),
                },
            )
        }
    }
}

/// The query that a text stands for.
pub open spec fn query_in(text: Seq<char>) -> Result<Query, DcqlError> {
    match json_read(encode_utf8(text)) {
        Ok(value) => query_of(value),
        Err(_) => Err(DcqlError::Json),
    }
}

fn parse_credentials(value: &JsonValue) -> (out: Vec<CredentialQuery>)
    ensures
        each(out@) == readable(
            items_in(value@, "credentials"@),
            |item: Json| credential_of(item),
        ),
{
    let mut out: Vec<CredentialQuery> = Vec::new();
    let ghost read = |item: Json| credential_of(item);
    match get_array(value, "credentials") {
        Some(items) => {
            let ghost all = contents(items@);
            let mut i: usize = 0;
            assert(each(out@) =~= readable(all.take(0), read));
            while i < items.len()
                invariant
                    i <= items@.len(),
                    all == contents(items@),
                    read == (|item: Json| credential_of(item)),
                    each(out@) == readable(all.take(i as int), read),
                decreases items@.len() - i,
            {
                let ghost before = each(out@);
                assert(all.take(i as int + 1).drop_last() =~= all.take(i as int));
                assert(all.take(i as int + 1).last() == items@[i as int]@);
                if let Some(query) = CredentialQuery::parse(&items[i]) {
                    let ghost content = query@;
                    out.push(query);
                    assert(each(out@) =~= before.push(content));
                }
                i += 1;
            }
            assert(all.take(i as int) =~= all);
        },
        None => {
            assert(each(out@) =~= readable(Seq::<Json>::empty(), read));
        },
    }
    out
}

fn parse_credential_sets(value: &JsonValue) -> (out: Vec<CredentialSetQuery>)
    ensures
        each(out@) == readable(
            items_in(value@, "credential_sets"@),
            |item: Json| set_of(item),
        ),
{
    let mut out: Vec<CredentialSetQuery> = Vec::new();
    let ghost read = |item: Json| set_of(item);
    match get_array(value, "credential_sets") {
        Some(items) => {
            let ghost all = contents(items@);
            let mut i: usize = 0;
            assert(each(out@) =~= readable(all.take(0), read));
            while i < items.len()
                invariant
                    i <= items@.len(),
                    all == contents(items@),
                    read == (|item: Json| set_of(item)),
                    each(out@) == readable(all.take(i as int), read),
                decreases items@.len() - i,
            {
                let ghost before = each(out@);
                assert(all.take(i as int + 1).drop_last() =~= all.take(i as int));
                assert(all.take(i as int + 1).last() == items@[i as int]@);
                if let Some(query) = CredentialSetQuery::parse(&items[i]) {
                    let ghost content = query@;
                    out.push(query);
                    assert(each(out@) =~= before.push(content));
                }
                i += 1;
            }
            assert(all.take(i as int) =~= all);
        },
        None => {
            assert(each(out@) =~= readable(Seq::<Json>::empty(), read));
        },
    }
    out
}

fn find_duplicate_id(credentials: &Vec<CredentialQuery>) -> (out: bool)
    ensures
        out == has_duplicate_ids(each(credentials@)),
{
    let ghost all = each(credentials@);
    let mut j: usize = 0;
    while j < credentials.len()
        invariant
            j <= credentials@.len(),
            all == each(credentials@),
            forall|a: int, b: int|
                0 <= a < b < j ==> (#[trigger] all[a]).id != (#[trigger] all[b]).id,
        decreases credentials@.len() - j,
    {
        let mut i: usize = 0;
        while i < j
            invariant
                i <= j < credentials@.len(),
                all == each(credentials@),
                forall|a: int| 0 <= a < i ==> (#[trigger] all[a]).id != all[j as int].id,
            decreases j - i,
        {
            assert(all[i as int] == credentials@[i as int]@);
            assert(all[j as int] == credentials@[j as int]@);
            if str_eq(credentials[i].id.as_str(), credentials[j].id.as_str()) {
                assert(all[i as int].id == all[j as int].id);
                return true;
            }
            i += 1;
        }
        j += 1;
    }
    false
}

impl DcqlQuery {
    /// Make a query out of a JSON value.
    pub fn from_value(value: &JsonValue) -> (out: Result<DcqlQuery, DcqlError>)
        ensures
            match query_of(value@) {
                Ok(content) => out matches Ok(query) && query@ == content,
                Err(fault) => out matches Err(error) && error == fault,
            },
    {
        match value {
            JsonValue::Object(_) => {},
            _ => {
                return Err(DcqlError::NotAnObject);
            },
        }
        let credentials = parse_credentials(value);
        if find_duplicate_id(&credentials) {
            return Err(DcqlError::DuplicateCredentialId);
        }
        let credential_sets = parse_credential_sets(value);
        Ok(DcqlQuery { credentials, credential_sets })
    }

    /// Read a query from its text.
    pub fn parse(json: &str) -> (out: Result<DcqlQuery, DcqlError>)
        ensures
            match query_in(json@) {
                Ok(content) => out matches Ok(query) && query@ == content,
                Err(fault) => out matches Err(error) && error == fault,
            },
    {
        let bytes = text_bytes(json);
        match parse(bytes.as_slice()) {
            Ok(value) => DcqlQuery::from_value(&value),
            Err(_) => Err(DcqlError::Json),
        }
    }
}

} // verus!
