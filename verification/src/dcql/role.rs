//! The issuer role that belongs to a credential type.
use crate::dcql::{CredentialMeta, Meta};
use crate::text::{str_eq, texts};
use crate::types::{Format, IssuerRole};
use vstd::prelude::*;

verus! {

/// The issuer role that a credential type belongs to, where it is the type of person
/// identification data.
pub open spec fn type_role(format: Format, type_id: Seq<char>) -> Option<IssuerRole> {
    match format {
        Format::SdJwtVc => if type_id == "urn:eudi:pid:1"@ || type_id
            == "eu.europa.ec.eudi.pid.1"@ {
            Some(IssuerRole::Pid)
        } else {
            None
        },
        Format::Mdoc => if type_id == "eu.europa.ec.eudi.pid.1"@ {
            Some(IssuerRole::Pid)
        } else {
            None
        },
    }
}

/// The issuer role that a credential type belongs to.
pub fn role_from_type(format: Format, type_id: &str) -> (out: Option<IssuerRole>)
    ensures
        out == type_role(format, type_id@),
{
    match format {
        Format::SdJwtVc => if str_eq(type_id, "urn:eudi:pid:1") || str_eq(
            type_id,
            "eu.europa.ec.eudi.pid.1",
        ) {
            Some(IssuerRole::Pid)
        } else {
            None
        },
        Format::Mdoc => if str_eq(type_id, "eu.europa.ec.eudi.pid.1") {
            Some(IssuerRole::Pid)
        } else {
            None
        },
    }
}

/// The role to check a credential under: that of its type, which the caller's must not contradict,
/// or the caller's where the type has none.
pub open spec fn reconciled_role(
    caller_role: IssuerRole,
    format: Format,
    type_id: Seq<char>,
) -> Option<IssuerRole> {
    match type_role(format, type_id) {
        Some(role) => if role == caller_role {
            Some(role)
        } else {
            None
        },
        None => Some(caller_role),
    }
}

/// Reconcile the caller's role with the type of a credential.
pub fn reconcile_role(caller_role: IssuerRole, format: Format, type_id: &str) -> (out: Result<
    IssuerRole,
    (),
>)
    ensures
        match out {
            Ok(role) => reconciled_role(caller_role, format, type_id@) == Some(role),
            Err(_) => reconciled_role(caller_role, format, type_id@) is None,
        },
{
    match role_from_type(format, type_id) {
        Some(role) => if role == caller_role {
            Ok(role)
        } else {
            Err(())
        },
        None => Ok(caller_role),
    }
}

/// The role that every type on a list belongs to, where it is one and the same.
pub open spec fn common_role(types: Seq<Seq<char>>) -> Option<IssuerRole> {
    if types.len() > 0 && forall|i: int|
        0 <= i < types.len() ==> type_role(Format::SdJwtVc, #[trigger] types[i]) == type_role(
            Format::SdJwtVc,
            types[0],
        ) {
        type_role(Format::SdJwtVc, types[0])
    } else {
        None
    }
}

/// The role that the expected type of a credential belongs to. A list of types that belong to
/// different roles says nothing.
pub open spec fn meta_role(meta: Meta) -> Option<IssuerRole> {
    match meta {
        Meta::SdJwtVc { vct_values: Some(types) } => common_role(types),
        Meta::SdJwtVc { vct_values: None } => None,
        Meta::Mdoc { doctype_value: Some(doc_type) } => type_role(Format::Mdoc, doc_type),
        Meta::Mdoc { doctype_value: None } => None,
    }
}

fn role_from_types(types: &Vec<String>) -> (out: Option<IssuerRole>)
    ensures
        out == common_role(texts(types@)),
{
    let ghost all = texts(types@);
    if types.len() == 0 {
        return None;
    }
    assert(all[0] == types@[0]@);
    let first = role_from_type(Format::SdJwtVc, types[0].as_str());
    let mut i: usize = 1;
    while i < types.len()
        invariant
            1 <= i <= types@.len(),
            all == texts(types@),
            first == type_role(Format::SdJwtVc, all[0]),
            forall|j: int|
                0 <= j < i ==> type_role(Format::SdJwtVc, #[trigger] all[j]) == first,
        decreases types@.len() - i,
    {
        assert(all[i as int] == types@[i as int]@);
        let role = role_from_type(Format::SdJwtVc, types[i].as_str());
        if role != first {
            return None;
        }
        i += 1;
    }
    first
}

/// The role that the expected type of a credential belongs to.
pub fn role_from_meta(meta: &CredentialMeta) -> (out: Option<IssuerRole>)
    ensures
        out == meta_role(meta@),
{
    match meta {
        CredentialMeta::SdJwtVc { vct_values } => match vct_values {
            Some(types) => role_from_types(types),
            None => None,
        },
        CredentialMeta::Mdoc { doctype_value } => match doctype_value {
            Some(doc_type) => role_from_type(Format::Mdoc, doc_type.as_str()),
            None => None,
        },
    }
}

} // verus!
