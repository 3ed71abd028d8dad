//! The Digital Credentials Query Language of OpenID4VP: parsing a query and evaluating it against a
//! verified presentation.
use crate::text::{seen, texts};
use crate::types::Format;
use vstd::prelude::*;

pub mod evaluate;
pub mod gate_laws;
pub mod laws;
pub mod meaning_laws;
pub mod parse;
pub mod reading_laws;
pub mod role;

pub use self::evaluate::{credential_sets_satisfied, evaluate_single, query_satisfied_by, value_matches};
pub use self::role::{reconcile_role, role_from_meta, role_from_type};

verus! {

/// A query: which credentials are asked for, and which combinations of them.
#[derive(Debug, Clone, PartialEq, Eq)]
pub struct DcqlQuery {
    /// The credentials asked for, in order.
    pub credentials: Vec<CredentialQuery>,
    /// The combinations asked for.
    pub credential_sets: Vec<CredentialSetQuery>,
}

/// A request for a credential.
#[derive(Debug, Clone, PartialEq, Eq)]
pub struct CredentialQuery {
    /// What the credential is called in the request and the response.
    pub id: String,
    /// The format.
    pub format: Format,
    /// What the type of the credential has to be.
    pub meta: CredentialMeta,
    /// The claims asked for.
    pub claims: Vec<ClaimsQuery>,
    /// The alternative combinations of claims, by their names; all claims where there are none.
    pub claim_sets: Vec<Vec<String>>,
    /// Whether more than one presentation may be returned.
    pub multiple: bool,
}

/// What the type of a credential has to be.
#[derive(Debug, Clone, PartialEq, Eq)]
pub enum CredentialMeta {
    /// One of these types, or any.
    SdJwtVc { vct_values: Option<Vec<String>> },
    /// This document type, or any.
    Mdoc { doctype_value: Option<String> },
}

/// A request for a claim.
#[derive(Debug, Clone, PartialEq, Eq)]
pub struct ClaimsQuery {
    /// What the claim is called in combinations.
    pub id: Option<String>,
    /// Where the claim stands.
    pub path: Vec<PathComponent>,
    /// The values that are wanted, or any.
    pub values: Option<Vec<ClaimValue>>,
}

/// A step of a path to a claim.
#[derive(Debug, Clone, PartialEq, Eq)]
pub enum PathComponent {
    /// The field under a key.
    Key(String),
    /// The element at an index.
    Index(u64),
    /// Every element.
    AllElements,
    /// A step that leads nowhere.
    Unrepresentable,
}

/// A wanted value.
#[derive(Debug, Clone, PartialEq, Eq)]
pub enum ClaimValue {
    /// A text.
    Text(String),
    /// An integer.
    Integer(i64),
    /// A truth value.
    Boolean(bool),
    /// A number that no claim can have.
    Unrepresentable,
}

/// A request for one of several combinations of credentials.
#[derive(Debug, Clone, PartialEq, Eq)]
pub struct CredentialSetQuery {
    /// The combinations, by the names of credentials.
    pub options: Vec<Vec<String>>,
    /// Whether one of them is required.
    pub required: bool,
}

/// Why a query cannot be read.
#[derive(Debug, Clone, Copy, PartialEq, Eq, Structural)]
pub enum DcqlError {
    /// It is not JSON.
    Json,
    /// It is not a JSON object.
    NotAnObject,
    /// Two credentials have one name.
    DuplicateCredentialId,
}

/// The type of a verified credential.
#[derive(Debug, Clone, PartialEq, Eq)]
pub enum CredentialType {
    /// The type of an SD-JWT VC, where it could be read.
    Vct(Option<String>),
    /// The document types of an mdoc, one for each document.
    DocTypes(Vec<String>),
}

/// The verdict of a query on a presentation.
#[derive(Debug, Clone, Copy, PartialEq, Eq, Structural)]
pub enum DcqlGate {
    /// The query asks for nothing that can be checked.
    Inactive,
    /// The presentation is what some credential query asks for.
    Satisfied,
    /// The presentation is not what was asked for.
    NotSatisfied,
}

/// The mathematical content of a [`DcqlQuery`].
pub struct Query {
    pub credentials: Seq<Credential>,
    pub credential_sets: Seq<SetQuery>,
}

/// The mathematical content of a [`CredentialQuery`].
pub struct Credential {
    pub id: Seq<char>,
    pub format: Format,
    pub meta: Meta,
    pub claims: Seq<Claim>,
    pub claim_sets: Seq<Seq<Seq<char>>>,
    pub multiple: bool,
}

/// The mathematical content of a [`CredentialMeta`].
pub enum Meta {
    SdJwtVc { vct_values: Option<Seq<Seq<char>>> },
    Mdoc { doctype_value: Option<Seq<char>> },
}

/// The mathematical content of a [`ClaimsQuery`].
pub struct Claim {
    pub id: Option<Seq<char>>,
    pub path: Seq<Component>,
    pub values: Option<Seq<Wanted>>,
}

/// The mathematical content of a [`PathComponent`].
pub enum Component {
    Key(Seq<char>),
    Index(u64),
    AllElements,
    Unrepresentable,
}

/// The mathematical content of a [`ClaimValue`].
pub enum Wanted {
    Text(Seq<char>),
    Integer(i64),
    Boolean(bool),
    Unrepresentable,
}

/// The mathematical content of a [`CredentialSetQuery`].
pub struct SetQuery {
    pub options: Seq<Seq<Seq<char>>>,
    pub required: bool,
}

/// The mathematical content of a [`CredentialType`].
pub enum TypeContent {
    Vct(Option<Seq<char>>),
    DocTypes(Seq<Seq<char>>),
}

/// The contents of a list of things.
pub open spec fn each<T: View>(items: Seq<T>) -> Seq<T::V> {
    items.map_values(|item: T| item@)
}

/// The contents of a list of lists of texts.
pub open spec fn text_lists(lists: Seq<Vec<String>>) -> Seq<Seq<Seq<char>>> {
    lists.map_values(|list: Vec<String>| texts(list@))
}

impl View for PathComponent {
    type V = Component;

    open spec fn view(&self) -> Component {
        match self {
            PathComponent::Key(key) => Component::Key(key@),
            PathComponent::Index(index) => Component::Index(*index),
            PathComponent::AllElements => Component::AllElements,
            PathComponent::Unrepresentable => Component::Unrepresentable,
        }
    }
}

impl View for ClaimValue {
    type V = Wanted;

    open spec fn view(&self) -> Wanted {
        match self {
            ClaimValue::Text(text) => Wanted::Text(text@),
            ClaimValue::Integer(integer) => Wanted::Integer(*integer),
            ClaimValue::Boolean(boolean) => Wanted::Boolean(*boolean),
            ClaimValue::Unrepresentable => Wanted::Unrepresentable,
        }
    }
}

impl View for ClaimsQuery {
    type V = Claim;

    open spec fn view(&self) -> Claim {
        Claim {
            id: seen(self.id),
            path: each(self.path@),
            values: match self.values {
                Some(values) => Some(each(values@)),
                None => None,
            },
        }
    }
}

impl View for CredentialMeta {
    type V = Meta;

    open spec fn view(&self) -> Meta {
        match self {
            CredentialMeta::SdJwtVc { vct_values } => Meta::SdJwtVc {
                vct_values: match vct_values {
                    Some(types) => Some(texts(types@)),
                    None => None,
                },
            },
            CredentialMeta::Mdoc { doctype_value } => Meta::Mdoc {
                doctype_value: seen(*doctype_value),
            },
        }
    }
}

impl View for CredentialQuery {
    type V = Credential;

    open spec fn view(&self) -> Credential {
        Credential {
            id: self.id@,
            format: self.format,
            meta: self.meta@,
            claims: each(self.claims@),
            claim_sets: text_lists(self.claim_sets@),
            multiple: self.multiple,
        }
    }
}

impl View for CredentialSetQuery {
    type V = SetQuery;

    open spec fn view(&self) -> SetQuery {
        SetQuery { options: text_lists(self.options@), required: self.required }
    }
}

impl View for DcqlQuery {
    type V = Query;

    open spec fn view(&self) -> Query {
        Query {
            credentials: each(self.credentials@),
            credential_sets: each(self.credential_sets@),
        }
    }
}

impl View for CredentialType {
    type V = TypeContent;

    open spec fn view(&self) -> TypeContent {
        match self {
            CredentialType::Vct(vct) => TypeContent::Vct(seen(*vct)),
            CredentialType::DocTypes(doc_types) => TypeContent::DocTypes(texts(doc_types@)),
        }
    }
}

impl Default for DcqlQuery {
    fn default() -> (out: DcqlQuery)
        ensures
            out@.credentials.len() == 0,
            out@.credential_sets.len() == 0,
    {
        DcqlQuery { credentials: Vec::new(), credential_sets: Vec::new() }
    }
}

/// The message of an error.
pub open spec fn dcql_message(error: DcqlError) -> Seq<char> {
    match error {
        DcqlError::Json => "DCQL query is not valid JSON"@,
        DcqlError::NotAnObject => "DCQL query is not a JSON object"@,
        DcqlError::DuplicateCredentialId => "DCQL query has duplicate credential ids"@,
    }
}

impl DcqlError {
    /// The message of the error.
    pub fn message(&self) -> (out: &'static str)
        ensures
            out@ == dcql_message(*self),
    {
        match self {
            DcqlError::Json => "DCQL query is not valid JSON",
            DcqlError::NotAnObject => "DCQL query is not a JSON object",
            DcqlError::DuplicateCredentialId => "DCQL query has duplicate credential ids",
        }
    }
}

} // verus!
