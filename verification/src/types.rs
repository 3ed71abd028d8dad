//! The vocabulary shared by the verifiers and the holder flows.
use crate::text::{bytes_eq, copy_bytes, str_eq};
use crate::text_map::{
    first_entry, has_key, key_at, key_index, lemma_entry_has_key, lemma_same_entries, TextMap,
};
use vstd::prelude::*;

verus! {

/// The encoding of a credential.
#[derive(Debug, Clone, Copy, PartialEq, Eq, Structural)]
pub enum Format {
    /// An SD-JWT VC.
    SdJwtVc,
    /// An mdoc.
    Mdoc,
}

/// The role an issuer is trusted in.
#[derive(Debug, Clone, Copy, PartialEq, Eq, Structural)]
pub enum IssuerRole {
    /// A provider of person identification data.
    Pid,
    /// A provider of qualified attestations of attributes.
    Qeaa,
}

/// Why a presentation was rejected.
#[derive(Debug, Clone, Copy, PartialEq, Eq, Structural)]
pub enum ReasonCode {
    /// The credential cannot be parsed or misses a mandatory part.
    MalformedCredential,
    /// A signed part does not verify or contradicts itself.
    Tamper,
    /// The credential, or its issuer's certificate, is outside its validity window.
    Expired,
    /// The credential was revoked.
    Revoked,
    /// No answer on the revocation status could be had.
    StatusUnavailable,
    /// A disclosed attribute is not the one the issuer signed.
    DisclosureIntegrity,
    /// The holder's signature does not verify.
    HolderBinding,
    /// What the holder's signature must be checked against is missing.
    MissingRequestBinding,
    /// The credential's type contradicts the issuer role it is checked under.
    RoleMismatch,
    /// The issuer is not on the configured anchors.
    UntrustedIssuer,
}

/// The outcome of the trust decision on a credential.
#[derive(Debug, Clone, Copy, PartialEq, Eq, Structural)]
pub enum TrustStatus {
    /// The issuer chains to a configured anchor.
    Trusted,
    /// The issuer's trust was not established.
    Untrusted,
}

/// The outcome of the qualified-status determination.
#[derive(Debug, Clone, Copy, PartialEq, Eq, Structural)]
pub enum QualifiedStatus {
    /// The issuer was qualified at the relevant time.
    Qualified,
    /// The issuer was not qualified at the relevant time.
    NotQualified,
}

/// A validity window, in Unix seconds. An absent bound does not restrict.
#[derive(Debug, Clone, Copy, PartialEq, Eq)]
pub struct Validity {
    /// The first valid instant.
    pub not_before: Option<i64>,
    /// The last valid instant.
    pub not_after: Option<i64>,
}

/// The value of a disclosed attribute.
#[derive(Debug)]
pub enum AttributeValue {
    Text(String),
    Integer(i64),
    Boolean(bool),
    Bytes(Vec<u8>),
    Array(Vec<AttributeValue>),
    Fields(TextMap<AttributeValue>),
    Null,
}

/// The mathematical content of an [`AttributeValue`].
pub enum Attr {
    Text(Seq<char>),
    Integer(i64),
    Boolean(bool),
    Bytes(Seq<u8>),
    Array(Seq<Attr>),
    Fields(Map<Seq<char>, Attr>),
    Null,
}

/// The content of an attribute value, read level by level.
pub open spec fn attr_content(value: AttributeValue) -> Attr
    decreases value,
{
    match value {
        AttributeValue::Text(t) => Attr::Text(t@),
        AttributeValue::Integer(i) => Attr::Integer(i),
        AttributeValue::Boolean(b) => Attr::Boolean(b),
        AttributeValue::Bytes(b) => Attr::Bytes(b@),
        AttributeValue::Array(items) => Attr::Array(
            Seq::new(
                items@.len(),
                |i: int| if 0 <= i < items@.len() { attr_content(items@[i]) } else { Attr::Null },
            ),
        ),
        AttributeValue::Fields(map) => Attr::Fields(
            Map::new(
                |key: Seq<char>| has_key(map.entries@, key),
                |key: Seq<char>|
                    {
                        let i = key_index(map.entries@, key);
                        if 0 <= i < map.entries@.len() {
                            attr_content(map.entries@[i].1)
                        } else {
                            Attr::Null
                        }
                    },
            ),
        ),
        AttributeValue::Null => Attr::Null,
    }
}

impl View for AttributeValue {
    type V = Attr;

    open spec fn view(&self) -> Attr {
        attr_content(*self)
    }
}

/// The contents of the values of a map.
pub open spec fn attr_map(map: Map<Seq<char>, AttributeValue>) -> Map<Seq<char>, Attr> {
    map.map_values(|value: AttributeValue| value@)
}

/// The content of a record value is the content of its fields.
pub proof fn lemma_fields_content(map: TextMap<AttributeValue>)
    ensures
        AttributeValue::Fields(map)@ == Attr::Fields(attr_map(map@)),
{
    let fields = AttributeValue::Fields(map)@->Fields_0;
    assert forall|key: Seq<char>| has_key(map.entries@, key) implies #[trigger] fields[key]
        == attr_map(map@)[key] by {
        let i = key_index(map.entries@, key);
        assert(key_at(map.entries@, key, i));
    }
    assert(fields =~= attr_map(map@));
}

impl AttributeValue {
    /// Whether two values are the same, fields in any order.
    pub fn same(&self, other: &AttributeValue) -> (out: bool)
        ensures
            out == (self@ == other@),
        decreases self,
    {
        match (self, other) {
            (AttributeValue::Text(a), AttributeValue::Text(b)) => str_eq(a.as_str(), b.as_str()),
            (AttributeValue::Integer(a), AttributeValue::Integer(b)) => *a == *b,
            (AttributeValue::Boolean(a), AttributeValue::Boolean(b)) => *a == *b,
            (AttributeValue::Bytes(a), AttributeValue::Bytes(b)) => bytes_eq(
                a.as_slice(),
                b.as_slice(),
            ),
            (AttributeValue::Array(a), AttributeValue::Array(b)) => {
                if a.len() != b.len() {
                    assert(self@->Array_0.len() != other@->Array_0.len());
                    return false;
                }
                let mut i: usize = 0;
                while i < a.len()
                    invariant
                        i <= a.len(),
                        a.len() == b.len(),
                        self@ is Array,
                        other@ is Array,
                        self@->Array_0.len() == a.len(),
                        other@->Array_0.len() == a.len(),
                        forall|j: int| 0 <= j < a.len() ==> self@->Array_0[j] == (#[trigger] a@[j])@,
                        forall|j: int| 0 <= j < a.len() ==> other@->Array_0[j] == (#[trigger] b@[j])@,
                        forall|j: int| 0 <= j < i ==> self@->Array_0[j] == other@->Array_0[j],
                        decreases_to!(self => a),
                    decreases a.len() - i,
                {
                    if !a[i].same(&b[i]) {
                        assert(self@->Array_0[i as int] != other@->Array_0[i as int]);
                        return false;
                    }
                    i += 1;
                }
                assert(self@->Array_0 =~= other@->Array_0);
                true
            },
            (AttributeValue::Fields(a), AttributeValue::Fields(b)) => {
                proof {
                    lemma_fields_content(*a);
                    lemma_fields_content(*b);
                }
                let mut i: usize = 0;
                while i < a.entries.len()
                    invariant
                        i <= a.entries.len(),
                        self@ == Attr::Fields(attr_map(a@)),
                        other@ == Attr::Fields(attr_map(b@)),
                        forall|j: int|
                            0 <= j < i ==> {
                                let key = (#[trigger] a.entries@[j]).0@;
                                b@.contains_key(key) && attr_map(a@)[key] == attr_map(b@)[key]
                            },
                        decreases_to!(self => a.entries),
                    decreases a.entries.len() - i,
                {
                    let ghost key = a.entries@[i as int].0@;
                    proof {
                        lemma_entry_has_key(a.entries@, i as int);
                    }
                    match b.get(a.entries[i].0.as_str()) {
                        None => {
                            assert(attr_map(a@).contains_key(key));
                            assert(!attr_map(b@).contains_key(key));
                            return false;
                        },
                        Some(theirs) => {
                            let at = first_entry(a, i);
                            if !a.entries[at].1.same(theirs) {
                                assert(attr_map(a@)[key] != attr_map(b@)[key]);
                                return false;
                            }
                        },
                    }
                    i += 1;
                }
                let mut j: usize = 0;
                while j < b.entries.len()
                    invariant
                        j <= b.entries.len(),
                        self@ == Attr::Fields(attr_map(a@)),
                        other@ == Attr::Fields(attr_map(b@)),
                        forall|k: int|
                            0 <= k < j ==> a@.contains_key((#[trigger] b.entries@[k]).0@),
                    decreases b.entries.len() - j,
                {
                    if !a.contains_key(b.entries[j].0.as_str()) {
                        let ghost key = b.entries@[j as int].0@;
                        proof {
                            lemma_entry_has_key(b.entries@, j as int);
                        }
                        assert(attr_map(b@).contains_key(key));
                        assert(!attr_map(a@).contains_key(key));
                        return false;
                    }
                    j += 1;
                }
                proof {
                    assert forall|key: Seq<char>| attr_map(a@).contains_key(key) implies attr_map(
                        b@,
                    ).contains_key(key) && attr_map(a@)[key] == attr_map(b@)[key] by {
                        let at = key_index(a.entries@, key);
                        assert(key_at(a.entries@, key, at));
                        assert(a.entries@[at].0@ == key);
                    }
                    assert forall|key: Seq<char>| attr_map(b@).contains_key(key) implies attr_map(
                        a@,
                    ).contains_key(key) by {
                        let at = key_index(b.entries@, key);
                        assert(key_at(b.entries@, key, at));
                        assert(b.entries@[at].0@ == key);
                    }
                    assert(attr_map(a@) =~= attr_map(b@));
                }
                true
            },
            (AttributeValue::Null, AttributeValue::Null) => true,
            _ => false,
        }
    }

    /// A copy of the value.
    pub fn copy(&self) -> (out: AttributeValue)
        ensures
            out@ == self@,
        decreases self,
    {
        match self {
            AttributeValue::Text(t) => AttributeValue::Text(t.clone()),
            AttributeValue::Integer(i) => AttributeValue::Integer(*i),
            AttributeValue::Boolean(b) => AttributeValue::Boolean(*b),
            AttributeValue::Bytes(b) => AttributeValue::Bytes(copy_bytes(b)),
            AttributeValue::Null => AttributeValue::Null,
            AttributeValue::Array(items) => {
                let mut out: Vec<AttributeValue> = Vec::new();
                let mut i: usize = 0;
                while i < items.len()
                    invariant
                        i <= items.len(),
                        out.len() == i,
                        forall|j: int| 0 <= j < i ==> (#[trigger] out@[j])@ == items@[j]@,
                        decreases_to!(self => items),
                    decreases items.len() - i,
                {
                    out.push(items[i].copy());
                    i += 1;
                }
                let copied = AttributeValue::Array(out);
                assert(copied@->Array_0 =~= self@->Array_0);
                copied
            },
            AttributeValue::Fields(map) => {
                let mut out: Vec<(String, AttributeValue)> = Vec::new();
                let mut i: usize = 0;
                while i < map.entries.len()
                    invariant
                        i <= map.entries.len(),
                        out.len() == i,
                        forall|j: int|
                            0 <= j < i ==> (#[trigger] out@[j]).0@ == map.entries@[j].0@
                                && out@[j].1@ == map.entries@[j].1@,
                        decreases_to!(self => map.entries),
                    decreases map.entries.len() - i,
                {
                    out.push((map.entries[i].0.clone(), map.entries[i].1.copy()));
                    i += 1;
                }
                let copied = TextMap { entries: out };
                proof {
                    lemma_same_entries(map.entries@, copied.entries@);
                    lemma_fields_content(*map);
                    lemma_fields_content(copied);
                    assert(attr_map(map@) =~= attr_map(copied@));
                }
                AttributeValue::Fields(copied)
            },
        }
    }
}

impl PartialEq for AttributeValue {
    fn eq(&self, other: &AttributeValue) -> (out: bool) {
        self.same(other)
    }
}

impl vstd::std_specs::cmp::PartialEqSpecImpl for AttributeValue {
    open spec fn obeys_eq_spec() -> bool {
        true
    }

    open spec fn eq_spec(&self, other: &AttributeValue) -> bool {
        self@ == other@
    }
}

/// The verdict on a presentation.
#[derive(Debug)]
pub struct VerificationResult {
    /// Whether every check passed.
    pub valid: bool,
    /// The attributes the presentation proves; empty when it is not valid.
    pub disclosed_attributes: TextMap<AttributeValue>,
    /// The outcome of the issuer trust decision.
    pub trust_status: TrustStatus,
    /// The qualified status, where it was determined.
    pub qualified_status: Option<QualifiedStatus>,
    /// Why the presentation was rejected; empty when it is valid.
    pub reasons: Vec<ReasonCode>,
}

/// The mathematical content of a [`VerificationResult`].
pub struct Verdict {
    pub valid: bool,
    pub disclosed_attributes: Map<Seq<char>, Attr>,
    pub trust_status: TrustStatus,
    pub qualified_status: Option<QualifiedStatus>,
    pub reasons: Seq<ReasonCode>,
}

impl View for VerificationResult {
    type V = Verdict;

    open spec fn view(&self) -> Verdict {
        Verdict {
            valid: self.valid,
            disclosed_attributes: attr_map(self.disclosed_attributes@),
            trust_status: self.trust_status,
            qualified_status: self.qualified_status,
            reasons: self.reasons@,
        }
    }
}

/// The verdict that rejects for one reason and discloses nothing.
pub open spec fn rejected(reason: ReasonCode) -> Verdict {
    Verdict {
        valid: false,
        disclosed_attributes: Map::empty(),
        trust_status: TrustStatus::Untrusted,
        qualified_status: None,
        reasons: seq![reason],
    }
}

/// The verdict that accepts and discloses `attributes`.
pub open spec fn accepted(attributes: Map<Seq<char>, Attr>) -> Verdict {
    Verdict {
        valid: true,
        disclosed_attributes: attributes,
        trust_status: TrustStatus::Trusted,
        qualified_status: None,
        reasons: seq![],
    }
}

impl VerificationResult {
    /// The verdict that rejects for `reason`.
    pub fn invalid(reason: ReasonCode) -> (out: VerificationResult)
        ensures
            out@ == rejected(reason),
    {
        let out = VerificationResult {
            valid: false,
            disclosed_attributes: TextMap::new(),
            trust_status: TrustStatus::Untrusted,
            qualified_status: None,
            reasons: vec![reason],
        };
        assert(out@.disclosed_attributes =~= Map::<Seq<char>, Attr>::empty());
        assert(out@.reasons =~= seq![reason]);
        out
    }
}

} // verus!
