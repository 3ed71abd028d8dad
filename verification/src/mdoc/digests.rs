//! The digests of a mobile security object, and what they prove disclosed.
use crate::cbor::{
    entry_value, get_map_entry, integer_label, lemma_array_content, lemma_pairs_content, map_entry,
    pair_contents, Cbor, CborValue,
};
use crate::crypto::{sha256, sha256_digest, sha384, sha384_digest, sha512, sha512_digest};
use crate::mdoc::attributes::{
    attr_of, cbor_to_attribute, disclose, disclosed_content, insert_no_shadow, shadows,
    DisclosedByNamespace,
};
use crate::mdoc::cose::is_integer;
use crate::mdoc::failure::VerifyFailure;
use crate::mdoc::items::{document_items, raw_items, RawDocumentItems, RawIssuerItem, RawItem};
use crate::text::{bytes_eq, seen, str_eq};
use crate::text_map::TextMap;
use crate::types::{Attr, AttributeValue, ReasonCode};
use vstd::prelude::*;

verus! {

/// The hash that a mobile security object names.
#[derive(Debug, Clone, Copy, PartialEq, Eq, Structural)]
pub enum DigestAlgorithm {
    Sha256,
    Sha384,
    Sha512,
}

/// The hash called `name`.
pub open spec fn algorithm_named(name: Seq<char>) -> Option<DigestAlgorithm> {
    if name == "SHA-256"@ {
        Some(DigestAlgorithm::Sha256)
    } else if name == "SHA-384"@ {
        Some(DigestAlgorithm::Sha384)
    } else if name == "SHA-512"@ {
        Some(DigestAlgorithm::Sha512)
    } else {
        None
    }
}

/// The digest of `data` under a hash.
pub open spec fn digest_of(algorithm: DigestAlgorithm, data: Seq<u8>) -> Seq<u8> {
    match algorithm {
        DigestAlgorithm::Sha256 => sha256_digest(data),
        DigestAlgorithm::Sha384 => sha384_digest(data),
        DigestAlgorithm::Sha512 => sha512_digest(data),
    }
}

impl DigestAlgorithm {
    /// The hash called `name`; nothing for a name that is not known.
    pub fn from_name(name: &str) -> (out: Option<DigestAlgorithm>)
        ensures
            out == algorithm_named(name@),
    {
        if str_eq(name, "SHA-256") {
            Some(DigestAlgorithm::Sha256)
        } else if str_eq(name, "SHA-384") {
            Some(DigestAlgorithm::Sha384)
        } else if str_eq(name, "SHA-512") {
            Some(DigestAlgorithm::Sha512)
        } else {
            None
        }
    }

    /// The number of bytes of a digest.
    pub open spec fn length(self) -> nat {
        match self {
            DigestAlgorithm::Sha256 => 32,
            DigestAlgorithm::Sha384 => 48,
            DigestAlgorithm::Sha512 => 64,
        }
    }

    /// The digest of `data`.
    pub fn digest(self, data: &[u8]) -> (out: Vec<u8>)
        ensures
            out@ == digest_of(self, data@),
            out@.len() == self.length(),
    {
        match self {
            DigestAlgorithm::Sha256 => sha256(data),
            DigestAlgorithm::Sha384 => sha384(data),
            DigestAlgorithm::Sha512 => sha512(data),
        }
    }
}

/// The value of an item, as it is disclosed.
pub open spec fn item_value(item: Cbor) -> Attr {
    match map_entry(item, "elementValue"@) {
        Some(value) => attr_of(value),
        None => Attr::Null,
    }
}

impl<'a> RawIssuerItem<'a> {
    /// The value of the item, as it is disclosed.
    pub fn element_value(&self) -> (out: AttributeValue)
        ensures
            out@ == item_value(self@.item),
    {
        match get_map_entry(&self.item, "elementValue") {
            Some(value) => cbor_to_attribute(value),
            None => AttributeValue::Null,
        }
    }
}

/// The digest recorded under `digest_id`: the last byte string with that label.
pub open spec fn expected_digest(digests: Seq<(Cbor, Cbor)>, digest_id: i64) -> Option<Seq<u8>>
    decreases digests.len(),
{
    if digests.len() == 0 {
        None
    } else if is_integer(digests.last().0, digest_id) && digests.last().1 is Bytes {
        Some(digests.last().1->Bytes_0)
    } else {
        expected_digest(digests.drop_last(), digest_id)
    }
}

/// Whether no record before the one at `k` has its `digestID`.
pub open spec fn fresh_id(records: Seq<RawItem>, k: int) -> bool {
    forall|j: int| 0 <= j < k ==> (#[trigger] records[j]).digest_id != records[k].digest_id
}

/// Whether the record at `k` is authentic: its `digestID` is its own, and the bytes on the wire
/// have the digest recorded under it.
pub open spec fn authentic(
    records: Seq<RawItem>,
    k: int,
    digests: Seq<(Cbor, Cbor)>,
    algorithm: DigestAlgorithm,
) -> bool {
    &&& fresh_id(records, k)
    &&& expected_digest(digests, records[k].digest_id) == Some(
        digest_of(algorithm, records[k].raw_bytes),
    )
}

/// What the records from `k` on disclose, on top of `disclosed`; nothing where one of them is not
/// authentic or contradicts another.
pub open spec fn records_disclosed(
    records: Seq<RawItem>,
    k: int,
    digests: Seq<(Cbor, Cbor)>,
    algorithm: DigestAlgorithm,
    name_space: Seq<char>,
    disclosed: Map<Seq<char>, Map<Seq<char>, Attr>>,
) -> Option<Map<Seq<char>, Map<Seq<char>, Attr>>>
    decreases records.len() - k,
{
    if k >= records.len() {
        Some(disclosed)
    } else {
        let record = records[k];
        let value = item_value(record.item);
        if authentic(records, k, digests, algorithm) && !shadows(
            disclosed,
            name_space,
            record.identifier,
            value,
        ) {
            records_disclosed(
                records,
                k + 1,
                digests,
                algorithm,
                name_space,
                disclose(disclosed, name_space, record.identifier, value),
            )
        } else {
            None
        }
    }
}

/// What the namespaces from `k` on disclose, on top of `disclosed`. The records of a namespace must
/// be as many as its items, and the object must hold digests for it.
pub open spec fn spaces_disclosed(
    name_spaces: Seq<(Cbor, Cbor)>,
    k: int,
    records: Map<Seq<char>, Seq<RawItem>>,
    value_digests: Seq<(Cbor, Cbor)>,
    algorithm: DigestAlgorithm,
    disclosed: Map<Seq<char>, Map<Seq<char>, Attr>>,
) -> Result<Map<Seq<char>, Map<Seq<char>, Attr>>, ReasonCode>
    decreases name_spaces.len() - k,
{
    if k >= name_spaces.len() {
        Ok(disclosed)
    } else {
        match name_spaces[k] {
            (Cbor::Text(name_space), Cbor::Array(items)) => if !records.contains_key(name_space)
                || records[name_space].len() != items.len() {
                Err(ReasonCode::DisclosureIntegrity)
            } else {
                match entry_value(value_digests, name_space) {
                    Some(Cbor::Pairs(digests)) => match records_disclosed(
                        records[name_space],
                        0,
                        digests,
                        algorithm,
                        name_space,
                        disclosed,
                    ) {
                        Some(more) => spaces_disclosed(
                            name_spaces,
                            k + 1,
                            records,
                            value_digests,
                            algorithm,
                            more,
                        ),
                        None => Err(ReasonCode::DisclosureIntegrity),
                    },
                    _ => Err(ReasonCode::DisclosureIntegrity),
                }
            },
            _ => Err(ReasonCode::MalformedCredential),
        }
    }
}

/// What a document discloses, by the records captured of it and the digests its mobile security
/// object holds.
pub open spec fn digests_verdict(
    issuer_signed: Cbor,
    records: Option<Map<Seq<char>, Seq<RawItem>>>,
    mso: Cbor,
    algorithm: DigestAlgorithm,
) -> Result<Map<Seq<char>, Map<Seq<char>, Attr>>, ReasonCode> {
    match (map_entry(issuer_signed, "nameSpaces"@), map_entry(mso, "valueDigests"@)) {
        (Some(Cbor::Pairs(name_spaces)), Some(Cbor::Pairs(value_digests))) => match records {
            Some(records) => spaces_disclosed(
                name_spaces,
                0,
                records,
                value_digests,
                algorithm,
                Map::empty(),
            ),
            None => Err(ReasonCode::DisclosureIntegrity),
        },
        _ => Err(ReasonCode::MalformedCredential),
    }
}

fn find_digest<'a>(digests: &'a Vec<(CborValue, CborValue)>, digest_id: i64) -> (out: Option<
    &'a Vec<u8>,
>)
    ensures
        seen(out) == expected_digest(pair_contents(digests@), digest_id),
{
    let ghost all = pair_contents(digests@);
    let mut i: usize = digests.len();
    assert(all.take(all.len() as int) =~= all);
    while i > 0
        invariant
            i <= digests@.len(),
            all == pair_contents(digests@),
            expected_digest(all, digest_id) == expected_digest(all.take(i as int), digest_id),
        decreases i,
    {
        let ghost here = all.take(i as int);
        assert(here.last() == (digests@[i - 1].0@, digests@[i - 1].1@));
        assert(here.drop_last() =~= all.take(i - 1));
        i = i - 1;
        if let Some(label) = integer_label(&digests[i].0) {
            if label == digest_id {
                if let CborValue::Bytes(digest) = &digests[i].1 {
                    assert(here.last().1 == Cbor::Bytes(digest@));
                    return Some(digest);
                }
            }
        }
    }
    None
}

fn id_is_fresh(records: &Vec<RawIssuerItem<'_>>, i: usize) -> (out: bool)
    requires
        i < records@.len(),
    ensures
        out == fresh_id(raw_items(records@), i as int),
{
    let ghost all = raw_items(records@);
    assert(all[i as int] == records@[i as int]@);
    let mut j: usize = 0;
    while j < i
        invariant
            j <= i < records@.len(),
            all == raw_items(records@),
            all[i as int] == records@[i as int]@,
            forall|k: int|
                0 <= k < j ==> (#[trigger] all[k]).digest_id != all[i as int].digest_id,
        decreases i - j,
    {
        assert(all[j as int] == records@[j as int]@);
        if records[j].digest_id == records[i].digest_id {
            return false;
        }
        j += 1;
    }
    true
}

/// Check the records of one namespace and disclose them.
fn disclose_records(
    disclosed: &mut DisclosedByNamespace,
    namespace: &str,
    records: &Vec<RawIssuerItem<'_>>,
    digests: &Vec<(CborValue, CborValue)>,
    digest_alg: DigestAlgorithm,
) -> (out: Result<(), VerifyFailure>)
    ensures
        match records_disclosed(
            raw_items(records@),
            0,
            pair_contents(digests@),
            digest_alg,
            namespace@,
            disclosed_content(old(disclosed)@),
        ) {
            Some(more) => out == Ok::<(), VerifyFailure>(()) && disclosed_content(final(disclosed)@)
                == more,
            None => out == Err::<(), VerifyFailure>(
                VerifyFailure { reason: ReasonCode::DisclosureIntegrity },
            ),
        },
{
    let ghost all = raw_items(records@);
    let ghost before = disclosed_content(disclosed@);
    let mut i: usize = 0;
    while i < records.len()
        invariant
            i <= records@.len(),
            all == raw_items(records@),
            before == disclosed_content(old(disclosed)@),
            records_disclosed(all, 0, pair_contents(digests@), digest_alg, namespace@, before)
                == records_disclosed(
                all,
                i as int,
                pair_contents(digests@),
                digest_alg,
                namespace@,
                disclosed_content(disclosed@),
            ),
        decreases records@.len() - i,
    {
        let record = &records[i];
        assert(all[i as int] == record@);
        if !id_is_fresh(records, i) {
            return Err(VerifyFailure::with_reason(ReasonCode::DisclosureIntegrity));
        }
        let computed = digest_alg.digest(record.raw_bytes);
        let matches_digest = match find_digest(digests, record.digest_id) {
            Some(expected) => bytes_eq(computed.as_slice(), expected.as_slice()),
            None => false,
        };
        if !matches_digest {
            return Err(VerifyFailure::with_reason(ReasonCode::DisclosureIntegrity));
        }
        match insert_no_shadow(
            disclosed,
            namespace,
            record.identifier.clone(),
            record.element_value(),
        ) {
            Ok(_) => {},
            Err(failure) => {
                return Err(failure);
            },
        }
        i += 1;
    }
    Ok(())
}

/// Recompute the digest of every item on the wire, match it against the mobile security object, and
/// disclose the items whose bytes were matched.
pub fn verify_value_digests(
    issuer_signed: &CborValue,
    records: Option<&RawDocumentItems<'_>>,
    mso: &CborValue,
    digest_alg: DigestAlgorithm,
) -> (out: Result<DisclosedByNamespace, VerifyFailure>)
    ensures
        match digests_verdict(
            issuer_signed@,
            match records {
                Some(records) => Some(document_items(records@)),
                None => None,
            },
            mso@,
            digest_alg,
        ) {
            Ok(disclosed) => out matches Ok(map) && disclosed_content(map@) == disclosed,
            Err(reason) => out matches Err(failure) && failure.reason == reason,
        },
{
    let name_spaces = match get_map_entry(issuer_signed, "nameSpaces") {
        Some(CborValue::Pairs(name_spaces)) => name_spaces,
        _ => {
            return Err(VerifyFailure::malformed());
        },
    };
    let digests_item = match get_map_entry(mso, "valueDigests") {
        Some(value) => value,
        None => {
            return Err(VerifyFailure::malformed());
        },
    };
    let value_digests = match digests_item {
        CborValue::Pairs(value_digests) => value_digests,
        _ => {
            return Err(VerifyFailure::malformed());
        },
    };
    let captured = match records {
        Some(captured) => captured,
        None => {
            return Err(VerifyFailure::with_reason(ReasonCode::DisclosureIntegrity));
        },
    };
    proof {
        lemma_pairs_content(*name_spaces);
        lemma_pairs_content(*value_digests);
    }
    let ghost spaces = pair_contents(name_spaces@);
    let ghost digests = pair_contents(value_digests@);
    let ghost found = document_items(captured@);
    let mut disclosed: DisclosedByNamespace = TextMap::new();
    assert(disclosed_content(disclosed@) =~= Map::empty());
    let mut i: usize = 0;
    while i < name_spaces.len()
        invariant
            i <= name_spaces@.len(),
            spaces == pair_contents(name_spaces@),
            digests_item@ == Cbor::Pairs(digests),
            records == Some(captured),
            found == document_items(captured@),
            digests_verdict(issuer_signed@, Some(found), mso@, digest_alg) == spaces_disclosed(
                spaces,
                0,
                found,
                digests,
                digest_alg,
                Map::empty(),
            ),
            spaces_disclosed(spaces, 0, found, digests, digest_alg, Map::empty())
                == spaces_disclosed(
                spaces,
                i as int,
                found,
                digests,
                digest_alg,
                disclosed_content(disclosed@),
            ),
        decreases name_spaces@.len() - i,
    {
        assert(spaces[i as int] == (name_spaces@[i as int].0@, name_spaces@[i as int].1@));
        let namespace = match &name_spaces[i].0 {
            CborValue::Text(namespace) => namespace,
            _ => {
                return Err(VerifyFailure::malformed());
            },
        };
        let items = match &name_spaces[i].1 {
            CborValue::Array(items) => items,
            _ => {
                return Err(VerifyFailure::malformed());
            },
        };
        proof {
            lemma_array_content(*items);
        }
        assert(spaces[i as int].0 == Cbor::Text(namespace@));
        let ns_records = match captured.get(namespace.as_str()) {
            Some(ns_records) => ns_records,
            None => {
                return Err(VerifyFailure::with_reason(ReasonCode::DisclosureIntegrity));
            },
        };
        if ns_records.len() != items.len() {
            return Err(VerifyFailure::with_reason(ReasonCode::DisclosureIntegrity));
        }
        let ns_digests = match get_map_entry(digests_item, namespace.as_str()) {
            Some(CborValue::Pairs(ns_digests)) => ns_digests,
            _ => {
                return Err(VerifyFailure::with_reason(ReasonCode::DisclosureIntegrity));
            },
        };
        proof {
            lemma_pairs_content(*ns_digests);
        }
        match disclose_records(
            &mut disclosed,
            namespace.as_str(),
            ns_records,
            ns_digests,
            digest_alg,
        ) {
            Ok(_) => {},
            Err(failure) => {
                return Err(failure);
            },
        }
        i += 1;
    }
    Ok(disclosed)
}

} // verus!
