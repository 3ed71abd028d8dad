//! What holds of mdoc presentations as a whole.
use crate::cbor::{array_entry, cbor_decoded, cbor_read, entry_value, map_entry, Cbor};
use crate::crypto::{es256_holds, p256_key_valid};
use crate::issuance::device::{detached_item, is_detached_signature, law_holder_and_verifier_agree};
use crate::issuance::present::{finished_mdoc, input_to_sign, mdoc_prepared, Prepared, PresentFault};
use crate::issuance::present::mdoc::{
    device_auth, device_name_spaces_of, doc_type_of, first_document, issued_name_spaces,
    item_selected, kept_items, nested_entry, pruned_entries, pruned_map, pruned_name_spaces,
    pruned_value, spliced_entries, spliced_map, spliced_value, PruneLevel, SpliceLevel,
};
use crate::mdoc::binding::binding_verdict;
use crate::openid4vp::handover_transcript;
use crate::types::ReasonCode;
use vstd::prelude::*;

verus! {

/// What a pruned map holds under a key.
proof fn lemma_pruned_entry(
    entries: Seq<(Cbor, Cbor)>,
    level: PruneLevel,
    disclose: Seq<Seq<char>>,
    key: Seq<char>,
)
    ensures
        entry_value(pruned_entries(entries, level, disclose), key) == (match entry_value(
            entries,
            key,
        ) {
            Some(value) => Some(
                if key == level.key() {
                    pruned_value(value, level, disclose)
                } else {
                    value
                },
            ),
            None => None,
        }),
    decreases entries.len(),
{
    if entries.len() > 0 {
        let rest = pruned_entries(entries.drop_first(), level, disclose);
        let pruned = pruned_entries(entries, level, disclose);
        lemma_pruned_entry(entries.drop_first(), level, disclose, key);
        assert(pruned.drop_first() =~= rest);
        assert(pruned[0].0 == entries[0].0);
    }
}

/// What a rebuilt map holds under a key.
proof fn lemma_spliced_entry(
    entries: Seq<(Cbor, Cbor)>,
    level: SpliceLevel,
    signature: Cbor,
    key: Seq<char>,
)
    requires
        spliced_entries(entries, level, signature) is Ok,
    ensures
        ({
            let rebuilt = spliced_entries(entries, level, signature)->Ok_0;
            match entry_value(entries, key) {
                Some(value) => if key == level.key() {
                    spliced_value(value, level, signature) is Ok && entry_value(rebuilt, key)
                        == Some(spliced_value(value, level, signature)->Ok_0)
                } else {
                    entry_value(rebuilt, key) == Some(value)
                },
                None => entry_value(rebuilt, key) is None,
            }
        }),
    decreases entries.len(),
{
    if entries.len() > 0 {
        let rest = spliced_entries(entries.drop_first(), level, signature)->Ok_0;
        let rebuilt = spliced_entries(entries, level, signature)->Ok_0;
        lemma_spliced_entry(entries.drop_first(), level, signature, key);
        assert(rebuilt.drop_first() =~= rest);
        assert(rebuilt[0].0 == entries[0].0);
    }
}

proof fn lemma_keys_differ()
    ensures
        "issuerSigned"@ != "docType"@,
        "issuerSigned"@ != "deviceSigned"@,
        "deviceSigned"@ != "docType"@,
        "deviceSigned"@ != "issuerSigned"@,
        "deviceAuth"@ != "nameSpaces"@,
{
    reveal_strlit("issuerSigned");
    reveal_strlit("docType");
    reveal_strlit("deviceSigned");
    reveal_strlit("deviceAuth");
    reveal_strlit("nameSpaces");
    assert("issuerSigned"@.len() == 12 && "deviceSigned"@.len() == 12);
    assert("issuerSigned"@[0] == 'i' && "deviceSigned"@[0] == 'd');
    assert("docType"@.len() == 7);
    assert("deviceAuth"@.len() == 10 && "nameSpaces"@.len() == 10);
    assert("deviceAuth"@[0] == 'd' && "nameSpaces"@[0] == 'n');
}

/// Pruning leaves the first document in its place.
proof fn lemma_pruned_document(response: Cbor, disclose: Seq<Seq<char>>)
    requires
        first_document(response) is Some,
    ensures
        first_document(pruned_map(response, PruneLevel::Response, disclose)) == Some(
            pruned_map(first_document(response)->Some_0, PruneLevel::Document, disclose),
        ),
        array_entry(pruned_map(response, PruneLevel::Response, disclose), "documents"@)->Some_0.len()
            == array_entry(response, "documents"@)->Some_0.len(),
{
    let entries = response->Pairs_0;
    lemma_pruned_entry(entries, PruneLevel::Response, disclose, "documents"@);
    let documents = array_entry(response, "documents"@)->Some_0;
    let pruned = pruned_map(response, PruneLevel::Response, disclose);
    assert(map_entry(pruned, "documents"@) == Some(
        pruned_value(Cbor::Array(documents), PruneLevel::Response, disclose),
    ));
    let kept = pruned_value(Cbor::Array(documents), PruneLevel::Response, disclose)->Array_0;
    assert(kept[0] == pruned_map(documents[0], PruneLevel::Document, disclose));
}

/// Pruning an mdoc touches its issuer-signed namespaces alone: the document type, the device's
/// part, the issuer's signature and everything else of the document stay as they are.
pub proof fn law_pruning_touches_name_spaces_alone(
    response: Cbor,
    disclose: Seq<Seq<char>>,
    document: Cbor,
    key: Seq<char>,
)
    requires
        first_document(response) == Some(document),
    ensures
        ({
            let pruned = first_document(pruned_map(response, PruneLevel::Response, disclose));
            &&& pruned is Some
            &&& key != "issuerSigned"@ ==> map_entry(pruned->Some_0, key) == map_entry(document, key)
            &&& key != "nameSpaces"@ ==> nested_entry(pruned->Some_0, "issuerSigned"@, key)
                == nested_entry(document, "issuerSigned"@, key)
        }),
        doc_type_of(pruned_map(response, PruneLevel::Response, disclose)) == doc_type_of(response),
        device_name_spaces_of(pruned_map(response, PruneLevel::Response, disclose))
            == device_name_spaces_of(response),
{
    lemma_keys_differ();
    lemma_pruned_document(response, disclose);
    let pruned = pruned_map(document, PruneLevel::Document, disclose);
    if let Cbor::Pairs(entries) = document {
        lemma_pruned_entry(entries, PruneLevel::Document, disclose, key);
        lemma_pruned_entry(entries, PruneLevel::Document, disclose, "issuerSigned"@);
        lemma_pruned_entry(entries, PruneLevel::Document, disclose, "docType"@);
        lemma_pruned_entry(entries, PruneLevel::Document, disclose, "deviceSigned"@);
        if let Some(Cbor::Pairs(signed)) = map_entry(document, "issuerSigned"@) {
            lemma_pruned_entry(signed, PruneLevel::IssuerSigned, disclose, key);
        }
    }
}

/// Which items of a namespace stay.
proof fn lemma_kept_items(
    items: Seq<Cbor>,
    name_space: Seq<char>,
    disclose: Seq<Seq<char>>,
    item: Cbor,
)
    ensures
        kept_items(items, name_space, disclose).contains(item) <==> items.contains(item)
            && item_selected(item, name_space, disclose),
    decreases items.len(),
{
    let kept = kept_items(items, name_space, disclose);
    if items.len() > 0 {
        let rest = kept_items(items.drop_first(), name_space, disclose);
        lemma_kept_items(items.drop_first(), name_space, disclose, item);
        if items.contains(item) {
            let i = choose|i: int| 0 <= i < items.len() && items[i] == item;
            if i > 0 {
                assert(items.drop_first()[i - 1] == item);
            }
        }
        if items.drop_first().contains(item) {
            let i = choose|i: int|
                0 <= i < items.drop_first().len() && items.drop_first()[i] == item;
            assert(items[i + 1] == item);
        }
        if item_selected(items[0], name_space, disclose) {
            assert(kept[0] == items[0]);
            if rest.contains(item) {
                let i = choose|i: int| 0 <= i < rest.len() && rest[i] == item;
                assert(kept[i + 1] == item);
            }
            if kept.contains(item) {
                let i = choose|i: int| 0 <= i < kept.len() && kept[i] == item;
                if i > 0 {
                    assert(rest[i - 1] == item);
                }
            }
        }
    }
}

/// Whether namespace entries hold an item under a namespace.
pub open spec fn holds_item(
    entries: Seq<(Cbor, Cbor)>,
    name_space: Seq<char>,
    item: Cbor,
) -> bool {
    exists|i: int|
        0 <= i < entries.len() && entry_holds(#[trigger] entries[i], name_space, item)
}

/// Whether a namespace entry holds an item under a namespace.
pub open spec fn entry_holds(entry: (Cbor, Cbor), name_space: Seq<char>, item: Cbor) -> bool {
    &&& entry.0 == Cbor::Text(name_space)
    &&& entry.1 is Array
    &&& entry.1->Array_0.contains(item)
}

/// Of the issued items exactly those stay whose namespace and element are on the list.
pub proof fn law_pruned_items_are_those_on_the_list(
    entries: Seq<(Cbor, Cbor)>,
    disclose: Seq<Seq<char>>,
    name_space: Seq<char>,
    item: Cbor,
)
    ensures
        holds_item(pruned_name_spaces(entries, disclose), name_space, item) <==> holds_item(
            entries,
            name_space,
            item,
        ) && item_selected(item, name_space, disclose),
    decreases entries.len(),
{
    let pruned = pruned_name_spaces(entries, disclose);
    if entries.len() > 0 {
        let tail = entries.drop_first();
        let rest = pruned_name_spaces(tail, disclose);
        law_pruned_items_are_those_on_the_list(tail, disclose, name_space, item);
        let head = entries[0];
        let kept = kept_items(head.1->Array_0, head.0->Text_0, disclose);
        let on = head.0 is Text && head.1 is Array && kept.len() > 0;
        lemma_kept_items(head.1->Array_0, head.0->Text_0, disclose, item);
        if on {
            assert(pruned =~= seq![(head.0, Cbor::Array(kept))] + rest);
            assert(pruned[0] == (head.0, Cbor::Array(kept)));
        } else {
            assert(pruned == rest);
        }
        if holds_item(entries, name_space, item) && item_selected(item, name_space, disclose) {
            let i = choose|i: int|
                0 <= i < entries.len() && entry_holds(#[trigger] entries[i], name_space, item);
            if i == 0 {
                assert(kept.contains(item));
                assert(entry_holds(pruned[0], name_space, item));
            } else {
                assert(entry_holds(tail[i - 1], name_space, item));
            }
        }
        if holds_item(rest, name_space, item) {
            let i = choose|i: int|
                0 <= i < rest.len() && entry_holds(#[trigger] rest[i], name_space, item);
            if on {
                assert(entry_holds(pruned[i + 1], name_space, item));
            }
        }
        if holds_item(pruned, name_space, item) {
            let i = choose|i: int|
                0 <= i < pruned.len() && entry_holds(#[trigger] pruned[i], name_space, item);
            if on {
                if i == 0 {
                    assert(entry_holds(entries[0], name_space, item));
                } else {
                    assert(entry_holds(rest[i - 1], name_space, item));
                }
            }
        }
        if holds_item(tail, name_space, item) {
            let i = choose|i: int|
                0 <= i < tail.len() && entry_holds(#[trigger] tail[i], name_space, item);
            assert(entry_holds(entries[i + 1], name_space, item));
        }
    }
}

/// A prepared mdoc discloses, of the issued items, exactly those on the list.
pub proof fn law_pruned_mdoc_discloses_the_list(
    response: Cbor,
    disclose: Seq<Seq<char>>,
    name_space: Seq<char>,
    item: Cbor,
)
    requires
        first_document(response) is Some,
    ensures
        holds_item(
            issued_name_spaces(pruned_map(response, PruneLevel::Response, disclose)),
            name_space,
            item,
        ) <==> holds_item(issued_name_spaces(response), name_space, item) && item_selected(
            item,
            name_space,
            disclose,
        ),
{
    lemma_keys_differ();
    lemma_pruned_document(response, disclose);
    let document = first_document(response)->Some_0;
    if let Cbor::Pairs(entries) = document {
        lemma_pruned_entry(entries, PruneLevel::Document, disclose, "issuerSigned"@);
        if let Some(Cbor::Pairs(signed)) = map_entry(document, "issuerSigned"@) {
            lemma_pruned_entry(signed, PruneLevel::IssuerSigned, disclose, "nameSpaces"@);
        }
    }
    law_pruned_items_are_those_on_the_list(
        issued_name_spaces(response),
        disclose,
        name_space,
        item,
    );
}

/// Splicing a signature into a response gives its one document that signature, and leaves the
/// device namespaces, the document type and the issuer's part as they are.
pub proof fn law_spliced_response(response: Cbor, signature: Cbor, rebuilt: Cbor)
    requires
        spliced_map(response, SpliceLevel::Response, signature) == Ok::<Cbor, PresentFault>(rebuilt),
    ensures
        first_document(response) is Some,
        first_document(rebuilt) is Some,
        ({
            let before = first_document(response)->Some_0;
            let after = first_document(rebuilt)->Some_0;
            &&& nested_entry(after, "deviceSigned"@, "deviceAuth"@) == Some(device_auth(signature))
            &&& nested_entry(after, "deviceSigned"@, "nameSpaces"@) == nested_entry(
                before,
                "deviceSigned"@,
                "nameSpaces"@,
            )
            &&& map_entry(after, "issuerSigned"@) == map_entry(before, "issuerSigned"@)
            &&& map_entry(after, "docType"@) == map_entry(before, "docType"@)
        }),
{
    lemma_keys_differ();
    lemma_spliced_entry(response->Pairs_0, SpliceLevel::Response, signature, "documents"@);
    let documents = entry_value(response->Pairs_0, "documents"@)->Some_0;
    let before = documents->Array_0[0];
    assert(spliced_map(before, SpliceLevel::Document, signature) is Ok);
    let entries = before->Pairs_0;
    lemma_spliced_entry(entries, SpliceLevel::Document, signature, "deviceSigned"@);
    lemma_spliced_entry(entries, SpliceLevel::Document, signature, "issuerSigned"@);
    lemma_spliced_entry(entries, SpliceLevel::Document, signature, "docType"@);
    let device_signed = entry_value(entries, "deviceSigned"@)->Some_0;
    assert(spliced_map(device_signed, SpliceLevel::DeviceSigned, signature) is Ok);
    let signed = device_signed->Pairs_0;
    lemma_spliced_entry(signed, SpliceLevel::DeviceSigned, signature, "deviceAuth"@);
    lemma_spliced_entry(signed, SpliceLevel::DeviceSigned, signature, "nameSpaces"@);
}

/// A finished mdoc presentation is bound to its request: its document passes the holder binding
/// against the request's own session transcript exactly when the device key verifies the signature
/// over the input that was handed out.
pub proof fn law_presented_mdoc_is_bound(
    device_response: Seq<u8>,
    audience: Seq<char>,
    nonce: Seq<u8>,
    response_uri: Seq<char>,
    disclose: Seq<Seq<char>>,
    response: Cbor,
    prepared: Prepared,
    signature: Seq<u8>,
    rebuilt: Cbor,
    session_transcript: Seq<u8>,
    sec1: Seq<u8>,
)
    requires
        p256_key_valid(sec1),
        cbor_read(device_response) == Ok::<Cbor, Seq<char>>(response),
        mdoc_prepared(device_response, audience, nonce, response_uri, disclose) == Ok::<
            Prepared,
            PresentFault,
        >(prepared),
        cbor_decoded(prepared->device_response) == Some(
            pruned_map(response, PruneLevel::Response, disclose),
        ),
        device_name_spaces_of(response) is Some,
        finished_mdoc(prepared, signature) == Some(rebuilt),
        is_detached_signature(detached_item(signature), signature),
        cbor_decoded(session_transcript) == Some(
            handover_transcript(audience, nonce, response_uri),
        ),
    ensures
        doc_type_of(response) is Some,
        first_document(rebuilt) is Some,
        ({
            let verdict = binding_verdict(
                first_document(rebuilt)->Some_0,
                sec1,
                doc_type_of(response)->Some_0,
                Some(session_transcript),
            );
            if es256_holds(sec1, input_to_sign(prepared).to_be_signed, signature) {
                verdict is None
            } else {
                verdict == Some(ReasonCode::HolderBinding)
            }
        }),
{
    let document = first_document(response)->Some_0;
    let item = detached_item(signature);
    law_pruning_touches_name_spaces_alone(response, disclose, document, "deviceSigned"@);
    law_spliced_response(pruned_map(response, PruneLevel::Response, disclose), item, rebuilt);
    let after = first_document(rebuilt)->Some_0;
    let device_signed = map_entry(after, "deviceSigned"@)->Some_0;
    let auth = device_auth(item);
    assert(auth->Pairs_0[0] == (Cbor::Text("deviceSignature"@), item));
    assert(map_entry(auth, "deviceSignature"@) == Some(item));
    law_holder_and_verifier_agree(
        after,
        sec1,
        doc_type_of(response)->Some_0,
        session_transcript,
        handover_transcript(audience, nonce, response_uri),
        audience,
        crate::crypto::base64url_text(nonce),
        device_signed,
        auth,
        item,
        device_name_spaces_of(response)->Some_0,
        signature,
    );
}

} // verus!
