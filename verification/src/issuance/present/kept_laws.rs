//! What stays of a response that is pruned, and in what order.
use crate::cbor::{cbor_encoded, cbor_read, entry_value, Cbor, CborValue};
use crate::issuance::device::DeviceSignatureBuild;
use crate::issuance::present::{
    prepare_present, HeldAttestation, HolderPresentation, PreparedKind, PreparedPresentation,
    PresentError, PresentFault,
};
use crate::issuance::present::list_laws::names_element;
use crate::issuance::present::mdoc::{
    item_identifier, item_selected, kept_items, prune_response, pruned_entries, pruned_map,
    pruned_name_spaces, pruned_value, replace_device_signature, spliced_entries, spliced_map,
    spliced_value, PruneLevel, SpliceLevel,
};
use crate::issuance::signer::SignerError;
use crate::openid4vp::PresentationRequest;
use crate::text::texts;
use vstd::prelude::*;

verus! {

/// Whether a map item is another but for what stands under a key, which is changed in a given way.
pub open spec fn same_but(
    before: Cbor,
    after: Cbor,
    key: Seq<char>,
    changed: spec_fn(Cbor, Cbor) -> bool,
) -> bool {
    match before {
        Cbor::Pairs(entries) => {
            &&& after is Pairs
            &&& after->Pairs_0.len() == entries.len()
            &&& forall|i: int|
                0 <= i < entries.len() ==> (#[trigger] entries[i]).0 == after->Pairs_0[i].0 && if entries[i].0
                    == Cbor::Text(key) {
                    changed(entries[i].1, after->Pairs_0[i].1)
                } else {
                    entries[i].1 == after->Pairs_0[i].1
                }
        },
        _ => after == before,
    }
}

/// Whether an item of a namespace is on a list.
pub open spec fn on_list(item: Cbor, name_space: Seq<char>, list: Seq<Seq<char>>) -> bool {
    exists|element: Seq<char>| #[trigger]
        names_element(item, element) && list.contains(name_space + "/"@ + element)
}

/// The items of a namespace that are on a list, in order.
pub open spec fn items_on(items: Seq<Cbor>, name_space: Seq<char>, list: Seq<Seq<char>>) -> Seq<Cbor> {
    items.filter(|item: Cbor| on_list(item, name_space, list))
}

/// A namespace with the items that are on a list.
pub open spec fn space_on(entry: (Cbor, Cbor), list: Seq<Seq<char>>) -> (Cbor, Cbor) {
    match entry {
        (Cbor::Text(name_space), Cbor::Array(items)) => (
            Cbor::Text(name_space),
            Cbor::Array(items_on(items, name_space, list)),
        ),
        (key, _) => (key, Cbor::Null),
    }
}

/// Whether a namespace holds something.
pub open spec fn holds_something(entry: (Cbor, Cbor)) -> bool {
    entry.1 matches Cbor::Array(items) && items.len() > 0
}

/// Whether namespaces are others with the items that are on a list; one without any is left out.
pub open spec fn name_spaces_on(before: Cbor, after: Cbor, list: Seq<Seq<char>>) -> bool {
    match before {
        Cbor::Pairs(entries) => after == Cbor::Pairs(
            entries.map_values(|entry: (Cbor, Cbor)| space_on(entry, list)).filter(
                |entry: (Cbor, Cbor)| holds_something(entry),
            ),
        ),
        _ => after == Cbor::Pairs(Seq::empty()),
    }
}

/// Whether an issuer's part is another but for its namespaces.
pub open spec fn issuer_part_on(before: Cbor, after: Cbor, list: Seq<Seq<char>>) -> bool {
    same_but(before, after, "nameSpaces"@, |b: Cbor, a: Cbor| name_spaces_on(b, a, list))
}

/// Whether a document is another but for the namespaces of its issuer's part.
pub open spec fn document_on(before: Cbor, after: Cbor, list: Seq<Seq<char>>) -> bool {
    same_but(before, after, "issuerSigned"@, |b: Cbor, a: Cbor| issuer_part_on(b, a, list))
}

/// Whether documents are others, one by one, but for the namespaces of their issuers' parts.
pub open spec fn documents_on(before: Cbor, after: Cbor, list: Seq<Seq<char>>) -> bool {
    match before {
        Cbor::Array(documents) => {
            &&& after is Array
            &&& after->Array_0.len() == documents.len()
            &&& forall|i: int|
                0 <= i < documents.len() ==> document_on(
                    #[trigger] documents[i],
                    after->Array_0[i],
                    list,
                )
        },
        _ => after == before,
    }
}

proof fn lemma_on_list(item: Cbor, name_space: Seq<char>, list: Seq<Seq<char>>)
    ensures
        item_selected(item, name_space, list) == on_list(item, name_space, list),
{
    if let Some(identifier) = item_identifier(item) {
        assert(names_element(item, identifier));
    }
    if on_list(item, name_space, list) {
        let element = choose|element: Seq<char>| #[trigger]
            names_element(item, element) && list.contains(name_space + "/"@ + element);
        assert(item_identifier(item) == Some(element));
    }
}

proof fn lemma_items_on(items: Seq<Cbor>, name_space: Seq<char>, list: Seq<Seq<char>>)
    ensures
        kept_items(items, name_space, list) == items_on(items, name_space, list),
    decreases items.len(),
{
    let keep = |item: Cbor| on_list(item, name_space, list);
    if items.len() == 0 {
        reveal(Seq::filter);
        assert(items.filter(keep) =~= Seq::<Cbor>::empty());
    } else {
        let rest = items.drop_first();
        lemma_items_on(rest, name_space, list);
        lemma_on_list(items[0], name_space, list);
        assert(items =~= seq![items[0]] + rest);
        Seq::filter_distributes_over_add(seq![items[0]], rest, keep);
        lemma_filter_one(items[0], keep);
        assert(kept_items(items, name_space, list) =~= items.filter(keep));
    }
}

proof fn lemma_filter_one<T>(item: T, keep: spec_fn(T) -> bool)
    ensures
        seq![item].filter(keep) == (if keep(item) {
            seq![item]
        } else {
            Seq::empty()
        }),
{
    reveal(Seq::filter);
    let none = Seq::<T>::empty();
    assert(seq![item].drop_last() =~= none);
    assert(none.filter(keep) =~= none);
    assert(seq![item].last() == item);
    if keep(item) {
        assert(seq![item].filter(keep) =~= seq![item]);
    }
}

proof fn lemma_name_spaces_on(entries: Seq<(Cbor, Cbor)>, list: Seq<Seq<char>>)
    ensures
        pruned_name_spaces(entries, list) == entries.map_values(
            |entry: (Cbor, Cbor)| space_on(entry, list),
        ).filter(|entry: (Cbor, Cbor)| holds_something(entry)),
    decreases entries.len(),
{
    let on = |entry: (Cbor, Cbor)| space_on(entry, list);
    let keep = |entry: (Cbor, Cbor)| holds_something(entry);
    let all = entries.map_values(on);
    if entries.len() == 0 {
        reveal(Seq::filter);
        assert(all.filter(keep) =~= Seq::<(Cbor, Cbor)>::empty());
    } else {
        let rest = entries.drop_first();
        lemma_name_spaces_on(rest, list);
        assert(all =~= seq![on(entries[0])] + rest.map_values(on));
        Seq::filter_distributes_over_add(seq![on(entries[0])], rest.map_values(on), keep);
        lemma_filter_one(on(entries[0]), keep);
        if let (Cbor::Text(name_space), Cbor::Array(items)) = entries[0] {
            lemma_items_on(items, name_space, list);
        }
        assert(pruned_name_spaces(entries, list) =~= all.filter(keep));
    }
}

proof fn lemma_entries_on(
    entries: Seq<(Cbor, Cbor)>,
    level: PruneLevel,
    list: Seq<Seq<char>>,
    i: int,
)
    requires
        0 <= i < entries.len(),
    ensures
        pruned_entries(entries, level, list).len() == entries.len(),
        pruned_entries(entries, level, list)[i].0 == entries[i].0,
        pruned_entries(entries, level, list)[i].1 == (if entries[i].0 == Cbor::Text(level.key()) {
            pruned_value(entries[i].1, level, list)
        } else {
            entries[i].1
        }),
    decreases entries.len(),
{
    let rest = entries.drop_first();
    if i > 0 {
        lemma_entries_on(rest, level, list, i - 1);
        assert(rest[i - 1] == entries[i]);
    } else if rest.len() > 0 {
        lemma_entries_on(rest, level, list, 0);
    } else {
        assert(pruned_entries(rest, level, list).len() == 0);
    }
}

proof fn lemma_map_on(
    value: Cbor,
    level: PruneLevel,
    list: Seq<Seq<char>>,
    changed: spec_fn(Cbor, Cbor) -> bool,
)
    requires
        forall|b: Cbor| changed(b, #[trigger] pruned_value(b, level, list)),
    ensures
        same_but(value, pruned_map(value, level, list), level.key(), changed),
{
    if let Cbor::Pairs(entries) = value {
        let after = pruned_entries(entries, level, list);
        if entries.len() > 0 {
            lemma_entries_on(entries, level, list, 0);
        }
        assert forall|i: int| 0 <= i < entries.len() implies (#[trigger] entries[i]).0 == after[i].0
            && if entries[i].0 == Cbor::Text(level.key()) {
            changed(entries[i].1, after[i].1)
        } else {
            entries[i].1 == after[i].1
        } by {
            lemma_entries_on(entries, level, list, i);
        }
    }
}

proof fn lemma_issuer_part_on(value: Cbor, list: Seq<Seq<char>>)
    ensures
        issuer_part_on(value, pruned_map(value, PruneLevel::IssuerSigned, list), list),
{
    let level = PruneLevel::IssuerSigned;
    let changed = |b: Cbor, a: Cbor| name_spaces_on(b, a, list);
    assert forall|b: Cbor| changed(b, #[trigger] pruned_value(b, level, list)) by {
        if let Cbor::Pairs(entries) = b {
            lemma_name_spaces_on(entries, list);
        }
    }
    lemma_map_on(value, level, list, changed);
}

proof fn lemma_document_on(value: Cbor, list: Seq<Seq<char>>)
    ensures
        document_on(value, pruned_map(value, PruneLevel::Document, list), list),
{
    let level = PruneLevel::Document;
    let changed = |b: Cbor, a: Cbor| issuer_part_on(b, a, list);
    assert forall|b: Cbor| changed(b, #[trigger] pruned_value(b, level, list)) by {
        lemma_issuer_part_on(b, list);
    }
    lemma_map_on(value, level, list, changed);
}

/// A pruned response is the response but for the namespaces of its documents' issuers' parts, and
/// each of these holds the items that are on the list, in their order, and no others; a namespace
/// without any is left out.
pub proof fn law_pruned_responses_keep_the_rest(
    response: &CborValue,
    disclose: &Vec<String>,
    out: CborValue,
)
    requires
        call_ensures(prune_response, (response, disclose), out),
    ensures
        same_but(
            response@,
            out@,
            "documents"@,
            |b: Cbor, a: Cbor| documents_on(b, a, texts(disclose@)),
        ),
{
    let level = PruneLevel::Response;
    let list = texts(disclose@);
    let changed = |b: Cbor, a: Cbor| documents_on(b, a, list);
    assert forall|b: Cbor| changed(b, #[trigger] pruned_value(b, level, list)) by {
        if let Cbor::Array(documents) = b {
            assert forall|i: int| 0 <= i < documents.len() implies document_on(
                #[trigger] documents[i],
                pruned_value(b, level, list)->Array_0[i],
                list,
            ) by {
                lemma_document_on(documents[i], list);
            }
        }
    }
    lemma_map_on(response@, level, list, changed);
}

/// What is prepared of an mdoc is the encoding of its response, pruned to the list.
pub proof fn law_prepared_mdocs_are_pruned(
    held: &HeldAttestation,
    request: &PresentationRequest,
    disclose: &Vec<String>,
    iat: i64,
    prepared: PreparedPresentation,
    response: &CborValue,
    pruned: CborValue,
)
    requires
        held matches HeldAttestation::Mdoc { device_response } && cbor_read(device_response@) == Ok::<
            Cbor,
            Seq<char>,
        >(response@),
        call_ensures(
            prepare_present,
            (held, request, disclose, iat),
            Ok::<PreparedPresentation, PresentError>(prepared),
        ),
        call_ensures(prune_response, (response, disclose), pruned),
    ensures
        prepared.kind matches PreparedKind::Mdoc { device_response, .. } && device_response@
            == cbor_encoded(pruned@),
{
}

proof fn lemma_spliced_entries(
    entries: Seq<(Cbor, Cbor)>,
    level: SpliceLevel,
    signature: Cbor,
    i: int,
)
    requires
        0 <= i < entries.len(),
        spliced_entries(entries, level, signature) is Ok,
    ensures
        ({
            let after = spliced_entries(entries, level, signature)->Ok_0;
            &&& after.len() == entries.len()
            &&& after[i].0 == entries[i].0
            &&& if entries[i].0 == Cbor::Text(level.key()) {
                spliced_value(entries[i].1, level, signature) == Ok::<Cbor, PresentFault>(
                    after[i].1,
                )
            } else {
                after[i].1 == entries[i].1
            }
        }),
    decreases entries.len(),
{
    let rest = entries.drop_first();
    assert(spliced_entries(rest, level, signature) is Ok);
    if i > 0 {
        lemma_spliced_entries(rest, level, signature, i - 1);
        assert(rest[i - 1] == entries[i]);
    } else if rest.len() > 0 {
        lemma_spliced_entries(rest, level, signature, 0);
    } else {
        assert(spliced_entries(rest, level, signature)->Ok_0.len() == 0);
    }
}

proof fn lemma_spliced_map(
    value: Cbor,
    level: SpliceLevel,
    signature: Cbor,
    changed: spec_fn(Cbor, Cbor) -> bool,
)
    requires
        spliced_map(value, level, signature) is Ok,
        forall|b: Cbor| (#[trigger] spliced_value(b, level, signature)) matches Ok(a) ==> changed(
            b,
            a,
        ),
    ensures
        value is Pairs,
        entry_value(value->Pairs_0, level.key()) is Some,
        same_but(value, spliced_map(value, level, signature)->Ok_0, level.key(), changed),
{
    let entries = value->Pairs_0;
    let after = spliced_entries(entries, level, signature)->Ok_0;
    if entries.len() > 0 {
        lemma_spliced_entries(entries, level, signature, 0);
    } else {
        assert(after.len() == 0);
    }
    assert forall|i: int| 0 <= i < entries.len() implies (#[trigger] entries[i]).0 == after[i].0
        && if entries[i].0 == Cbor::Text(level.key()) {
        changed(entries[i].1, after[i].1)
    } else {
        entries[i].1 == after[i].1
    } by {
        lemma_spliced_entries(entries, level, signature, i);
    }
}

/// Whether a device's part is another with a device signature in place of what it had.
pub open spec fn device_part_signed(before: Cbor, after: Cbor, signature: Cbor) -> bool {
    before is Pairs && same_but(
        before,
        after,
        "deviceAuth"@,
        |b: Cbor, a: Cbor| a == Cbor::Pairs(seq![(Cbor::Text("deviceSignature"@), signature)]),
    )
}

/// Whether a document is another with a device signature in its device's part.
pub open spec fn document_signed(before: Cbor, after: Cbor, signature: Cbor) -> bool {
    before is Pairs && same_but(
        before,
        after,
        "deviceSigned"@,
        |b: Cbor, a: Cbor| device_part_signed(b, a, signature),
    )
}

/// Whether the one document of a list is that of another with a device signature.
pub open spec fn only_document_signed(before: Cbor, after: Cbor, signature: Cbor) -> bool {
    before matches Cbor::Array(documents) && after matches Cbor::Array(signed) && documents.len()
        == 1 && signed.len() == 1 && document_signed(documents[0], signed[0], signature)
}

/// A response with a device signature put in is the response but for the `deviceAuth` of its one
/// document, which holds the signature and nothing else.
pub proof fn law_signed_responses_keep_the_rest(
    response: &CborValue,
    signature_bytes: &[u8],
    out: CborValue,
    signature: Cbor,
)
    requires
        call_ensures(
            replace_device_signature,
            (response, signature_bytes),
            Ok::<CborValue, PresentError>(out),
        ),
        cbor_read(signature_bytes@) == Ok::<Cbor, Seq<char>>(signature),
    ensures
        response@ is Pairs,
        entry_value(response@->Pairs_0, "documents"@) is Some,
        same_but(
            response@,
            out@,
            "documents"@,
            |b: Cbor, a: Cbor| only_document_signed(b, a, signature),
        ),
{
    let changed = |b: Cbor, a: Cbor| only_document_signed(b, a, signature);
    assert forall|b: Cbor|
        (#[trigger] spliced_value(b, SpliceLevel::Response, signature)) matches Ok(a) implies changed(
        b,
        spliced_value(b, SpliceLevel::Response, signature)->Ok_0,
    ) by {
        lemma_document_signed(b->Array_0[0], signature);
    }
    lemma_spliced_map(response@, SpliceLevel::Response, signature, changed);
}

proof fn lemma_document_signed(document: Cbor, signature: Cbor)
    ensures
        spliced_map(document, SpliceLevel::Document, signature) matches Ok(after)
            ==> document_signed(document, after, signature),
{
    let within = |b: Cbor, a: Cbor| device_part_signed(b, a, signature);
    let inner = |b: Cbor, a: Cbor|
        a == Cbor::Pairs(seq![(Cbor::Text("deviceSignature"@), signature)]);
    assert forall|b: Cbor|
        (#[trigger] spliced_value(b, SpliceLevel::Document, signature)) matches Ok(a) implies within(
        b,
        spliced_value(b, SpliceLevel::Document, signature)->Ok_0,
    ) by {
        assert(spliced_map(b, SpliceLevel::DeviceSigned, signature) is Ok);
        lemma_spliced_map(b, SpliceLevel::DeviceSigned, signature, inner);
    }
    if spliced_map(document, SpliceLevel::Document, signature) is Ok {
        lemma_spliced_map(document, SpliceLevel::Document, signature, within);
    }
}

/// What is finished of an mdoc is the encoding of the prepared response with the device signature
/// that was assembled put in.
pub proof fn law_finished_mdocs_are_signed(
    prepared: &PreparedPresentation,
    signature: &[u8],
    out: Result<HolderPresentation, PresentError>,
    build: DeviceSignatureBuild,
    device_response: Vec<u8>,
    response: &CborValue,
    assembled: Vec<u8>,
    bytes: &[u8],
    signed: Result<CborValue, PresentError>,
)
    requires
        prepared.kind == (PreparedKind::Mdoc { device_response, build }),
        call_ensures(PreparedPresentation::finish, (prepared, signature), out),
        call_ensures(
            DeviceSignatureBuild::assemble,
            (&build, signature),
            Ok::<Vec<u8>, SignerError>(assembled),
        ),
        cbor_read(device_response@) == Ok::<Cbor, Seq<char>>(response@),
        bytes@ == assembled@,
        call_ensures(replace_device_signature, (response, bytes), signed),
    ensures
        out is Ok <==> signed is Ok,
        signed matches Ok(value) ==> (out matches Ok(HolderPresentation::Mdoc {
            audience,
            device_response: sent,
        }) && sent@ == cbor_encoded(value@) && audience@ == build.input.audience@),
{
}

} // verus!
