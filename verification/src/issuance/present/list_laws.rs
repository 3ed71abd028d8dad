//! What the list of a presentation decides.
use crate::cbor::{
    cbor_decoded, cbor_encoded, cbor_read, map_entry, simple_item, Cbor, SIMPLE_DEPTH,
};
use crate::issuance::present::{
    prepare_present, prepared_content, sd_jwt_prepared, Held, HeldAttestation, Prepared,
    PreparedKind, PreparedPresentation, PresentError, PresentFault,
};
use crate::issuance::present::mdoc::{
    first_document, issued_name_spaces, item_selected, kept_items, least_not_offered, offers,
    pruned_entries, pruned_map, pruned_name_spaces, pruned_value, PruneLevel,
};
use crate::issuance::present::mdoc_laws::{holds_item, law_pruned_mdoc_discloses_the_list};
use crate::issuance::present::places::Place;
use crate::issuance::present::sd_jwt::{sd_jwt_read, SdJwtContent};
use crate::issuance::present::selection::{
    concealed_places, keeps, least_unselectable, omitted_positions, selectable, selection_outcome,
};
use crate::openid4vp::PresentationRequest;
use crate::text::{law_least_rejected, least_rejected, texts};
use vstd::prelude::*;

verus! {

/// Whether the one document of a response has an issued item in a namespace.
pub open spec fn has_issued(response: Cbor, name_space: Seq<char>, item: Cbor) -> bool {
    &&& map_entry(response, "documents"@) matches Some(Cbor::Array(documents)) && documents.len() > 0
    &&& map_entry(
        map_entry(response, "documents"@)->0->Array_0[0],
        "issuerSigned"@,
    ) matches Some(issuer_signed) && map_entry(issuer_signed, "nameSpaces"@) matches Some(
        Cbor::Pairs(entries),
    ) && exists|i: int|
        {
            &&& 0 <= i < entries.len()
            &&& (#[trigger] entries[i]).0 == Cbor::Text(name_space)
            &&& entries[i].1 matches Cbor::Array(items) && items.contains(item)
        }
}

/// Whether an item, `#6.24(bstr)` around a map, names an element.
pub open spec fn names_element(item: Cbor, element: Seq<char>) -> bool {
    item matches Cbor::Tag(tag, inner) && tag == 24 && (*inner matches Cbor::Bytes(bytes)
        && cbor_decoded(bytes) matches Some(fields) && map_entry(fields, "elementIdentifier"@)
        == Some(Cbor::Text(element)))
}

proof fn lemma_has_issued(response: Cbor, name_space: Seq<char>, item: Cbor)
    requires
        first_document(response) is Some,
    ensures
        has_issued(response, name_space, item) <==> holds_item(
            issued_name_spaces(response),
            name_space,
            item,
        ),
{
    let entries = issued_name_spaces(response);
    if holds_item(entries, name_space, item) {
        let i = choose|i: int|
            0 <= i < entries.len() && crate::issuance::present::mdoc_laws::entry_holds(
                #[trigger] entries[i],
                name_space,
                item,
            );
        assert(entries[i].0 == Cbor::Text(name_space));
    }
    if has_issued(response, name_space, item) {
        let i = choose|i: int|
            {
                &&& 0 <= i < entries.len()
                &&& (#[trigger] entries[i]).0 == Cbor::Text(name_space)
                &&& entries[i].1 matches Cbor::Array(items) && items.contains(item)
            };
        assert(crate::issuance::present::mdoc_laws::entry_holds(entries[i], name_space, item));
    }
}

/// An issued item is in the prepared response exactly where it names an element and the list holds
/// the namespace, a slash and the element. What is prepared is the encoding of a response with
/// these items, and is read back as it where it is a simple one.
pub proof fn law_prepared_mdoc_discloses_the_list(
    held: &HeldAttestation,
    request: &PresentationRequest,
    disclose: &Vec<String>,
    iat: i64,
    prepared: PreparedPresentation,
    response: Cbor,
)
    requires
        held matches HeldAttestation::Mdoc { device_response } && cbor_read(device_response@) == Ok::<
            Cbor,
            Seq<char>,
        >(response),
        call_ensures(
            prepare_present,
            (held, request, disclose, iat),
            Ok::<PreparedPresentation, PresentError>(prepared),
        ),
    ensures
        exists|sent: Cbor|
            {
                &&& prepared.kind matches PreparedKind::Mdoc { device_response, .. }
                    && device_response@ == #[trigger] cbor_encoded(sent) && (simple_item(
                    sent,
                    SIMPLE_DEPTH as nat,
                ) ==> cbor_decoded(device_response@) == Some(sent))
                &&& forall|name_space: Seq<char>, item: Cbor|
                    #[trigger] has_issued(sent, name_space, item) <==> has_issued(
                        response,
                        name_space,
                        item,
                    ) && exists|element: Seq<char>| #[trigger]
                        names_element(item, element) && texts(disclose@).contains(
                            name_space + "/"@ + element,
                        )
            },
{
    let wanted = texts(disclose@);
    let sent = pruned_map(response, PruneLevel::Response, wanted);
    assert(first_document(response) is Some);
    crate::issuance::present::mdoc_laws::law_pruning_touches_name_spaces_alone(
        response,
        wanted,
        first_document(response)->Some_0,
        Seq::empty(),
    );
    assert forall|name_space: Seq<char>, item: Cbor|
        #[trigger] has_issued(sent, name_space, item) <==> has_issued(response, name_space, item)
            && exists|element: Seq<char>| #[trigger]
            names_element(item, element) && wanted.contains(name_space + "/"@ + element) by {
        lemma_has_issued(sent, name_space, item);
        lemma_has_issued(response, name_space, item);
        law_pruned_mdoc_discloses_the_list(response, wanted, name_space, item);
        if item_selected(item, name_space, wanted) {
            let element = crate::issuance::present::mdoc::item_identifier(item)->Some_0;
            assert(names_element(item, element));
        }
        if exists|element: Seq<char>| #[trigger]
            names_element(item, element) && wanted.contains(name_space + "/"@ + element) {
            let element = choose|element: Seq<char>| #[trigger]
                names_element(item, element) && wanted.contains(name_space + "/"@ + element);
            assert(crate::issuance::present::mdoc::item_identifier(item) == Some(element));
        }
    }
    assert(prepared@->device_response == cbor_encoded(sent));
}

/// Whether the one document of a response offers a selector: some issued item goes by it.
pub open spec fn offered(response: Cbor, selector: Seq<char>) -> bool {
    exists|name_space: Seq<char>, item: Cbor, element: Seq<char>|
        #![trigger has_issued(response, name_space, item), names_element(item, element)]
        has_issued(response, name_space, item) && names_element(item, element) && name_space
            + "/"@ + element == selector
}

proof fn lemma_offered(response: Cbor, selector: Seq<char>)
    requires
        first_document(response) is Some,
    ensures
        offered(response, selector) <==> offers(issued_name_spaces(response), selector),
{
    let entries = issued_name_spaces(response);
    if offers(entries, selector) {
        let i = choose|i: int|
            0 <= i < entries.len() && crate::issuance::present::mdoc::entry_offers(
                #[trigger] entries[i],
                selector,
            );
        let name_space = entries[i].0->Text_0;
        let items = entries[i].1->Array_0;
        let j = choose|j: int|
            0 <= j < items.len() && crate::issuance::present::mdoc::item_named(
                #[trigger] items[j],
                name_space,
                selector,
            );
        let element = crate::issuance::present::mdoc::item_identifier(items[j])->Some_0;
        assert(items.contains(items[j]));
        assert(entries[i].0 == Cbor::Text(name_space));
        assert(has_issued(response, name_space, items[j]));
        assert(names_element(items[j], element));
    }
    if offered(response, selector) {
        let (name_space, item, element) = choose|
            name_space: Seq<char>,
            item: Cbor,
            element: Seq<char>,
        |
            #![trigger has_issued(response, name_space, item), names_element(item, element)]
            has_issued(response, name_space, item) && names_element(item, element) && name_space
                + "/"@ + element == selector;
        let i = choose|i: int|
            {
                &&& 0 <= i < entries.len()
                &&& (#[trigger] entries[i]).0 == Cbor::Text(name_space)
                &&& entries[i].1 matches Cbor::Array(items) && items.contains(item)
            };
        let items = entries[i].1->Array_0;
        let j = choose|j: int| 0 <= j < items.len() && items[j] == item;
        assert(crate::issuance::present::mdoc::item_named(items[j], name_space, selector));
        assert(crate::issuance::present::mdoc::entry_offers(entries[i], selector));
    }
}

/// A list is refused exactly where it holds something that no issued item goes by, and then for
/// such an entry of it; a list of what is there is not refused for its entries.
pub proof fn law_unknown_elements_are_refused(
    held: &HeldAttestation,
    request: &PresentationRequest,
    disclose: &Vec<String>,
    iat: i64,
    out: Result<PreparedPresentation, PresentError>,
    response: Cbor,
    document: Cbor,
)
    requires
        held matches HeldAttestation::Mdoc { device_response } && cbor_read(device_response@) == Ok::<
            Cbor,
            Seq<char>,
        >(response),
        map_entry(response, "documents"@) == Some(Cbor::Array(seq![document])),
        map_entry(document, "docType"@) matches Some(doc_type) && doc_type is Text,
        call_ensures(prepare_present, (held, request, disclose, iat), out),
    ensures
        (exists|i: int|
            0 <= i < disclose@.len() && !#[trigger] offered(response, disclose@[i]@)) <==> (
        out matches Err(PresentError::UndisclosableClaim(_))),
        out matches Err(PresentError::UndisclosableClaim(selector)) ==> !offered(
            response,
            selector@,
        ) && texts(disclose@).contains(selector@),
        !(out matches Err(PresentError::MultiDocumentMdoc(_))),
{
    let wanted = texts(disclose@);
    let entries = issued_name_spaces(response);
    let accepted = |selector: Seq<char>| offers(entries, selector);
    law_least_rejected(wanted, accepted);
    assert forall|selector: Seq<char>| offered(response, selector) <==> #[trigger] offers(
        entries,
        selector,
    ) by {
        lemma_offered(response, selector);
    }
    assert(crate::cbor::array_entry(response, "documents"@) == Some(seq![document]));
    assert(first_document(response) == Some(document));
    if exists|i: int| 0 <= i < disclose@.len() && !#[trigger] offered(response, disclose@[i]@) {
        let i = choose|i: int|
            0 <= i < disclose@.len() && !#[trigger] offered(response, disclose@[i]@);
        assert(wanted[i] == disclose@[i]@);
        assert(!accepted(wanted[i]));
    }
    if let Err(PresentError::UndisclosableClaim(selector)) = out {
        assert(least_not_offered(entries, wanted) == Some(selector@));
        assert(!accepted(selector@));
        let i = choose|i: int| 0 <= i < wanted.len() && wanted[i] == selector@;
        assert(!offered(response, disclose@[i]@));
    }
}

/// A response with more than one document is refused, with their number.
pub proof fn law_one_document_at_a_time(
    held: &HeldAttestation,
    request: &PresentationRequest,
    disclose: &Vec<String>,
    iat: i64,
    out: Result<PreparedPresentation, PresentError>,
    response: Cbor,
    documents: Seq<Cbor>,
)
    requires
        held matches HeldAttestation::Mdoc { device_response } && cbor_read(device_response@) == Ok::<
            Cbor,
            Seq<char>,
        >(response),
        map_entry(response, "documents"@) == Some(Cbor::Array(documents)),
        1 < documents.len() <= usize::MAX,
        call_ensures(prepare_present, (held, request, disclose, iat), out),
    ensures
        out matches Err(PresentError::MultiDocumentMdoc(count)) && count == documents.len(),
{
}

/// Whether two lists hold the same entries, in whatever order and however often.
pub open spec fn same_entries(a: Seq<Seq<char>>, b: Seq<Seq<char>>) -> bool {
    forall|entry: Seq<char>| a.contains(entry) <==> #[trigger] b.contains(entry)
}

proof fn lemma_same_kept(
    items: Seq<Cbor>,
    name_space: Seq<char>,
    a: Seq<Seq<char>>,
    b: Seq<Seq<char>>,
)
    requires
        same_entries(a, b),
    ensures
        kept_items(items, name_space, a) == kept_items(items, name_space, b),
    decreases items.len(),
{
    if items.len() > 0 {
        lemma_same_kept(items.drop_first(), name_space, a, b);
        if let Some(identifier) = crate::issuance::present::mdoc::item_identifier(items[0]) {
            let selector = crate::issuance::present::mdoc::element_selector(name_space, identifier);
            assert(a.contains(selector) <==> b.contains(selector));
        }
    }
}

proof fn lemma_same_spaces(entries: Seq<(Cbor, Cbor)>, a: Seq<Seq<char>>, b: Seq<Seq<char>>)
    requires
        same_entries(a, b),
    ensures
        pruned_name_spaces(entries, a) == pruned_name_spaces(entries, b),
    decreases entries.len(),
{
    if entries.len() > 0 {
        lemma_same_spaces(entries.drop_first(), a, b);
        if let (Cbor::Text(name_space), Cbor::Array(items)) = entries[0] {
            lemma_same_kept(items, name_space, a, b);
        }
    }
}

proof fn lemma_same_map(value: Cbor, level: PruneLevel, a: Seq<Seq<char>>, b: Seq<Seq<char>>)
    requires
        same_entries(a, b),
    ensures
        pruned_map(value, level, a) == pruned_map(value, level, b),
    decreases level.depth(), 2nat, 0nat,
{
    if let Cbor::Pairs(entries) = value {
        lemma_same_map_entries(entries, level, a, b);
    }
}

proof fn lemma_same_map_entries(
    entries: Seq<(Cbor, Cbor)>,
    level: PruneLevel,
    a: Seq<Seq<char>>,
    b: Seq<Seq<char>>,
)
    requires
        same_entries(a, b),
    ensures
        pruned_entries(entries, level, a) == pruned_entries(entries, level, b),
    decreases level.depth(), 1nat, entries.len(),
{
    if entries.len() > 0 {
        lemma_same_map_entries(entries.drop_first(), level, a, b);
        lemma_same_value(entries[0].1, level, a, b);
    }
}

proof fn lemma_same_value(value: Cbor, level: PruneLevel, a: Seq<Seq<char>>, b: Seq<Seq<char>>)
    requires
        same_entries(a, b),
    ensures
        pruned_value(value, level, a) == pruned_value(value, level, b),
    decreases level.depth(), 0nat, 0nat,
{
    match level {
        PruneLevel::Response => {
            if let Cbor::Array(documents) = value {
                let one = pruned_value(value, level, a)->Array_0;
                let two = pruned_value(value, level, b)->Array_0;
                assert forall|i: int| 0 <= i < documents.len() implies one[i] == two[i] by {
                    lemma_same_map(documents[i], PruneLevel::Document, a, b);
                }
                assert(one =~= two);
            }
        },
        PruneLevel::Document => {
            lemma_same_map(value, PruneLevel::IssuerSigned, a, b);
        },
        PruneLevel::IssuerSigned => {
            if let Cbor::Pairs(entries) = value {
                lemma_same_spaces(entries, a, b);
            }
        },
    }
}

proof fn lemma_same_least(
    a: Seq<Seq<char>>,
    b: Seq<Seq<char>>,
    accepted: spec_fn(Seq<char>) -> bool,
)
    requires
        same_entries(a, b),
    ensures
        least_rejected(a, accepted) == least_rejected(b, accepted),
{
    law_least_rejected(a, accepted);
    law_least_rejected(b, accepted);
    if let Some(x) = least_rejected(a, accepted) {
        assert(b.contains(x));
    }
    if let Some(y) = least_rejected(b, accepted) {
        assert(a.contains(y));
    }
    if let (Some(x), Some(y)) = (least_rejected(a, accepted), least_rejected(b, accepted)) {
        crate::text::lemma_text_order(x, y, x);
    }
}

/// The order of the list, and how often an entry stands on it, do not matter: lists with the same
/// entries prepare the same presentation, or are refused alike.
pub proof fn law_the_order_of_the_list_does_not_matter(
    held: &HeldAttestation,
    request: &PresentationRequest,
    disclose_a: &Vec<String>,
    disclose_b: &Vec<String>,
    iat: i64,
    a: Result<PreparedPresentation, PresentError>,
    b: Result<PreparedPresentation, PresentError>,
)
    requires
        same_entries(texts(disclose_a@), texts(disclose_b@)),
        call_ensures(prepare_present, (held, request, disclose_a, iat), a),
        call_ensures(prepare_present, (held, request, disclose_b, iat), b),
    ensures
        prepared_content(a) == prepared_content(b),
{
    let one = texts(disclose_a@);
    let two = texts(disclose_b@);
    match held@ {
        Held::Mdoc { device_response } => {
            if let Ok(response) = cbor_read(device_response) {
                let entries = issued_name_spaces(response);
                lemma_same_least(one, two, |selector: Seq<char>| offers(entries, selector));
                lemma_same_map(response, PruneLevel::Response, one, two);
            }
        },
        Held::SdJwtVc { issued } => {
            if let Ok(content) = sd_jwt_read(issued) {
                lemma_same_least(one, two, |selector: Seq<char>| selectable(content, selector));
                lemma_same_selection(issued, content, one, two);
            }
            lemma_same_outcome(
                issued,
                request.audience@,
                request.nonce@,
                one,
                two,
                iat,
                prepared_content(a),
            );
            crate::issuance::present::law_preparation_is_deterministic(
                held@,
                request.audience@,
                request.nonce@,
                request.response_uri@,
                two,
                iat,
                prepared_content(a),
                prepared_content(b),
            );
        },
    }
}

proof fn lemma_same_selection(
    issued: Seq<char>,
    held: SdJwtContent,
    a: Seq<Seq<char>>,
    b: Seq<Seq<char>>,
)
    requires
        same_entries(a, b),
    ensures
        concealed_places(held, a) == concealed_places(held, b),
        omitted_positions(held, a) == omitted_positions(held, b),
        least_unselectable(held, a) == least_unselectable(held, b),
{
    lemma_same_least(a, b, |selector: Seq<char>| selectable(held, selector));
    assert forall|place: Place| keeps(held, a, place) == #[trigger] keeps(held, b, place) by {
        assert(a.contains(place.selector) <==> b.contains(place.selector));
        let claims = held.claims->Ok_0;
        let all = crate::issuance::present::sd_jwt::indexed(held.disclosures);
        if crate::issuance::present::selection::wanted_inside(claims, all, a, place) {
            let inner = choose|inner: Place| #[trigger]
                crate::issuance::present::walk::below(claims, all, Some(place), inner)
                    && a.contains(inner.selector);
            assert(b.contains(inner.selector));
        }
        if crate::issuance::present::selection::wanted_inside(claims, all, b, place) {
            let inner = choose|inner: Place| #[trigger]
                crate::issuance::present::walk::below(claims, all, Some(place), inner)
                    && b.contains(inner.selector);
            assert(a.contains(inner.selector));
        }
    }
    assert forall|place: Place| concealed_places(held, a).contains(place)
        <==> concealed_places(held, b).contains(place) by {
        assert(keeps(held, a, place) == keeps(held, b, place));
    }
    assert(concealed_places(held, a) =~= concealed_places(held, b));
    assert(omitted_positions(held, a) =~= omitted_positions(held, b));
}

proof fn lemma_same_outcome(
    issued: Seq<char>,
    audience: Seq<char>,
    nonce: Seq<u8>,
    a: Seq<Seq<char>>,
    b: Seq<Seq<char>>,
    iat: i64,
    out: Result<Prepared, PresentFault>,
)
    requires
        same_entries(a, b),
        sd_jwt_prepared(issued, audience, nonce, a, iat, out),
    ensures
        sd_jwt_prepared(issued, audience, nonce, b, iat, out),
{
    let selected = choose|selected: Result<Seq<char>, PresentFault>|
        {
            &&& #[trigger] selection_outcome(issued, a, selected)
            &&& match selected {
                Err(fault) => out == Err::<Prepared, PresentFault>(fault),
                Ok(presentation_prefix) => match crate::issuance::signer::kb_input(
                    audience,
                    crate::crypto::base64url_text(nonce),
                    iat,
                    presentation_prefix,
                ) {
                    Err(fault) => out == Err::<Prepared, PresentFault>(
                        PresentFault::Build(crate::issuance::signer::signer_message(fault)),
                    ),
                    Ok(kb) => out == Ok::<Prepared, PresentFault>(
                        Prepared::SdJwtVc { presentation_prefix, kb },
                    ),
                },
            }
        };
    if let Ok(held) = sd_jwt_read(issued) {
        lemma_same_selection(issued, held, a, b);
    }
    assert(selection_outcome(issued, b, selected));
}

} // verus!
