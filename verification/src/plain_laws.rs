//! What holds of comparing texts, of getters and of what things start as.
use crate::basic_laws::numeral_value;
use crate::cbor::{
    cbor_to_vec, contents, decode, get_array, get_map_entry, get_text, simple_item, Cbor, CborValue,
};
use crate::crypto::{base64url_bytes, p256_sec1_from_jwk};
use crate::datetime::{parse_fixed_width, parse_seconds_field};
use crate::dcql::DcqlQuery;
use crate::issuance::obtain::{IssuerBackend, IssuerBackendKind, ObtainStep};
use crate::issuance::present::{HolderPresentation, PreparedKind, PreparedPresentation};
use crate::issuance::signer::{Ceremony, HolderContext, SignatureAlgorithm, SigningInput};
use crate::json::{parse, simple_value, to_bytes, JsonValue};
use crate::mdoc::failure::VerifyFailure;
use crate::mdoc::verify::{MdocVerifyMeta, MdocVerifyParams};
use crate::openid4vp::{Dcql, PresentationRequest, VpToken};
use crate::status::StatusOutcome;
use crate::text::{
    bytes_eq, contains_text, copy_bytes, is_blank, is_white_space, joined, joined3, str_eq, texts,
    white_space,
};
use crate::trust::TrustFailure;
use crate::types::{IssuerRole, ReasonCode};
use vstd::prelude::*;

verus! {

/// Two texts are equal where all their characters are, and so are two byte strings.
pub proof fn law_equality(a: &str, b: &str, out: bool, x: &[u8], y: &[u8], same: bool)
    requires
        call_ensures(str_eq, (a, b), out),
        call_ensures(bytes_eq, (x, y), same),
    ensures
        out <==> a@.len() == b@.len() && forall|i: int|
            0 <= i < a@.len() ==> #[trigger] a@[i] == b@[i],
        same <==> x@.len() == y@.len() && forall|i: int|
            0 <= i < x@.len() ==> #[trigger] x@[i] == y@[i],
{
    if a@.len() == b@.len() && forall|i: int| 0 <= i < a@.len() ==> #[trigger] a@[i] == b@[i] {
        assert(a@ =~= b@);
    }
    if x@.len() == y@.len() && forall|i: int| 0 <= i < x@.len() ==> #[trigger] x@[i] == y@[i] {
        assert(x@ =~= y@);
    }
}

/// A text is on a list where it is equal to an entry of it.
pub proof fn law_texts_are_found_on_lists(items: &Vec<String>, text: &str, out: bool)
    requires
        call_ensures(contains_text, (items, text), out),
    ensures
        out <==> exists|i: int| 0 <= i < items@.len() && (#[trigger] items@[i])@ == text@,
{
    let all = texts(items@);
    if out {
        let i = choose|i: int| 0 <= i < all.len() && all[i] == text@;
        assert(items@[i]@ == text@);
    }
    if exists|i: int| 0 <= i < items@.len() && (#[trigger] items@[i])@ == text@ {
        let i = choose|i: int| 0 <= i < items@.len() && (#[trigger] items@[i])@ == text@;
        assert(all[i] == text@);
    }
}

/// Joined texts follow each other without anything between them.
pub proof fn law_joined_texts(a: &str, b: &str, c: &str, two: String, three: String)
    requires
        call_ensures(joined, (a, b), two),
        call_ensures(joined3, (a, b, c), three),
    ensures
        two@ == a@ + b@,
        three@ == a@ + b@ + c@,
{
}

/// A text is blank where each of its characters is white space.
pub proof fn law_blank_texts(text: &str, out: bool, i: int, c: char, white: bool)
    requires
        call_ensures(is_blank, (text,), out),
        call_ensures(is_white_space, (c,), white),
        0 <= i < text@.len(),
        text@[i] == c,
    ensures
        out ==> white,
        text@.len() == 1 ==> (out <==> white),
{
    if text@.len() == 1 && white {
        assert forall|j: int| 0 <= j < text@.len() implies white_space(#[trigger] text@[j]) by {
            assert(j == i);
        }
    }
    if out {
        assert(white_space(text@[i]));
    }
}

/// The text and the array under a key are what is found there, where it is one.
pub proof fn law_texts_and_arrays_are_found_by_key(
    value: &CborValue,
    key: &str,
    found: Option<&CborValue>,
    text: Option<String>,
    items: Option<&Vec<CborValue>>,
)
    requires
        call_ensures(get_map_entry, (value, key), found),
        call_ensures(get_text, (value, key), text),
        call_ensures(get_array, (value, key), items),
    ensures
        text is Some <==> found is Some && *found->Some_0 is Text,
        text is Some ==> found->Some_0@ == Cbor::Text(text->Some_0@),
        items is Some <==> found is Some && *found->Some_0 is Array,
        items is Some ==> found->Some_0@ == Cbor::Array(contents(items->Some_0@)),
{
}

/// A field of digits of the right width is read as its number, and no other field is.
pub proof fn law_fields_of_digits_are_read(field: &[char], width: usize, out: Option<i64>)
    requires
        0 < width <= 18,
        call_ensures(parse_fixed_width, (field, width), out),
    ensures
        out is Some <==> field@.len() == width && forall|i: int|
            0 <= i < field@.len() ==> '0' <= #[trigger] field@[i] <= '9',
        out matches Some(n) ==> n == numeral_value(field@),
{
    lemma_number(field@);
    if field@.len() == width && forall|i: int|
        0 <= i < field@.len() ==> '0' <= #[trigger] field@[i] <= '9' {
        assert(crate::datetime::all_digits(field@));
    }
}

proof fn lemma_number(field: Seq<char>)
    ensures
        crate::datetime::number(field) == numeral_value(field),
    decreases field.len(),
{
    if field.len() > 0 {
        lemma_number(field.drop_last());
    }
}

/// The seconds of a timestamp are its first two digits; a fraction is a point and digits behind
/// them, and changes nothing.
pub proof fn law_fractions_are_dropped(
    field: &[char],
    short: &[char],
    out: Option<i64>,
    short_out: Option<i64>,
)
    requires
        call_ensures(parse_seconds_field, (field,), out),
        call_ensures(parse_seconds_field, (short,), short_out),
        field@.len() > 2,
        short@ == field@.take(2),
    ensures
        out is Some ==> out == short_out && field@[2] == '.' && field@.len() > 3,
        out is Some <==> short_out is Some && field@.len() > 3 && field@[2] == '.' && forall|i: int|
            3 <= i < field@.len() ==> '0' <= #[trigger] field@[i] <= '9',
{
    assert(field@.subrange(0, 2) =~= short@);
    assert(short@.subrange(0, 2) =~= short@);
    if field@.len() > 3 {
        let fraction = field@.subrange(3, field@.len() as int);
        if crate::datetime::all_digits(fraction) {
            assert forall|i: int| 3 <= i < field@.len() implies '0' <= #[trigger] field@[i]
                <= '9' by {
                assert(fraction[i - 3] == field@[i]);
            }
        }
        if forall|i: int| 3 <= i < field@.len() ==> '0' <= #[trigger] field@[i] <= '9' {
            assert forall|i: int| 0 <= i < fraction.len() implies crate::datetime::is_digit(
                #[trigger] fraction[i],
            ) by {
                assert('0' <= field@[i + 3] <= '9');
            }
        }
    }
}

/// The parts of an input to sign are handed out as they are, and copied as they are.
pub proof fn law_inputs_are_handed_out(
    input: &SigningInput,
    ceremony: Ceremony,
    algorithm: SignatureAlgorithm,
    bytes: &[u8],
    audience: &str,
    nonce: &str,
    copy: SigningInput,
    name: &str,
)
    requires
        call_ensures(SigningInput::ceremony, (input,), ceremony),
        call_ensures(SigningInput::algorithm, (input,), algorithm),
        call_ensures(SigningInput::to_be_signed, (input,), bytes),
        call_ensures(SigningInput::audience, (input,), audience),
        call_ensures(SigningInput::nonce, (input,), nonce),
        call_ensures(SigningInput::copy, (input,), copy),
        call_ensures(SignatureAlgorithm::jose_alg, (algorithm,), name),
    ensures
        ceremony == input.ceremony,
        algorithm == input.algorithm,
        bytes@ == input.to_be_signed@,
        audience@ == input.audience@,
        nonce@ == input.nonce@,
        copy.ceremony == input.ceremony,
        copy.algorithm == input.algorithm,
        copy.to_be_signed@ == input.to_be_signed@,
        copy.audience@ == input.audience@,
        copy.nonce@ == input.nonce@,
        name@ == "ES256"@,
{
}

/// The input of a prepared presentation is that of its key binding or of its device signature, and
/// a presentation is a token of its own kind with what it holds.
pub proof fn law_presentations_are_handed_out(
    prepared: &PreparedPresentation,
    input: &SigningInput,
    presentation: &HolderPresentation,
    token: VpToken<'_>,
)
    requires
        call_ensures(PreparedPresentation::signing_input, (prepared,), input),
        call_ensures(HolderPresentation::as_vp_token, (presentation,), token),
    ensures
        prepared.kind matches PreparedKind::SdJwtVc { kb, .. } ==> input@ == kb.input@,
        prepared.kind matches PreparedKind::Mdoc { build, .. } ==> input@ == build.input@,
        presentation matches HolderPresentation::SdJwtVc { vp_token } ==> (
        token matches VpToken::SdJwtVc(text) && text@ == vp_token@),
        presentation matches HolderPresentation::Mdoc { audience, device_response } ==> (
        token matches VpToken::Mdoc(mdoc) && mdoc.audience@ == audience@ && mdoc.device_response@
            == device_response@),
{
}

/// A query is kept as it was given, and a nonce is written so that it can be read back.
pub proof fn law_requests_are_kept(
    json: &str,
    query: Dcql,
    request: &PresentationRequest,
    nonce: String,
)
    requires
        call_ensures(Dcql::from_json, (json,), query),
        call_ensures(PresentationRequest::nonce_b64, (request,), nonce),
    ensures
        query.json@ == json@,
        base64url_bytes(nonce@) == Some(request.nonce@),
{
}

/// A session ends with a step that asks the host for nothing.
pub proof fn law_steps_that_end(step: &ObtainStep, out: bool)
    requires
        call_ensures(ObtainStep::is_terminal, (step,), out),
    ensures
        out <==> !(step is PerformHttp || step is Sign),
{
}

/// Without an issuer there is none, and no endpoint.
pub proof fn law_no_issuer(out: IssuerBackend)
    requires
        call_ensures(IssuerBackend::none, (), out),
    ensures
        out.kind == IssuerBackendKind::NoIssuer,
        out.token_endpoint@.len() == 0,
        out.nonce_endpoint@.len() == 0,
        out.credential_endpoint@.len() == 0,
        out.credential_issuer@.len() == 0,
{
    let content = out@;
    assert(content.token_endpoint.len() == 0);
    assert(content.nonce_endpoint.len() == 0);
    assert(content.credential_endpoint.len() == 0);
    assert(content.credential_issuer.len() == 0);
}

/// A failure keeps its reason; an issuer that is not trusted is an untrusted one, and a path that
/// has expired is an expired one.
pub proof fn law_reasons_are_kept(
    reason: ReasonCode,
    failure: VerifyFailure,
    malformed: VerifyFailure,
    none: TrustFailure,
    trust: TrustFailure,
    code: ReasonCode,
)
    requires
        call_ensures(VerifyFailure::with_reason, (reason,), failure),
        call_ensures(VerifyFailure::malformed, (), malformed),
        call_ensures(TrustFailure::not_trusted, (), none),
        call_ensures(TrustFailure::reason_code, (trust,), code),
    ensures
        failure.reason == reason,
        malformed.reason == ReasonCode::MalformedCredential,
        none == TrustFailure::NotTrusted,
        trust == TrustFailure::NotTrusted ==> code == ReasonCode::UntrustedIssuer,
        trust == TrustFailure::Expired ==> code == ReasonCode::Expired,
{
}

/// Parameters start at the epoch, without a transcript, in the role of person identification data
/// and with one document without a status; what was learned starts empty, and so does a query.
pub proof fn law_defaults(
    params: MdocVerifyParams<'static>,
    meta: MdocVerifyMeta,
    query: DcqlQuery,
    kind: IssuerBackendKind,
)
    requires
        call_ensures(MdocVerifyParams::<'static>::default, (), params),
        call_ensures(MdocVerifyMeta::default, (), meta),
        call_ensures(DcqlQuery::default, (), query),
        call_ensures(IssuerBackendKind::default, (), kind),
    ensures
        params.now_unix == 0,
        params.session_transcript is None,
        params.role == IssuerRole::Pid,
        params.statuses@ == seq![StatusOutcome::NoStatus],
        meta.document_count == 0,
        meta.claimed_issuers@.len() == 0,
        meta.doc_types@.len() == 0,
        meta.binding_machinery is None,
        query.credentials@.len() == 0,
        query.credential_sets@.len() == 0,
        kind == IssuerBackendKind::NoIssuer,
{
    assert(meta@.claimed_issuers.len() == meta.claimed_issuers@.len());
    assert(meta@.doc_types.len() == meta.doc_types@.len());
    assert(query@.credentials.len() == query.credentials@.len());
    assert(query@.credential_sets.len() == query.credential_sets@.len());
}

/// A holder keeps the key and the handle it was made with, and its point is that of the key.
pub proof fn law_holders_keep_their_key(
    jwk: JsonValue,
    handle: String,
    holder: HolderContext,
    point: Option<Vec<u8>>,
    own: Option<Vec<u8>>,
)
    requires
        call_ensures(HolderContext::new, (jwk, handle), holder),
        call_ensures(p256_sec1_from_jwk, (&jwk,), point),
        call_ensures(HolderContext::public_sec1, (&holder,), own),
    ensures
        holder.holder_public_jwk@ == jwk@,
        holder.key_handle@ == handle@,
        own is Some <==> point is Some,
        own is Some ==> own->Some_0@ == point->Some_0@,
{
}

/// A simple JSON value is read back from its text as it was, and a simple CBOR item from its bytes.
pub proof fn law_written_values_are_read_back(
    value: &JsonValue,
    text: Vec<u8>,
    text_slice: &[u8],
    read: Result<JsonValue, String>,
    item: &CborValue,
    bytes: Vec<u8>,
    bytes_slice: &[u8],
    decoded: Option<CborValue>,
)
    requires
        call_ensures(to_bytes, (value,), text),
        text_slice@ == text@,
        call_ensures(parse, (text_slice,), read),
        call_ensures(cbor_to_vec, (item,), bytes),
        bytes_slice@ == bytes@,
        call_ensures(decode, (bytes_slice,), decoded),
    ensures
        simple_value(value@, crate::json::SIMPLE_DEPTH as nat) ==> (read matches Ok(back) && back@
            == value@),
        simple_item(item@, crate::cbor::SIMPLE_DEPTH as nat) ==> (decoded matches Some(back)
            && back@ == item@),
{
}

/// A copy of a value or of an item is what it is a copy of.
pub proof fn law_copies(
    value: &JsonValue,
    value_copy: JsonValue,
    item: &CborValue,
    item_copy: CborValue,
    bytes: &Vec<u8>,
    bytes_copy: Vec<u8>,
)
    requires
        call_ensures(JsonValue::copy, (value,), value_copy),
        call_ensures(CborValue::copy, (item,), item_copy),
        call_ensures(copy_bytes, (bytes,), bytes_copy),
    ensures
        value_copy@ == value@,
        item_copy@ == item@,
        bytes_copy@ == bytes@,
        *value is Bool ==> value_copy == *value,
        *item is Bool ==> item_copy == *item,
{
}

} // verus!
