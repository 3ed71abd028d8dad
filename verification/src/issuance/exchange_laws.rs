//! What is said to an issuer, and what is made of its answers.
use crate::crypto::base64url_read;
use crate::issuance::obtain::{
    asks_for, begin_obtain, credential_request, header_contents, is_signed, law_percent_text,
    nonce_request, parse_credential_response, parse_nonce_response, parse_token_response,
    percent_bytes, percent_encode, percent_text, resume_obtain, sends_proof, token_request,
    unreserved, CredentialOffer, CredentialResponse, HttpEffect, HttpMethod, IssuerBackend,
    IssuerBackendKind, ObtainError, ObtainPhase, ObtainSession, ObtainStep, ResumeObtain,
};
use crate::issuance::present::HeldAttestation;
use crate::issuance::signer::{
    is_proof_of_possession, law_built_inputs_assemble, pop_header, pop_input, pop_payload,
    HolderContext, InputContent, SignerFault, SigningInput,
};
use crate::json::{member, read_back, Json};
use crate::text::decimal;
use crate::types::Format;
use vstd::prelude::*;
use vstd::utf8::encode_utf8;

verus! {

proof fn lemma_request_keys()
    ensures
        "credential_configuration_id"@ != "proofs"@,
{
    reveal_strlit("credential_configuration_id");
    reveal_strlit("proofs");
    assert("credential_configuration_id"@.len() != "proofs"@.len());
}

/// The credential request goes to the credential endpoint under the access token. Read back as
/// JSON, its body names the configuration that was offered and holds the list of the one signed
/// proof, and nothing else.
pub proof fn law_credential_request_asks_for_the_offer(
    backend: &IssuerBackend,
    offer: &CredentialOffer,
    access_token: &str,
    proof_jwt: &str,
    out: HttpEffect,
)
    requires
        call_ensures(credential_request, (backend, offer, access_token, proof_jwt), out),
    ensures
        out.method == HttpMethod::Post,
        out.url@ == backend.credential_endpoint@,
        out.headers@.len() == 2,
        out.headers@[0].0@ == "Authorization"@,
        out.headers@[0].1@ == "Bearer "@ + access_token@,
        out.headers@[1].0@ == "Content-Type"@,
        out.headers@[1].1@ == "application/json"@,
        read_back(out.body@) matches Some(json) && {
            &&& json is Object
            &&& member(json, "credential_configuration_id"@) == Some(
                Json::Text(offer.credential_configuration_id@),
            )
            &&& member(json, "proofs"@) matches Some(proofs) && {
                &&& proofs is Object
                &&& member(proofs, "jwt"@) == Some(Json::Array(seq![Json::Text(proof_jwt@)]))
                &&& forall|key: Seq<char>| #[trigger]
                    proofs->Object_0.contains_key(key) ==> key == "jwt"@
            }
            &&& forall|key: Seq<char>| #[trigger]
                json->Object_0.contains_key(key) ==> key == "credential_configuration_id"@ || key
                    == "proofs"@
        },
{
    lemma_request_keys();
    assert(header_contents(out.headers@).len() == out.headers@.len());
    assert(header_contents(out.headers@)[0] == (out.headers@[0].0@, out.headers@[0].1@));
    assert(header_contents(out.headers@)[1] == (out.headers@[1].0@, out.headers@[1].1@));
}

/// The credential request does not depend on the codes of the offer: offers of one configuration
/// are asked for in the same words, whatever their codes.
pub proof fn law_credential_request_holds_no_code(
    backend: &IssuerBackend,
    one: &CredentialOffer,
    other: &CredentialOffer,
    access_token: &str,
    proof_jwt: &str,
    first: HttpEffect,
    second: HttpEffect,
)
    requires
        one.credential_configuration_id@ == other.credential_configuration_id@,
        call_ensures(credential_request, (backend, one, access_token, proof_jwt), first),
        call_ensures(credential_request, (backend, other, access_token, proof_jwt), second),
    ensures
        first.body@ == second.body@,
        first.url@ == second.url@,
        header_contents(first.headers@) == header_contents(second.headers@),
{
}

/// Credential requests for different configurations, or with different proofs, have different
/// bodies.
pub proof fn law_credential_requests_are_told_apart(
    backend: &IssuerBackend,
    one: &CredentialOffer,
    other: &CredentialOffer,
    access_token: &str,
    one_proof: &str,
    other_proof: &str,
    first: HttpEffect,
    second: HttpEffect,
)
    requires
        call_ensures(credential_request, (backend, one, access_token, one_proof), first),
        call_ensures(credential_request, (backend, other, access_token, other_proof), second),
        first.body@ == second.body@,
    ensures
        one.credential_configuration_id@ == other.credential_configuration_id@,
        one_proof@ == other_proof@,
{
    law_credential_request_asks_for_the_offer(backend, one, access_token, one_proof, first);
    law_credential_request_asks_for_the_offer(backend, other, access_token, other_proof, second);
    let a = seq![Json::Text(one_proof@)];
    let b = seq![Json::Text(other_proof@)];
    assert(a == b);
    assert(a[0] == b[0]);
}

/// Whether a text stands for another in a form: it is made of unreserved characters and percent
/// signs, and the bytes it stands for are those of the other.
pub open spec fn stands_for(encoded: Seq<char>, text: Seq<char>) -> bool {
    &&& percent_bytes(encoded) == encode_utf8(text)
    &&& forall|i: int|
        0 <= i < encoded.len() ==> {
            let c = #[trigger] encoded[i];
            c == '%' || c == '-' || c == '_' || c == '.' || c == '~' || 'a' <= c <= 'z' || 'A' <= c
                <= 'Z' || '0' <= c <= '9'
        }
}

proof fn lemma_form_char(c: char)
    requires
        c as u32 <= 127,
        unreserved(c as u8),
    ensures
        c == '-' || c == '_' || c == '.' || c == '~' || 'a' <= c <= 'z' || 'A' <= c <= 'Z' || '0'
            <= c <= '9',
{
}

proof fn lemma_stands_for(text: Seq<char>)
    ensures
        stands_for(percent_text(encode_utf8(text)), text),
{
    let encoded = percent_text(encode_utf8(text));
    law_percent_text(encode_utf8(text));
    assert forall|i: int| 0 <= i < encoded.len() implies {
        let c = #[trigger] encoded[i];
        c == '%' || c == '-' || c == '_' || c == '.' || c == '~' || 'a' <= c <= 'z' || 'A' <= c
            <= 'Z' || '0' <= c <= '9'
    } by {
        let c = encoded[i];
        if c != '%' {
            lemma_form_char(c);
        }
    }
}

/// A text that is encoded for a form stands for itself there: it can be read back, and no character
/// of it ends a field or starts another.
pub proof fn law_encoded_texts_are_read_back(value: &str, out: String)
    requires
        call_ensures(percent_encode, (value,), out),
    ensures
        stands_for(out@, value@),
{
    lemma_stands_for(value@);
}

proof fn lemma_encoded_added(a: Seq<char>, b: Seq<char>)
    ensures
        encode_utf8(a + b) == encode_utf8(a) + encode_utf8(b),
    decreases a.len(),
{
    if a.len() == 0 {
        assert(a + b =~= b);
        assert(encode_utf8(a) + encode_utf8(b) =~= encode_utf8(b));
    } else {
        assert((a + b).drop_first() =~= a.drop_first() + b);
        lemma_encoded_added(a.drop_first(), b);
        assert(encode_utf8(a + b) =~= encode_utf8(a) + encode_utf8(b));
    }
}

proof fn lemma_percent_added(a: Seq<u8>, b: Seq<u8>)
    ensures
        percent_text(a + b) == percent_text(a) + percent_text(b),
    decreases a.len(),
{
    if a.len() == 0 {
        assert(a + b =~= b);
        assert(percent_text(a) + percent_text(b) =~= percent_text(b));
    } else {
        assert((a + b).drop_first() =~= a.drop_first() + b);
        lemma_percent_added(a.drop_first(), b);
        assert(percent_text(a + b) =~= percent_text(a) + percent_text(b));
    }
}

/// A text is encoded for a form part by part, and a letter, a digit or one of `-`, `_`, `.` and `~`
/// stands for itself.
pub proof fn law_texts_are_encoded_part_by_part(
    whole: &str,
    first: &str,
    second: &str,
    out: String,
    first_out: String,
    second_out: String,
    c: char,
)
    requires
        whole@ == first@ + second@,
        call_ensures(percent_encode, (whole,), out),
        call_ensures(percent_encode, (first,), first_out),
        call_ensures(percent_encode, (second,), second_out),
    ensures
        out@ == first_out@ + second_out@,
        first@ == seq![c] && (c == '-' || c == '_' || c == '.' || c == '~' || 'a' <= c <= 'z'
            || 'A' <= c <= 'Z' || '0' <= c <= '9') ==> first_out@ == seq![c],
        first@ == seq![c] && (c == '&' || c == '=' || c == '+' || c == ' ' || c == '%' || c == '/'
            || c == ':') ==> first_out@.len() == 3 && first_out@[0] == '%',
{
    lemma_encoded_added(first@, second@);
    lemma_percent_added(encode_utf8(first@), encode_utf8(second@));
    if first@ == seq![c] && c as u32 <= 127 {
        reveal_with_fuel(encode_utf8, 2);
        assert(seq![c].drop_first() =~= Seq::<char>::empty());
        let bytes = encode_utf8(seq![c]);
        let n = c as u32;
        assert(n & 0x7f == n) by (bit_vector)
            requires
                n <= 127,
        ;
        assert(bytes =~= seq![c as u8]);
        assert(bytes.drop_first() =~= Seq::<u8>::empty());
        reveal_with_fuel(percent_text, 2);
        assert(first_out@ =~= crate::issuance::obtain::percent_byte(c as u8));
    }
}

/// The fields of a token request without a transaction code.
pub open spec fn code_form(grant: Seq<char>, code: Seq<char>) -> Seq<char> {
    "grant_type="@ + grant + "&pre-authorized_code="@ + code
}

/// The fields of a token request with a transaction code.
pub open spec fn tx_code_form(grant: Seq<char>, code: Seq<char>, tx_code: Seq<char>) -> Seq<char> {
    "grant_type="@ + grant + "&pre-authorized_code="@ + code + "&tx_code="@ + tx_code
}

/// The token request goes to the token endpoint as a form: the grant of a pre-authorized code, the
/// code of the offer, and the transaction code exactly where the offer has one.
pub proof fn law_token_request_redeems_the_code(
    backend: &IssuerBackend,
    offer: &CredentialOffer,
    out: HttpEffect,
)
    requires
        call_ensures(token_request, (backend, offer), out),
    ensures
        out.method == HttpMethod::Post,
        out.url@ == backend.token_endpoint@,
        out.headers@.len() == 1,
        out.headers@[0].0@ == "Content-Type"@,
        out.headers@[0].1@ == "application/x-www-form-urlencoded"@,
        offer.tx_code is None ==> exists|grant: Seq<char>, code: Seq<char>|
            {
                &&& out.body@ == encode_utf8(#[trigger] code_form(grant, code))
                &&& stands_for(grant, "urn:ietf:params:oauth:grant-type:pre-authorized_code"@)
                &&& stands_for(code, offer.pre_authorized_code@)
            },
        offer.tx_code matches Some(given) ==> exists|
            grant: Seq<char>,
            code: Seq<char>,
            tx_code: Seq<char>,
        |
            {
                &&& out.body@ == encode_utf8(#[trigger] tx_code_form(grant, code, tx_code))
                &&& stands_for(grant, "urn:ietf:params:oauth:grant-type:pre-authorized_code"@)
                &&& stands_for(code, offer.pre_authorized_code@)
                &&& stands_for(tx_code, given@)
            },
{
    assert(header_contents(out.headers@).len() == out.headers@.len());
    assert(header_contents(out.headers@)[0] == (out.headers@[0].0@, out.headers@[0].1@));
    let grant = percent_text(
        encode_utf8("urn:ietf:params:oauth:grant-type:pre-authorized_code"@),
    );
    let code = percent_text(encode_utf8(offer.pre_authorized_code@));
    lemma_stands_for("urn:ietf:params:oauth:grant-type:pre-authorized_code"@);
    lemma_stands_for(offer.pre_authorized_code@);
    match offer.tx_code {
        None => {
            assert(out.body@ == encode_utf8(code_form(grant, code)));
        },
        Some(given) => {
            lemma_stands_for(given@);
            let tx_code = percent_text(encode_utf8(given@));
            assert(out.body@ == encode_utf8(tx_code_form(grant, code, tx_code)));
        },
    }
}

/// The nonce request goes to the nonce endpoint with nothing in it.
pub proof fn law_nonce_request_is_empty(backend: &IssuerBackend, out: HttpEffect)
    requires
        call_ensures(nonce_request, (backend,), out),
    ensures
        out.method == HttpMethod::Post,
        out.url@ == backend.nonce_endpoint@,
        out.headers@.len() == 0,
        out.body@.len() == 0,
{
    assert(header_contents(out.headers@).len() == out.headers@.len());
}

/// The access token is the text under `access_token`, and the nonce the text under `c_nonce`, of a
/// body that is JSON; without it there is none.
pub proof fn law_answers_are_read_by_name(
    body: &[u8],
    token: Result<String, String>,
    nonce: Result<String, String>,
)
    requires
        call_ensures(parse_token_response, (body,), token),
        call_ensures(parse_nonce_response, (body,), nonce),
    ensures
        read_back(body@) is None ==> token is Err && nonce is Err,
        read_back(body@) matches Some(json) ==> {
            &&& token is Ok <==> (member(json, "access_token"@) matches Some(Json::Text(_)))
            &&& token matches Ok(text) ==> member(json, "access_token"@) == Some(Json::Text(text@))
            &&& token matches Err(message) ==> message@ == "missing access_token"@
            &&& nonce is Ok <==> (member(json, "c_nonce"@) matches Some(Json::Text(_)))
            &&& nonce matches Ok(text) ==> member(json, "c_nonce"@) == Some(Json::Text(text@))
            &&& nonce matches Err(message) ==> message@ == "missing c_nonce"@
        },
{
}

/// Whether a JSON value holds a text under `credential` in the first item of its `credentials`.
pub open spec fn first_is(json: Json, text: Seq<char>) -> bool {
    member(json, "credentials"@) matches Some(Json::Array(items)) && items.len() > 0 && member(
        items[0],
        "credential"@,
    ) == Some(Json::Text(text))
}

/// A credential response is deferred under its `transaction_id`, or where its status says that it
/// was only accepted; otherwise it is the first credential, an SD-JWT VC as the text itself and an
/// mdoc as the bytes that the text stands for.
pub proof fn law_credentials_are_the_first_of_the_answer(
    body: &[u8],
    format: Format,
    status: u16,
    out: Result<CredentialResponse, String>,
    json: Json,
)
    requires
        call_ensures(parse_credential_response, (body, format, status), out),
        read_back(body@) == Some(json),
    ensures
        (out matches Ok(CredentialResponse::Deferred(_))) <==> status == 202 || (member(
            json,
            "transaction_id"@,
        ) matches Some(Json::Text(_))),
        out matches Ok(CredentialResponse::Deferred(transaction)) ==> (match member(
            json,
            "transaction_id"@,
        ) {
            Some(Json::Text(text)) => transaction@ == text,
            _ => transaction@.len() == 0,
        }),
        out matches Ok(CredentialResponse::Immediate(HeldAttestation::SdJwtVc { issued })) ==> format
            == Format::SdJwtVc && first_is(json, issued@),
        out matches Ok(CredentialResponse::Immediate(HeldAttestation::Mdoc { device_response }))
            ==> format == Format::Mdoc && exists|text: Seq<char>| #[trigger]
            first_is(json, text) && base64url_read(text) == Ok::<Seq<u8>, Seq<char>>(
                device_response@,
            ),
        forall|text: Seq<char>|
            #![trigger first_is(json, text)]
            first_is(json, text) && status != 202 && !(member(json, "transaction_id"@) matches Some(
                Json::Text(_),
            )) ==> {
                &&& format == Format::SdJwtVc ==> out is Ok
                &&& format == Format::Mdoc ==> (out is Ok <==> base64url_read(text) is Ok)
            },
{
    if let Ok(CredentialResponse::Immediate(HeldAttestation::Mdoc { device_response })) = out {
        let text = crate::issuance::obtain::first_credential(json)->Some_0;
        assert(first_is(json, text));
    }
}

/// A body that is not JSON is no credential response.
pub proof fn law_other_bodies_are_no_credentials(
    body: &[u8],
    format: Format,
    status: u16,
    out: Result<CredentialResponse, String>,
)
    requires
        call_ensures(parse_credential_response, (body, format, status), out),
        read_back(body@) is None,
    ensures
        out is Err,
{
}

/// Without an issuer a session is skipped and over; with one it starts with the token request,
/// keeps what it was begun with, and has nothing from the issuer yet.
pub proof fn law_sessions_begin_with_the_token(
    offer: CredentialOffer,
    backend: IssuerBackend,
    holder: HolderContext,
    now_unix: i64,
    out: (ObtainSession, ObtainStep),
    request: HttpEffect,
)
    requires
        call_ensures(begin_obtain, (offer, backend, holder, now_unix), out),
        call_ensures(token_request, (&backend, &offer), request),
    ensures
        backend.kind == IssuerBackendKind::NoIssuer ==> out.1 is Skipped && out.0.phase
            == ObtainPhase::Terminal,
        backend.kind != IssuerBackendKind::NoIssuer ==> {
            &&& out.0.phase == ObtainPhase::TokenPending
            &&& out.1 matches ObtainStep::PerformHttp(effect) && same_request(effect, request)
        },
        out.0.access_token is None,
        out.0.pending_c_nonce is None,
        out.0.proof_jwt is None,
        out.0.offer.credential_configuration_id@ == offer.credential_configuration_id@,
        out.0.offer.pre_authorized_code@ == offer.pre_authorized_code@,
        out.0.offer.format == offer.format,
        out.0.offer.tx_code is Some <==> offer.tx_code is Some,
        offer.tx_code is Some ==> out.0.offer.tx_code->Some_0@ == offer.tx_code->Some_0@,
        out.0.backend.kind == backend.kind,
        out.0.backend.token_endpoint@ == backend.token_endpoint@,
        out.0.backend.nonce_endpoint@ == backend.nonce_endpoint@,
        out.0.backend.credential_endpoint@ == backend.credential_endpoint@,
        out.0.backend.credential_issuer@ == backend.credential_issuer@,
        out.0.holder.holder_public_jwk@ == holder.holder_public_jwk@,
        out.0.holder.key_handle@ == holder.key_handle@,
        out.0.now_unix == now_unix,
{
    assert(out.0@.offer == offer@);
    assert(out.0@.backend == backend@);
    if backend.kind != IssuerBackendKind::NoIssuer {
        assert(out.1@ is PerformHttp);
        lemma_same_request(out.1->PerformHttp_0, request);
    }
}

/// Whether two requests are the same.
pub open spec fn same_request(one: HttpEffect, other: HttpEffect) -> bool {
    &&& one.method == other.method
    &&& one.url@ == other.url@
    &&& one.headers@.len() == other.headers@.len()
    &&& forall|i: int|
        0 <= i < one.headers@.len() ==> (#[trigger] one.headers@[i]).0@ == other.headers@[i].0@
            && one.headers@[i].1@ == other.headers@[i].1@
    &&& one.body@ == other.body@
}

proof fn lemma_same_request(one: HttpEffect, other: HttpEffect)
    requires
        one@ == other@,
    ensures
        same_request(one, other),
{
    let a = header_contents(one.headers@);
    let b = header_contents(other.headers@);
    assert(a == b);
    assert(a.len() == one.headers@.len() && b.len() == other.headers@.len());
    assert forall|i: int| 0 <= i < one.headers@.len() implies (#[trigger] one.headers@[i]).0@
        == other.headers@[i].0@ && one.headers@[i].1@ == other.headers@[i].1@ by {
        assert(a[i] == (one.headers@[i].0@, one.headers@[i].1@));
        assert(b[i] == (other.headers@[i].0@, other.headers@[i].1@));
    }
}

/// Whether a session is the one it was, but for its phase and for what it has from the issuer.
pub open spec fn same_ceremony(one: ObtainSession, other: ObtainSession) -> bool {
    &&& one.offer.credential_configuration_id@ == other.offer.credential_configuration_id@
    &&& one.offer.pre_authorized_code@ == other.offer.pre_authorized_code@
    &&& one.offer.format == other.offer.format
    &&& one.offer.tx_code is Some <==> other.offer.tx_code is Some
    &&& one.offer.tx_code is Some ==> one.offer.tx_code->Some_0@ == other.offer.tx_code->Some_0@
    &&& one.backend.kind == other.backend.kind
    &&& one.backend.token_endpoint@ == other.backend.token_endpoint@
    &&& one.backend.nonce_endpoint@ == other.backend.nonce_endpoint@
    &&& one.backend.credential_endpoint@ == other.backend.credential_endpoint@
    &&& one.backend.credential_issuer@ == other.backend.credential_issuer@
    &&& one.holder.holder_public_jwk@ == other.holder.holder_public_jwk@
    &&& one.holder.key_handle@ == other.holder.key_handle@
    &&& one.now_unix == other.now_unix
}

/// An input that a phase does not wait for is refused, and a session that has ended refuses every
/// one. Otherwise the session stays the one it was, and moves to the next phase or ends.
pub proof fn law_sessions_keep_their_ceremony(
    session: ObtainSession,
    input: ResumeObtain,
    out: Result<(ObtainSession, ObtainStep), ObtainError>,
)
    requires
        call_ensures(resume_obtain, (session, input), out),
    ensures
        session.phase == ObtainPhase::Terminal ==> out matches Err(ObtainError::AlreadyTerminal),
        session.phase == ObtainPhase::ProofPending && input is Http ==> out matches Err(
            ObtainError::UnexpectedInput,
        ),
        session.phase != ObtainPhase::ProofPending && session.phase != ObtainPhase::Terminal
            && input is Signature ==> out matches Err(ObtainError::UnexpectedInput),
        session.phase != ObtainPhase::ProofPending && session.phase != ObtainPhase::Terminal
            && input is Http ==> out is Ok,
        out matches Ok(pair) ==> {
            &&& same_ceremony(session, pair.0)
            &&& pair.0.phase == ObtainPhase::Terminal <==> pair.1 is Obtained || pair.1 is Failed
            &&& !(pair.1 is Skipped)
            &&& pair.0.phase != ObtainPhase::Terminal ==> {
                ||| session.phase == ObtainPhase::TokenPending && pair.0.phase
                    == ObtainPhase::NoncePending
                ||| session.phase == ObtainPhase::NoncePending && pair.0.phase
                    == ObtainPhase::ProofPending
                ||| session.phase == ObtainPhase::ProofPending && pair.0.phase
                    == ObtainPhase::CredentialPending
            }
        },
{
    if let Ok(pair) = out {
        assert(pair.0@.offer == session@.offer);
        assert(pair.0@.backend == session@.backend);
    }
}

/// After the token response a session asks for a nonce and keeps the token that the response held,
/// where its status says success and it holds one; it fails otherwise.
pub proof fn law_token_answers_move_on(
    session: ObtainSession,
    status: u16,
    body: Vec<u8>,
    out: Result<(ObtainSession, ObtainStep), ObtainError>,
    token: Result<String, String>,
    request: HttpEffect,
    slice: &[u8],
)
    requires
        session.phase == ObtainPhase::TokenPending,
        slice@ == body@,
        call_ensures(resume_obtain, (session, ResumeObtain::Http { status, body }), out),
        call_ensures(parse_token_response, (slice,), token),
        call_ensures(nonce_request, (&session.backend,), request),
    ensures
        out is Ok,
        200 <= status < 300 && token is Ok ==> {
            &&& out->Ok_0.0.phase == ObtainPhase::NoncePending
            &&& out->Ok_0.0.access_token matches Some(kept) && kept@ == token->Ok_0@
            &&& out->Ok_0.1 matches ObtainStep::PerformHttp(effect) && same_request(effect, request)
        },
        !(200 <= status < 300) || token is Err ==> {
            &&& out->Ok_0.0.phase == ObtainPhase::Terminal
            &&& out->Ok_0.1 matches ObtainStep::Failed(ObtainError::TokenRequest(_))
        },
{
    if 200 <= status < 300 && token is Ok {
        let effect = out->Ok_0.1->PerformHttp_0;
        assert(out->Ok_0.1@ is PerformHttp);
        lemma_same_request(effect, request);
    } else {
        assert(out->Ok_0.1@ is Failed);
    }
}

/// After the nonce response a session has the holder sign a proof of possession for the issuer, the
/// nonce that the response held and the instant of the session, with the key of the holder; it
/// fails where the status says no success, where there is no nonce or where there can be no such
/// proof.
pub proof fn law_nonce_answers_are_signed(
    session: ObtainSession,
    status: u16,
    body: Vec<u8>,
    out: Result<(ObtainSession, ObtainStep), ObtainError>,
    nonce: Result<String, String>,
    slice: &[u8],
)
    requires
        session.phase == ObtainPhase::NoncePending,
        slice@ == body@,
        call_ensures(resume_obtain, (session, ResumeObtain::Http { status, body }), out),
        call_ensures(parse_nonce_response, (slice,), nonce),
    ensures
        out is Ok,
        out->Ok_0.1 is Sign || out->Ok_0.1 is Failed,
        out->Ok_0.1 matches ObtainStep::Sign(input) ==> {
            &&& 200 <= status < 300
            &&& nonce is Ok
            &&& out->Ok_0.0.pending_c_nonce matches Some(kept) && kept@ == nonce->Ok_0@
            &&& is_proof_of_possession(
                input@,
                session.holder.holder_public_jwk@,
                session.backend.credential_issuer@,
                nonce->Ok_0@,
                session.now_unix,
            )
            &&& same_secret(out->Ok_0.0.access_token, session.access_token)
        },
        out->Ok_0.1 matches ObtainStep::Failed(error) ==> {
            ||| error is NonceRequest && (!(200 <= status < 300) || nonce is Err)
            ||| error is Proof && 200 <= status < 300 && nonce is Ok
        },
{
    let pair = out->Ok_0;
    if pair.1 is Sign {
        assert(pair.0@.pending_c_nonce == Some(nonce->Ok_0@));
        assert(pair.0@.access_token == session@.access_token);
    }
}

/// Whether two optional secrets are the same.
pub open spec fn same_secret(
    one: Option<crate::secret::Secret>,
    other: Option<crate::secret::Secret>,
) -> bool {
    match (one, other) {
        (Some(a), Some(b)) => a@ == b@,
        (None, None) => true,
        _ => false,
    }
}

/// After the signature a session asks for the offered credential with its access token and with the
/// proof of possession that the signature completes: the body of the request, read back as JSON,
/// names the configuration of the offer and holds that proof alone.
pub proof fn law_signed_proofs_ask_for_the_offer(
    session: ObtainSession,
    signature: Vec<u8>,
    out: Result<(ObtainSession, ObtainStep), ObtainError>,
)
    requires
        session.phase == ObtainPhase::ProofPending,
        call_ensures(resume_obtain, (session, ResumeObtain::Signature(signature)), out),
    ensures
        out matches Ok(pair) ==> {
            &&& signature@.len() == 64
            &&& session.access_token is Some
            &&& session.pending_c_nonce is Some
            &&& pair.0.phase == ObtainPhase::CredentialPending
            &&& pair.0.proof_jwt is Some
            &&& exists|input: InputContent| #[trigger]
                is_signed(input, signature@, pair.0.proof_jwt->Some_0@) && is_proof_of_possession(
                    input,
                    session.holder.holder_public_jwk@,
                    session.backend.credential_issuer@,
                    session.pending_c_nonce->Some_0@,
                    session.now_unix,
                )
            &&& pair.1 matches ObtainStep::PerformHttp(effect) && {
                &&& effect.method == HttpMethod::Post
                &&& effect.url@ == session.backend.credential_endpoint@
                &&& effect.headers@.len() == 2
                &&& effect.headers@[0].0@ == "Authorization"@
                &&& effect.headers@[0].1@ == "Bearer "@ + session.access_token->Some_0@
                &&& effect.headers@[1].0@ == "Content-Type"@
                &&& effect.headers@[1].1@ == "application/json"@
                &&& read_back(effect.body@) matches Some(json) && {
                    &&& member(json, "credential_configuration_id"@) == Some(
                        Json::Text(session.offer.credential_configuration_id@),
                    )
                    &&& member(json, "proofs"@) matches Some(proofs) && member(proofs, "jwt"@)
                        == Some(Json::Array(seq![Json::Text(pair.0.proof_jwt->Some_0@)]))
                }
            }
        },
{
    if let Ok(pair) = out {
        let effect = pair.1->PerformHttp_0;
        assert(pair.1@ is PerformHttp);
        assert(header_contents(effect.headers@).len() == effect.headers@.len());
        assert(header_contents(effect.headers@)[0] == (
            effect.headers@[0].0@,
            effect.headers@[0].1@,
        ));
        assert(header_contents(effect.headers@)[1] == (
            effect.headers@[1].0@,
            effect.headers@[1].1@,
        ));
        assert(sends_proof(session, signature@, pair.0, pair.1));
        assert(asks_for(
            effect.body@,
            session.offer.credential_configuration_id@,
            pair.0.proof_jwt->Some_0@,
        ));
    }
}

/// The session ends with the credential response: with the credential where the status says success
/// and the response holds one in the offered format, and with a failure otherwise, which names the
/// transaction where the credential is deferred.
pub proof fn law_credential_answers_end_the_session(
    session: ObtainSession,
    status: u16,
    body: Vec<u8>,
    out: Result<(ObtainSession, ObtainStep), ObtainError>,
    answer: Result<CredentialResponse, String>,
    slice: &[u8],
)
    requires
        session.phase == ObtainPhase::CredentialPending,
        slice@ == body@,
        call_ensures(resume_obtain, (session, ResumeObtain::Http { status, body }), out),
        call_ensures(parse_credential_response, (slice, session.offer.format, status), answer),
    ensures
        out is Ok,
        out->Ok_0.0.phase == ObtainPhase::Terminal,
        !(200 <= status < 300) ==> out->Ok_0.1 matches ObtainStep::Failed(
            ObtainError::CredentialRequest(_),
        ),
        200 <= status < 300 ==> (match answer {
            Ok(CredentialResponse::Immediate(held)) => out->Ok_0.1 matches ObtainStep::Obtained(
                obtained,
            ) && obtained@ == held@,
            Ok(CredentialResponse::Deferred(transaction)) =>
                out->Ok_0.1 matches ObtainStep::Failed(ObtainError::Deferred(named)) && named@
                    == transaction@,
            Err(message) => out->Ok_0.1 matches ObtainStep::Failed(
                ObtainError::CredentialRequest(detail),
            ) && detail@ == message@,
        }),
{
}

/// A response whose status says no success ends the session with a failure of its request that
/// names the status; one that holds no token or nonce, with a failure that says what is wrong with
/// it.
pub proof fn law_failed_requests_say_why(
    session: ObtainSession,
    status: u16,
    body: Vec<u8>,
    slice: &[u8],
    token: Result<String, String>,
    nonce: Result<String, String>,
    out: Result<(ObtainSession, ObtainStep), ObtainError>,
)
    requires
        slice@ == body@,
        call_ensures(parse_token_response, (slice,), token),
        call_ensures(parse_nonce_response, (slice,), nonce),
        call_ensures(resume_obtain, (session, ResumeObtain::Http { status, body }), out),
    ensures
        session.phase == ObtainPhase::TokenPending && !(200 <= status < 300) ==> (
        out matches Ok(pair) && pair.1 matches ObtainStep::Failed(ObtainError::TokenRequest(detail))
            && detail@ == "status "@ + decimal(status as nat)),
        session.phase == ObtainPhase::TokenPending && 200 <= status < 300 ==> (
        token matches Err(message) ==> (out matches Ok(pair) && pair.1 matches ObtainStep::Failed(
            ObtainError::TokenRequest(detail),
        ) && detail@ == message@)),
        session.phase == ObtainPhase::NoncePending && !(200 <= status < 300) ==> (
        out matches Ok(pair) && pair.1 matches ObtainStep::Failed(ObtainError::NonceRequest(detail))
            && detail@ == "status "@ + decimal(status as nat)),
        session.phase == ObtainPhase::NoncePending && 200 <= status < 300 ==> (
        nonce matches Err(message) ==> (out matches Ok(pair) && pair.1 matches ObtainStep::Failed(
            ObtainError::NonceRequest(detail),
        ) && detail@ == message@)),
        session.phase == ObtainPhase::CredentialPending && !(200 <= status < 300) ==> (
        out matches Ok(pair) && pair.1 matches ObtainStep::Failed(
            ObtainError::CredentialRequest(detail),
        ) && detail@ == "status "@ + decimal(status as nat)),
{
}

/// A signature of 64 bytes over the proof of a session that waits for it is sent on; one of another
/// length is refused, and the session is not ended by it.
pub proof fn law_signatures_of_the_right_length_are_sent(
    before: ObtainSession,
    status: u16,
    body: Vec<u8>,
    session: ObtainSession,
    input: SigningInput,
    signature: Vec<u8>,
    out: Result<(ObtainSession, ObtainStep), ObtainError>,
)
    requires
        before.phase == ObtainPhase::NoncePending,
        before.access_token is Some,
        call_ensures(
            resume_obtain,
            (before, ResumeObtain::Http { status, body }),
            Ok((session, ObtainStep::Sign(input))),
        ),
        call_ensures(resume_obtain, (session, ResumeObtain::Signature(signature)), out),
    ensures
        out is Ok <==> signature@.len() == 64,
        out is Err ==> out->Err_0 is Proof,
        out matches Ok(pair) ==> (pair.0.proof_jwt matches Some(proof_jwt) && is_signed(
            input@,
            signature@,
            proof_jwt@,
        )),
{
    let content = session@;
    assert(content.pending_c_nonce is Some);
    assert(content.access_token is Some);
    let header = pop_header(content.holder_jwk);
    let payload = pop_payload(
        content.backend.credential_issuer,
        content.pending_c_nonce->Some_0,
        content.now_unix,
    );
    assert(pop_input(
        content.holder_jwk,
        content.backend.credential_issuer,
        content.pending_c_nonce->Some_0,
        content.now_unix,
    ) == Ok::<InputContent, SignerFault>(input@));
    if signature@.len() == 64 {
        law_built_inputs_assemble(header, payload, input@, signature@);
    }
}

} // verus!
