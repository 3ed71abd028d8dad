//! Presenting a held attestation to a verifier.
use crate::cbor::{
    array_entry, cbor_decoded, cbor_encoded, cbor_read, cbor_to_vec, decode_or_message, get_array,
    simple_item, Cbor, SIMPLE_DEPTH,
};
use crate::crypto::{base64url_bytes, base64url_text};
use crate::issuance::device::{
    assembled_device_signature, build_device_signature, built_over, detached_item, es256_header,
    is_detached_signature, DeviceBuild, DeviceSignatureBuild,
};
use crate::issuance::present::mdoc::{
    check_disclosable, doc_type_of, first_device_name_spaces_bytes, first_doc_type,
    issued_name_spaces, least_not_offered, prune_response, pruned_map, replace_device_signature,
    signed_name_spaces, spliced_map, spliced_response, PruneLevel, SpliceLevel,
};
use crate::issuance::present::selection::{select_disclosures, selection_outcome};
use crate::issuance::signer::{
    assembled_jws, build_kb_jwt, is_key_binding, kb_input, signer_message, HolderContext,
    InputContent, KbJwtBuild, Signer, SigningInput, ES256_SIG_LEN,
};
use crate::openid4vp::{
    handover_transcript, oid4vp_handover_transcript, MdocVpToken, PresentationRequest, VpToken,
};
use crate::text::{decimal, decimal_text, joined, joined3, texts};
use vstd::prelude::*;
use vstd::string::to_string_from_display_ensures;

pub mod flat_laws;
pub mod kept_laws;
pub mod list_laws;
pub mod mdoc;
pub mod mdoc_laws;
pub mod nested_laws;
pub mod place_laws;
pub mod places;
pub mod request_laws;
pub mod sd_jwt;
pub mod sd_jwt_laws;
pub mod selection;
pub mod shown;
pub mod signer_laws;
pub mod walk;

verus! {

/// An attestation in the holder's custody.
#[derive(Debug, Clone, PartialEq, Eq)]
pub enum HeldAttestation {
    /// An SD-JWT VC in compact form, as issued.
    SdJwtVc { issued: String },
    /// An encoded `DeviceResponse`, as issued.
    Mdoc { device_response: Vec<u8> },
}

/// The mathematical content of a [`HeldAttestation`].
pub enum Held {
    SdJwtVc { issued: Seq<char> },
    Mdoc { device_response: Seq<u8> },
}

impl View for HeldAttestation {
    type V = Held;

    open spec fn view(&self) -> Held {
        match self {
            HeldAttestation::SdJwtVc { issued } => Held::SdJwtVc { issued: issued@ },
            HeldAttestation::Mdoc { device_response } => Held::Mdoc {
                device_response: device_response@,
            },
        }
    }
}

/// Why a presentation could not be built.
#[derive(Debug, Clone, PartialEq, Eq)]
pub enum PresentError {
    /// The held credential cannot be parsed.
    Malformed(String),
    /// A claim to disclose is not one that the held credential can disclose.
    UndisclosableClaim(String),
    /// The signer failed.
    Signer(String),
    /// An envelope could not be built.
    Build(String),
    /// The held mdoc carries this many documents, where one signature can bind only one.
    MultiDocumentMdoc(usize),
}

/// The mathematical content of a [`PresentError`].
pub enum PresentFault {
    Malformed(Seq<char>),
    UndisclosableClaim(Seq<char>),
    Signer(Seq<char>),
    Build(Seq<char>),
    MultiDocumentMdoc(usize),
}

impl View for PresentError {
    type V = PresentFault;

    open spec fn view(&self) -> PresentFault {
        match self {
            PresentError::Malformed(detail) => PresentFault::Malformed(detail@),
            PresentError::UndisclosableClaim(name) => PresentFault::UndisclosableClaim(name@),
            PresentError::Signer(detail) => PresentFault::Signer(detail@),
            PresentError::Build(detail) => PresentFault::Build(detail@),
            PresentError::MultiDocumentMdoc(count) => PresentFault::MultiDocumentMdoc(*count),
        }
    }
}

/// The message of a fault.
pub open spec fn present_message(fault: PresentFault) -> Seq<char> {
    match fault {
        PresentFault::Malformed(detail) => "the held credential is malformed: "@ + detail,
        PresentFault::UndisclosableClaim(name) => "requested disclosure '"@ + name
            + "' is not a disclosable claim of the held credential"@,
        PresentFault::Signer(detail) => "the holder signer-hook failed: "@ + detail,
        PresentFault::Build(detail) => "failed to build the presentation: "@ + detail,
        PresentFault::MultiDocumentMdoc(count) => "the held mdoc carries "@ + decimal(
            count as nat,
        )
            + " documents; the holder present seam binds a single document (present each credential separately)"@,
    }
}

impl PresentError {
    /// The message of the error.
    pub fn message(&self) -> (out: String)
        ensures
            out@ == present_message(self@),
    {
        match self {
            PresentError::Malformed(detail) => joined(
                "the held credential is malformed: ",
                detail.as_str(),
            ),
            PresentError::UndisclosableClaim(name) => joined3(
                "requested disclosure '",
                name.as_str(),
                "' is not a disclosable claim of the held credential",
            ),
            PresentError::Signer(detail) => joined(
                "the holder signer-hook failed: ",
                detail.as_str(),
            ),
            PresentError::Build(detail) => joined(
                "failed to build the presentation: ",
                detail.as_str(),
            ),
            PresentError::MultiDocumentMdoc(count) => {
                let documents: u64 = *count as u64;
                joined3(
                    "the held mdoc carries ",
                    decimal_text(documents).as_str(),
                    " documents; the holder present seam binds a single document (present each credential separately)",
                )
            },
        }
    }
}

/// An OpenID4VP presentation in the holder's hands.
#[derive(Debug, Clone, PartialEq, Eq)]
pub enum HolderPresentation {
    /// An SD-JWT VC with its key binding, in compact form.
    SdJwtVc { vp_token: String },
    /// An encoded `DeviceResponse`, and the verifier it is bound to.
    Mdoc { audience: String, device_response: Vec<u8> },
}

/// The mathematical content of a [`HolderPresentation`].
pub enum Presentation {
    SdJwtVc { vp_token: Seq<char> },
    Mdoc { audience: Seq<char>, device_response: Seq<u8> },
}

impl View for HolderPresentation {
    type V = Presentation;

    open spec fn view(&self) -> Presentation {
        match self {
            HolderPresentation::SdJwtVc { vp_token } => Presentation::SdJwtVc {
                vp_token: vp_token@,
            },
            HolderPresentation::Mdoc { audience, device_response } => Presentation::Mdoc {
                audience: audience@,
                device_response: device_response@,
            },
        }
    }
}

impl HolderPresentation {
    /// Borrow the presentation as a `vp_token`.
    pub fn as_vp_token(&self) -> (out: VpToken<'_>)
        ensures
            match self@ {
                Presentation::SdJwtVc { vp_token } => out matches VpToken::SdJwtVc(token)
                    && token@ == vp_token,
                Presentation::Mdoc { audience, device_response } => out matches VpToken::Mdoc(token)
                    && token.audience@ == audience && token.device_response@ == device_response,
            },
    {
        match self {
            HolderPresentation::SdJwtVc { vp_token } => VpToken::SdJwtVc(vp_token.as_str()),
            HolderPresentation::Mdoc { audience, device_response } => VpToken::Mdoc(
                MdocVpToken {
                    audience: audience.as_str(),
                    device_response: device_response.as_slice(),
                },
            ),
        }
    }
}

/// What a signature is spliced into.
#[derive(Debug, Clone, PartialEq, Eq)]
pub enum PreparedKind {
    /// The presentation before the key binding, and the key binding up to its signature.
    SdJwtVc { presentation_prefix: String, kb: KbJwtBuild },
    /// The response, and the device signature up to the signature itself.
    Mdoc { device_response: Vec<u8>, build: DeviceSignatureBuild },
}

/// A presentation, up to the holder's signature.
#[derive(Debug, Clone, PartialEq, Eq)]
pub struct PreparedPresentation {
    /// What the signature is spliced into.
    pub kind: PreparedKind,
}

/// The mathematical content of a [`PreparedPresentation`].
pub enum Prepared {
    SdJwtVc { presentation_prefix: Seq<char>, kb: InputContent },
    Mdoc { device_response: Seq<u8>, build: DeviceBuild },
}

impl View for PreparedPresentation {
    type V = Prepared;

    open spec fn view(&self) -> Prepared {
        match self.kind {
            PreparedKind::SdJwtVc { presentation_prefix, kb } => Prepared::SdJwtVc {
                presentation_prefix: presentation_prefix@,
                kb: kb.input@,
            },
            PreparedKind::Mdoc { device_response, build } => Prepared::Mdoc {
                device_response: device_response@,
                build: build@,
            },
        }
    }
}

/// The input that the holder's key has to sign.
pub open spec fn input_to_sign(prepared: Prepared) -> InputContent {
    match prepared {
        Prepared::SdJwtVc { kb, .. } => kb,
        Prepared::Mdoc { build, .. } => build.input,
    }
}

/// The presentation that a signature completes.
pub open spec fn completed(prepared: Prepared, signature: Seq<u8>) -> Result<
    Presentation,
    PresentFault,
> {
    match prepared {
        Prepared::SdJwtVc { presentation_prefix, kb } => match assembled_jws(kb, signature) {
            Ok(kb_jwt) => Ok(Presentation::SdJwtVc { vp_token: presentation_prefix + kb_jwt }),
            Err(fault) => Err(PresentFault::Build(signer_message(fault))),
        },
        Prepared::Mdoc { device_response, build } => match assembled_device_signature(
            build,
            signature,
        ) {
            Err(fault) => Err(PresentFault::Build(signer_message(fault))),
            Ok(device_signature) => match cbor_read(device_response) {
                Err(message) => Err(PresentFault::Malformed(message)),
                Ok(response) => {
                    let rebuilt = if build.protected_header_value == es256_header() {
                        spliced_map(response, SpliceLevel::Response, detached_item(signature))
                    } else {
                        spliced_response(response, device_signature)
                    };
                    match rebuilt {
                        Err(fault) => Err(fault),
                        Ok(rebuilt) => Ok(
                            Presentation::Mdoc {
                                audience: build.input.audience,
                                device_response: cbor_encoded(rebuilt),
                            },
                        ),
                    }
                },
            },
        },
    }
}

/// The response that a signature completes, where one is completed.
pub open spec fn finished_mdoc(prepared: Prepared, signature: Seq<u8>) -> Option<Cbor> {
    match prepared {
        Prepared::Mdoc { device_response, build } => if signature.len() == ES256_SIG_LEN
            && build.protected_header_value == es256_header() {
            match cbor_read(device_response) {
                Ok(response) => match spliced_map(
                    response,
                    SpliceLevel::Response,
                    detached_item(signature),
                ) {
                    Ok(rebuilt) => Some(rebuilt),
                    Err(_) => None,
                },
                Err(_) => None,
            }
        } else {
            None
        },
        Prepared::SdJwtVc { .. } => None,
    }
}

/// Whether bytes are read back as an item, where it is a simple one.
pub open spec fn reads_back(bytes: Seq<u8>, item: Cbor) -> bool {
    simple_item(item, SIMPLE_DEPTH as nat) ==> cbor_decoded(bytes) == Some(item)
}

/// Whether the bytes of a completed mdoc presentation are read back as the response with the
/// signature in it.
pub open spec fn finished_reads_back(
    prepared: Prepared,
    signature: Seq<u8>,
    out: Result<Presentation, PresentFault>,
) -> bool {
    finished_mdoc(prepared, signature) matches Some(rebuilt) ==> (out matches Ok(
        Presentation::Mdoc { device_response, .. },
    ) && reads_back(device_response, rebuilt) && is_detached_signature(
        detached_item(signature),
        signature,
    ))
}

/// Whether the bytes of a prepared mdoc presentation are read back as the held response without
/// what is not on the list.
pub open spec fn prepared_reads_back(
    held: Held,
    disclose: Seq<Seq<char>>,
    prepared: Prepared,
) -> bool {
    held matches Held::Mdoc { device_response } ==> (prepared matches Prepared::Mdoc {
        device_response: sent,
        ..
    } && cbor_read(device_response) matches Ok(response) && reads_back(
        sent,
        pruned_map(response, PruneLevel::Response, disclose),
    ))
}

/// Whether the input of a prepared presentation names the verifier and the nonce, and that of an
/// SD-JWT VC is a key binding for them at the instant, over the presentation it goes with.
pub open spec fn bound_to_request(
    held: Held,
    audience: Seq<char>,
    nonce: Seq<u8>,
    iat: i64,
    prepared: Prepared,
) -> bool {
    &&& base64url_bytes(base64url_text(nonce)) == Some(nonce)
    &&& input_to_sign(prepared).audience == audience
    &&& input_to_sign(prepared).nonce == base64url_text(nonce)
    &&& held is SdJwtVc <==> prepared is SdJwtVc
    &&& prepared matches Prepared::SdJwtVc { presentation_prefix, kb } ==> is_key_binding(
        kb,
        audience,
        base64url_text(nonce),
        iat,
        presentation_prefix,
    )
}

impl PreparedPresentation {
    /// The input that the holder's key has to sign.
    pub fn signing_input(&self) -> (out: &SigningInput)
        ensures
            out@ == input_to_sign(self@),
    {
        match &self.kind {
            PreparedKind::SdJwtVc { kb, .. } => &kb.input,
            PreparedKind::Mdoc { build, .. } => &build.input,
        }
    }

    /// Splice the signature in.
    pub fn finish(&self, signature: &[u8]) -> (out: Result<HolderPresentation, PresentError>)
        ensures
            match completed(self@, signature@) {
                Ok(presentation) => out matches Ok(value) && value@ == presentation,
                Err(fault) => out matches Err(error) && error@ == fault,
            },
            finished_reads_back(self@, signature@, presentation_content(out)),
    {
        match &self.kind {
            PreparedKind::SdJwtVc { presentation_prefix, kb } => match kb.assemble(signature) {
                Ok(kb_jwt) => Ok(
                    HolderPresentation::SdJwtVc {
                        vp_token: joined(presentation_prefix.as_str(), kb_jwt.as_str()),
                    },
                ),
                Err(error) => Err(PresentError::Build(error.message())),
            },
            PreparedKind::Mdoc { device_response, build } => {
                let device_signature = match build.assemble(signature) {
                    Ok(device_signature) => device_signature,
                    Err(error) => {
                        return Err(PresentError::Build(error.message()));
                    },
                };
                let response = match decode_or_message(device_response.as_slice()) {
                    Ok(response) => response,
                    Err(message) => {
                        return Err(PresentError::Malformed(message));
                    },
                };
                match replace_device_signature(&response, device_signature.as_slice()) {
                    Ok(rebuilt) => Ok(
                        HolderPresentation::Mdoc {
                            audience: build.input.audience.clone(),
                            device_response: cbor_to_vec(&rebuilt),
                        },
                    ),
                    Err(error) => Err(error),
                }
            },
        }
    }
}

/// An mdoc presentation under a selection, up to the signature. Only the elements on the list stay,
/// and the signature is bound to the verifier, the nonce and where the response goes.
pub open spec fn mdoc_prepared(
    device_response: Seq<u8>,
    audience: Seq<char>,
    nonce: Seq<u8>,
    response_uri: Seq<char>,
    disclose: Seq<Seq<char>>,
) -> Result<Prepared, PresentFault> {
    match cbor_read(device_response) {
        Err(message) => Err(PresentFault::Malformed(message)),
        Ok(response) => {
            let documents = array_entry(response, "documents"@);
            if documents is Some && documents->Some_0.len() > 1 {
                Err(PresentFault::MultiDocumentMdoc(documents->Some_0.len() as usize))
            } else {
                match doc_type_of(response) {
                    None => Err(
                        PresentFault::Malformed("DeviceResponse has no document docType"@),
                    ),
                    Some(doc_type) => match least_not_offered(
                        issued_name_spaces(response),
                        disclose,
                    ) {
                        Some(selector) => Err(PresentFault::UndisclosableClaim(selector)),
                        None => match signed_name_spaces(response) {
                            Err(fault) => Err(fault),
                            Ok(name_spaces) => Ok(
                                Prepared::Mdoc {
                                    device_response: cbor_encoded(
                                        pruned_map(response, PruneLevel::Response, disclose),
                                    ),
                                    build: built_over(
                                        doc_type,
                                        handover_transcript(audience, nonce, response_uri),
                                        name_spaces,
                                        audience,
                                        base64url_text(nonce),
                                    ),
                                },
                            ),
                        },
                    },
                }
            }
        },
    }
}

/// Prepare an mdoc presentation.
pub fn prepare_mdoc(
    device_response: &[u8],
    request: &PresentationRequest,
    disclose: &Vec<String>,
) -> (out: Result<PreparedPresentation, PresentError>)
    requires
        4 * request.nonce@.len() <= usize::MAX,
    ensures
        match mdoc_prepared(
            device_response@,
            request.audience@,
            request.nonce@,
            request.response_uri@,
            texts(disclose@),
        ) {
            Ok(prepared) => out matches Ok(value) && value@ == prepared,
            Err(fault) => out matches Err(error) && error@ == fault,
        },
        out matches Ok(value) ==> prepared_reads_back(
            Held::Mdoc { device_response: device_response@ },
            texts(disclose@),
            value@,
        ),
        out matches Ok(value) ==> bound_to_request(
            Held::Mdoc { device_response: device_response@ },
            request.audience@,
            request.nonce@,
            0,
            value@,
        ),
{
    let response = match decode_or_message(device_response) {
        Ok(response) => response,
        Err(message) => {
            return Err(PresentError::Malformed(message));
        },
    };
    if let Some(documents) = get_array(&response, "documents") {
        if documents.len() > 1 {
            return Err(PresentError::MultiDocumentMdoc(documents.len()));
        }
    }
    let doc_type = match first_doc_type(&response) {
        Some(doc_type) => doc_type,
        None => {
            return Err(
                PresentError::Malformed("DeviceResponse has no document docType".to_owned()),
            );
        },
    };
    match check_disclosable(&response, disclose) {
        Ok(_) => {},
        Err(error) => {
            return Err(error);
        },
    }
    let name_spaces = match first_device_name_spaces_bytes(&response) {
        Ok(name_spaces) => name_spaces,
        Err(error) => {
            return Err(error);
        },
    };
    let transcript = oid4vp_handover_transcript(
        request.audience.as_str(),
        request.nonce.as_slice(),
        request.response_uri.as_str(),
    );
    let build = match build_device_signature(
        doc_type.as_str(),
        transcript.as_slice(),
        name_spaces.as_slice(),
        request.audience.as_str(),
        request.nonce_b64().as_str(),
    ) {
        Ok(build) => build,
        Err(error) => {
            return Err(PresentError::Build(error.message()));
        },
    };
    let pruned = prune_response(&response, disclose);
    Ok(
        PreparedPresentation {
            kind: PreparedKind::Mdoc { device_response: cbor_to_vec(&pruned), build },
        },
    )
}

/// Whether `out` is what preparing an SD-JWT VC presentation under a selection gives. The key
/// binding is bound to the verifier, the nonce, the instant and the presentation it goes with.
pub open spec fn sd_jwt_prepared(
    issued: Seq<char>,
    audience: Seq<char>,
    nonce: Seq<u8>,
    disclose: Seq<Seq<char>>,
    iat: i64,
    out: Result<Prepared, PresentFault>,
) -> bool {
    exists|selected: Result<Seq<char>, PresentFault>|
        {
            &&& #[trigger] selection_outcome(issued, disclose, selected)
            &&& match selected {
                Err(fault) => out == Err::<Prepared, PresentFault>(fault),
                Ok(presentation_prefix) => match kb_input(
                    audience,
                    base64url_text(nonce),
                    iat,
                    presentation_prefix,
                ) {
                    Err(fault) => out == Err::<Prepared, PresentFault>(
                        PresentFault::Build(signer_message(fault)),
                    ),
                    Ok(kb) => out == Ok::<Prepared, PresentFault>(
                        Prepared::SdJwtVc { presentation_prefix, kb },
                    ),
                },
            }
        }
}

/// The content of a result.
pub open spec fn prepared_content(out: Result<PreparedPresentation, PresentError>) -> Result<
    Prepared,
    PresentFault,
> {
    match out {
        Ok(prepared) => Ok(prepared@),
        Err(error) => Err(error@),
    }
}

/// Prepare an SD-JWT VC presentation.
pub fn prepare_sd_jwt_vc(
    issued: &str,
    request: &PresentationRequest,
    disclose: &Vec<String>,
    iat: i64,
) -> (out: Result<PreparedPresentation, PresentError>)
    requires
        4 * request.nonce@.len() <= usize::MAX,
    ensures
        sd_jwt_prepared(
            issued@,
            request.audience@,
            request.nonce@,
            texts(disclose@),
            iat,
            prepared_content(out),
        ),
        out matches Ok(value) ==> bound_to_request(
            Held::SdJwtVc { issued: issued@ },
            request.audience@,
            request.nonce@,
            iat,
            value@,
        ),
{
    let presentation_prefix = match select_disclosures(issued, disclose) {
        Ok(presentation_prefix) => presentation_prefix,
        Err(error) => {
            assert(selection_outcome(
                issued@,
                texts(disclose@),
                Err::<Seq<char>, PresentFault>(error@),
            ));
            return Err(error);
        },
    };
    assert(selection_outcome(
        issued@,
        texts(disclose@),
        Ok::<Seq<char>, PresentFault>(presentation_prefix@),
    ));
    match build_kb_jwt(
        request.audience.as_str(),
        request.nonce_b64().as_str(),
        iat,
        presentation_prefix.as_str(),
    ) {
        Ok(kb) => Ok(
            PreparedPresentation { kind: PreparedKind::SdJwtVc { presentation_prefix, kb } },
        ),
        Err(error) => Err(PresentError::Build(error.message())),
    }
}

/// Whether `out` is what preparing a presentation of a held attestation gives.
pub open spec fn prepare_outcome(
    held: Held,
    audience: Seq<char>,
    nonce: Seq<u8>,
    response_uri: Seq<char>,
    disclose: Seq<Seq<char>>,
    iat: i64,
    out: Result<Prepared, PresentFault>,
) -> bool {
    match held {
        Held::SdJwtVc { issued } => sd_jwt_prepared(issued, audience, nonce, disclose, iat, out),
        Held::Mdoc { device_response } => out == mdoc_prepared(
            device_response,
            audience,
            nonce,
            response_uri,
            disclose,
        ),
    }
}

/// Prepare a presentation of a held attestation, up to the holder's signature. `disclose` lists
/// what to disclose: of an SD-JWT VC by the paths of claims, of an mdoc by namespace and element.
pub fn prepare_present(
    held: &HeldAttestation,
    request: &PresentationRequest,
    disclose: &Vec<String>,
    iat: i64,
) -> (out: Result<PreparedPresentation, PresentError>)
    requires
        4 * request.nonce@.len() <= usize::MAX,
    ensures
        prepare_outcome(
            held@,
            request.audience@,
            request.nonce@,
            request.response_uri@,
            texts(disclose@),
            iat,
            prepared_content(out),
        ),
        out matches Ok(value) ==> prepared_reads_back(held@, texts(disclose@), value@),
        out matches Ok(value) ==> bound_to_request(
            held@,
            request.audience@,
            request.nonce@,
            iat,
            value@,
        ),
{
    match held {
        HeldAttestation::SdJwtVc { issued } => prepare_sd_jwt_vc(
            issued.as_str(),
            request,
            disclose,
            iat,
        ),
        HeldAttestation::Mdoc { device_response } => prepare_mdoc(
            device_response.as_slice(),
            request,
            disclose,
        ),
    }
}

/// Preparing a presentation is deterministic: the same attestation, request and selection give the
/// same input to sign, or the same fault.
pub proof fn law_preparation_is_deterministic(
    held: Held,
    audience: Seq<char>,
    nonce: Seq<u8>,
    response_uri: Seq<char>,
    disclose: Seq<Seq<char>>,
    iat: i64,
    first: Result<Prepared, PresentFault>,
    second: Result<Prepared, PresentFault>,
)
    requires
        prepare_outcome(held, audience, nonce, response_uri, disclose, iat, first),
        prepare_outcome(held, audience, nonce, response_uri, disclose, iat, second),
    ensures
        first == second,
{
}

/// The content of a result.
pub open spec fn presentation_content(out: Result<HolderPresentation, PresentError>) -> Result<
    Presentation,
    PresentFault,
> {
    match out {
        Ok(presentation) => Ok(presentation@),
        Err(error) => Err(error@),
    }
}

/// Whether the signer, asked to sign the prepared input with the holder's key, may have answered so
/// that the presentation comes to `out`.
pub open spec fn signed_outcome<S: Signer>(
    signer: &S,
    key_handle: Seq<char>,
    prepared: Prepared,
    out: Result<Presentation, PresentFault>,
) -> bool where S::Error: core::fmt::Display {
    exists|handle: &str, input: &SigningInput, answer: Result<Vec<u8>, S::Error>|
        {
            &&& handle@ == key_handle
            &&& input@ == input_to_sign(prepared)
            &&& #[trigger] call_ensures(S::sign, (signer, handle, input), answer)
            &&& match answer {
                Ok(signature) => out == completed(prepared, signature@) && finished_reads_back(
                    prepared,
                    signature@,
                    out,
                ),
                Err(error) => exists|message: String| #[trigger]
                    to_string_from_display_ensures::<S::Error>(&error, message) && out == Err::<
                        Presentation,
                        PresentFault,
                    >(PresentFault::Signer(message@)),
            }
        }
}

/// Whether presenting a held attestation may come to `out`: preparing it failed, or the signer was
/// asked for the signature that completes it.
pub open spec fn present_outcome<S: Signer>(
    signer: &S,
    key_handle: Seq<char>,
    held: Held,
    audience: Seq<char>,
    nonce: Seq<u8>,
    response_uri: Seq<char>,
    disclose: Seq<Seq<char>>,
    iat: i64,
    out: Result<Presentation, PresentFault>,
) -> bool where S::Error: core::fmt::Display {
    exists|step: Result<Prepared, PresentFault>|
        {
            &&& #[trigger] prepare_outcome(
                held,
                audience,
                nonce,
                response_uri,
                disclose,
                iat,
                step,
            )
            &&& match step {
                Err(fault) => out == Err::<Presentation, PresentFault>(fault),
                Ok(prepared) => prepared_reads_back(held, disclose, prepared) && bound_to_request(
                    held,
                    audience,
                    nonce,
                    iat,
                    prepared,
                ) && signed_outcome(
                    signer,
                    key_handle,
                    prepared,
                    out,
                ),
            }
        }
}

/// Presenting is preparing, signing and finishing: where preparing fails, presenting fails alike;
/// where it does not, what comes out is what an answer of the signer, asked for the input that was
/// prepared with the key that the handle selects, is completed to, or the error of the signer.
pub proof fn law_presenting_is_preparing_and_signing<S: Signer>(
    signer: &S,
    key_handle: Seq<char>,
    held: Held,
    audience: Seq<char>,
    nonce: Seq<u8>,
    response_uri: Seq<char>,
    disclose: Seq<Seq<char>>,
    iat: i64,
    step: Result<Prepared, PresentFault>,
    out: Result<Presentation, PresentFault>,
) where S::Error: core::fmt::Display
    requires
        prepare_outcome(held, audience, nonce, response_uri, disclose, iat, step),
        present_outcome(
            signer,
            key_handle,
            held,
            audience,
            nonce,
            response_uri,
            disclose,
            iat,
            out,
        ),
    ensures
        match step {
            Err(fault) => out == Err::<Presentation, PresentFault>(fault),
            Ok(prepared) => signed_outcome(signer, key_handle, prepared, out),
        },
{
    let taken = choose|taken: Result<Prepared, PresentFault>|
        {
            &&& #[trigger] prepare_outcome(
                held,
                audience,
                nonce,
                response_uri,
                disclose,
                iat,
                taken,
            )
            &&& match taken {
                Err(fault) => out == Err::<Presentation, PresentFault>(fault),
                Ok(prepared) => prepared_reads_back(held, disclose, prepared) && bound_to_request(
                    held,
                    audience,
                    nonce,
                    iat,
                    prepared,
                ) && signed_outcome(
                    signer,
                    key_handle,
                    prepared,
                    out,
                ),
            }
        };
    law_preparation_is_deterministic(
        held,
        audience,
        nonce,
        response_uri,
        disclose,
        iat,
        step,
        taken,
    );
}

/// Present a held attestation with a signer at hand.
pub fn present<S: Signer>(
    held: &HeldAttestation,
    request: &PresentationRequest,
    holder: &HolderContext,
    disclose: &Vec<String>,
    signer: &S,
    iat: i64,
) -> (out: Result<HolderPresentation, PresentError>) where S::Error: core::fmt::Display
    requires
        4 * request.nonce@.len() <= usize::MAX,
    ensures
        present_outcome(
            signer,
            holder.key_handle@,
            held@,
            request.audience@,
            request.nonce@,
            request.response_uri@,
            texts(disclose@),
            iat,
            presentation_content(out),
        ),
{
    let prepared = match prepare_present(held, request, disclose, iat) {
        Ok(prepared) => prepared,
        Err(error) => {
            assert(prepare_outcome(
                held@,
                request.audience@,
                request.nonce@,
                request.response_uri@,
                texts(disclose@),
                iat,
                Err::<Prepared, PresentFault>(error@),
            ));
            return Err(error);
        },
    };
    assert(prepare_outcome(
        held@,
        request.audience@,
        request.nonce@,
        request.response_uri@,
        texts(disclose@),
        iat,
        Ok::<Prepared, PresentFault>(prepared@),
    ));
    let answer = signer.sign(holder.key_handle.as_str(), prepared.signing_input());
    match answer {
        Ok(signature) => prepared.finish(signature.as_slice()),
        Err(error) => Err(PresentError::Signer(error.to_string())),
    }
}

} // verus!
