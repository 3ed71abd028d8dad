//! What the signer is asked for when a credential is presented.
use crate::issuance::present::{
    input_to_sign, law_presenting_is_preparing_and_signing, prepare_present, prepared_content,
    present, presentation_content, signed_outcome, HeldAttestation, HolderPresentation,
    PreparedKind, PreparedPresentation, PresentError,
};
use crate::issuance::signer::{HolderContext, InputContent, Signer, SigningInput};
use crate::openid4vp::PresentationRequest;
use vstd::prelude::*;

verus! {

/// The input that a prepared presentation is signed over.
pub open spec fn prepared_input(prepared: PreparedPresentation) -> InputContent {
    match prepared.kind {
        PreparedKind::SdJwtVc { kb, .. } => kb.input@,
        PreparedKind::Mdoc { build, .. } => build.input@,
    }
}

/// Whether a presentation is what a signature completes.
pub open spec fn completes(
    prepared: PreparedPresentation,
    signature: Seq<u8>,
    presentation: HolderPresentation,
) -> bool {
    forall|slice: &[u8], finished: Result<HolderPresentation, PresentError>|
        slice@ == signature && #[trigger] call_ensures(
            PreparedPresentation::finish,
            (&prepared, slice),
            finished,
        ) ==> (finished matches Ok(same) && same@ == presentation@)
}

/// Whether the signer, asked to sign an input with a key, gave a signature.
pub open spec fn gave<S: Signer>(
    signer: &S,
    key_handle: Seq<char>,
    input: InputContent,
    signature: Vec<u8>,
) -> bool {
    exists|handle: &str, asked: &SigningInput|
        handle@ == key_handle && asked@ == input && #[trigger] call_ensures(
            S::sign,
            (signer, handle, asked),
            Ok::<Vec<u8>, S::Error>(signature),
        )
}

/// What cannot be prepared is not presented, for the same reason. What is presented is what was
/// prepared, completed by a signature that the signer gave over the prepared input with the
/// holder's key.
pub proof fn law_the_signer_signs_what_was_prepared<S: Signer>(
    held: &HeldAttestation,
    request: &PresentationRequest,
    holder: &HolderContext,
    disclose: &Vec<String>,
    signer: &S,
    iat: i64,
    step: Result<PreparedPresentation, PresentError>,
    out: Result<HolderPresentation, PresentError>,
) where S::Error: core::fmt::Display
    requires
        call_ensures(prepare_present, (held, request, disclose, iat), step),
        call_ensures(present::<S>, (held, request, holder, disclose, signer, iat), out),
    ensures
        step matches Err(error) ==> (out matches Err(same) && same@ == error@),
        step matches Ok(prepared) ==> (out matches Ok(presentation) ==> exists|signature: Vec<u8>|
            #[trigger] gave(signer, holder.key_handle@, prepared_input(prepared), signature)
                && completes(prepared, signature@, presentation)),
{
    law_presenting_is_preparing_and_signing(
        signer,
        holder.key_handle@,
        held@,
        request.audience@,
        request.nonce@,
        request.response_uri@,
        crate::text::texts(disclose@),
        iat,
        prepared_content(step),
        presentation_content(out),
    );
    if let Ok(prepared) = step {
        assert(input_to_sign(prepared@) == prepared_input(prepared));
        assert(signed_outcome(signer, holder.key_handle@, prepared@, presentation_content(out)));
        if let Ok(presentation) = out {
            let (handle, input, answer) = choose|
                handle: &str,
                input: &SigningInput,
                answer: Result<Vec<u8>, S::Error>,
            |
                {
                    &&& handle@ == holder.key_handle@
                    &&& input@ == input_to_sign(prepared@)
                    &&& #[trigger] call_ensures(S::sign, (signer, handle, input), answer)
                    &&& match answer {
                        Ok(signature) => presentation_content(out)
                            == crate::issuance::present::completed(prepared@, signature@),
                        Err(error) => presentation_content(out) is Err,
                    }
                };
            let signature = answer->Ok_0;
            assert(answer is Ok);
            assert(gave(signer, holder.key_handle@, prepared_input(prepared), signature));
            assert(completes(prepared, signature@, presentation));
        }
    }
}

} // verus!
