//! The holder's side: obtaining credentials and presenting them, with a signer that keeps the key.

pub mod device;
pub mod exchange_laws;
pub mod obtain;
pub mod present;
pub mod signer;
pub mod signing_laws;
pub mod wire;
pub mod wire_laws;

pub use self::obtain::{
    begin_obtain, resume_obtain, CredentialOffer, HttpEffect, HttpMethod, IssuerBackend,
    IssuerBackendKind, ObtainError, ObtainSession, ObtainStep, ResumeObtain,
};
pub use self::present::{
    prepare_present, present, HeldAttestation, HolderPresentation, PreparedPresentation,
    PresentError,
};
pub use self::signer::{
    build_kb_jwt, build_pop_jwt, Ceremony, HolderContext, KbJwtBuild, PopJwtBuild,
    SignatureAlgorithm, Signer, SignerError, SigningInput,
};
