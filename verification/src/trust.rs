//! Trust anchors for issuers.
use crate::text::{bytes_eq, byte_strings};
use crate::types::{Format, IssuerRole, ReasonCode};
use vstd::prelude::*;

verus! {

/// Why an issuer is not trusted.
#[derive(Debug, Clone, Copy, PartialEq, Eq, Structural)]
pub enum TrustFailure {
    /// No certification path leads to an anchor.
    NotTrusted,
    /// A certificate on the path is outside its validity window.
    Expired,
}

impl TrustFailure {
    /// The failure of an issuer that no path leads from.
    pub fn not_trusted() -> (out: TrustFailure)
        ensures
            out == TrustFailure::NotTrusted,
    {
        TrustFailure::NotTrusted
    }

    /// The reason that a verdict gives for the failure.
    pub open spec fn reason(self) -> ReasonCode {
        match self {
            TrustFailure::NotTrusted => ReasonCode::UntrustedIssuer,
            TrustFailure::Expired => ReasonCode::Expired,
        }
    }

    /// The reason that a verdict gives for the failure.
    pub fn reason_code(self) -> (out: ReasonCode)
        ensures
            out == self.reason(),
    {
        match self {
            TrustFailure::NotTrusted => ReasonCode::UntrustedIssuer,
            TrustFailure::Expired => ReasonCode::Expired,
        }
    }
}

/// The decision on an issuer.
#[derive(Debug, Clone, Copy, PartialEq, Eq)]
pub struct TrustDecision {
    /// Whether the issuer is trusted.
    pub trusted: bool,
    /// Why it is not, where that is known.
    pub failure: Option<TrustFailure>,
}

/// A source of trust anchors, supplied by the integrator.
pub trait TrustAnchorSource {
    /// What the source decides on a certificate path in a role.
    spec fn decision(
        &self,
        role: IssuerRole,
        format: Format,
        leaf: Seq<u8>,
        intermediates: Seq<Seq<u8>>,
        leaf_instant: Option<i64>,
    ) -> TrustDecision;

    /// Decide whether `leaf_der`, with `intermediates` as path material, is trusted to issue
    /// credentials of `format` in `role`. The leaf's own validity window is checked at
    /// `leaf_instant`, where one is given.
    fn resolve(
        &self,
        role: IssuerRole,
        format: Format,
        leaf_der: &[u8],
        intermediates: &[Vec<u8>],
        leaf_instant: Option<i64>,
    ) -> (out: TrustDecision)
        ensures
            out == self.decision(
                role,
                format,
                leaf_der@,
                byte_strings(intermediates@),
                leaf_instant,
            ),
    ;
}

/// A fixed list of trusted certificates, each for one role and one format.
#[derive(Debug)]
pub struct StaticTestAnchors {
    anchors: Vec<(IssuerRole, Format, Vec<u8>)>,
}

impl StaticTestAnchors {
    /// Whether `leaf` is on the list for `role` and `format`.
    pub closed spec fn lists(&self, role: IssuerRole, format: Format, leaf: Seq<u8>) -> bool {
        exists|i: int|
            0 <= i < self.anchors@.len() && (#[trigger] self.anchors@[i]).0 == role
                && self.anchors@[i].1 == format && self.anchors@[i].2@ == leaf
    }

    /// The empty list.
    pub fn new() -> (out: StaticTestAnchors)
        ensures
            forall|role: IssuerRole, format: Format, leaf: Seq<u8>|
                !#[trigger] out.lists(role, format, leaf),
    {
        StaticTestAnchors { anchors: Vec::new() }
    }

    /// The list with one more certificate.
    pub fn trust(self, role: IssuerRole, format: Format, leaf_der: &[u8]) -> (out: StaticTestAnchors)
        ensures
            forall|r: IssuerRole, f: Format, leaf: Seq<u8>| #[trigger]
                out.lists(r, f, leaf) == (self.lists(r, f, leaf) || (r == role && f == format
                    && leaf == leaf_der@)),
    {
        let mut anchors = self.anchors;
        let ghost before = anchors@;
        anchors.push((role, format, vstd::slice::slice_to_vec(leaf_der)));
        let out = StaticTestAnchors { anchors };
        proof {
            assert forall|r: IssuerRole, f: Format, leaf: Seq<u8>| #[trigger]
                out.lists(r, f, leaf) == (self.lists(r, f, leaf) || (r == role && f == format
                    && leaf == leaf_der@)) by {
                if self.lists(r, f, leaf) {
                    let i = choose|i: int|
                        0 <= i < before.len() && (#[trigger] before[i]).0 == r && before[i].1 == f
                            && before[i].2@ == leaf;
                    assert(out.anchors@[i] == before[i]);
                }
                if r == role && f == format && leaf == leaf_der@ {
                    assert(out.anchors@[before.len() as int].0 == r);
                }
                if out.lists(r, f, leaf) {
                    let i = choose|i: int|
                        0 <= i < out.anchors@.len() && (#[trigger] out.anchors@[i]).0 == r
                            && out.anchors@[i].1 == f && out.anchors@[i].2@ == leaf;
                    if i < before.len() {
                        assert(self.anchors@[i] == out.anchors@[i]);
                    }
                }
            }
        }
        out
    }
}

impl TrustAnchorSource for StaticTestAnchors {
    open spec fn decision(
        &self,
        role: IssuerRole,
        format: Format,
        leaf: Seq<u8>,
        intermediates: Seq<Seq<u8>>,
        leaf_instant: Option<i64>,
    ) -> TrustDecision {
        if self.lists(role, format, leaf) {
            TrustDecision { trusted: true, failure: None }
        } else {
            TrustDecision { trusted: false, failure: Some(TrustFailure::NotTrusted) }
        }
    }

    fn resolve(
        &self,
        role: IssuerRole,
        format: Format,
        leaf_der: &[u8],
        intermediates: &[Vec<u8>],
        leaf_instant: Option<i64>,
    ) -> (out: TrustDecision) {
        let mut i: usize = 0;
        while i < self.anchors.len()
            invariant
                i <= self.anchors@.len(),
                forall|j: int|
                    0 <= j < i ==> !((#[trigger] self.anchors@[j]).0 == role && self.anchors@[j].1
                        == format && self.anchors@[j].2@ == leaf_der@),
            decreases self.anchors@.len() - i,
        {
            let anchor = &self.anchors[i];
            if anchor.0 == role && anchor.1 == format && bytes_eq(anchor.2.as_slice(), leaf_der) {
                return TrustDecision { trusted: true, failure: None };
            }
            i += 1;
        }
        TrustDecision { trusted: false, failure: Some(TrustFailure::NotTrusted) }
    }
}

} // verus!
