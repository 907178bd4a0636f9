use vstd::prelude::*;
use x509_certificate::{CapturedX509Certificate, X509CertificateError};

verus! {

/// The outcome of asking whether one certificate's key signed another certificate.
#[derive(Clone, Copy, PartialEq, Eq, Structural, Debug)]
pub enum SignatureCheck {
    Signed,
    Mismatch,
    /// The signature algorithm is one the X.509 library cannot verify.
    Unsupported,
    /// Parsing or verification failed for another reason.
    Failed,
}

/// What x509-certificate answers for a child and a candidate issuer, both DER encoded.
pub uninterp spec fn x509_signature_check(child_der: Seq<u8>, parent_der: Seq<u8>) -> SignatureCheck;

/// Relies on x509_certificate::CapturedX509Certificate::from_der and
/// verify_signed_by_certificate, which verifies the child's signature with the
/// parent's subject public key. The answer depends on the two encodings alone.
#[verifier::external_body]
pub(crate) fn x509_verify_signed_by(child_der: &Vec<u8>, parent_der: &Vec<u8>) -> (r: SignatureCheck)
    ensures
        r == x509_signature_check(child_der@, parent_der@),
{
    match (CapturedX509Certificate::from_der(child_der.clone()), CapturedX509Certificate::from_der(parent_der.clone())) {
        (Ok(child), Ok(parent)) => match child.verify_signed_by_certificate(&parent) {
            Ok(()) => SignatureCheck::Signed,
            Err(X509CertificateError::CertificateSignatureVerificationFailed) => SignatureCheck::Mismatch,
            Err(X509CertificateError::UnsupportedSignatureVerification(..)) => SignatureCheck::Unsupported,
            Err(_) => SignatureCheck::Failed,
        },
        _ => SignatureCheck::Failed,
    }
}

} // verus!
