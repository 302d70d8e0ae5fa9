use vstd::prelude::*;

verus! {

/// The failures the protocol operations can surface.
#[derive(Clone, Copy, Debug, PartialEq, Eq, Structural)]
pub enum LiError {
    /// The presented text is not a validly encoded envelope of the expected
    /// structure.
    MalformedEnvelope,
    /// Encryption or decryption failed, or decryption produced bytes that are
    /// not valid plaintext.
    CryptoFailure,
    /// The host environment could not supply a hardware fingerprint.
    FingerprintUnavailable,
    /// The claimed activation key does not match the recomputed one.
    ActivationKeyMismatch,
    /// The envelope carries a version tag of a different protocol revision.
    VersionMismatch,
}

} // verus!
