//! The client facade: composes the license core's operations into the
//! two-step workflow. The claimed activation key and the token travel as two
//! separate arguments; nothing is split out of a combined string.

use vstd::prelude::*;

verus! {

use vstd::utf8::valid_utf8;
use crate::b64::{b64_char, b64_of};
use crate::checksum::actokey_of;
use crate::cipher::{aes_ecb_dec, aes_ecb_enc, pad_view, total_pad};
use crate::errors::LiError;
use crate::licore::{
    activation_plaintext, lemma_license_contains, license_plaintext, malformed_token_text,
    mismatched_token_text, token_text, verify_needle, LiCoreV1,
};
use crate::text::{contains_seq, plain_chars, str_eq};

/// The client around one license core.
#[derive(Clone, Debug, Default)]
pub struct LiClient {
    pub license_core: LiCoreV1,
}

impl LiClient {
    pub fn new(lic_core: LiCoreV1) -> (r: LiClient)
        ensures
            r.license_core == lic_core,
    {
        LiClient { license_core: lic_core }
    }

    /// Issues an activation token for the given hardware fingerprint.
    pub fn gen_actoken(&self, fingerprint: &str) -> (r: Result<String, LiError>)
        requires
            self.license_core.wf(),
        ensures
            r is Ok ==> exists|sid: Seq<char>, ts: int|
                #[trigger] self.license_core.issued_activation(fingerprint@, r->Ok_0@, sid, ts),
            r is Ok ==> forall|i: int|
                0 <= i < r->Ok_0@.len() ==> b64_char(#[trigger] r->Ok_0@[i]),
            r is Err ==> r->Err_0 == LiError::CryptoFailure,
            total_pad(pad_view(self.license_core.act_aes_padding)) ==> r is Ok,
    {
        self.license_core.gen_actoken(fingerprint)
    }

    /// Whether the claimed activation key matches the one recomputed from
    /// the token.
    pub fn check_actokey(&self, actoken: &str, actokey: &str) -> (r: Result<bool, LiError>)
        requires
            self.license_core.wf(),
        ensures
            forall|sid: Seq<char>, ct: Seq<u8>, pt: Seq<u8>|
                #[trigger] self.license_core.act_interp(actoken@, sid, ct, pt) ==> r == Ok::<
                    bool,
                    LiError,
                >(actokey@ == actokey_of(pt)),
            forall|sid: Seq<char>, ct: Seq<u8>, pt: Seq<u8>|
                #[trigger] self.license_core.act_interp_enc(actoken@, sid, ct, pt) ==> r == Ok::<
                    bool,
                    LiError,
                >(actokey@ == actokey_of(pt)),
            r is Err ==> r->Err_0 == LiError::MalformedEnvelope || r->Err_0
                == LiError::CryptoFailure || r->Err_0 == LiError::VersionMismatch,
            r == Err::<bool, LiError>(LiError::MalformedEnvelope) <==> malformed_token_text(
                actoken@,
            ),
            r == Err::<bool, LiError>(LiError::VersionMismatch) <==> mismatched_token_text(
                actoken@,
            ),
            forall|sid: Seq<char>, ct: Seq<u8>|
                (plain_chars(sid) && plain_chars(b64_of(ct)) && actoken@ == #[trigger] token_text(
                    sid,
                    ct,
                ) && ({
                    let d = aes_ecb_dec(
                        ct,
                        self.license_core.act_aes_key@,
                        pad_view(self.license_core.act_aes_padding),
                    );
                    d is Some ==> !valid_utf8(d->0)
                })) ==> r == Err::<bool, LiError>(LiError::CryptoFailure),
    {
        let derived = match self.license_core.gen_actokey(actoken) {
            Ok(p) => p,
            Err(e) => {
                return Err(e);
            },
        };
        Ok(str_eq(derived.0.as_str(), actokey))
    }

    /// Issues a license against a token and its claimed activation key. The
    /// key comparison is the sole gate: on a mismatch the license is refused
    /// with `ActivationKeyMismatch`.
    pub fn gen_license(&self, actoken: &str, actokey: &str, fingerprint: &str) -> (r: Result<
        String,
        LiError,
    >)
        requires
            self.license_core.wf(),
        ensures
            forall|sid: Seq<char>, ct: Seq<u8>, pt: Seq<u8>|
                (#[trigger] self.license_core.act_interp(actoken@, sid, ct, pt) && actokey@
                    != actokey_of(pt)) ==> r == Err::<String, LiError>(
                    LiError::ActivationKeyMismatch,
                ),
            forall|sid: Seq<char>, ct: Seq<u8>, pt: Seq<u8>|
                (#[trigger] self.license_core.act_interp_enc(actoken@, sid, ct, pt) && actokey@
                    != actokey_of(pt)) ==> r == Err::<String, LiError>(
                    LiError::ActivationKeyMismatch,
                ),
            forall|sid: Seq<char>, ct: Seq<u8>, pt: Seq<u8>|
                (#[trigger] self.license_core.act_interp(actoken@, sid, ct, pt) && actokey@
                    == actokey_of(pt) && total_pad(pad_view(self.license_core.lic_aes_padding)))
                    ==> r is Ok && exists|ts: int|
                    self.license_core.issued_license(fingerprint@, sid, r->Ok_0@, ts),
            forall|sid: Seq<char>, ct: Seq<u8>, pt: Seq<u8>|
                (#[trigger] self.license_core.act_interp_enc(actoken@, sid, ct, pt) && actokey@
                    == actokey_of(pt) && total_pad(pad_view(self.license_core.lic_aes_padding)))
                    ==> r is Ok && exists|ts: int|
                    self.license_core.issued_license(fingerprint@, sid, r->Ok_0@, ts),
            r is Ok ==> exists|sid: Seq<char>, ct: Seq<u8>, pt: Seq<u8>, ts: int|
                #![trigger self.license_core.act_interp(actoken@, sid, ct, pt),
                    self.license_core.issued_license(fingerprint@, sid, r->Ok_0@, ts)]
                self.license_core.act_interp(actoken@, sid, ct, pt) && actokey@ == actokey_of(pt)
                    && self.license_core.issued_license(fingerprint@, sid, r->Ok_0@, ts),
            r is Ok ==> forall|i: int|
                0 <= i < r->Ok_0@.len() ==> b64_char(#[trigger] r->Ok_0@[i]),
            r is Err ==> r->Err_0 == LiError::MalformedEnvelope || r->Err_0
                == LiError::CryptoFailure || r->Err_0 == LiError::VersionMismatch || r->Err_0
                == LiError::ActivationKeyMismatch,
            r == Err::<String, LiError>(LiError::MalformedEnvelope) <==> malformed_token_text(
                actoken@,
            ),
            r == Err::<String, LiError>(LiError::VersionMismatch) <==> mismatched_token_text(
                actoken@,
            ),
    {
        let derived = match self.license_core.gen_actokey(actoken) {
            Ok(p) => p,
            Err(e) => {
                return Err(e);
            },
        };
        if !str_eq(derived.0.as_str(), actokey) {
            return Err(LiError::ActivationKeyMismatch);
        }
        proof {
            let (sid, ct, pt) = choose|sid: Seq<char>, ct: Seq<u8>, pt: Seq<u8>|
                self.license_core.act_interp(actoken@, sid, ct, pt) && derived.0@ == actokey_of(pt)
                    && derived.1@ == sid;
            assert(self.license_core.act_interp(actoken@, sid, ct, pt));
        }
        let ghost sid_used = derived.1@;
        let license = match self.license_core.generate_lic(derived.1, fingerprint) {
            Ok(l) => l,
            Err(e) => {
                return Err(e);
            },
        };
        let r: Result<String, LiError> = Ok(license);
        proof {
            let (sid, ct, pt) = choose|sid: Seq<char>, ct: Seq<u8>, pt: Seq<u8>|
                self.license_core.act_interp(actoken@, sid, ct, pt) && derived.0@ == actokey_of(pt)
                    && sid_used == sid;
            let ts = choose|ts: int|
                self.license_core.issued_license(fingerprint@, sid_used, r->Ok_0@, ts);
            assert(self.license_core.act_interp(actoken@, sid, ct, pt) && actokey@ == actokey_of(pt)
                && self.license_core.issued_license(fingerprint@, sid, r->Ok_0@, ts));
        }
        r
    }

    /// Verifies a license against the given hardware fingerprint.
    pub fn verify_license(&self, license_content: String, fingerprint: &str) -> (r: Result<
        bool,
        LiError,
    >)
        requires
            self.license_core.wf(),
        ensures
            license_content@.len() == 0 ==> r == Ok::<bool, LiError>(false),
            forall|sid: Seq<char>, ct: Seq<u8>, pt: Seq<u8>|
                license_content@.len() > 0 && #[trigger] self.license_core.lic_interp(
                    license_content@,
                    sid,
                    ct,
                    pt,
                ) ==> r == Ok::<bool, LiError>(
                    contains_seq(pt, verify_needle(sid, fingerprint@)),
                ),
            forall|sid: Seq<char>, ct: Seq<u8>, pt: Seq<u8>|
                license_content@.len() > 0 && #[trigger] self.license_core.lic_interp_enc(
                    license_content@,
                    sid,
                    ct,
                    pt,
                ) ==> r == Ok::<bool, LiError>(
                    contains_seq(pt, verify_needle(sid, fingerprint@)),
                ),
            r == Ok::<bool, LiError>(true) ==> license_content@.len() > 0 && exists|
                sid: Seq<char>,
                ct: Seq<u8>,
                pt: Seq<u8>,
            |
                #[trigger] self.license_core.lic_interp(license_content@, sid, ct, pt)
                    && contains_seq(pt, verify_needle(sid, fingerprint@)),
            r == Ok::<bool, LiError>(false) ==> license_content@.len() == 0 || exists|
                sid: Seq<char>,
                ct: Seq<u8>,
                pt: Seq<u8>,
            |
                #[trigger] self.license_core.lic_interp(license_content@, sid, ct, pt)
                    && !contains_seq(pt, verify_needle(sid, fingerprint@)),
            r is Err ==> r->Err_0 == LiError::MalformedEnvelope || r->Err_0
                == LiError::CryptoFailure || r->Err_0 == LiError::VersionMismatch,
            r == Err::<bool, LiError>(LiError::MalformedEnvelope) <==> (license_content@.len() > 0
                && malformed_token_text(license_content@)),
            r == Err::<bool, LiError>(LiError::VersionMismatch) <==> (license_content@.len() > 0
                && mismatched_token_text(license_content@)),
            r is Err && r->Err_0 == LiError::CryptoFailure ==> exists|sid: Seq<char>, ct: Seq<u8>|
                plain_chars(sid) && plain_chars(b64_of(ct)) && license_content@
                    == #[trigger] token_text(sid, ct) && ({
                    let d = aes_ecb_dec(
                        ct,
                        self.license_core.lic_aes_key@,
                        pad_view(self.license_core.lic_aes_padding),
                    );
                    d is Some ==> !valid_utf8(d->0)
                }),
            forall|sid: Seq<char>, ct: Seq<u8>|
                (license_content@.len() > 0 && plain_chars(sid) && plain_chars(b64_of(ct))
                    && license_content@ == #[trigger] token_text(sid, ct) && ({
                    let d = aes_ecb_dec(
                        ct,
                        self.license_core.lic_aes_key@,
                        pad_view(self.license_core.lic_aes_padding),
                    );
                    d is Some ==> !valid_utf8(d->0)
                })) ==> r == Err::<bool, LiError>(LiError::CryptoFailure),
    {
        self.license_core.verify_lic(license_content, fingerprint)
    }
}

/// Law: on one host and one core, the full protocol closes. A fresh
/// activation token, the key derived from it, and the license issued from
/// both verify as `true` against the same fingerprint.
pub fn license_round_trip(client: &LiClient, fingerprint: &str) -> (r: Result<bool, LiError>)
    requires
        client.license_core.wf(),
        total_pad(pad_view(client.license_core.act_aes_padding)),
        total_pad(pad_view(client.license_core.lic_aes_padding)),
    ensures
        r == Ok::<bool, LiError>(true),
{
    let core = &client.license_core;
    let token = match client.gen_actoken(fingerprint) {
        Ok(t) => t,
        Err(_) => {
            proof {
                assert(false);
            }
            return Err(LiError::CryptoFailure);
        },
    };
    proof {
        let (sid, ts) = choose|sid: Seq<char>, ts: int|
            core.issued_activation(fingerprint@, token@, sid, ts);
        let pt = activation_plaintext(fingerprint@, sid, ts);
        let ct = aes_ecb_enc(pt, core.act_aes_key@, pad_view(core.act_aes_padding))->0;
        assert(core.act_interp_enc(token@, sid, ct, pt));
    }
    let derived = match core.gen_actokey(token.as_str()) {
        Ok(p) => p,
        Err(_) => {
            proof {
                assert(false);
            }
            return Err(LiError::CryptoFailure);
        },
    };
    proof {
        let (sid, ts) = choose|sid: Seq<char>, ts: int|
            core.issued_activation(fingerprint@, token@, sid, ts);
        let pt = activation_plaintext(fingerprint@, sid, ts);
        let ct = aes_ecb_enc(pt, core.act_aes_key@, pad_view(core.act_aes_padding))->0;
        assert(core.act_interp_enc(token@, sid, ct, pt));
        assert(derived.0@ == actokey_of(pt));
    }
    let license = match client.gen_license(token.as_str(), derived.0.as_str(), fingerprint) {
        Ok(l) => l,
        Err(_) => {
            proof {
                assert(false);
            }
            return Err(LiError::CryptoFailure);
        },
    };
    let ghost licv = license@;
    let result = client.verify_license(license, fingerprint);
    proof {
        let (sid, ts) = choose|sid: Seq<char>, ts: int|
            core.issued_activation(fingerprint@, token@, sid, ts);
        let ts2 = choose|ts2: int| core.issued_license(fingerprint@, sid, licv, ts2);
        let pt2 = license_plaintext(ts2, sid, fingerprint@);
        let ct2 = aes_ecb_enc(pt2, core.lic_aes_key@, pad_view(core.lic_aes_padding))->0;
        assert(core.lic_interp_enc(licv, sid, ct2, pt2));
        lemma_license_contains(ts2, sid, fingerprint@);
        assert(result == Ok::<bool, LiError>(true));
    }
    result
}

} // verus!
