//! The license core: two independent 16-byte AES keys with padding
//! selectors, and the four protocol operations — issue an activation token,
//! derive the activation key from one, issue a license against a matching
//! key, and verify a license against the current machine's fingerprint.
//!
//! The hardware fingerprint is an ambient effect of the host; every
//! operation that needs it takes it as an argument, so that callers own the
//! platform query and tests can substitute fixtures.

use vstd::prelude::*;

verus! {

use vstd::utf8::{
    decode_utf8, encode_utf8, encode_utf8_decode_utf8, encode_utf8_valid_utf8, valid_utf8,
    valid_utf8_concat,
};
use vstd::string::StrSliceExecFns;
use crate::ambient::{current_timestamp, fresh_session_id, uuid_text};
use crate::b64::{b64_char, b64_of, b64_decode, b64_encode, lemma_b64_char_plain};
use crate::checksum::{actokey_of, actokey_text};
use crate::cipher::{
    aes_decrypt, aes_ecb_dec, aes_ecb_enc, aes_encrypt, pad_view, pad_wf, total_pad,
};
use crate::envelope::{
    decode_envelope, encode_envelope, envelope_bytes, lemma_parse_of_envelope_bytes,
    lemma_version_plain, parse_env, version_chars, version_tag, Envelope,
};
use crate::errors::LiError;
use crate::text::{
    bytes_to_string, contains_seq, contains_bytes, dec_i64_bytes, lemma_ascii_decode,
    lemma_dec_i64_ascii, plain_chars, push_dec_i64,
};

broadcast use lemma_b64_char_plain;


/// The plaintext sealed into an activation token:
/// `fingerprint;session-id;timestamp;`.
pub open spec fn activation_plaintext(fp: Seq<char>, sid: Seq<char>, ts: int) -> Seq<u8> {
    encode_utf8(fp) + seq![59u8] + encode_utf8(sid) + seq![59u8] + dec_i64_bytes(ts) + seq![59u8]
}

/// The plaintext sealed into a license:
/// `timestamp;session-id;fingerprint;`.
pub open spec fn license_plaintext(ts: int, sid: Seq<char>, fp: Seq<char>) -> Seq<u8> {
    dec_i64_bytes(ts) + seq![59u8] + encode_utf8(sid) + seq![59u8] + encode_utf8(fp) + seq![59u8]
}

/// What verification looks for in a license plaintext:
/// `session-id;fingerprint;`.
pub open spec fn verify_needle(sid: Seq<char>, fp: Seq<char>) -> Seq<u8> {
    encode_utf8(sid) + seq![59u8] + encode_utf8(fp) + seq![59u8]
}

/// The opaque text of an issued envelope around ciphertext `ct`.
pub open spec fn token_text(sid: Seq<char>, ct: Seq<u8>) -> Seq<char> {
    b64_of(envelope_bytes(version_chars(), sid, b64_of(ct)))
}

/// Text that fails structural decoding: it is not canonical base64 at all,
/// or it is base64 of bytes that do not parse as an envelope, or it is an
/// envelope of this revision whose payload field is not canonical base64.
pub open spec fn malformed_token_text(text: Seq<char>) -> bool {
    ||| forall|b: Seq<u8>| text != #[trigger] b64_of(b)
    ||| exists|j: Seq<u8>| text == #[trigger] b64_of(j) && parse_env(j) is None
    ||| exists|j: Seq<u8>|
        text == #[trigger] b64_of(j) && parse_env(j) is Some && decode_utf8((parse_env(j)->0).0)
            == version_chars() && (forall|ct: Seq<u8>|
            decode_utf8((parse_env(j)->0).2) != #[trigger] b64_of(ct))
}

/// Text that is base64 of a structurally valid envelope carrying another
/// revision's version tag.
pub open spec fn mismatched_token_text(text: Seq<char>) -> bool {
    exists|j: Seq<u8>|
        text == #[trigger] b64_of(j) && parse_env(j) is Some && decode_utf8((parse_env(j)->0).0)
            != version_chars()
}

/// Where one decoding run has pinned the bytes behind a text — every byte
/// string whose encoding is the text equals `j` — an interpretation of the
/// same text as an issued envelope reads back as exactly those fields.
proof fn lemma_interp_parses(text: Seq<char>, j: Seq<u8>, sid: Seq<char>, ct: Seq<u8>)
    requires
        forall|b: Seq<u8>| text == #[trigger] b64_of(b) ==> b == j,
        plain_chars(sid),
        plain_chars(b64_of(ct)),
        text == token_text(sid, ct),
    ensures
        parse_env(j) == Some(
            (encode_utf8(version_chars()), encode_utf8(sid), encode_utf8(b64_of(ct))),
        ),
        decode_utf8((parse_env(j)->0).0) == version_chars(),
        decode_utf8((parse_env(j)->0).1) == sid,
        decode_utf8((parse_env(j)->0).2) == b64_of(ct),
{
    lemma_version_plain();
    assert(envelope_bytes(version_chars(), sid, b64_of(ct)) == j);
    lemma_parse_of_envelope_bytes(version_chars(), sid, b64_of(ct));
    encode_utf8_decode_utf8(version_chars());
    encode_utf8_decode_utf8(sid);
    encode_utf8_decode_utf8(b64_of(ct));
}

/// Where a decoding run has found an envelope of this revision whose
/// payload is base64 of `ct0`, the text is neither malformed nor of another
/// revision.
proof fn lemma_structure_fine(text: Seq<char>, j: Seq<u8>, ct0: Seq<u8>)
    requires
        forall|b: Seq<u8>| text == #[trigger] b64_of(b) ==> b == j,
        text == b64_of(j),
        parse_env(j) is Some,
        decode_utf8((parse_env(j)->0).0) == version_chars(),
        decode_utf8((parse_env(j)->0).2) == b64_of(ct0),
    ensures
        !malformed_token_text(text),
        !mismatched_token_text(text),
{
    if mismatched_token_text(text) {
        let j2 = choose|j2: Seq<u8>|
            text == b64_of(j2) && parse_env(j2) is Some && decode_utf8((parse_env(j2)->0).0)
                != version_chars();
        assert(j2 == j);
        assert(false);
    }
    if malformed_token_text(text) {
        if exists|j2: Seq<u8>| text == #[trigger] b64_of(j2) && parse_env(j2) is None {
            let j2 = choose|j2: Seq<u8>| text == b64_of(j2) && parse_env(j2) is None;
            assert(j2 == j);
            assert(false);
        } else if exists|j2: Seq<u8>|
            text == #[trigger] b64_of(j2) && parse_env(j2) is Some && decode_utf8(
                (parse_env(j2)->0).0,
            ) == version_chars() && (forall|ct: Seq<u8>|
                decode_utf8((parse_env(j2)->0).2) != #[trigger] b64_of(ct)) {
            let j2 = choose|j2: Seq<u8>|
                text == b64_of(j2) && parse_env(j2) is Some && decode_utf8((parse_env(j2)->0).0)
                    == version_chars() && (forall|ct: Seq<u8>|
                    decode_utf8((parse_env(j2)->0).2) != #[trigger] b64_of(ct));
            assert(j2 == j);
            assert(decode_utf8((parse_env(j)->0).2) != b64_of(ct0));
            assert(false);
        } else {
            assert(text != b64_of(j));
            assert(false);
        }
    }
}

/// Both plaintext forms are valid UTF-8.
pub proof fn lemma_plaintext_valid(fp: Seq<char>, sid: Seq<char>, ts: int)
    ensures
        valid_utf8(activation_plaintext(fp, sid, ts)),
        valid_utf8(license_plaintext(ts, sid, fp)),
{
    let fb = encode_utf8(fp);
    let sb = encode_utf8(sid);
    let db = dec_i64_bytes(ts);
    let semi = seq![59u8];
    encode_utf8_valid_utf8(fp);
    encode_utf8_valid_utf8(sid);
    lemma_dec_i64_ascii(ts);
    lemma_ascii_decode(db);
    lemma_ascii_decode(semi);
    valid_utf8_concat(fb, semi);
    valid_utf8_concat(fb + semi, sb);
    valid_utf8_concat(fb + semi + sb, semi);
    valid_utf8_concat(fb + semi + sb + semi, db);
    valid_utf8_concat(fb + semi + sb + semi + db, semi);
    valid_utf8_concat(db, semi);
    valid_utf8_concat(db + semi, sb);
    valid_utf8_concat(db + semi + sb, semi);
    valid_utf8_concat(db + semi + sb + semi, fb);
    valid_utf8_concat(db + semi + sb + semi + fb, semi);
}

/// A license plaintext contains the needle of its own session id and
/// fingerprint, right after the timestamp.
pub proof fn lemma_license_contains(ts: int, sid: Seq<char>, fp: Seq<char>)
    ensures
        contains_seq(license_plaintext(ts, sid, fp), verify_needle(sid, fp)),
{
    let pt = license_plaintext(ts, sid, fp);
    let nd = verify_needle(sid, fp);
    let k = dec_i64_bytes(ts).len() as int + 1;
    assert(pt.subrange(k, k + nd.len())
        =~= nd);
}

/// The license core: the two symmetric keys and their padding selectors,
/// immutable for the component's lifetime.
#[derive(Clone, Debug, Default)]
pub struct LiCoreV1 {
    pub act_aes_key: [u8; 16],
    pub act_aes_padding: Option<&'static str>,
    pub lic_aes_key: [u8; 16],
    pub lic_aes_padding: Option<&'static str>,
}

impl LiCoreV1 {
    /// Both padding selectors are ones the cipher understands.
    pub open spec fn wf(&self) -> bool {
        &&& pad_wf(self.act_aes_padding)
        &&& pad_wf(self.lic_aes_padding)
    }

    /// `text` is an envelope of this revision around session id `sid` and
    /// ciphertext `ct`, and `ct` decrypts under the activation key to
    /// plaintext `pt`.
    pub open spec fn act_interp(&self, text: Seq<char>, sid: Seq<char>, ct: Seq<u8>, pt: Seq<u8>) -> bool {
        &&& plain_chars(sid)
        &&& plain_chars(b64_of(ct))
        &&& text == token_text(sid, ct)
        &&& aes_ecb_dec(ct, self.act_aes_key@, pad_view(self.act_aes_padding)) == Some(pt)
        &&& valid_utf8(pt)
    }

    /// As `act_interp`, but with the ciphertext given as an encryption of
    /// `pt`, the form an issuer knows.
    pub open spec fn act_interp_enc(&self, text: Seq<char>, sid: Seq<char>, ct: Seq<u8>, pt: Seq<u8>) -> bool {
        &&& plain_chars(sid)
        &&& plain_chars(b64_of(ct))
        &&& text == token_text(sid, ct)
        &&& aes_ecb_enc(pt, self.act_aes_key@, pad_view(self.act_aes_padding)) == Some(ct)
        &&& valid_utf8(pt)
    }

    /// As `act_interp`, under the license key.
    pub open spec fn lic_interp(&self, text: Seq<char>, sid: Seq<char>, ct: Seq<u8>, pt: Seq<u8>) -> bool {
        &&& plain_chars(sid)
        &&& plain_chars(b64_of(ct))
        &&& text == token_text(sid, ct)
        &&& aes_ecb_dec(ct, self.lic_aes_key@, pad_view(self.lic_aes_padding)) == Some(pt)
        &&& valid_utf8(pt)
    }

    /// As `act_interp_enc`, under the license key.
    pub open spec fn lic_interp_enc(&self, text: Seq<char>, sid: Seq<char>, ct: Seq<u8>, pt: Seq<u8>) -> bool {
        &&& plain_chars(sid)
        &&& plain_chars(b64_of(ct))
        &&& text == token_text(sid, ct)
        &&& aes_ecb_enc(pt, self.lic_aes_key@, pad_view(self.lic_aes_padding)) == Some(ct)
        &&& valid_utf8(pt)
    }

    /// `t` is an activation token this core issued for fingerprint `fp`
    /// with session id `sid` at time `ts`.
    pub open spec fn issued_activation(&self, fp: Seq<char>, t: Seq<char>, sid: Seq<char>, ts: int) -> bool {
        let pt = activation_plaintext(fp, sid, ts);
        let enc = aes_ecb_enc(pt, self.act_aes_key@, pad_view(self.act_aes_padding));
        &&& plain_chars(sid)
        &&& enc is Some
        &&& self.act_interp_enc(t, sid, enc->0, pt)
        &&& t.len() > 0
    }

    /// `t` is a license this core issued for fingerprint `fp` and session
    /// id `sid` at time `ts`.
    pub open spec fn issued_license(&self, fp: Seq<char>, sid: Seq<char>, t: Seq<char>, ts: int) -> bool {
        let pt = license_plaintext(ts, sid, fp);
        let enc = aes_ecb_enc(pt, self.lic_aes_key@, pad_view(self.lic_aes_padding));
        &&& enc is Some
        &&& self.lic_interp_enc(t, sid, enc->0, pt)
        &&& t.len() > 0
    }

    /// A fresh opaque session identifier, in hyphenated UUID text form.
    pub fn gen_smblos_uuid(&self) -> (r: String)
        ensures
            plain_chars(r@),
            uuid_text(r@),
    {
        fresh_session_id()
    }

    /// Issues an activation token for the given hardware fingerprint: a
    /// fresh session id and the current time are sealed with the fingerprint
    /// under the activation key, and wrapped into an encoded envelope.
    pub fn gen_actoken(&self, fingerprint: &str) -> (r: Result<String, LiError>)
        requires
            self.wf(),
        ensures
            r is Ok ==> exists|sid: Seq<char>, ts: int|
                #[trigger] self.issued_activation(fingerprint@, r->Ok_0@, sid, ts),
            r is Ok ==> forall|i: int|
                0 <= i < r->Ok_0@.len() ==> b64_char(#[trigger] r->Ok_0@[i]),
            r is Err ==> r->Err_0 == LiError::CryptoFailure,
            total_pad(pad_view(self.act_aes_padding)) ==> r is Ok,
    {
        let sid = fresh_session_id();
        let ghost sidv = sid@;
        let ts = current_timestamp();
        let pt = build_activation_plaintext(fingerprint, sid.as_str(), ts);
        let ct = match aes_encrypt(pt.as_slice(), &self.act_aes_key, self.act_aes_padding) {
            Some(ct) => ct,
            None => {
                return Err(LiError::CryptoFailure);
            },
        };
        let tok = b64_encode(ct.as_slice());
        proof {
            lemma_version_plain();
            broadcast use lemma_b64_char_plain;
        }
        let env = Envelope { version: version_tag(), session_id: sid, payload: tok, sys_info: Vec::new() };
        let json = encode_envelope(&env);
        let out = b64_encode(json.as_slice());
        let r: Result<String, LiError> = Ok(out);
        proof {
            lemma_plaintext_valid(fingerprint@, sidv, ts as int);
            assert(r->Ok_0@ == out@);
            assert(self.issued_activation(fingerprint@, r->Ok_0@, sidv, ts as int));
            assert(exists|sid: Seq<char>, ts2: int|
                self.issued_activation(fingerprint@, r->Ok_0@, sid, ts2));
        }
        r
    }

    /// Recomputes the activation key of a token: decodes the envelope,
    /// decrypts its payload under the activation key, and returns the
    /// checksum of the recovered plaintext together with the envelope's
    /// session id. The key is recomputed, never read out of the token, so a
    /// tampered token cannot carry its own matching key.
    pub fn gen_actokey(&self, raw_token: &str) -> (r: Result<(String, String), LiError>)
        requires
            self.wf(),
        ensures
            forall|sid: Seq<char>, ct: Seq<u8>, pt: Seq<u8>|
                #[trigger] self.act_interp(raw_token@, sid, ct, pt) ==> r is Ok
                    && r->Ok_0.0@ == actokey_of(pt) && r->Ok_0.1@ == sid,
            forall|sid: Seq<char>, ct: Seq<u8>, pt: Seq<u8>|
                #[trigger] self.act_interp_enc(raw_token@, sid, ct, pt) ==> r is Ok
                    && r->Ok_0.0@ == actokey_of(pt) && r->Ok_0.1@ == sid,
            r is Ok ==> exists|sid: Seq<char>, ct: Seq<u8>, pt: Seq<u8>|
                #[trigger] self.act_interp(raw_token@, sid, ct, pt) && r->Ok_0.0@ == actokey_of(pt)
                    && r->Ok_0.1@ == sid,
            r is Err ==> r->Err_0 == LiError::MalformedEnvelope || r->Err_0
                == LiError::CryptoFailure || r->Err_0 == LiError::VersionMismatch,
            r == Err::<(String, String), LiError>(LiError::MalformedEnvelope)
                <==> malformed_token_text(raw_token@),
            r == Err::<(String, String), LiError>(LiError::VersionMismatch)
                <==> mismatched_token_text(raw_token@),
            r is Err && r->Err_0 == LiError::CryptoFailure ==> exists|sid: Seq<char>, ct: Seq<u8>|
                plain_chars(sid) && plain_chars(b64_of(ct)) && raw_token@ == #[trigger] token_text(
                    sid,
                    ct,
                ) && ({
                    let d = aes_ecb_dec(ct, self.act_aes_key@, pad_view(self.act_aes_padding));
                    d is Some ==> !valid_utf8(d->0)
                }),
            forall|sid: Seq<char>, ct: Seq<u8>|
                (plain_chars(sid) && plain_chars(b64_of(ct)) && raw_token@ == #[trigger] token_text(
                    sid,
                    ct,
                ) && ({
                    let d = aes_ecb_dec(ct, self.act_aes_key@, pad_view(self.act_aes_padding));
                    d is Some ==> !valid_utf8(d->0)
                })) ==> r == Err::<(String, String), LiError>(LiError::CryptoFailure),
    {
        proof {
            lemma_version_plain();
        }
        let json = match b64_decode(raw_token) {
            Some(j) => j,
            None => {
                proof {
                    assert forall|b: Seq<u8>| raw_token@ != #[trigger] b64_of(b) by {
                        if raw_token@ == b64_of(b) {
                            assert(false);
                        }
                    }
                    assert(malformed_token_text(raw_token@));
                    assert(!mismatched_token_text(raw_token@)) by {
                        if mismatched_token_text(raw_token@) {
                            let j2 = choose|j2: Seq<u8>|
                                raw_token@ == b64_of(j2) && parse_env(j2) is Some && decode_utf8(
                                    (parse_env(j2)->0).0,
                                ) != version_chars();
                            assert(raw_token@ != b64_of(j2));
                            assert(false);
                        }
                    }
                }
                return Err(LiError::MalformedEnvelope);
            },
        };
        proof {
            assert forall|b: Seq<u8>| raw_token@ == #[trigger] b64_of(b) implies b == json@ by {}
        }
        let env = match decode_envelope(json.as_slice()) {
            Ok(env) => env,
            Err(e) => {
                proof {
                    if e == LiError::MalformedEnvelope {
                        assert(malformed_token_text(raw_token@)) by {
                            assert(raw_token@ == b64_of(json@) && parse_env(json@) is None);
                        }
                        assert(!mismatched_token_text(raw_token@)) by {
                            if mismatched_token_text(raw_token@) {
                                let j2 = choose|j2: Seq<u8>|
                                    raw_token@ == b64_of(j2) && parse_env(j2) is Some
                                        && decode_utf8((parse_env(j2)->0).0) != version_chars();
                                assert(j2 == json@);
                                assert(false);
                            }
                        }
                    } else {
                        assert(mismatched_token_text(raw_token@)) by {
                            assert(raw_token@ == b64_of(json@) && parse_env(json@) is Some
                                && decode_utf8((parse_env(json@)->0).0) != version_chars());
                        }
                        assert(!malformed_token_text(raw_token@)) by {
                            if malformed_token_text(raw_token@) {
                                if exists|j2: Seq<u8>|
                                    raw_token@ == #[trigger] b64_of(j2) && parse_env(j2) is None {
                                    let j2 = choose|j2: Seq<u8>|
                                        raw_token@ == b64_of(j2) && parse_env(j2) is None;
                                    assert(j2 == json@);
                                    assert(false);
                                } else if exists|j2: Seq<u8>|
                                    raw_token@ == #[trigger] b64_of(j2) && parse_env(j2) is Some
                                        && decode_utf8((parse_env(j2)->0).0) == version_chars() && (
                                    forall|ct: Seq<u8>|
                                        decode_utf8((parse_env(j2)->0).2) != #[trigger] b64_of(
                                            ct,
                                        )) {
                                    let j2 = choose|j2: Seq<u8>|
                                        raw_token@ == b64_of(j2) && parse_env(j2) is Some
                                            && decode_utf8((parse_env(j2)->0).0) == version_chars()
                                            && (forall|ct: Seq<u8>|
                                            decode_utf8((parse_env(j2)->0).2) != #[trigger] b64_of(
                                                ct,
                                            ));
                                    assert(j2 == json@);
                                    assert(false);
                                } else {
                                    assert(raw_token@ != b64_of(json@));
                                    assert(false);
                                }
                            }
                        }
                    }
                    assert forall|sid: Seq<char>, ct: Seq<u8>|
                        !(plain_chars(sid) && plain_chars(b64_of(ct)) && raw_token@
                            == #[trigger] token_text(sid, ct)) by {
                        if plain_chars(sid) && plain_chars(b64_of(ct)) && raw_token@ == token_text(
                            sid,
                            ct,
                        ) {
                            lemma_interp_parses(raw_token@, json@, sid, ct);
                            assert(false);
                        }
                    }
                }
                return Err(e);
            },
        };
        let ct = match b64_decode(env.payload.as_str()) {
            Some(ct) => ct,
            None => {
                proof {
                    assert forall|b: Seq<u8>| env.payload@ != #[trigger] b64_of(b) by {
                        if env.payload@ == b64_of(b) {
                            assert(false);
                        }
                    }
                    lemma_parse_of_envelope_bytes(env.version@, env.session_id@, env.payload@);
                    encode_utf8_decode_utf8(env.version@);
                    encode_utf8_decode_utf8(env.payload@);
                    assert(malformed_token_text(raw_token@)) by {
                        assert(raw_token@ == b64_of(json@) && parse_env(json@) is Some
                            && decode_utf8((parse_env(json@)->0).0) == version_chars() && (forall|
                            ct2: Seq<u8>,
                        |
                            decode_utf8((parse_env(json@)->0).2) != #[trigger] b64_of(ct2)));
                    }
                    assert(!mismatched_token_text(raw_token@)) by {
                        if mismatched_token_text(raw_token@) {
                            let j2 = choose|j2: Seq<u8>|
                                raw_token@ == b64_of(j2) && parse_env(j2) is Some && decode_utf8(
                                    (parse_env(j2)->0).0,
                                ) != version_chars();
                            assert(j2 == json@);
                            assert(false);
                        }
                    }
                    assert forall|sid: Seq<char>, ct2: Seq<u8>|
                        !(plain_chars(sid) && plain_chars(b64_of(ct2)) && raw_token@
                            == #[trigger] token_text(sid, ct2)) by {
                        if plain_chars(sid) && plain_chars(b64_of(ct2)) && raw_token@ == token_text(
                            sid,
                            ct2,
                        ) {
                            lemma_interp_parses(raw_token@, json@, sid, ct2);
                            assert(false);
                        }
                    }
                }
                return Err(LiError::MalformedEnvelope);
            },
        };
        proof {
            assert(raw_token@ == token_text(env.session_id@, ct@));
            lemma_parse_of_envelope_bytes(env.version@, env.session_id@, env.payload@);
            encode_utf8_decode_utf8(env.version@);
            encode_utf8_decode_utf8(env.payload@);
            lemma_structure_fine(raw_token@, json@, ct@);
        }
        let pt = match aes_decrypt(ct.as_slice(), &self.act_aes_key, self.act_aes_padding) {
            Some(pt) => pt,
            None => {
                return Err(LiError::CryptoFailure);
            },
        };
        match bytes_to_string(pt.as_slice()) {
            Some(_) => {},
            None => {
                return Err(LiError::CryptoFailure);
            },
        }
        let key = actokey_text(pt.as_slice());
        proof {
            assert(self.act_interp(raw_token@, env.session_id@, ct@, pt@));
            assert forall|sid: Seq<char>, ct2: Seq<u8>|
                (plain_chars(sid) && plain_chars(b64_of(ct2)) && raw_token@ == #[trigger] token_text(
                    sid,
                    ct2,
                )) implies ({
                let d = aes_ecb_dec(ct2, self.act_aes_key@, pad_view(self.act_aes_padding));
                d is Some && valid_utf8(d->0)
            }) by {
                lemma_interp_parses(raw_token@, json@, sid, ct2);
                assert(b64_of(ct2) == env.payload@);
                assert(ct2 == ct@);
                assert(aes_ecb_dec(ct2, self.act_aes_key@, pad_view(self.act_aes_padding))
                    == Some(pt@));
            }
        }
        Ok((key, env.session_id))
    }

    /// Issues a license bound to the given session id and fingerprint: the
    /// current time, the session id and the fingerprint are sealed under the
    /// license key and wrapped into an encoded envelope carrying the same
    /// session id.
    pub fn generate_lic(&self, uuid: String, fingerprint: &str) -> (r: Result<String, LiError>)
        requires
            self.wf(),
            plain_chars(uuid@),
        ensures
            r is Ok ==> exists|ts: int|
                #[trigger] self.issued_license(fingerprint@, uuid@, r->Ok_0@, ts),
            r is Ok ==> forall|i: int|
                0 <= i < r->Ok_0@.len() ==> b64_char(#[trigger] r->Ok_0@[i]),
            r is Err ==> r->Err_0 == LiError::CryptoFailure,
            total_pad(pad_view(self.lic_aes_padding)) ==> r is Ok,
    {
        let ghost sidv = uuid@;
        let ts = current_timestamp();
        let pt = build_license_plaintext(ts, uuid.as_str(), fingerprint);
        let ct = match aes_encrypt(pt.as_slice(), &self.lic_aes_key, self.lic_aes_padding) {
            Some(ct) => ct,
            None => {
                return Err(LiError::CryptoFailure);
            },
        };
        let tok = b64_encode(ct.as_slice());
        proof {
            lemma_version_plain();
            broadcast use lemma_b64_char_plain;
        }
        let env = Envelope { version: version_tag(), session_id: uuid, payload: tok, sys_info: Vec::new() };
        let json = encode_envelope(&env);
        let out = b64_encode(json.as_slice());
        let r: Result<String, LiError> = Ok(out);
        proof {
            lemma_plaintext_valid(fingerprint@, sidv, ts as int);
            assert(self.issued_license(fingerprint@, sidv, r->Ok_0@, ts as int));
            assert(exists|ts2: int| self.issued_license(fingerprint@, sidv, r->Ok_0@, ts2));
        }
        r
    }

    /// Verifies a license against the given fingerprint. The empty text is
    /// no license and gives `false` without an error; otherwise the envelope
    /// is decoded, its payload decrypted under the license key, and the
    /// result is whether the plaintext contains `session-id;fingerprint;`
    /// contiguously.
    pub fn verify_lic(&self, lic_str: String, fingerprint: &str) -> (r: Result<bool, LiError>)
        requires
            self.wf(),
        ensures
            lic_str@.len() == 0 ==> r == Ok::<bool, LiError>(false),
            forall|sid: Seq<char>, ct: Seq<u8>, pt: Seq<u8>|
                lic_str@.len() > 0 && #[trigger] self.lic_interp(lic_str@, sid, ct, pt) ==> r
                    == Ok::<bool, LiError>(contains_seq(pt, verify_needle(sid, fingerprint@))),
            forall|sid: Seq<char>, ct: Seq<u8>, pt: Seq<u8>|
                lic_str@.len() > 0 && #[trigger] self.lic_interp_enc(lic_str@, sid, ct, pt) ==> r
                    == Ok::<bool, LiError>(contains_seq(pt, verify_needle(sid, fingerprint@))),
            r == Ok::<bool, LiError>(true) ==> lic_str@.len() > 0 && exists|sid: Seq<char>, ct: Seq<u8>, pt: Seq<u8>|
                #[trigger] self.lic_interp(lic_str@, sid, ct, pt) && contains_seq(
                    pt,
                    verify_needle(sid, fingerprint@),
                ),
            r == Ok::<bool, LiError>(false) ==> lic_str@.len() == 0 || exists|sid: Seq<char>, ct: Seq<u8>, pt: Seq<u8>|
                #[trigger] self.lic_interp(lic_str@, sid, ct, pt) && !contains_seq(
                    pt,
                    verify_needle(sid, fingerprint@),
                ),
            r is Err ==> lic_str@.len() > 0 && (r->Err_0 == LiError::MalformedEnvelope || r->Err_0
                == LiError::CryptoFailure || r->Err_0 == LiError::VersionMismatch),
            r == Err::<bool, LiError>(LiError::MalformedEnvelope) <==> (lic_str@.len() > 0
                && malformed_token_text(lic_str@)),
            r == Err::<bool, LiError>(LiError::VersionMismatch) <==> (lic_str@.len() > 0
                && mismatched_token_text(lic_str@)),
            r is Err && r->Err_0 == LiError::CryptoFailure ==> exists|sid: Seq<char>, ct: Seq<u8>|
                plain_chars(sid) && plain_chars(b64_of(ct)) && lic_str@ == #[trigger] token_text(
                    sid,
                    ct,
                ) && ({
                    let d = aes_ecb_dec(ct, self.lic_aes_key@, pad_view(self.lic_aes_padding));
                    d is Some ==> !valid_utf8(d->0)
                }),
            forall|sid: Seq<char>, ct: Seq<u8>|
                (lic_str@.len() > 0 && plain_chars(sid) && plain_chars(b64_of(ct)) && lic_str@
                    == #[trigger] token_text(sid, ct) && ({
                    let d = aes_ecb_dec(ct, self.lic_aes_key@, pad_view(self.lic_aes_padding));
                    d is Some ==> !valid_utf8(d->0)
                })) ==> r == Err::<bool, LiError>(LiError::CryptoFailure),
    {
        proof {
            lemma_version_plain();
        }
        if lic_str.as_str().is_empty() {
            return Ok(false);
        }
        let json = match b64_decode(lic_str.as_str()) {
            Some(j) => j,
            None => {
                proof {
                    assert forall|b: Seq<u8>| lic_str@ != #[trigger] b64_of(b) by {
                        if lic_str@ == b64_of(b) {
                            assert(false);
                        }
                    }
                    assert(malformed_token_text(lic_str@));
                    assert(!mismatched_token_text(lic_str@)) by {
                        if mismatched_token_text(lic_str@) {
                            let j2 = choose|j2: Seq<u8>|
                                lic_str@ == b64_of(j2) && parse_env(j2) is Some && decode_utf8(
                                    (parse_env(j2)->0).0,
                                ) != version_chars();
                            assert(lic_str@ != b64_of(j2));
                            assert(false);
                        }
                    }
                }
                return Err(LiError::MalformedEnvelope);
            },
        };
        proof {
            assert forall|b: Seq<u8>| lic_str@ == #[trigger] b64_of(b) implies b == json@ by {}
        }
        let env = match decode_envelope(json.as_slice()) {
            Ok(env) => env,
            Err(e) => {
                proof {
                    if e == LiError::MalformedEnvelope {
                        assert(malformed_token_text(lic_str@)) by {
                            assert(lic_str@ == b64_of(json@) && parse_env(json@) is None);
                        }
                        assert(!mismatched_token_text(lic_str@)) by {
                            if mismatched_token_text(lic_str@) {
                                let j2 = choose|j2: Seq<u8>|
                                    lic_str@ == b64_of(j2) && parse_env(j2) is Some && decode_utf8(
                                        (parse_env(j2)->0).0,
                                    ) != version_chars();
                                assert(j2 == json@);
                                assert(false);
                            }
                        }
                    } else {
                        assert(mismatched_token_text(lic_str@)) by {
                            assert(lic_str@ == b64_of(json@) && parse_env(json@) is Some
                                && decode_utf8((parse_env(json@)->0).0) != version_chars());
                        }
                        assert(!malformed_token_text(lic_str@)) by {
                            if malformed_token_text(lic_str@) {
                                if exists|j2: Seq<u8>|
                                    lic_str@ == #[trigger] b64_of(j2) && parse_env(j2) is None {
                                    let j2 = choose|j2: Seq<u8>|
                                        lic_str@ == b64_of(j2) && parse_env(j2) is None;
                                    assert(j2 == json@);
                                    assert(false);
                                } else if exists|j2: Seq<u8>|
                                    lic_str@ == #[trigger] b64_of(j2) && parse_env(j2) is Some
                                        && decode_utf8((parse_env(j2)->0).0) == version_chars() && (
                                    forall|ct: Seq<u8>|
                                        decode_utf8((parse_env(j2)->0).2) != #[trigger] b64_of(
                                            ct,
                                        )) {
                                    let j2 = choose|j2: Seq<u8>|
                                        lic_str@ == b64_of(j2) && parse_env(j2) is Some
                                            && decode_utf8((parse_env(j2)->0).0) == version_chars()
                                            && (forall|ct: Seq<u8>|
                                            decode_utf8((parse_env(j2)->0).2) != #[trigger] b64_of(
                                                ct,
                                            ));
                                    assert(j2 == json@);
                                    assert(false);
                                } else {
                                    assert(lic_str@ != b64_of(json@));
                                    assert(false);
                                }
                            }
                        }
                    }
                    assert forall|sid: Seq<char>, ct: Seq<u8>|
                        !(plain_chars(sid) && plain_chars(b64_of(ct)) && lic_str@
                            == #[trigger] token_text(sid, ct)) by {
                        if plain_chars(sid) && plain_chars(b64_of(ct)) && lic_str@ == token_text(
                            sid,
                            ct,
                        ) {
                            lemma_interp_parses(lic_str@, json@, sid, ct);
                            assert(false);
                        }
                    }
                }
                return Err(e);
            },
        };
        let ct = match b64_decode(env.payload.as_str()) {
            Some(ct) => ct,
            None => {
                proof {
                    assert forall|b: Seq<u8>| env.payload@ != #[trigger] b64_of(b) by {
                        if env.payload@ == b64_of(b) {
                            assert(false);
                        }
                    }
                    lemma_parse_of_envelope_bytes(env.version@, env.session_id@, env.payload@);
                    encode_utf8_decode_utf8(env.version@);
                    encode_utf8_decode_utf8(env.payload@);
                    assert(malformed_token_text(lic_str@)) by {
                        assert(lic_str@ == b64_of(json@) && parse_env(json@) is Some
                            && decode_utf8((parse_env(json@)->0).0) == version_chars() && (forall|
                            ct2: Seq<u8>,
                        |
                            decode_utf8((parse_env(json@)->0).2) != #[trigger] b64_of(ct2)));
                    }
                    assert(!mismatched_token_text(lic_str@)) by {
                        if mismatched_token_text(lic_str@) {
                            let j2 = choose|j2: Seq<u8>|
                                lic_str@ == b64_of(j2) && parse_env(j2) is Some && decode_utf8(
                                    (parse_env(j2)->0).0,
                                ) != version_chars();
                            assert(j2 == json@);
                            assert(false);
                        }
                    }
                    assert forall|sid: Seq<char>, ct2: Seq<u8>|
                        !(plain_chars(sid) && plain_chars(b64_of(ct2)) && lic_str@
                            == #[trigger] token_text(sid, ct2)) by {
                        if plain_chars(sid) && plain_chars(b64_of(ct2)) && lic_str@ == token_text(
                            sid,
                            ct2,
                        ) {
                            lemma_interp_parses(lic_str@, json@, sid, ct2);
                            assert(false);
                        }
                    }
                }
                return Err(LiError::MalformedEnvelope);
            },
        };
        proof {
            assert(lic_str@ == token_text(env.session_id@, ct@));
            lemma_parse_of_envelope_bytes(env.version@, env.session_id@, env.payload@);
            encode_utf8_decode_utf8(env.version@);
            encode_utf8_decode_utf8(env.payload@);
            lemma_structure_fine(lic_str@, json@, ct@);
        }
        let pt = match aes_decrypt(ct.as_slice(), &self.lic_aes_key, self.lic_aes_padding) {
            Some(pt) => pt,
            None => {
                return Err(LiError::CryptoFailure);
            },
        };
        match bytes_to_string(pt.as_slice()) {
            Some(_) => {},
            None => {
                return Err(LiError::CryptoFailure);
            },
        }
        let needle = build_needle(env.session_id.as_str(), fingerprint);
        let hit = contains_bytes(pt.as_slice(), needle.as_slice());
        proof {
            assert(self.lic_interp(lic_str@, env.session_id@, ct@, pt@));
            assert forall|sid: Seq<char>, ct2: Seq<u8>|
                (plain_chars(sid) && plain_chars(b64_of(ct2)) && lic_str@ == #[trigger] token_text(
                    sid,
                    ct2,
                )) implies ({
                let d = aes_ecb_dec(ct2, self.lic_aes_key@, pad_view(self.lic_aes_padding));
                d is Some && valid_utf8(d->0)
            }) by {
                lemma_interp_parses(lic_str@, json@, sid, ct2);
                assert(b64_of(ct2) == env.payload@);
                assert(ct2 == ct@);
                assert(aes_ecb_dec(ct2, self.lic_aes_key@, pad_view(self.lic_aes_padding))
                    == Some(pt@));
            }
        }
        Ok(hit)
    }
}

/// Law: deriving the activation key from one token twice yields the same
/// key and session id both times; whether derivation succeeds at all is
/// likewise a function of the token alone.
pub fn derivation_is_deterministic(core: &LiCoreV1, raw_token: &str) -> (r: (
    Result<(String, String), LiError>,
    Result<(String, String), LiError>,
))
    requires
        core.wf(),
    ensures
        r.0 is Ok <==> r.1 is Ok,
        r.0 is Ok ==> r.0->Ok_0.0@ == r.1->Ok_0.0@ && r.0->Ok_0.1@ == r.1->Ok_0.1@,
{
    let a = core.gen_actokey(raw_token);
    let b = core.gen_actokey(raw_token);
    proof {
        if a is Ok {
            let (sid, ct, pt) = choose|sid: Seq<char>, ct: Seq<u8>, pt: Seq<u8>|
                core.act_interp(raw_token@, sid, ct, pt) && a->Ok_0.0@ == actokey_of(pt)
                    && a->Ok_0.1@ == sid;
            assert(core.act_interp(raw_token@, sid, ct, pt));
        }
        if b is Ok {
            let (sid, ct, pt) = choose|sid: Seq<char>, ct: Seq<u8>, pt: Seq<u8>|
                core.act_interp(raw_token@, sid, ct, pt) && b->Ok_0.0@ == actokey_of(pt)
                    && b->Ok_0.1@ == sid;
            assert(core.act_interp(raw_token@, sid, ct, pt));
        }
    }
    (a, b)
}

/// Builds `fingerprint;session-id;timestamp;` as bytes.
fn build_activation_plaintext(fp: &str, sid: &str, ts: i64) -> (r: Vec<u8>)
    ensures
        r@ == activation_plaintext(fp@, sid@, ts as int),
{
    let mut out = fp.as_bytes_vec();
    out.push(59);
    let mut sb = sid.as_bytes_vec();
    out.append(&mut sb);
    out.push(59);
    push_dec_i64(&mut out, ts);
    out.push(59);
    proof {
        assert(out@ =~= activation_plaintext(fp@, sid@, ts as int));
    }
    out
}

/// Builds `timestamp;session-id;fingerprint;` as bytes.
fn build_license_plaintext(ts: i64, sid: &str, fp: &str) -> (r: Vec<u8>)
    ensures
        r@ == license_plaintext(ts as int, sid@, fp@),
{
    let mut out: Vec<u8> = Vec::new();
    push_dec_i64(&mut out, ts);
    out.push(59);
    let mut sb = sid.as_bytes_vec();
    out.append(&mut sb);
    out.push(59);
    let mut fb = fp.as_bytes_vec();
    out.append(&mut fb);
    out.push(59);
    proof {
        assert(out@ =~= license_plaintext(ts as int, sid@, fp@));
    }
    out
}

/// Builds `session-id;fingerprint;` as bytes.
fn build_needle(sid: &str, fp: &str) -> (r: Vec<u8>)
    ensures
        r@ == verify_needle(sid@, fp@),
{
    let mut out = sid.as_bytes_vec();
    out.push(59);
    let mut fb = fp.as_bytes_vec();
    out.append(&mut fb);
    out.push(59);
    proof {
        assert(out@ =~= verify_needle(sid@, fp@));
    }
    out
}

} // verus!
