//! The envelope: the versioned wrapper shared by activation tokens and
//! licenses. On the wire it is a JSON object
//! `{"ver":VER,"uuid":SID,"token":TOKEN,"sys_info":[]}` whose three string
//! values hold plain printable characters and need no escaping; the reserved
//! `sys_info` sequence is empty in this protocol revision. The codec is
//! strict: it accepts exactly the texts it produces.

use vstd::prelude::*;

verus! {

use vstd::utf8::encode_utf8;
use vstd::string::{StrSliceExecFns, StringExecFns};
use crate::errors::LiError;
use crate::text::{
    plain_chars, plain_byte, plain_bytes, lemma_plain_encode,
    lemma_ascii_decode, match_at, str_eq, utf8_to_string,
};

/// The version tag of this core and format revision.
pub open spec fn version_chars() -> Seq<char> {
    "LiCoreV1.0.0"@
}

pub proof fn lemma_version_plain()
    ensures
        plain_chars(version_chars()),
        version_chars().len() == 12,
{
    reveal_strlit("LiCoreV1.0.0");
}

/// The bytes of `{"ver":"`.
pub open spec fn env_lit_pre() -> Seq<u8> {
    seq![123u8, 34, 118, 101, 114, 34, 58, 34]
}

/// The bytes of `","uuid":"`.
pub open spec fn env_lit_uuid() -> Seq<u8> {
    seq![34u8, 44, 34, 117, 117, 105, 100, 34, 58, 34]
}

/// The bytes of `","token":"`.
pub open spec fn env_lit_token() -> Seq<u8> {
    seq![34u8, 44, 34, 116, 111, 107, 101, 110, 34, 58, 34]
}

/// The bytes of `","sys_info":[]}`.
pub open spec fn env_lit_end() -> Seq<u8> {
    seq![34u8, 44, 34, 115, 121, 115, 95, 105, 110, 102, 111, 34, 58, 91, 93, 125]
}

fn lit_pre_vec() -> (r: Vec<u8>)
    ensures
        r@ == env_lit_pre(),
{
    let v: Vec<u8> = vec![123u8, 34, 118, 101, 114, 34, 58, 34];
    proof {
        assert(v@ =~= env_lit_pre());
    }
    v
}

fn lit_uuid_vec() -> (r: Vec<u8>)
    ensures
        r@ == env_lit_uuid(),
{
    let v: Vec<u8> = vec![34u8, 44, 34, 117, 117, 105, 100, 34, 58, 34];
    proof {
        assert(v@ =~= env_lit_uuid());
    }
    v
}

fn lit_token_vec() -> (r: Vec<u8>)
    ensures
        r@ == env_lit_token(),
{
    let v: Vec<u8> = vec![34u8, 44, 34, 116, 111, 107, 101, 110, 34, 58, 34];
    proof {
        assert(v@ =~= env_lit_token());
    }
    v
}

fn lit_end_vec() -> (r: Vec<u8>)
    ensures
        r@ == env_lit_end(),
{
    let v: Vec<u8> = vec![34u8, 44, 34, 115, 121, 115, 95, 105, 110, 102, 111, 34, 58, 91, 93, 125];
    proof {
        assert(v@ =~= env_lit_end());
    }
    v
}

/// The wire bytes of an envelope with the given version, session id and
/// transport-encoded ciphertext.
pub open spec fn envelope_bytes(ver: Seq<char>, sid: Seq<char>, tok: Seq<char>) -> Seq<u8> {
    env_lit_pre() + encode_utf8(ver) + env_lit_uuid() + encode_utf8(sid) + env_lit_token()
        + encode_utf8(tok) + env_lit_end()
}

/// The position of the closing quote that ends a quoted value starting at
/// `i`: scans over plain bytes, stops at the first quote, and gives nothing
/// if a byte that may not stand in a quoted value comes first.
pub open spec fn scan_plain(v: Seq<u8>, i: int) -> Option<int>
    recommends
        0 <= i,
    decreases v.len() - i,
{
    if i < 0 || i >= v.len() {
        None
    } else if v[i] == 34 {
        Some(i)
    } else if plain_byte(v[i]) {
        scan_plain(v, i + 1)
    } else {
        None
    }
}

fn scan_plain_exec(v: &[u8], i: usize) -> (r: Option<usize>)
    ensures
        match r {
            Some(e) => scan_plain(v@, i as int) == Some(e as int),
            None => scan_plain(v@, i as int) is None,
        },
    decreases v@.len() - i,
{
    if i >= v.len() {
        None
    } else if v[i] == 34 {
        Some(i)
    } else if 32 <= v[i] && v[i] <= 126 && v[i] != 92 {
        scan_plain_exec(v, i + 1)
    } else {
        None
    }
}

/// The scan stops exactly at the end of a plain field followed by a quote.
pub proof fn lemma_scan_finds(v: Seq<u8>, i: int, f: Seq<u8>)
    requires
        0 <= i,
        i + f.len() < v.len(),
        plain_bytes(f),
        v.subrange(i, i + f.len()) == f,
        v[i + f.len()] == 34,
    ensures
        scan_plain(v, i) == Some(i + f.len()),
    decreases f.len(),
{
    if f.len() == 0 {
        assert(v[i] == 34);
    } else {
        assert(v[i] == f[0]) by {
            assert(v.subrange(i, i + f.len())[0] == v[i]);
        }
        assert(plain_byte(f[0]));
        let f2 = f.subrange(1, f.len() as int);
        assert(v.subrange(i + 1, i + 1 + f2.len()) =~= f2) by {
            assert(forall|j: int|
                0 <= j < f2.len() ==> v.subrange(i + 1, i + 1 + f2.len())[j] == v[i + 1 + j]
                    && #[trigger] f2[j] == f[j + 1] && f[j + 1] == v.subrange(i, i + f.len())[j + 1]);
        }
        lemma_scan_finds(v, i + 1, f2);
    }
}

/// What a successful scan says of the bytes it passed over.
pub proof fn lemma_scan_sound(v: Seq<u8>, i: int)
    requires
        0 <= i,
        scan_plain(v, i) is Some,
    ensures
        ({
            let e = scan_plain(v, i)->0;
            &&& i <= e < v.len()
            &&& v[e] == 34
            &&& plain_bytes(v.subrange(i, e))
        }),
    decreases v.len() - i,
{
    let e = scan_plain(v, i)->0;
    if v[i] == 34 {
    } else {
        lemma_scan_sound(v, i + 1);
        assert forall|j: int| 0 <= j < e - i implies plain_byte(#[trigger] v.subrange(i, e)[j]) by {
            if j == 0 {
                assert(plain_byte(v[i]));
            } else {
                assert(v.subrange(i + 1, e)[j - 1] == v[i + j]);
                assert(plain_byte(v.subrange(i + 1, e)[j - 1]));
            }
        }
    }
}

/// The structural reading of candidate envelope bytes: the version, session
/// id and token bytes where the text has exactly the expected shape, and
/// nothing otherwise.
pub open spec fn parse_env(v: Seq<u8>) -> Option<(Seq<u8>, Seq<u8>, Seq<u8>)> {
    if v.len() < 8 || v.subrange(0, 8) != env_lit_pre() {
        None
    } else {
        match scan_plain(v, 8) {
            None => None,
            Some(e1) => {
                if e1 + 10 > v.len() || v.subrange(e1, e1 + 10) != env_lit_uuid() {
                    None
                } else {
                    match scan_plain(v, e1 + 10) {
                        None => None,
                        Some(e2) => {
                            if e2 + 11 > v.len() || v.subrange(e2, e2 + 11) != env_lit_token() {
                                None
                            } else {
                                match scan_plain(v, e2 + 11) {
                                    None => None,
                                    Some(e3) => {
                                        if e3 + 16 == v.len() && v.subrange(e3, e3 + 16)
                                            == env_lit_end() {
                                            Some(
                                                (
                                                    v.subrange(8, e1),
                                                    v.subrange(e1 + 10, e2),
                                                    v.subrange(e2 + 11, e3),
                                                ),
                                            )
                                        } else {
                                            None
                                        }
                                    },
                                }
                            }
                        },
                    }
                }
            },
        }
    }
}

/// The encoder's output reads back as exactly the fields it was built from.
pub proof fn lemma_parse_of_envelope_bytes(ver: Seq<char>, sid: Seq<char>, tok: Seq<char>)
    requires
        plain_chars(ver),
        plain_chars(sid),
        plain_chars(tok),
    ensures
        parse_env(envelope_bytes(ver, sid, tok)) == Some(
            (encode_utf8(ver), encode_utf8(sid), encode_utf8(tok)),
        ),
{
    let v = envelope_bytes(ver, sid, tok);
    let vb = encode_utf8(ver);
    let sb = encode_utf8(sid);
    let tb = encode_utf8(tok);
    lemma_plain_encode(ver);
    lemma_plain_encode(sid);
    lemma_plain_encode(tok);
    let e1 = 8 + vb.len() as int;
    let o2 = e1 + 10;
    let e2 = o2 + sb.len() as int;
    let o3 = e2 + 11;
    let e3 = o3 + tb.len() as int;
    assert(v.len() == e3 + 16);
    assert(v.subrange(0, 8) =~= env_lit_pre());
    assert(v.subrange(8, e1) =~= vb);
    assert(v.subrange(e1, o2) =~= env_lit_uuid());
    assert(v.subrange(o2, e2) =~= sb);
    assert(v.subrange(e2, o3) =~= env_lit_token());
    assert(v.subrange(o3, e3) =~= tb);
    assert(v.subrange(e3, e3 + 16) =~= env_lit_end());
    assert(v[e1] == 34) by {
        assert(v.subrange(e1, o2)[0] == 34);
    }
    assert(v[e2] == 34) by {
        assert(v.subrange(e2, o3)[0] == 34);
    }
    assert(v[e3] == 34) by {
        assert(v.subrange(e3, e3 + 16)[0] == 34);
    }
    lemma_scan_finds(v, 8, vb);
    lemma_scan_finds(v, o2, sb);
    lemma_scan_finds(v, o3, tb);
}

/// A successful structural reading determines the whole text.
pub proof fn lemma_parse_env_sound(v: Seq<u8>)
    requires
        parse_env(v) is Some,
    ensures
        ({
            let f = parse_env(v)->0;
            &&& plain_bytes(f.0)
            &&& plain_bytes(f.1)
            &&& plain_bytes(f.2)
            &&& v == env_lit_pre() + f.0 + env_lit_uuid() + f.1 + env_lit_token() + f.2
                + env_lit_end()
        }),
{
    let e1 = scan_plain(v, 8)->0;
    lemma_scan_sound(v, 8);
    let e2 = scan_plain(v, e1 + 10)->0;
    lemma_scan_sound(v, e1 + 10);
    let e3 = scan_plain(v, e2 + 11)->0;
    lemma_scan_sound(v, e2 + 11);
    let f = parse_env(v)->0;
    assert(v =~= env_lit_pre() + f.0 + env_lit_uuid() + f.1 + env_lit_token() + f.2
        + env_lit_end()) by {
        assert(v.subrange(0, 8) == env_lit_pre());
        assert(v.subrange(e1, e1 + 10) == env_lit_uuid());
        assert(v.subrange(e2, e2 + 11) == env_lit_token());
        assert(v.subrange(e3, e3 + 16) == env_lit_end());
        assert(f.0 == v.subrange(8, e1));
        assert(f.1 == v.subrange(e1 + 10, e2));
        assert(f.2 == v.subrange(e2 + 11, e3));
    }
}

/// No text of the expected shape exists where the structural reading fails.
pub proof fn lemma_no_parse_no_envelope(v: Seq<u8>)
    requires
        parse_env(v) is None,
    ensures
        forall|ver: Seq<char>, sid: Seq<char>, tok: Seq<char>|
            plain_chars(ver) && plain_chars(sid) && plain_chars(tok) ==> v
                != #[trigger] envelope_bytes(ver, sid, tok),
{
    assert forall|ver: Seq<char>, sid: Seq<char>, tok: Seq<char>|
        plain_chars(ver) && plain_chars(sid) && plain_chars(tok) implies v
        != #[trigger] envelope_bytes(ver, sid, tok) by {
        if v == envelope_bytes(ver, sid, tok) {
            lemma_parse_of_envelope_bytes(ver, sid, tok);
        }
    }
}

/// The versioned wrapper shared by activation tokens and licenses.
pub struct Envelope {
    /// The protocol revision tag.
    pub version: String,
    /// The session identifier assigned at activation.
    pub session_id: String,
    /// The transport-encoded ciphertext.
    pub payload: String,
    /// Reserved auxiliary strings; empty in this protocol revision.
    pub sys_info: Vec<String>,
}

impl Envelope {
    /// The fields hold only characters that may stand unescaped in the wire
    /// text, and the reserved sequence is empty.
    pub open spec fn wf(&self) -> bool {
        &&& plain_chars(self.version@)
        &&& plain_chars(self.session_id@)
        &&& plain_chars(self.payload@)
        &&& self.sys_info@.len() == 0
    }
}

/// Produces the wire bytes of a well-formed envelope. Never fails.
pub fn encode_envelope(env: &Envelope) -> (r: Vec<u8>)
    requires
        env.wf(),
    ensures
        r@ == envelope_bytes(env.version@, env.session_id@, env.payload@),
        r@.len() > 0,
{
    let mut out: Vec<u8> = lit_pre_vec();
    let mut vb = env.version.as_str().as_bytes_vec();
    out.append(&mut vb);
    let mut l2 = lit_uuid_vec();
    out.append(&mut l2);
    let mut sb = env.session_id.as_str().as_bytes_vec();
    out.append(&mut sb);
    let mut l3 = lit_token_vec();
    out.append(&mut l3);
    let mut tb = env.payload.as_str().as_bytes_vec();
    out.append(&mut tb);
    let mut l4 = lit_end_vec();
    out.append(&mut l4);
    proof {
        assert(out@ =~= envelope_bytes(env.version@, env.session_id@, env.payload@));
    }
    out
}

/// Reads wire bytes back into an envelope. Fails with `MalformedEnvelope`
/// where the text does not have exactly the expected structure, and with
/// `VersionMismatch` where it does but carries another revision's tag.
pub fn decode_envelope(data: &[u8]) -> (r: Result<Envelope, LiError>)
    ensures
        match r {
            Ok(env) => {
                &&& env.wf()
                &&& env.version@ == version_chars()
                &&& data@ == envelope_bytes(env.version@, env.session_id@, env.payload@)
            },
            Err(e) => e == LiError::MalformedEnvelope || e == LiError::VersionMismatch,
        },
        r == Err::<Envelope, LiError>(LiError::MalformedEnvelope) ==> parse_env(data@) is None,
        r == Err::<Envelope, LiError>(LiError::VersionMismatch) ==> parse_env(data@) is Some
            && vstd::utf8::decode_utf8((parse_env(data@)->0).0) != version_chars(),
        forall|ver: Seq<char>, sid: Seq<char>, tok: Seq<char>|
            (plain_chars(ver) && plain_chars(sid) && plain_chars(tok) && data@
                == #[trigger] envelope_bytes(ver, sid, tok)) ==> {
                &&& ver == version_chars() ==> r is Ok && r->Ok_0.version@ == ver
                    && r->Ok_0.session_id@ == sid && r->Ok_0.payload@ == tok
                &&& ver != version_chars() ==> r == Err::<Envelope, LiError>(
                    LiError::VersionMismatch,
                )
            },
{
    let n: usize = data.len();
    proof {
        assert(data@.len() == n);
    }
    let lp = lit_pre_vec();
    if !match_at(data, 0, lp.as_slice()) {
        proof {
            lemma_no_parse_no_envelope(data@);
        }
        return Err(LiError::MalformedEnvelope);
    }
    let e1 = match scan_plain_exec(data, 8) {
        Some(e) => e,
        None => {
            proof {
                lemma_no_parse_no_envelope(data@);
            }
            return Err(LiError::MalformedEnvelope);
        },
    };
    proof {
        lemma_scan_sound(data@, 8);
    }
    let lu = lit_uuid_vec();
    if !match_at(data, e1, lu.as_slice()) {
        proof {
            lemma_no_parse_no_envelope(data@);
        }
        return Err(LiError::MalformedEnvelope);
    }
    let e2 = match scan_plain_exec(data, e1 + 10) {
        Some(e) => e,
        None => {
            proof {
                lemma_no_parse_no_envelope(data@);
            }
            return Err(LiError::MalformedEnvelope);
        },
    };
    proof {
        lemma_scan_sound(data@, e1 + 10);
    }
    let lt = lit_token_vec();
    if !match_at(data, e2, lt.as_slice()) {
        proof {
            lemma_no_parse_no_envelope(data@);
        }
        return Err(LiError::MalformedEnvelope);
    }
    let e3 = match scan_plain_exec(data, e2 + 11) {
        Some(e) => e,
        None => {
            proof {
                lemma_no_parse_no_envelope(data@);
            }
            return Err(LiError::MalformedEnvelope);
        },
    };
    proof {
        lemma_scan_sound(data@, e2 + 11);
    }
    let le = lit_end_vec();
    if !match_at(data, e3, le.as_slice()) || e3 + 16 != data.len() {
        proof {
            lemma_no_parse_no_envelope(data@);
        }
        return Err(LiError::MalformedEnvelope);
    }
    proof {
        assert(parse_env(data@) == Some(
            (data@.subrange(8, e1 as int), data@.subrange(e1 + 10, e2 as int), data@.subrange(
                e2 + 11,
                e3 as int,
            )),
        ));
        lemma_parse_env_sound(data@);
        lemma_ascii_decode(data@.subrange(8, e1 as int));
        lemma_ascii_decode(data@.subrange(e1 + 10, e2 as int));
        lemma_ascii_decode(data@.subrange(e2 + 11, e3 as int));
    }
    let vb = vstd::slice::slice_subrange(data, 8, e1);
    let sb = vstd::slice::slice_subrange(data, e1 + 10, e2);
    let tb = vstd::slice::slice_subrange(data, e2 + 11, e3);
    let version = utf8_to_string(vb);
    let session_id = utf8_to_string(sb);
    let payload = utf8_to_string(tb);
    let env = Envelope { version, session_id, payload, sys_info: Vec::new() };
    proof {
        assert(encode_utf8(env.version@) == data@.subrange(8, e1 as int));
        assert(encode_utf8(env.session_id@) == data@.subrange(e1 + 10, e2 as int));
        assert(encode_utf8(env.payload@) == data@.subrange(e2 + 11, e3 as int));
        assert(data@ =~= envelope_bytes(env.version@, env.session_id@, env.payload@));
        assert forall|ver: Seq<char>, sid: Seq<char>, tok: Seq<char>|
            (plain_chars(ver) && plain_chars(sid) && plain_chars(tok) && data@
                == #[trigger] envelope_bytes(ver, sid, tok)) implies {
            &&& ver == env.version@
            &&& sid == env.session_id@
            &&& tok == env.payload@
        } by {
            lemma_parse_of_envelope_bytes(ver, sid, tok);
            vstd::utf8::encode_utf8_decode_utf8(ver);
            vstd::utf8::encode_utf8_decode_utf8(sid);
            vstd::utf8::encode_utf8_decode_utf8(tok);
            vstd::utf8::encode_utf8_decode_utf8(env.version@);
            vstd::utf8::encode_utf8_decode_utf8(env.session_id@);
            vstd::utf8::encode_utf8_decode_utf8(env.payload@);
        }
    }
    if !str_eq(version_tag().as_str(), env.version.as_str()) {
        return Err(LiError::VersionMismatch);
    }
    Ok(env)
}

/// The version tag as a string value.
pub fn version_tag() -> (r: String)
    ensures
        r@ == version_chars(),
{
    String::from_str("LiCoreV1.0.0")
}

} // verus!
