//! Request-signature verification.
//!
//! A signed request carries a detached signature and a key id in its
//! extension.  Verification locates the key in a fetched key set, decodes
//! key and signature from unpadded base64url, and checks an Ed25519
//! signature over the request id.

use vstd::prelude::*;

use base64::Engine;

verus! {

/// One named public key of a key set: a key id and the unpadded
/// base64url encoding of a 32-byte Ed25519 public key.
#[derive(Debug)]
pub struct JwkKey {
    pub kid: String,
    pub x: String,
}

impl Clone for JwkKey {
    fn clone(&self) -> (r: Self)
        ensures
            r.kid@ == self.kid@,
            r.x@ == self.x@,
    {
        JwkKey { kid: self.kid.clone(), x: self.x.clone() }
    }
}

/// A fetched key set.
#[derive(Debug)]
pub struct JwksResponse {
    pub keys: Vec<JwkKey>,
}

impl Clone for JwksResponse {
    fn clone(&self) -> (r: Self)
        ensures
            r.keys@.len() == self.keys@.len(),
            forall|i: int|
                0 <= i < self.keys@.len() ==> #[trigger] r.keys@[i].kid@ == self.keys@[i].kid@
                    && r.keys@[i].x@ == self.keys@[i].x@,
    {
        let mut keys: Vec<JwkKey> = Vec::new();
        let mut i: usize = 0;
        while i < self.keys.len()
            invariant
                0 <= i <= self.keys@.len(),
                keys@.len() == i,
                forall|k: int|
                    0 <= k < i ==> #[trigger] keys@[k].kid@ == self.keys@[k].kid@ && keys@[k].x@
                        == self.keys@[k].x@,
            decreases self.keys@.len() - i,
        {
            keys.push(self.keys[i].clone());
            i = i + 1;
        }
        JwksResponse { keys }
    }
}

/// Why a verification attempt failed; each reason is distinct.
#[derive(Debug)]
pub enum VerificationError {
    /// No key with the requested id, or the id was missing.
    KeyNotFound(String),
    /// Malformed signature block, key or signature encoding.
    InvalidSignature(String),
    /// Well-formed inputs whose cryptographic check failed.
    SignatureVerificationFailed,
    /// The key set could not be fetched or parsed.
    HttpError(String),
    /// No trust domain was configured.
    NoJwksDomain,
}

/// The message `VerificationError::message` renders.
pub open spec fn spec_verr_message(e: VerificationError) -> Seq<char> {
    match e {
        VerificationError::KeyNotFound(m) => "Key not found: "@ + m@,
        VerificationError::InvalidSignature(m) => "Invalid signature: "@ + m@,
        VerificationError::SignatureVerificationFailed => "Signature verification failed"@,
        VerificationError::HttpError(m) => "HTTP error: "@ + m@,
        VerificationError::NoJwksDomain => "No domain for JWKS verification"@,
    }
}

impl VerificationError {
    /// A human-readable description of the failure.
    pub fn message(&self) -> (r: String)
        ensures
            r@ == spec_verr_message(*self),
    {
        let mut s = String::new();
        match self {
            VerificationError::KeyNotFound(m) => {
                s.append("Key not found: ");
                s.append(m.as_str());
            },
            VerificationError::InvalidSignature(m) => {
                s.append("Invalid signature: ");
                s.append(m.as_str());
            },
            VerificationError::SignatureVerificationFailed => {
                s.append("Signature verification failed");
            },
            VerificationError::HttpError(m) => {
                s.append("HTTP error: ");
                s.append(m.as_str());
            },
            VerificationError::NoJwksDomain => {
                s.append("No domain for JWKS verification");
            },
        }
        s
    }
}

/// Index of the first key with the given id.
pub open spec fn spec_find_key(keys: Seq<JwkKey>, kid: Seq<char>, i: int) -> Option<int>
    decreases keys.len() - i,
{
    if i < 0 || i >= keys.len() {
        None
    } else if keys[i].kid@ == kid {
        Some(i)
    } else {
        spec_find_key(keys, kid, i + 1)
    }
}

/// Looks up the public key with the given id in a key set; the first
/// match wins.  A missing key is a distinct, named error.
pub fn find_public_key(jwks: &JwksResponse, kid: &str) -> (r: Result<String, VerificationError>)
    ensures
        match r {
            Ok(x) => {
                &&& spec_find_key(jwks.keys@, kid@, 0) matches Some(i)
                &&& x@ == jwks.keys@[spec_find_key(jwks.keys@, kid@, 0)->Some_0].x@
            },
            Err(e) => {
                &&& spec_find_key(jwks.keys@, kid@, 0) is None
                &&& e matches VerificationError::KeyNotFound(m) && m@ == "Key "@ + kid@
                    + " not found in JWKS"@
            },
        },
{
    let mut i: usize = 0;
    while i < jwks.keys.len()
        invariant
            0 <= i <= jwks.keys@.len(),
            forall|k: int| 0 <= k < i ==> (#[trigger] jwks.keys@[k]).kid@ != kid@,
        decreases jwks.keys@.len() - i,
    {
        if jwks.keys[i].kid.as_str().eq(kid) {
            proof {
                lemma_find_key_skips(jwks.keys@, kid@, 0, i as int);
            }
            return Ok(jwks.keys[i].x.clone());
        }
        i = i + 1;
    }
    proof {
        lemma_find_key_skips(jwks.keys@, kid@, 0, jwks.keys@.len() as int);
    }
    let mut m = String::new();
    m.append("Key ");
    m.append(kid);
    m.append(" not found in JWKS");
    assert(m@ =~= "Key "@ + kid@ + " not found in JWKS"@);
    Err(VerificationError::KeyNotFound(m))
}

proof fn lemma_find_key_skips(keys: Seq<JwkKey>, kid: Seq<char>, i: int, j: int)
    requires
        0 <= i <= j <= keys.len(),
        forall|k: int| i <= k < j ==> (#[trigger] keys[k]).kid@ != kid,
    ensures
        spec_find_key(keys, kid, i) == spec_find_key(keys, kid, j),
    decreases j - i,
{
    if i < j {
        lemma_find_key_skips(keys, kid, i + 1, j);
    }
}

/// The byte string whose canonical unpadded base64url rendering is `s`,
/// if any.
pub uninterp spec fn b64url_decoding(s: Seq<char>) -> Option<Seq<u8>>;

/// Relies on base64's `URL_SAFE_NO_PAD` engine `decode`: strict decoding
/// that accepts exactly the canonical unpadded url-safe renderings.
#[verifier::external_body]
fn b64url_decode(s: &str) -> (r: Option<Vec<u8>>)
    ensures
        match r {
            Some(v) => b64url_decoding(s@) == Some(v@),
            None => b64url_decoding(s@) is None,
        },
{
    base64::engine::general_purpose::URL_SAFE_NO_PAD.decode(s.as_bytes()).ok()
}

/// Whether 32 bytes decode to a valid Ed25519 verifying key; depends on
/// the bytes alone.
pub uninterp spec fn ed25519_key_valid(key: Seq<u8>) -> bool;

/// Whether a 64-byte signature verifies over the UTF-8 bytes of `msg`
/// under the key; depends on key, signature and message alone.
pub uninterp spec fn ed25519_verifies(key: Seq<u8>, sig: Seq<u8>, msg: Seq<char>) -> bool;

enum Ed25519Check {
    KeyRejected,
    Valid,
    Mismatch,
}

/// Relies on ed25519-dalek: `VerifyingKey::from_bytes` accepts exactly
/// the canonical encodings of curve points, and `verify` deterministically
/// checks the signature over the message bytes.
#[verifier::external_body]
fn ed25519_check(key: &Vec<u8>, sig: &Vec<u8>, message: &str) -> (r: Ed25519Check)
    requires
        key@.len() == 32,
        sig@.len() == 64,
    ensures
        r == (if !ed25519_key_valid(key@) {
            Ed25519Check::KeyRejected
        } else if ed25519_verifies(key@, sig@, message@) {
            Ed25519Check::Valid
        } else {
            Ed25519Check::Mismatch
        }),
{
    let mut ka = [0u8; 32];
    ka.copy_from_slice(key.as_slice());
    match ed25519_dalek::VerifyingKey::from_bytes(&ka) {
        Err(_) => Ed25519Check::KeyRejected,
        Ok(vk) => {
            let mut sa = [0u8; 64];
            sa.copy_from_slice(sig.as_slice());
            let s = ed25519_dalek::Signature::from_bytes(&sa);
            match ed25519_dalek::Verifier::verify(&vk, message.as_bytes(), &s) {
                Ok(()) => Ed25519Check::Valid,
                Err(_) => Ed25519Check::Mismatch,
            }
        },
    }
}

/// Key and signature are well-formed: both decode from unpadded
/// base64url, to exactly 32 and 64 bytes, and the key is a valid curve
/// point.
pub open spec fn spec_sig_inputs_wellformed(x: Seq<char>, sig: Seq<char>) -> bool {
    &&& match b64url_decoding(x) {
        Some(k) => k.len() == 32 && ed25519_key_valid(k),
        None => false,
    }
    &&& match b64url_decoding(sig) {
        Some(s) => s.len() == 64,
        None => false,
    }
}

/// Well-formed inputs whose signature checks out over `msg`.
pub open spec fn spec_sig_verified(x: Seq<char>, sig: Seq<char>, msg: Seq<char>) -> bool {
    &&& spec_sig_inputs_wellformed(x, sig)
    &&& ed25519_verifies(b64url_decoding(x)->Some_0, b64url_decoding(sig)->Some_0, msg)
}

/// Verifies a detached Ed25519 signature over `message`.  Malformed key
/// or signature encodings are reported distinctly from a cryptographic
/// mismatch.
pub fn verify_ed25519_signature(public_key_b64: &str, signature_b64: &str, message: &str) -> (r:
    Result<(), VerificationError>)
    ensures
        match r {
            Ok(()) => spec_sig_verified(public_key_b64@, signature_b64@, message@),
            Err(e) => match e {
                VerificationError::InvalidSignature(_) => !spec_sig_inputs_wellformed(
                    public_key_b64@,
                    signature_b64@,
                ),
                VerificationError::SignatureVerificationFailed => spec_sig_inputs_wellformed(
                    public_key_b64@,
                    signature_b64@,
                ) && !spec_sig_verified(public_key_b64@, signature_b64@, message@),
                _ => false,
            },
        },
{
    let key_bytes = match b64url_decode(public_key_b64) {
        Some(v) => v,
        None => {
            return Err(
                VerificationError::InvalidSignature(
                    String::from_str("Invalid public key encoding"),
                ),
            );
        },
    };
    if key_bytes.len() != 32 {
        return Err(
            VerificationError::InvalidSignature(String::from_str("Invalid public key length")),
        );
    }
    let sig_bytes = match b64url_decode(signature_b64) {
        Some(v) => v,
        None => {
            return Err(
                VerificationError::InvalidSignature(
                    String::from_str("Invalid signature encoding"),
                ),
            );
        },
    };
    if sig_bytes.len() != 64 {
        return Err(
            VerificationError::InvalidSignature(String::from_str("Invalid signature length")),
        );
    }
    match ed25519_check(&key_bytes, &sig_bytes, message) {
        Ed25519Check::KeyRejected => Err(
            VerificationError::InvalidSignature(String::from_str("Invalid public key")),
        ),
        Ed25519Check::Valid => Ok(()),
        Ed25519Check::Mismatch => Err(VerificationError::SignatureVerificationFailed),
    }
}

/// The signature block of a request extension: a detached signature and
/// the id of the key that made it.
#[derive(Debug)]
pub struct TrustedServerExt {
    pub signature: Option<String>,
    pub kid: Option<String>,
}

/// The extension object of a request, as far as verification reads it.
#[derive(Debug)]
pub struct RequestExt {
    pub trusted_server: Option<TrustedServerExt>,
}

/// There is no signature block at all.
pub open spec fn spec_no_ts(ext: Option<&RequestExt>) -> bool {
    match ext {
        None => true,
        Some(e) => e.trusted_server is None,
    }
}

/// The signature string of the block, when the block and field exist.
pub open spec fn spec_sig_field(ext: Option<&RequestExt>) -> Option<Seq<char>> {
    match ext {
        None => None,
        Some(e) => match e.trusted_server {
            None => None,
            Some(ts) => match ts.signature {
                Some(s) => Some(s@),
                None => None,
            },
        },
    }
}

/// The key id of the block, when the block and field exist.
pub open spec fn spec_kid_field(ext: Option<&RequestExt>) -> Option<Seq<char>> {
    match ext {
        None => None,
        Some(e) => match e.trusted_server {
            None => None,
            Some(ts) => match ts.kid {
                Some(k) => Some(k@),
                None => None,
            },
        },
    }
}

/// Both fields of the signature block are present.
pub open spec fn spec_fields_ok(ext: Option<&RequestExt>) -> bool {
    spec_sig_field(ext) is Some && spec_kid_field(ext) is Some
}

/// The x value of the key the kid names, when the key set has it.
pub open spec fn spec_named_key(jwks: JwksResponse, kid: Seq<char>) -> Option<Seq<char>> {
    match spec_find_key(jwks.keys@, kid, 0) {
        Some(i) => Some(jwks.keys@[i].x@),
        None => None,
    }
}

/// Pulls the detached signature and key id out of a request's extension.
/// A missing block or signature and a missing key id are distinct,
/// exactly-worded errors, checked in that order.
pub fn extract_signature_fields(ext: Option<&RequestExt>) -> (r: Result<
    (String, String),
    VerificationError,
>)
    ensures
        match r {
            Ok((sig, kid)) => {
                &&& spec_fields_ok(ext)
                &&& sig@ == spec_sig_field(ext)->Some_0
                &&& kid@ == spec_kid_field(ext)->Some_0
            },
            Err(e) => match e {
                VerificationError::InvalidSignature(m) => {
                    ||| (spec_no_ts(ext) && m@ == "Missing ext.trusted_server"@)
                    ||| (!spec_no_ts(ext) && spec_sig_field(ext) is None && m@
                        == "Missing ext.trusted_server.signature"@)
                },
                VerificationError::KeyNotFound(m) => {
                    &&& !spec_no_ts(ext)
                    &&& spec_sig_field(ext) is Some
                    &&& spec_kid_field(ext) is None
                    &&& m@ == "Missing ext.trusted_server.kid"@
                },
                _ => false,
            },
        },
{
    let ts = match ext {
        Some(e) => match &e.trusted_server {
            Some(ts) => ts,
            None => {
                return Err(
                    VerificationError::InvalidSignature(
                        String::from_str("Missing ext.trusted_server"),
                    ),
                );
            },
        },
        None => {
            return Err(
                VerificationError::InvalidSignature(
                    String::from_str("Missing ext.trusted_server"),
                ),
            );
        },
    };
    let signature = match &ts.signature {
        Some(s) => s.clone(),
        None => {
            return Err(
                VerificationError::InvalidSignature(
                    String::from_str("Missing ext.trusted_server.signature"),
                ),
            );
        },
    };
    let key_id = match &ts.kid {
        Some(k) => k.clone(),
        None => {
            return Err(
                VerificationError::KeyNotFound(
                    String::from_str("Missing ext.trusted_server.kid"),
                ),
            );
        },
    };
    Ok((signature, key_id))
}

/// Verifies the signature carried in a request's extension against the
/// keys of an already-fetched key set.  On success returns the key id
/// used, as an audit trail.  Each failure is a distinct error: a missing
/// block or signature, a missing key id, an unknown key, a malformed key
/// or signature, and a cryptographic mismatch are all told apart.
pub fn verify_request_id_signature(
    request_id: &str,
    ext: Option<&RequestExt>,
    jwks: &JwksResponse,
) -> (r: Result<String, VerificationError>)
    ensures
        match r {
            Ok(kid) => {
                &&& spec_fields_ok(ext)
                &&& kid@ == spec_kid_field(ext)->Some_0
                &&& spec_named_key(*jwks, kid@) matches Some(x)
                &&& spec_sig_verified(x, spec_sig_field(ext)->Some_0, request_id@)
            },
            Err(e) => match e {
                VerificationError::InvalidSignature(m) => {
                    ||| (spec_no_ts(ext) && m@ == "Missing ext.trusted_server"@)
                    ||| (!spec_no_ts(ext) && spec_sig_field(ext) is None && m@
                        == "Missing ext.trusted_server.signature"@)
                    ||| (spec_fields_ok(ext) && (spec_named_key(
                        *jwks,
                        spec_kid_field(ext)->Some_0,
                    ) matches Some(x) && !spec_sig_inputs_wellformed(
                        x,
                        spec_sig_field(ext)->Some_0,
                    )))
                },
                VerificationError::KeyNotFound(m) => {
                    ||| (!spec_no_ts(ext) && spec_sig_field(ext) is Some && spec_kid_field(ext)
                        is None && m@ == "Missing ext.trusted_server.kid"@)
                    ||| (spec_fields_ok(ext) && spec_named_key(
                        *jwks,
                        spec_kid_field(ext)->Some_0,
                    ) is None)
                },
                VerificationError::SignatureVerificationFailed => {
                    &&& spec_fields_ok(ext)
                    &&& spec_named_key(*jwks, spec_kid_field(ext)->Some_0) matches Some(x)
                    &&& spec_sig_inputs_wellformed(x, spec_sig_field(ext)->Some_0)
                    &&& !spec_sig_verified(x, spec_sig_field(ext)->Some_0, request_id@)
                },
                _ => false,
            },
        },
{
    let (signature, key_id) = match extract_signature_fields(ext) {
        Ok(f) => f,
        Err(e) => {
            return Err(e);
        },
    };
    let public_key = match find_public_key(jwks, key_id.as_str()) {
        Ok(x) => x,
        Err(e) => {
            return Err(e);
        },
    };
    match verify_ed25519_signature(public_key.as_str(), signature.as_str(), request_id) {
        Ok(()) => Ok(key_id),
        Err(e) => Err(e),
    }
}

/// The whole verification succeeds: the named key exists in the key set
/// and the signature checks out over the request id.
pub open spec fn spec_request_verified(
    request_id: Seq<char>,
    ext: Option<&RequestExt>,
    jwks: JwksResponse,
) -> bool {
    &&& spec_fields_ok(ext)
    &&& match spec_named_key(jwks, spec_kid_field(ext)->Some_0) {
        Some(x) => spec_sig_verified(x, spec_sig_field(ext)->Some_0, request_id),
        None => false,
    }
}

/// The outcome of one verification attempt, carried as response
/// metadata.
#[derive(Debug)]
pub enum SignatureOutcome {
    /// The signature verified; names the key that did it.
    Verified { kid: String },
    /// Verification was attempted and failed, for the given reason.
    Failed { reason: String },
    /// No trust domain was configured, so verification was skipped.
    NotPresent { reason: String },
}

/// How the key set lookup went for the request's trust domain: `None`
/// when the request has no trust domain, otherwise the fetched key set
/// or the reason it could not be had.
pub enum KeySetLookup<'a> {
    Available(&'a JwksResponse),
    Unavailable(String),
}

/// Classifies one verification attempt.  Missing signature fields fail
/// outright; without a trust domain the outcome is `NotPresent` rather
/// than a failure; with one, the fetched key set decides, and any fetch
/// failure or verification error is reported as `Failed` with its
/// reason.
pub fn signature_outcome(
    request_id: &str,
    ext: Option<&RequestExt>,
    lookup: Option<KeySetLookup>,
) -> (o: SignatureOutcome)
    ensures
        match o {
            SignatureOutcome::Verified { kid } => {
                &&& spec_fields_ok(ext)
                &&& kid@ == spec_kid_field(ext)->Some_0
                &&& lookup matches Some(KeySetLookup::Available(j)) && spec_request_verified(
                    request_id@,
                    ext,
                    *j,
                )
            },
            SignatureOutcome::NotPresent { reason } => {
                &&& lookup is None
                &&& spec_fields_ok(ext)
            },
            SignatureOutcome::Failed { reason } => {
                ||| !spec_fields_ok(ext)
                ||| (spec_fields_ok(ext) && (lookup matches Some(KeySetLookup::Unavailable(m))
                    && reason@ == m@))
                ||| (spec_fields_ok(ext) && (lookup matches Some(KeySetLookup::Available(j))
                    && !spec_request_verified(request_id@, ext, *j)))
            },
        },
{
    // the field checks come first, whatever the domain situation
    match extract_signature_fields(ext) {
        Err(e) => {
            return SignatureOutcome::Failed { reason: e.message() };
        },
        Ok(_) => (),
    }
    match lookup {
        None => SignatureOutcome::NotPresent {
            reason: String::from_str("no trust domain to verify against"),
        },
        Some(KeySetLookup::Unavailable(m)) => SignatureOutcome::Failed { reason: m },
        Some(KeySetLookup::Available(jwks)) => {
            match verify_request_id_signature(request_id, ext, jwks) {
                Ok(kid) => SignatureOutcome::Verified { kid },
                Err(e) => SignatureOutcome::Failed { reason: e.message() },
            }
        },
    }
}

} // verus!
