use base64::Engine;
use ed25519_dalek::{Signer, SigningKey};
use mocktioneer::cache::{KeySetCache, KEY_SET_TTL_MS};
use mocktioneer::jwks::parse_key_set;
use mocktioneer::verification::{
    find_public_key, signature_outcome, verify_ed25519_signature, verify_request_id_signature,
    JwkKey, JwksResponse, KeySetLookup, RequestExt, SignatureOutcome, TrustedServerExt,
    VerificationError,
};

fn b64url(bytes: &[u8]) -> String {
    base64::engine::general_purpose::URL_SAFE_NO_PAD.encode(bytes)
}

fn ext_with(signature: Option<&str>, kid: Option<&str>) -> RequestExt {
    RequestExt {
        trusted_server: Some(TrustedServerExt {
            signature: signature.map(|s| s.to_string()),
            kid: kid.map(|s| s.to_string()),
        }),
    }
}

fn empty_jwks() -> JwksResponse {
    JwksResponse { keys: vec![] }
}

#[test]
fn verify_missing_signature_field() {
    let ext = ext_with(None, Some("test-key"));
    let result = verify_request_id_signature("test-id", Some(&ext), &empty_jwks());
    assert!(matches!(
        result.unwrap_err(),
        VerificationError::InvalidSignature(_)
    ));
}

#[test]
fn verify_missing_kid_field() {
    let ext = ext_with(Some("test-sig"), None);
    let result = verify_request_id_signature("test-id", Some(&ext), &empty_jwks());
    assert!(matches!(
        result.unwrap_err(),
        VerificationError::KeyNotFound(_)
    ));
}

#[test]
fn verify_missing_trusted_server_object() {
    let ext = RequestExt {
        trusted_server: None,
    };
    let result = verify_request_id_signature("test-id", Some(&ext), &empty_jwks());
    assert!(matches!(
        result.unwrap_err(),
        VerificationError::InvalidSignature(_)
    ));
}

#[test]
fn verify_with_none_ext() {
    let result = verify_request_id_signature("test-id", None, &empty_jwks());
    assert!(matches!(
        result.unwrap_err(),
        VerificationError::InvalidSignature(_)
    ));
}

#[test]
fn find_public_key_found() {
    let jwks = JwksResponse {
        keys: vec![JwkKey {
            kid: "key-001".to_string(),
            x: "test-key-base64url".to_string(),
        }],
    };

    let result = find_public_key(&jwks, "key-001");
    assert_eq!(result.unwrap(), "test-key-base64url".to_string());
}

#[test]
fn find_public_key_not_found() {
    let jwks = JwksResponse { keys: vec![] };

    let result = find_public_key(&jwks, "missing-key");
    assert!(matches!(
        result.unwrap_err(),
        VerificationError::KeyNotFound(_)
    ));
}

#[test]
fn find_public_key_first_match_wins() {
    let jwks = JwksResponse {
        keys: vec![
            JwkKey {
                kid: "k".to_string(),
                x: "first".to_string(),
            },
            JwkKey {
                kid: "k".to_string(),
                x: "second".to_string(),
            },
        ],
    };
    assert_eq!(find_public_key(&jwks, "k").unwrap(), "first".to_string());
}

#[test]
fn verify_ed25519_invalid_key_length() {
    let result = verify_ed25519_signature("dGVzdA", "sig", "message");
    assert!(matches!(
        result.unwrap_err(),
        VerificationError::InvalidSignature(_)
    ));
}

#[test]
fn verify_ed25519_invalid_signature_length() {
    let public_key = "AAAAAAAAAAAAAAAAAAAAAAAAAAAAAAAAAAAAAAAAAAA";
    let result = verify_ed25519_signature(public_key, "dGVzdA", "message");
    assert!(matches!(
        result.unwrap_err(),
        VerificationError::InvalidSignature(_)
    ));
}

#[test]
fn verify_real_signature_end_to_end() {
    let sk = SigningKey::from_bytes(&[7u8; 32]);
    let vk = sk.verifying_key();
    let request_id = "req-12345";
    let sig = sk.sign(request_id.as_bytes());

    let jwks = JwksResponse {
        keys: vec![JwkKey {
            kid: "key-1".to_string(),
            x: b64url(&vk.to_bytes()),
        }],
    };
    let ext = ext_with(Some(&b64url(&sig.to_bytes())), Some("key-1"));

    let result = verify_request_id_signature(request_id, Some(&ext), &jwks);
    assert_eq!(result.unwrap(), "key-1".to_string());
}

#[test]
fn verify_flipped_signature_byte_fails_cryptographically() {
    let sk = SigningKey::from_bytes(&[7u8; 32]);
    let vk = sk.verifying_key();
    let request_id = "req-12345";
    let mut sig = sk.sign(request_id.as_bytes()).to_bytes();
    sig[3] ^= 0x01;

    let jwks = JwksResponse {
        keys: vec![JwkKey {
            kid: "key-1".to_string(),
            x: b64url(&vk.to_bytes()),
        }],
    };
    let ext = ext_with(Some(&b64url(&sig)), Some("key-1"));

    let result = verify_request_id_signature(request_id, Some(&ext), &jwks);
    assert!(matches!(
        result.unwrap_err(),
        VerificationError::SignatureVerificationFailed
    ));
}

#[test]
fn verify_unknown_kid_is_key_not_found() {
    let sk = SigningKey::from_bytes(&[7u8; 32]);
    let request_id = "req-12345";
    let sig = sk.sign(request_id.as_bytes());
    let ext = ext_with(Some(&b64url(&sig.to_bytes())), Some("other-key"));

    let result = verify_request_id_signature(request_id, Some(&ext), &empty_jwks());
    assert!(matches!(
        result.unwrap_err(),
        VerificationError::KeyNotFound(_)
    ));
}

#[test]
fn outcome_verified_failed_and_not_present() {
    let sk = SigningKey::from_bytes(&[9u8; 32]);
    let vk = sk.verifying_key();
    let request_id = "req-outcome";
    let sig = sk.sign(request_id.as_bytes());
    let jwks = JwksResponse {
        keys: vec![JwkKey {
            kid: "kid-9".to_string(),
            x: b64url(&vk.to_bytes()),
        }],
    };
    let ext = ext_with(Some(&b64url(&sig.to_bytes())), Some("kid-9"));

    // domain present, key set fetched, good signature
    let o = signature_outcome(request_id, Some(&ext), Some(KeySetLookup::Available(&jwks)));
    assert!(matches!(o, SignatureOutcome::Verified { kid } if kid == "kid-9"));

    // no trust domain: skipped rather than failed
    let o = signature_outcome(request_id, Some(&ext), None);
    assert!(matches!(o, SignatureOutcome::NotPresent { .. }));

    // fetch failed: reported as a failure with the fetch reason
    let o = signature_outcome(
        request_id,
        Some(&ext),
        Some(KeySetLookup::Unavailable("HTTP error: timeout".to_string())),
    );
    assert!(matches!(o, SignatureOutcome::Failed { reason } if reason.contains("timeout")));

    // missing fields fail before any domain handling
    let bad = RequestExt {
        trusted_server: None,
    };
    let o = signature_outcome(request_id, Some(&bad), None);
    assert!(matches!(o, SignatureOutcome::Failed { .. }));
}

#[test]
fn cache_second_lookup_within_ttl_needs_no_fetch() {
    let mut cache = KeySetCache::new();
    let mut fetches: u32 = 0;
    let domain = "pub.example";
    let mut get = |cache: &mut KeySetCache, fetches: &mut u32, now: u64| -> usize {
        if let Some(e) = cache.lookup(domain, now) {
            return e.keys.len();
        }
        *fetches += 1;
        let keys = vec![JwkKey {
            kid: "k1".to_string(),
            x: "x1".to_string(),
        }];
        cache.store(domain, keys, now);
        cache.lookup(domain, now).unwrap().keys.len()
    };

    let t0: u64 = 1_000;
    assert_eq!(get(&mut cache, &mut fetches, t0), 1);
    assert_eq!(get(&mut cache, &mut fetches, t0 + KEY_SET_TTL_MS - 1), 1);
    assert_eq!(fetches, 1);

    // after the TTL elapses the entry counts as absent: a second fetch
    // happens and replaces the entry
    assert_eq!(get(&mut cache, &mut fetches, t0 + KEY_SET_TTL_MS), 1);
    assert_eq!(fetches, 2);
}

#[test]
fn cache_store_replaces_entry_wholesale() {
    let mut cache = KeySetCache::new();
    cache.store(
        "d1",
        vec![JwkKey {
            kid: "old".to_string(),
            x: "x-old".to_string(),
        }],
        100,
    );
    cache.store(
        "d1",
        vec![
            JwkKey {
                kid: "new-a".to_string(),
                x: "x-a".to_string(),
            },
            JwkKey {
                kid: "new-b".to_string(),
                x: "x-b".to_string(),
            },
        ],
        200,
    );
    let e = cache.lookup("d1", 200).unwrap();
    assert_eq!(e.keys.len(), 2);
    assert_eq!(e.keys[0].kid, "new-a");
    assert_eq!(e.fetched_at_ms, 200);
}

#[test]
fn cache_domains_are_independent() {
    let mut cache = KeySetCache::new();
    cache.store("d1", vec![], 0);
    cache.store(
        "d2",
        vec![JwkKey {
            kid: "k".to_string(),
            x: "x".to_string(),
        }],
        0,
    );
    assert_eq!(cache.lookup("d1", 10).unwrap().keys.len(), 0);
    assert_eq!(cache.lookup("d2", 10).unwrap().keys.len(), 1);
    assert!(cache.lookup("d3", 10).is_none());
}

#[test]
fn jwks_parser_accepts_wellformed_documents() {
    let doc = b"{\"keys\":[{\"kid\":\"k1\",\"x\":\"abc\"},{\"x\":\"def\",\"kid\":\"k2\"}]}".to_vec();
    let keys = parse_key_set(&doc).unwrap();
    assert_eq!(keys.len(), 2);
    assert_eq!(keys[0].kid, "k1");
    assert_eq!(keys[0].x, "abc");
    assert_eq!(keys[1].kid, "k2");
    assert_eq!(keys[1].x, "def");

    let spaced = b" { \"keys\" : [ ] } ".to_vec();
    assert_eq!(parse_key_set(&spaced).unwrap().len(), 0);

    let single = b"{\"keys\": [ {\"kid\": \"a\", \"x\": \"b\"} ]}".to_vec();
    assert_eq!(parse_key_set(&single).unwrap().len(), 1);
}

#[test]
fn jwks_parser_rejects_malformed_documents() {
    assert!(parse_key_set(&b"".to_vec()).is_none());
    assert!(parse_key_set(&b"not json".to_vec()).is_none());
    assert!(parse_key_set(&b"{\"keys\":}".to_vec()).is_none());
    assert!(parse_key_set(&b"{\"other\":[]}".to_vec()).is_none());
    assert!(parse_key_set(&b"{\"keys\":[{\"kid\":\"a\"}]}".to_vec()).is_none());
    assert!(parse_key_set(&b"{\"keys\":[]} trailing".to_vec()).is_none());
    assert!(parse_key_set(&b"{\"keys\":[{\"kid\":\"a\",\"x\":\"b\",\"y\":\"c\"}]}".to_vec()).is_none());
}

#[test]
fn verification_error_messages_are_structured() {
    assert_eq!(
        VerificationError::KeyNotFound("k".to_string()).message(),
        "Key not found: k"
    );
    assert_eq!(
        VerificationError::SignatureVerificationFailed.message(),
        "Signature verification failed"
    );
    assert_eq!(
        VerificationError::NoJwksDomain.message(),
        "No domain for JWKS verification"
    );
    assert_eq!(
        VerificationError::HttpError("boom".to_string()).message(),
        "HTTP error: boom"
    );
}
