use ring::hmac;
use site::server::auth::{
    check_auth, decode_bearer, is_auth_checkable, is_signature_checkable, verify_gh, verify_gh_sig,
};

fn signature(secret: &str, body: &[u8]) -> String {
    let key = hmac::Key::new(hmac::HMAC_SHA1_FOR_LEGACY_USE_ONLY, secret.as_bytes());
    format!("sha1={}", hex::encode(hmac::sign(&key, body).as_ref()))
}

#[test]
fn bearer_token_is_what_stands_behind_the_scheme() {
    assert_eq!(decode_bearer(b"Bearer s3cret"), Some("s3cret".to_string()));
    assert_eq!(decode_bearer(b"Bearer  two"), Some(" two".to_string()));
    assert_eq!(decode_bearer(b"Bearer "), Some(String::new()));
}

#[test]
fn other_values_carry_no_bearer_token() {
    assert_eq!(decode_bearer(b"Bearer"), None);
    assert_eq!(decode_bearer(b"bearer s3cret"), None);
    assert_eq!(decode_bearer(b"Basic s3cret"), None);
    assert_eq!(decode_bearer(b"Bearer \x80"), None);
    assert_eq!(decode_bearer(b"Bearer \x00"), None);
}

#[test]
fn token_must_be_the_secret() {
    assert!(check_auth(Some(b"Bearer s3cret"), Some("s3cret")));
    assert!(!check_auth(Some(b"Bearer s3cre"), Some("s3cret")));
    assert!(!check_auth(None, Some("s3cret")));
    assert!(!check_auth(None, None));
}

#[test]
fn token_is_checked_only_against_a_secret() {
    assert!(is_auth_checkable(Some(b"Bearer x"), Some("s")));
    assert!(is_auth_checkable(None, None));
    assert!(!is_auth_checkable(Some(b"Bearer x"), None));
    assert!(!is_auth_checkable(Some(b"Basic x"), Some("s")));
}

#[test]
fn known_hmac_is_accepted() {
    // HMAC-SHA1 of "The quick brown fox jumps over the lazy dog" under "key".
    let body = b"The quick brown fox jumps over the lazy dog";
    let header = "sha1=de7c9b85b8b78aa6bc8a7a36f70a90701c9db4d9";
    assert_eq!(verify_gh_sig("key", header, body), Some(true));
    assert_eq!(verify_gh_sig("kez", header, body), Some(false));
    assert_eq!(verify_gh_sig("key", header, b"The quick"), Some(false));
    let upper = "sha1=DE7C9B85B8B78AA6BC8A7A36F70A90701C9DB4D9";
    assert_eq!(verify_gh_sig("key", upper, body), Some(true));
}

#[test]
fn header_without_a_tag_is_no_signature() {
    assert_eq!(verify_gh_sig("key", "sha1", b""), None);
    assert_eq!(verify_gh_sig("key", "sha1=0", b""), None);
    assert_eq!(verify_gh_sig("key", "sha1=0g", b""), None);
    assert_eq!(verify_gh_sig("key", "sha1\u{e9}00", b""), None);
    assert_eq!(verify_gh_sig("key", "sha1=", b""), Some(false));
}

#[test]
fn cut_or_lengthened_tag_is_refused() {
    let header = signature("key", b"body");
    assert_eq!(header.len(), 45);
    for end in (5..45).step_by(2) {
        assert_eq!(verify_gh_sig("key", &header[..end], b"body"), Some(false));
        assert!(!verify_gh(Some("key"), Some(header[..end].as_bytes()), b"body"));
    }
    let longer = format!("{}00", header);
    assert_eq!(verify_gh_sig("key", &longer, b"body"), Some(false));
}

#[test]
fn first_five_bytes_are_not_looked_at() {
    let header = signature("key", b"body");
    let other = format!("xxxx={}", &header[5..]);
    assert_eq!(verify_gh_sig("key", &other, b"body"), Some(true));
}

#[test]
fn hook_is_accepted_when_it_is_signed() {
    let header = signature("s3cret", b"{}");
    assert!(verify_gh(Some("s3cret"), Some(header.as_bytes()), b"{}"));
    assert!(!verify_gh(Some("s3cret"), Some(header.as_bytes()), b"{ }"));
    assert!(!verify_gh(Some("other"), Some(header.as_bytes()), b"{}"));
    assert!(!verify_gh(Some("s3cret"), None, b"{}"));
    assert!(!verify_gh(None, None, b"{}"));
    assert!(!verify_gh(Some("s3cret"), Some(b"sha1=\xff\xff"), b"{}"));
}

#[test]
fn signature_is_checked_only_with_a_secret() {
    assert!(is_signature_checkable(Some(b"sha1=00"), Some("s")));
    assert!(is_signature_checkable(None, None));
    assert!(is_signature_checkable(Some(b"\xff"), None));
    assert!(!is_signature_checkable(Some(b"sha1=00"), None));
}
