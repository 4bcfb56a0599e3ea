use gitexplore::secrets::{identity_aad, sealed_text, IdentityCipher, GITHUB_TOKEN_PURPOSE};

const TEST_IDENTITY_KEY: &str = "HC7oBiY2DcgwFPFOplgK1nk77uOQV7x__mLWuIEBFz4";

#[test]
fn identity_cipher_rejects_tampering_and_context_swaps() {
    let cipher = IdentityCipher::from_secret(TEST_IDENTITY_KEY).expect("valid identity key");
    let ciphertext = cipher
        .encrypt(GITHUB_TOKEN_PURPOSE, "42", "github-token")
        .expect("encrypt token");

    assert_ne!(ciphertext, "github-token");
    assert_eq!(
        cipher
            .decrypt(GITHUB_TOKEN_PURPOSE, "42", &ciphertext)
            .expect("decrypt token"),
        "github-token"
    );
    assert!(
        cipher.decrypt(GITHUB_TOKEN_PURPOSE, "43", &ciphertext).is_err(),
        "associated data must bind ciphertext to its GitHub account"
    );

    let mut tampered = ciphertext.into_bytes();
    let last = tampered.last_mut().expect("ciphertext byte");
    *last = if *last == b'A' { b'B' } else { b'A' };
    let tampered = String::from_utf8(tampered).expect("ASCII ciphertext");
    assert!(
        cipher.decrypt(GITHUB_TOKEN_PURPOSE, "42", &tampered).is_err(),
        "authenticated encryption must reject modified ciphertext"
    );
}

#[test]
fn malformed_secrets_and_keys_are_refused() {
    assert!(IdentityCipher::from_secret("not-a-32-byte-key").is_err());
    let cipher = IdentityCipher::from_secret(TEST_IDENTITY_KEY).expect("valid identity key");
    let error = cipher.decrypt("p", "c", "v2.AAAA.AAAA").expect_err("wrong version");
    assert_eq!(
        error.message(),
        "storage error: identity secret has an unsupported ciphertext format"
    );
    let error = cipher.decrypt("p", "c", "v1.AAAA.AAAA").expect_err("short nonce");
    assert_eq!(error.message(), "storage error: identity secret nonce is malformed");
    assert!(cipher.decrypt("p", "c", "v1.a.b.c").is_err());
    assert_eq!(identity_aad("purpose", "ctx"), "gitexplore:v1:purpose:ctx");
}

#[test]
fn digests_are_stable_and_keyed_by_purpose() {
    let cipher = IdentityCipher::from_secret(TEST_IDENTITY_KEY).expect("valid identity key");
    let a = cipher.digest("session", "abc").expect("digest");
    assert_eq!(a, cipher.digest("session", "abc").expect("digest"));
    assert_ne!(a, cipher.digest("oauth-state", "abc").expect("digest"));
    assert_eq!(a.len(), 43);
}

#[test]
fn sealed_text_joins_version_nonce_and_ciphertext() {
    let text = sealed_text(&vec![0u8; 24], &vec![1u8, 2, 3]);
    assert_eq!(text, "v1.AAAAAAAAAAAAAAAAAAAAAAAAAAAAAAAA.AQID");
}

#[test]
fn encrypted_secrets_take_the_stored_form_with_a_24_byte_nonce() {
    let cipher = IdentityCipher::from_secret(TEST_IDENTITY_KEY).expect("valid identity key");
    let text = cipher.encrypt(GITHUB_TOKEN_PURPOSE, "42", "github-token").expect("encrypt");
    let parts: Vec<&str> = text.split('.').collect();
    assert_eq!(parts.len(), 3);
    assert_eq!(parts[0], "v1");
    assert_eq!(parts[1].len(), 32);
    // 12 bytes of secret and a 16-byte tag.
    assert_eq!(parts[2].len(), 38);
    let again = cipher.encrypt(GITHUB_TOKEN_PURPOSE, "42", "github-token").expect("encrypt");
    assert_ne!(text, again);
    assert_eq!(cipher.decrypt(GITHUB_TOKEN_PURPOSE, "42", &again).unwrap(), "github-token");
}

#[test]
fn a_master_key_of_32_bytes_is_accepted_and_others_are_refused() {
    assert!(IdentityCipher::from_secret("AAAAAAAAAAAAAAAAAAAAAAAAAAAAAAAAAAAAAAAAAAA").is_ok());
    let short = IdentityCipher::from_secret("AAAAAAAAAAAAAAAAAAAAAAAAAAAAAAAAAAAAAAAAAA").err().unwrap();
    assert_eq!(
        short.message(),
        "configuration error: GITEXPLORE_IDENTITY_ENCRYPTION_KEY must be unpadded base64url encoding of exactly 32 random bytes"
    );
    assert!(IdentityCipher::from_secret("AAAAAAAAAAAAAAAAAAAAAAAAAAAAAAAAAAAAAAAAAAA=").is_err());
}
