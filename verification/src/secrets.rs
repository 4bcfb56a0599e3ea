//! Encryption of stored identity secrets: `v1.<nonce>.<ciphertext-and-tag>` with
//! XChaCha20-Poly1305, both segments unpadded base64url, the secret's purpose and context
//! bound as associated data; and keyed digests of opaque ids.
use vstd::prelude::*;

use crate::error::AppError;
use crate::external::{
    base64url_decoded, base64url_encoding, decode_base64url, encode_base64url, hkdf_key,
    hkdf_sha256_key, hmac_sha256, hmac_tag, seal_limit, text_bytes, url_safe_char, utf8_decoded,
    utf8_encoding, utf8_text, xchacha_open, xchacha_opened, xchacha_seal,
};
use crate::text::{push_str, str_equal};
use crate::web::split_on;

verus! {

pub const IDENTITY_CIPHERTEXT_VERSION: &'static str = "v1";

pub const IDENTITY_KEY_BYTES: usize = 32;

pub const GITHUB_TOKEN_PURPOSE: &'static str = "github-access-token";

pub const BROWSER_NONCE_PURPOSE: &'static str = "oauth-browser-nonce";

/// The associated data that binds a secret to its purpose and context.
pub open spec fn aad_text(purpose: Seq<char>, context: Seq<char>) -> Seq<char> {
    "gitexplore:v1:"@ + purpose + ":"@ + context
}

pub fn identity_aad(purpose: &str, context: &str) -> (r: String)
    ensures
        r@ == aad_text(purpose@, context@),
{
    let mut r = "gitexplore:v1:".to_owned();
    push_str(&mut r, purpose);
    push_str(&mut r, ":");
    push_str(&mut r, context);
    r
}

pub open spec fn key_rule_message() -> Seq<char> {
    "GITEXPLORE_IDENTITY_ENCRYPTION_KEY must be unpadded base64url encoding of exactly 32 random bytes"@
}

/// The keys derived from the configured master key: one for encryption, one for digests.
pub struct IdentityCipher {
    encryption_key: Vec<u8>,
    digest_key: Vec<u8>,
}

/// Why a stored secret could not be read, or the secret.
pub open spec fn decrypt_outcome(
    key: Seq<u8>,
    purpose: Seq<char>,
    context: Seq<char>,
    encoded: Seq<char>,
) -> Result<Seq<char>, Seq<char>> {
    let parts = split_on(encoded, '.');
    if !(parts.len() == 3 && parts[0] == "v1"@) {
        Err("identity secret has an unsupported ciphertext format"@)
    } else {
        match base64url_decoded(parts[1]) {
            None => Err("identity secret nonce is malformed"@),
            Some(nonce) => if nonce.len() != 24 {
                Err("identity secret nonce is malformed"@)
            } else {
                match base64url_decoded(parts[2]) {
                    None => Err("identity secret ciphertext is malformed"@),
                    Some(ciphertext) => match xchacha_opened(
                        key,
                        nonce,
                        utf8_encoding(aad_text(purpose, context)),
                        ciphertext,
                    ) {
                        None => Err(
                            "identity secret authentication failed; verify the configured encryption key"@,
                        ),
                        Some(plaintext) => match utf8_decoded(plaintext) {
                            None => Err("identity secret is not valid UTF-8"@),
                            Some(text) => Ok(text),
                        },
                    },
                }
            },
        }
    }
}

proof fn lemma_split_without_separator(s: Seq<char>, sep: char)
    requires
        !s.contains(sep),
    ensures
        split_on(s, sep) == seq![s],
    decreases s.len(),
{
    if s.len() > 0 {
        assert(!s.drop_last().contains(sep)) by {
            if s.drop_last().contains(sep) {
                let k = choose|k: int| 0 <= k < s.drop_last().len() && s.drop_last()[k] == sep;
                assert(s[k] == sep);
            }
        }
        lemma_split_without_separator(s.drop_last(), sep);
        assert(s[s.len() - 1] != sep);
        assert(s.drop_last().push(s.last()) == s);
        let p = split_on(s.drop_last(), sep);
        assert(split_on(s, sep) == p.update(p.len() - 1, p.last().push(s.last())));
        assert(p.update(p.len() - 1, p.last().push(s.last())) =~= seq![s]);
    } else {
        assert(s =~= Seq::<char>::empty());
    }
}

proof fn lemma_split_after_separator(x: Seq<char>, sep: char, y: Seq<char>)
    requires
        !y.contains(sep),
    ensures
        split_on(x + seq![sep] + y, sep) == split_on(x, sep).push(y),
    decreases y.len(),
{
    let s = x + seq![sep] + y;
    if y.len() == 0 {
        assert(y =~= Seq::<char>::empty());
        assert(s =~= x.push(sep));
        assert(s.drop_last() =~= x);
        assert(s.last() == sep);
        assert(split_on(s, sep) == split_on(s.drop_last(), sep).push(Seq::empty()));
    } else {
        assert(!y.drop_last().contains(sep)) by {
            if y.drop_last().contains(sep) {
                let k = choose|k: int| 0 <= k < y.drop_last().len() && y.drop_last()[k] == sep;
                assert(y[k] == sep);
            }
        }
        lemma_split_after_separator(x, sep, y.drop_last());
        assert(s.drop_last() == x + seq![sep] + y.drop_last());
        assert(s.last() == y.last());
        assert(y[y.len() - 1] != sep);
        assert(y.drop_last().push(y.last()) == y);
        let p = split_on(s.drop_last(), sep);
        assert(p == split_on(x, sep).push(y.drop_last()));
        assert(split_on(s, sep) == p.update(p.len() - 1, p.last().push(s.last())));
        assert(p.update(p.len() - 1, p.last().push(s.last())) =~= split_on(x, sep).push(y));
    }
}

proof fn lemma_no_dot(s: Seq<char>)
    requires
        forall|i: int| 0 <= i < s.len() ==> url_safe_char(#[trigger] s[i]),
    ensures
        !s.contains('.'),
{
    if s.contains('.') {
        let k = choose|k: int| 0 <= k < s.len() && s[k] == '.';
        assert(url_safe_char(s[k]));
    }
}

/// The stored form of a sealed secret: the version, the nonce and the ciphertext with its
/// tag, the last two in unpadded base64url, joined by dots.
pub open spec fn sealed_form(nonce: Seq<u8>, ciphertext: Seq<u8>) -> Seq<char> {
    "v1."@ + base64url_encoding(nonce) + "."@ + base64url_encoding(ciphertext)
}

/// Writes a nonce and a ciphertext in the stored form; the text splits on its dots into the
/// version and the two encodings, which decode back to the nonce and the ciphertext.
pub fn sealed_text(nonce: &Vec<u8>, ciphertext: &Vec<u8>) -> (r: String)
    ensures
        r@ == sealed_form(nonce@, ciphertext@),
        split_on(r@, '.') == seq!["v1"@, base64url_encoding(nonce@), base64url_encoding(ciphertext@)],
        base64url_decoded(base64url_encoding(nonce@)) == Some(nonce@),
        base64url_decoded(base64url_encoding(ciphertext@)) == Some(ciphertext@),
{
    let nonce_text = encode_base64url(nonce);
    let ciphertext_text = encode_base64url(ciphertext);
    let mut r = "v1.".to_owned();
    push_str(&mut r, nonce_text.as_str());
    push_str(&mut r, ".");
    push_str(&mut r, ciphertext_text.as_str());
    proof {
        reveal_strlit("v1.");
        reveal_strlit("v1");
        reveal_strlit(".");
        lemma_no_dot(nonce_text@);
        lemma_no_dot(ciphertext_text@);
        assert(!"v1"@.contains('.')) by {
            if "v1"@.contains('.') {
                let k = choose|k: int| 0 <= k < "v1"@.len() && "v1"@[k] == '.';
            }
        }
        lemma_split_without_separator("v1"@, '.');
        assert("v1."@ + nonce_text@ == "v1"@ + seq!['.'] + nonce_text@);
        lemma_split_after_separator("v1"@, '.', nonce_text@);
        assert(r@ == ("v1"@ + seq!['.'] + nonce_text@) + seq!['.'] + ciphertext_text@);
        lemma_split_after_separator("v1"@ + seq!['.'] + nonce_text@, '.', ciphertext_text@);
        assert(split_on(r@, '.') == seq!["v1"@, nonce_text@, ciphertext_text@]);
    }
    r
}

impl IdentityCipher {
    pub closed spec fn encryption_key(&self) -> Seq<u8> {
        self.encryption_key@
    }

    pub closed spec fn digest_key(&self) -> Seq<u8> {
        self.digest_key@
    }

    pub closed spec fn wf(&self) -> bool {
        self.encryption_key@.len() == 32 && self.digest_key@.len() == 32
    }

    /// Derives the encryption and digest keys from the configured master key with
    /// HKDF-SHA-256; succeeds exactly when the key is unpadded base64url of 32 bytes.
    pub fn from_secret(encoded_key: &str) -> (r: Result<IdentityCipher, AppError>)
        ensures
            base64url_decoded(encoded_key@) is None || base64url_decoded(encoded_key@)->0.len()
                != 32 ==> r is Err && r->Err_0 is Config && r->Err_0->Config_0@
                == key_rule_message(),
            r is Ok ==> {
                let master = base64url_decoded(encoded_key@)->0;
                let salt = utf8_encoding("gitexplore identity v1"@);
                &&& base64url_decoded(encoded_key@) is Some
                &&& master.len() == 32
                &&& r->Ok_0.wf()
                &&& Some(r->Ok_0.encryption_key()) == hkdf_key(
                    salt,
                    master,
                    utf8_encoding("xchacha20poly1305 encryption"@),
                )
                &&& Some(r->Ok_0.digest_key()) == hkdf_key(
                    salt,
                    master,
                    utf8_encoding("hmac-sha256 opaque ids"@),
                )
            },
            base64url_decoded(encoded_key@) is Some && base64url_decoded(encoded_key@)->0.len()
                == 32 ==> r is Ok,
    {
        let master = match decode_base64url(encoded_key) {
            Some(bytes) => bytes,
            None => {
                return Err(
                    AppError::Config(
                        "GITEXPLORE_IDENTITY_ENCRYPTION_KEY must be unpadded base64url encoding of exactly 32 random bytes".to_owned(),
                    ),
                );
            },
        };
        if master.len() != IDENTITY_KEY_BYTES {
            return Err(
                AppError::Config(
                    "GITEXPLORE_IDENTITY_ENCRYPTION_KEY must be unpadded base64url encoding of exactly 32 random bytes".to_owned(),
                ),
            );
        }
        let salt = text_bytes("gitexplore identity v1");
        let encryption_key = match hkdf_sha256_key(
            &salt,
            &master,
            &text_bytes("xchacha20poly1305 encryption"),
        ) {
            Some(key) => key,
            None => {
                return Err(
                    AppError::Config("identity encryption key derivation failed".to_owned()),
                );
            },
        };
        let digest_key = match hkdf_sha256_key(&salt, &master, &text_bytes("hmac-sha256 opaque ids")) {
            Some(key) => key,
            None => {
                return Err(AppError::Config("identity digest key derivation failed".to_owned()));
            },
        };
        Ok(IdentityCipher { encryption_key, digest_key })
    }

    /// Encrypts a secret under a fresh random nonce. Encryption succeeds exactly for the
    /// secrets under the cipher's length limit; the text is `v1.<nonce>.<ciphertext-and-tag>` for a
    /// 24-byte nonce under which the ciphertext opens, with the purpose and context as
    /// associated data, to the secret's UTF-8 bytes; decrypting the text with the same
    /// purpose and context gives the secret back.
    pub fn encrypt(&self, purpose: &str, context: &str, plaintext: &str) -> (r: Result<
        String,
        AppError,
    >)
        requires
            self.wf(),
        ensures
            r is Ok <==> utf8_encoding(plaintext@).len() < seal_limit(),
            r is Ok ==> exists|n: Seq<u8>, c: Seq<u8>|
                #![trigger sealed_form(n, c)]
                n.len() == 24 && xchacha_opened(
                    self.encryption_key(),
                    n,
                    utf8_encoding(aad_text(purpose@, context@)),
                    c,
                ) == Some(utf8_encoding(plaintext@)) && r->Ok_0@ == sealed_form(n, c),
            r is Ok ==> decrypt_outcome(self.encryption_key(), purpose@, context@, r->Ok_0@)
                == Ok::<Seq<char>, Seq<char>>(plaintext@),
            r is Ok ==> crate::text::has_prefix(r->Ok_0@, "v1."@),
            r is Err ==> r->Err_0 is Storage && r->Err_0->Storage_0@
                == "identity secret encryption failed"@,
    {
        let aad = text_bytes(identity_aad(purpose, context).as_str());
        let message = text_bytes(plaintext);
        let (nonce, ciphertext) = match xchacha_seal(&self.encryption_key, &aad, &message) {
            Some(sealed) => sealed,
            None => {
                return Err(AppError::Storage("identity secret encryption failed".to_owned()));
            },
        };
        let r = sealed_text(&nonce, &ciphertext);
        proof {
            reveal_strlit("v1.");
            assert(r@.take(3) =~= "v1."@);
        }
        Ok(r)
    }

    /// Reads a stored secret back; any change to the text, or another purpose or context,
    /// is refused by authentication.
    pub fn decrypt(&self, purpose: &str, context: &str, encoded: &str) -> (r: Result<
        String,
        AppError,
    >)
        requires
            self.wf(),
        ensures
            decrypt_outcome(self.encryption_key(), purpose@, context@, encoded@) is Ok ==> r is Ok
                && r->Ok_0@ == decrypt_outcome(
                self.encryption_key(),
                purpose@,
                context@,
                encoded@,
            )->Ok_0,
            decrypt_outcome(self.encryption_key(), purpose@, context@, encoded@) is Err ==> r is Err
                && r->Err_0 is Storage && r->Err_0->Storage_0@ == decrypt_outcome(
                self.encryption_key(),
                purpose@,
                context@,
                encoded@,
            )->Err_0,
    {
        let parts = crate::web::split_text(encoded, '.');
        if parts.len() != 3 || !str_equal(parts[0].as_str(), "v1") {
            return Err(
                AppError::Storage("identity secret has an unsupported ciphertext format".to_owned()),
            );
        }
        let nonce = match decode_base64url(parts[1].as_str()) {
            Some(bytes) => bytes,
            None => {
                return Err(AppError::Storage("identity secret nonce is malformed".to_owned()));
            },
        };
        if nonce.len() != 24 {
            return Err(AppError::Storage("identity secret nonce is malformed".to_owned()));
        }
        let ciphertext = match decode_base64url(parts[2].as_str()) {
            Some(bytes) => bytes,
            None => {
                return Err(AppError::Storage("identity secret ciphertext is malformed".to_owned()));
            },
        };
        let aad = text_bytes(identity_aad(purpose, context).as_str());
        let plaintext = match xchacha_open(&self.encryption_key, &nonce, &aad, &ciphertext) {
            Some(bytes) => bytes,
            None => {
                return Err(
                    AppError::Storage(
                        "identity secret authentication failed; verify the configured encryption key".to_owned(),
                    ),
                );
            },
        };
        match utf8_text(plaintext) {
            Some(text) => Ok(text),
            None => Err(AppError::Storage("identity secret is not valid UTF-8".to_owned())),
        }
    }

    /// The keyed digest that stands for an opaque id in storage: HMAC-SHA-256 over the
    /// purpose's associated data, a zero byte and the value, in unpadded base64url.
    pub fn digest(&self, purpose: &str, value: &str) -> (r: Result<String, AppError>)
        requires
            self.wf(),
        ensures
            r is Ok,
            hmac_tag(
                self.digest_key(),
                utf8_encoding(aad_text("opaque-id"@, purpose@)) + seq![0u8] + utf8_encoding(value@),
            ) is Some ==> r is Ok && r->Ok_0@ == base64url_encoding(
                hmac_tag(
                    self.digest_key(),
                    utf8_encoding(aad_text("opaque-id"@, purpose@)) + seq![0u8] + utf8_encoding(
                        value@,
                    ),
                )->0,
            ),
            hmac_tag(
                self.digest_key(),
                utf8_encoding(aad_text("opaque-id"@, purpose@)) + seq![0u8] + utf8_encoding(value@),
            ) is None ==> r is Err && r->Err_0 is Storage && r->Err_0->Storage_0@
                == "identity digest initialization failed"@,
    {
        let aad = identity_aad("opaque-id", purpose);
        let mut message = text_bytes(aad.as_str());
        message.push(0u8);
        let mut value_bytes = text_bytes(value);
        let ghost head = message@;
        message.append(&mut value_bytes);
        assert(message@ == utf8_encoding(aad_text("opaque-id"@, purpose@)) + seq![0u8]
            + utf8_encoding(value@));
        match hmac_sha256(&self.digest_key, &message) {
            Some(tag) => Ok(encode_base64url(&tag)),
            None => Err(AppError::Storage("identity digest initialization failed".to_owned())),
        }
    }
}

} // verus!
