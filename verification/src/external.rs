//! The calls this library makes into outside crates: `url`, `base64`, and the cryptography
//! crates `hkdf`, `hmac`, `sha2` and `chacha20poly1305`.
use base64::Engine;
use chacha20poly1305::aead::{Aead, AeadCore, KeyInit, OsRng, Payload};
use hmac::Mac;
use vstd::prelude::*;

verus! {

/// The parts of a parsed URL that the library reads.
pub ghost struct UrlView {
    pub scheme: Seq<char>,
    pub host: Option<Seq<char>>,
    pub username: Seq<char>,
    pub password: Option<Seq<char>>,
    pub path: Seq<char>,
    pub query: Option<Seq<char>>,
    pub fragment: Option<Seq<char>>,
    pub port: Option<u16>,
    pub serialized: Seq<char>,
}

/// A parsed URL, held as plain values.
pub struct ParsedUrl {
    pub scheme: String,
    pub host: Option<String>,
    pub username: String,
    pub password: Option<String>,
    pub path: String,
    pub query: Option<String>,
    pub fragment: Option<String>,
    /// The explicit port, or the scheme's default port.
    pub port: Option<u16>,
    /// The URL's serialisation.
    pub serialized: String,
}

pub open spec fn opt_view(o: Option<String>) -> Option<Seq<char>> {
    match o {
        Some(s) => Some(s@),
        None => None,
    }
}

impl View for ParsedUrl {
    type V = UrlView;

    open spec fn view(&self) -> UrlView {
        UrlView {
            scheme: self.scheme@,
            host: opt_view(self.host),
            username: self.username@,
            password: opt_view(self.password),
            path: self.path@,
            query: opt_view(self.query),
            fragment: opt_view(self.fragment),
            port: self.port,
            serialized: self.serialized@,
        }
    }
}

/// What `url::Url::parse` makes of a text: the parsed URL, or the parse error's message.
pub uninterp spec fn parsed_url(input: Seq<char>) -> Result<UrlView, Seq<char>>;

/// What `url::Url::join` makes of a base URL text and a reference, if it succeeds.
pub uninterp spec fn joined_url(base: Seq<char>, reference: Seq<char>) -> Option<Seq<char>>;

/// What base64's `URL_SAFE_NO_PAD` engine decodes a text to, if it is valid.
pub uninterp spec fn base64url_decoded(input: Seq<char>) -> Option<Seq<u8>>;

/// Parses a URL with `url::Url::parse` and reads its parts (`scheme`, `host_str`, `username`,
/// `password`, `path`, `query`, `fragment`, `port_or_known_default`, `to_string`). The result
/// is the named function of the input text; nothing more is claimed of it.
#[verifier::external_body]
pub(crate) fn parse_url(input: &str) -> (r: Result<ParsedUrl, String>)
    ensures
        parsed_url(input@) is Ok ==> r is Ok && r->Ok_0@ == parsed_url(input@)->Ok_0,
        parsed_url(input@) is Err ==> r is Err && r->Err_0@ == parsed_url(input@)->Err_0,
{
    match url::Url::parse(input) {
        Ok(u) => Ok(ParsedUrl {
            scheme: u.scheme().to_string(), host: u.host_str().map(str::to_string),
            username: u.username().to_string(), password: u.password().map(str::to_string),
            path: u.path().to_string(), query: u.query().map(str::to_string),
            fragment: u.fragment().map(str::to_string), port: u.port_or_known_default(),
            serialized: u.to_string(),
        }),
        Err(e) => Err(e.to_string()),
    }
}

/// Parses `base` and resolves `reference` against it with `url::Url::join`, returning the
/// joined URL's serialisation. The result is the named function of the two texts.
#[verifier::external_body]
pub(crate) fn join_url(base: &str, reference: &str) -> (r: Option<String>)
    ensures
        joined_url(base@, reference@) is Some ==> r is Some && r->0@ == joined_url(
            base@,
            reference@,
        )->0,
        joined_url(base@, reference@) is None ==> r is None,
{
    match url::Url::parse(base) {
        Ok(u) => match u.join(reference) {
            Ok(j) => Some(j.to_string()),
            Err(_) => None,
        },
        Err(_) => None,
    }
}

/// Decodes unpadded URL-safe base64 with base64's `URL_SAFE_NO_PAD` engine. The result is the
/// named function of the text.
#[verifier::external_body]
pub(crate) fn decode_base64url(input: &str) -> (r: Option<Vec<u8>>)
    ensures
        base64url_decoded(input@) is Some ==> r is Some && r->0@ == base64url_decoded(input@)->0,
        base64url_decoded(input@) is None ==> r is None,
{
    base64::engine::general_purpose::URL_SAFE_NO_PAD.decode(input).ok()
}

/// What base64's `URL_SAFE_NO_PAD` engine encodes bytes as.
pub uninterp spec fn base64url_encoding(bytes: Seq<u8>) -> Seq<char>;

/// The 32-byte key that HKDF-SHA-256 (`hkdf::Hkdf::<Sha256>`) extracts from `ikm` with `salt`
/// and expands with `info`, if the expansion succeeds.
pub uninterp spec fn hkdf_key(salt: Seq<u8>, ikm: Seq<u8>, info: Seq<u8>) -> Option<Seq<u8>>;

/// What XChaCha20-Poly1305 decrypts and authenticates to, if it does.
pub uninterp spec fn xchacha_opened(key: Seq<u8>, nonce: Seq<u8>, aad: Seq<u8>, ciphertext: Seq<u8>) -> Option<Seq<u8>>;

/// The HMAC-SHA-256 tag of a message, if the key is accepted.
pub uninterp spec fn hmac_tag(key: Seq<u8>, message: Seq<u8>) -> Option<Seq<u8>>;

/// What `String::from_utf8` makes of bytes, if they are valid UTF-8.
pub uninterp spec fn utf8_decoded(bytes: Seq<u8>) -> Option<Seq<char>>;

/// The UTF-8 encoding of one character: one to four bytes, the lead byte marking the
/// length and each continuation byte carrying six bits.
pub open spec fn utf8_char(c: char) -> Seq<u8> {
    let v = c as int;
    if v < 0x80 {
        seq![v as u8]
    } else if v < 0x800 {
        seq![(0xC0 + v / 64) as u8, (0x80 + v % 64) as u8]
    } else if v < 0x10000 {
        seq![(0xE0 + v / 4096) as u8, (0x80 + (v / 64) % 64) as u8, (0x80 + v % 64) as u8]
    } else {
        seq![
            (0xF0 + v / 262144) as u8,
            (0x80 + (v / 4096) % 64) as u8,
            (0x80 + (v / 64) % 64) as u8,
            (0x80 + v % 64) as u8,
        ]
    }
}

/// The UTF-8 encoding of a text: its characters' encodings, in order.
pub open spec fn utf8_encoding(text: Seq<char>) -> Seq<u8>
    decreases text.len(),
{
    if text.len() == 0 {
        Seq::empty()
    } else {
        utf8_encoding(text.drop_last()) + utf8_char(text.last())
    }
}

/// A character of the URL-safe base64 alphabet.
pub open spec fn url_safe_char(c: char) -> bool {
    ('A' <= c && c <= 'Z') || ('a' <= c && c <= 'z') || ('0' <= c && c <= '9') || c == '-' || c == '_'
}

pub open spec fn opt_bytes(o: Option<Vec<u8>>) -> Option<Seq<u8>> {
    match o {
        Some(v) => Some(v@),
        None => None,
    }
}

/// Encodes bytes as unpadded URL-safe base64 with base64's `URL_SAFE_NO_PAD` engine. The
/// text is the named encoding; it uses only the URL-safe alphabet, and the engine decodes it
/// back to the same bytes, as the crate documents for its engines.
#[verifier::external_body]
pub(crate) fn encode_base64url(bytes: &Vec<u8>) -> (r: String)
    ensures
        r@ == base64url_encoding(bytes@),
        forall|i: int| 0 <= i < r@.len() ==> url_safe_char(#[trigger] r@[i]),
        base64url_decoded(r@) == Some(bytes@),
{
    base64::engine::general_purpose::URL_SAFE_NO_PAD.encode(bytes)
}

/// The UTF-8 bytes of a text (`str::as_bytes`); `String::from_utf8` gives the text back.
#[verifier::external_body]
pub(crate) fn text_bytes(text: &str) -> (r: Vec<u8>)
    ensures
        r@ == utf8_encoding(text@),
        utf8_decoded(r@) == Some(text@),
{
    text.as_bytes().to_vec()
}

/// Reads bytes as UTF-8 text with `String::from_utf8`.
#[verifier::external_body]
pub(crate) fn utf8_text(bytes: Vec<u8>) -> (r: Option<String>)
    ensures
        opt_view(r) == utf8_decoded(bytes@),
{
    String::from_utf8(bytes).ok()
}

/// Derives a 32-byte key with `hkdf::Hkdf::<sha2::Sha256>`: `new(Some(salt), ikm)` then
/// `expand(info, ..)` into 32 bytes. The result is the named key; `expand` refuses only an
/// output longer than 255 digests, so 32 bytes are always derived.
#[verifier::external_body]
pub(crate) fn hkdf_sha256_key(salt: &Vec<u8>, ikm: &Vec<u8>, info: &Vec<u8>) -> (r: Option<Vec<u8>>)
    ensures
        opt_bytes(r) == hkdf_key(salt@, ikm@, info@),
        r is Some,
        r is Some ==> r->0@.len() == 32,
{
    let hkdf = hkdf::Hkdf::<sha2::Sha256>::new(Some(salt.as_slice()), ikm.as_slice());
    let mut okm = [0u8; 32];
    match hkdf.expand(info.as_slice(), &mut okm) {
        Ok(()) => Some(okm.to_vec()),
        Err(_) => None,
    }
}

/// The longest plaintext XChaCha20-Poly1305 encrypts, in bytes: the cipher refuses a message
/// of `u32::MAX` or more 64-byte blocks.
pub open spec fn seal_limit() -> int {
    274_877_906_880
}

/// Encrypts with XChaCha20-Poly1305 under a fresh random 24-byte nonce from the operating
/// system (`generate_nonce(&mut OsRng)`). The nonce is random, so no name is given to the
/// result; what holds of every outcome is that encryption succeeds exactly for a plaintext
/// under the cipher's block limit, that the nonce has 24 bytes, and that decrypting the
/// ciphertext with the same key, nonce and associated data gives the plaintext back.
#[verifier::external_body]
pub(crate) fn xchacha_seal(key: &Vec<u8>, aad: &Vec<u8>, plaintext: &Vec<u8>) -> (r: Option<(Vec<u8>, Vec<u8>)>)
    requires
        key@.len() == 32,
    ensures
        r is Some <==> plaintext@.len() < seal_limit(),
        r is Some ==> {
            let (nonce, ciphertext) = r->0;
            nonce@.len() == 24 && xchacha_opened(key@, nonce@, aad@, ciphertext@) == Some(
                plaintext@,
            )
        },
{
    let cipher = chacha20poly1305::XChaCha20Poly1305::new(chacha20poly1305::Key::from_slice(key));
    let nonce = chacha20poly1305::XChaCha20Poly1305::generate_nonce(&mut OsRng);
    let sealed = cipher.encrypt(&nonce, Payload { msg: plaintext, aad });
    sealed.ok().map(|ciphertext| (nonce.to_vec(), ciphertext))
}

/// Decrypts and authenticates with XChaCha20-Poly1305. The result is the named function of
/// the key, nonce, associated data and ciphertext.
#[verifier::external_body]
pub(crate) fn xchacha_open(key: &Vec<u8>, nonce: &Vec<u8>, aad: &Vec<u8>, ciphertext: &Vec<u8>) -> (r:
    Option<Vec<u8>>)
    requires
        key@.len() == 32,
        nonce@.len() == 24,
    ensures
        opt_bytes(r) == xchacha_opened(key@, nonce@, aad@, ciphertext@),
{
    let cipher = chacha20poly1305::XChaCha20Poly1305::new(chacha20poly1305::Key::from_slice(key));
    let nonce = chacha20poly1305::XNonce::from_slice(nonce);
    cipher.decrypt(nonce, Payload { msg: ciphertext, aad }).ok()
}

/// The HMAC-SHA-256 tag (`hmac::Hmac::<sha2::Sha256>`) of a message under a key; HMAC
/// accepts a key of any length, so a tag is always given.
#[verifier::external_body]
pub(crate) fn hmac_sha256(key: &Vec<u8>, message: &Vec<u8>) -> (r: Option<Vec<u8>>)
    ensures
        opt_bytes(r) == hmac_tag(key@, message@),
        r is Some,
{
    let mut mac = <hmac::Hmac<sha2::Sha256> as Mac>::new_from_slice(key).ok()?;
    mac.update(message);
    Some(mac.finalize().into_bytes().to_vec())
}

/// A lowercase hexadecimal digit.
pub open spec fn lower_hex_digit(c: char) -> bool {
    ('0' <= c && c <= '9') || ('a' <= c && c <= 'f')
}

/// The text of a random (version 4) UUID: 36 characters, hyphens at 8, 13, 18 and 23,
/// lowercase hexadecimal elsewhere, the version digit `4` at 14 and the variant digit at 19
/// one of `8`, `9`, `a`, `b`.
pub open spec fn v4_uuid_text(s: Seq<char>) -> bool {
    &&& s.len() == 36
    &&& forall|i: int|
        0 <= i < 36 ==> if i == 8 || i == 13 || i == 18 || i == 23 {
            s[i] == '-'
        } else {
            lower_hex_digit(#[trigger] s[i])
        }
    &&& s[14] == '4'
    &&& s[19] == '8' || s[19] == '9' || s[19] == 'a' || s[19] == 'b'
}

/// A new random identifier: `uuid::Uuid::new_v4`, as text. Its digits come from the
/// system's random source, so only its form is claimed: `new_v4` sets the version and
/// variant bits, and `Display` writes the hyphenated lowercase form.
#[verifier::external_body]
pub(crate) fn new_identifier() -> (r: String)
    ensures
        v4_uuid_text(r@),
{
    uuid::Uuid::new_v4().to_string()
}

} // verus!
