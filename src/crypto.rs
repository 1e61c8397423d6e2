//! Key derivation and authenticated encryption of the serialized record set.
use vstd::prelude::*;
use vstd::utf8::{encode_utf8, valid_utf8, encode_utf8_decode_utf8, encode_utf8_valid_utf8};
use aes_gcm::aead::{Aead, Payload};
use aes_gcm::{Aes256Gcm, KeyInit};
use crate::container::{ContentView, EncryptedFileContent, NONCE_LEN, SALT_LEN, TAG_LEN};
use crate::error::StoreError;

verus! {

/// scrypt's cost parameters of the format: N = 2^14, r = 8, p = 1, and a 32-byte key.
pub const SCRYPT_LOG_N: u8 = 14;
pub const SCRYPT_R: u32 = 8;
pub const SCRYPT_P: u32 = 1;
pub const KEY_LEN: usize = 32;
/// The longest message AES-GCM encrypts, in bytes.
pub const P_MAX: u64 = 68719476736;

/// The key that scrypt derives from a password and a salt, with the given cost parameters.
pub uninterp spec fn scrypt_of(password: Seq<u8>, salt: Seq<u8>, log_n: u8, r: u32, p: u32, len: usize) -> Seq<u8>;

/// What AES-256-GCM makes of a message: the ciphertext followed by the 16-byte tag.
pub uninterp spec fn aes256gcm_seal(key: Seq<u8>, nonce: Seq<u8>, aad: Seq<u8>, msg: Seq<u8>) -> Seq<u8>;

#[verifier::external_type_specification]
#[verifier::external_body]
pub struct ExGetrandomError(getrandom::Error);

/// Relies on getrandom::getrandom: it fills the whole buffer from the OS entropy
/// source, or reports that the source failed. Nothing is promised of the bytes.
#[verifier::external_body]
fn fill_random(buf: &mut Vec<u8>) -> (r: Result<(), getrandom::Error>)
    ensures
        final(buf)@.len() == old(buf)@.len(),
{
    getrandom::getrandom(buf.as_mut_slice())
}

/// Relies on scrypt::Params::new and scrypt::scrypt: with the parameters accepted, the
/// output buffer of `len` bytes is filled with the derived key. `Params::new` accepts
/// every parameter set in the bounds below, and `scrypt` fails only on an empty or
/// oversized output.
#[verifier::external_body]
fn scrypt_derive(password: &[u8], salt: &[u8], log_n: u8, r: u32, p: u32, len: usize) -> (out: Option<Vec<u8>>)
    ensures
        out matches Some(k) ==> k@ == scrypt_of(password@, salt@, log_n, r, p, len),
        out matches Some(k) ==> k@.len() == len,
        (0 < r <= 64 && 0 < p <= 64 && log_n < 16 && 10 <= len <= 64) ==> out is Some,
{
    let params = scrypt::Params::new(log_n, r, p, len).ok()?;
    let mut key = vec![0u8; len];
    scrypt::scrypt(password, salt, &params, &mut key).ok()?;
    Some(key)
}

/// Relies on aes_gcm's `Aes256Gcm::encrypt`: the result is the ciphertext with the tag
/// appended, 16 bytes longer than the message; it fails only when the message or the
/// associated data is longer than 2^36 bytes.
#[verifier::external_body]
fn gcm_seal(key: &[u8], nonce: &[u8], aad: &[u8], msg: &[u8]) -> (r: Option<Vec<u8>>)
    requires
        key@.len() == KEY_LEN,
        nonce@.len() == NONCE_LEN,
    ensures
        r is Some <==> (msg@.len() <= P_MAX && aad@.len() <= P_MAX),
        r matches Some(c) ==> c@ == aes256gcm_seal(key@, nonce@, aad@, msg@),
        r matches Some(c) ==> c@.len() == msg@.len() + TAG_LEN,
{
    let cipher = Aes256Gcm::new(aes_gcm::Key::<Aes256Gcm>::from_slice(key));
    let nonce = aes_gcm::aead::Nonce::<Aes256Gcm>::from_slice(nonce);
    cipher.encrypt(nonce, Payload { msg, aad }).ok()
}

/// Lengths that AES-GCM accepts for associated data and message.
pub open spec fn within_gcm_limits(aad: Seq<u8>, msg: Seq<u8>) -> bool {
    msg.len() <= P_MAX && aad.len() <= P_MAX
}

/// `r` is `Some(m)` for each message `m` that `sealed` is the sealing of.
pub open spec fn opens_with(r: Option<Vec<u8>>, key: Seq<u8>, nonce: Seq<u8>, aad: Seq<u8>, sealed: Seq<u8>) -> bool {
    forall|m: Seq<u8>| #[trigger] aes256gcm_seal(key, nonce, aad, m) == sealed && within_gcm_limits(aad, m)
        ==> (r matches Some(p) && p@ == m)
}

/// Relies on aes_gcm's `Aes256Gcm::decrypt`: it returns the message exactly when the
/// tag verifies, that is when the input is what `encrypt` makes of that message under
/// the same key, nonce and associated data.
#[verifier::external_body]
fn gcm_open(key: &[u8], nonce: &[u8], aad: &[u8], sealed: &[u8]) -> (r: Option<Vec<u8>>)
    requires
        key@.len() == KEY_LEN,
        nonce@.len() == NONCE_LEN,
    ensures
        opens_with(r, key@, nonce@, aad@, sealed@),
        r matches Some(p) ==> p@.len() + TAG_LEN == sealed@.len(),
        r matches Some(p) ==> (p@.len() <= P_MAX ==> sealed@ == aes256gcm_seal(key@, nonce@, aad@, p@)),
{
    let cipher = Aes256Gcm::new(aes_gcm::Key::<Aes256Gcm>::from_slice(key));
    let nonce = aes_gcm::aead::Nonce::<Aes256Gcm>::from_slice(nonce);
    cipher.decrypt(nonce, Payload { msg: sealed, aad }).ok()
}

/// Relies on String::from_utf8: it accepts exactly the valid UTF-8 byte sequences, and
/// the string it returns is made of those bytes.
#[verifier::external_body]
fn utf8_string(bytes: Vec<u8>) -> (r: Option<String>)
    ensures
        r is Some <==> valid_utf8(bytes@),
        r matches Some(s) ==> encode_utf8(s@) == bytes@,
{
    String::from_utf8(bytes).ok()
}

/// The associated data bound to every ciphertext: the bytes "cred-man".
pub open spec fn aad_spec() -> Seq<u8> {
    seq![99u8, 114u8, 101u8, 100u8, 45u8, 109u8, 97u8, 110u8]
}

fn aad() -> (r: Vec<u8>)
    ensures
        r@ == aad_spec(),
{
    let mut r: Vec<u8> = Vec::new();
    r.push(99u8);
    r.push(114u8);
    r.push(101u8);
    r.push(100u8);
    r.push(45u8);
    r.push(109u8);
    r.push(97u8);
    r.push(110u8);
    assert(r@ =~= aad_spec());
    r
}

/// The key of a password under a salt.
pub open spec fn key_spec(salt: Seq<u8>, password: Seq<char>) -> Seq<u8> {
    scrypt_of(encode_utf8(password), salt, SCRYPT_LOG_N, SCRYPT_R, SCRYPT_P, KEY_LEN)
}

/// The container that sealing `plaintext` under `password` with the given salt and nonce makes.
pub open spec fn sealed_spec(plaintext: Seq<char>, password: Seq<char>, salt: Seq<u8>, nonce: Seq<u8>) -> ContentView {
    let msg = encode_utf8(plaintext);
    let out = aes256gcm_seal(key_spec(salt, password), nonce, aad_spec(), msg);
    ContentView {
        salt,
        nonce,
        tag: out.subrange(msg.len() as int, out.len() as int),
        ciphertext: out.subrange(0, msg.len() as int),
    }
}

/// `plaintext` is what the container `c` holds under `password`.
pub open spec fn opens_to(c: ContentView, password: Seq<char>, plaintext: Seq<char>) -> bool {
    let msg = encode_utf8(plaintext);
    &&& msg.len() <= P_MAX
    &&& c.ciphertext + c.tag == aes256gcm_seal(key_spec(c.salt, password), c.nonce, aad_spec(), msg)
}

/// What decrypting `c` under `password` may give: the text that `c` holds, whenever it
/// holds one; and, below the cipher's size limit, no text that it does not hold.
pub open spec fn decrypted(c: ContentView, password: Seq<char>, r: Option<String>) -> bool {
    &&& forall|s: Seq<char>| #[trigger] opens_to(c, password, s) ==> (r matches Some(t) && t@ == s)
    &&& r matches Some(t) ==> (c.ciphertext.len() <= P_MAX ==> opens_to(c, password, t@))
}

/// `n` bytes from the OS entropy source.
pub fn generate_salt(n: usize) -> (r: Result<Vec<u8>, StoreError>)
    ensures
        r matches Ok(v) ==> v@.len() == n,
        r matches Err(e) ==> e == StoreError::EntropyError,
{
    let mut data = vec![0u8; n];
    match fill_random(&mut data) {
        Ok(()) => Ok(data),
        Err(_) => Err(StoreError::EntropyError),
    }
}

/// The 32-byte key that scrypt derives from `password` and `salt`.
pub fn derive_key(salt: &[u8], password: &str) -> (r: Vec<u8>)
    ensures
        r@ == key_spec(salt@, password@),
        r@.len() == KEY_LEN,
{
    let key = scrypt_derive(password.as_bytes(), salt, SCRYPT_LOG_N, SCRYPT_R, SCRYPT_P, KEY_LEN);
    key.unwrap()
}

/// Encrypts `plaintext` under `password` with the given salt and nonce.
pub fn seal(plaintext: &str, password: &str, salt: Vec<u8>, nonce: Vec<u8>) -> (r: Result<EncryptedFileContent, StoreError>)
    requires
        salt@.len() == SALT_LEN,
        nonce@.len() == NONCE_LEN,
    ensures
        r matches Ok(c) ==> c@ == sealed_spec(plaintext@, password@, salt@, nonce@) && c@.wf(),
        r matches Ok(c) ==> opens_to(c@, password@, plaintext@),
        r matches Ok(c) ==> c@.ciphertext.len() == encode_utf8(plaintext@).len(),
        r is Err <==> encode_utf8(plaintext@).len() > P_MAX,
        r matches Err(e) ==> e == StoreError::PlaintextTooLong,
{
    let key = derive_key(salt.as_slice(), password);
    let aad = aad();
    let msg = plaintext.as_bytes();
    match gcm_seal(key.as_slice(), nonce.as_slice(), aad.as_slice(), msg) {
        None => Err(StoreError::PlaintextTooLong),
        Some(out) => {
            let n = msg.len();
            let ciphertext = crate::container::copy_range(out.as_slice(), 0, n);
            let tag = crate::container::copy_range(out.as_slice(), n, out.len());
            assert(ciphertext@ + tag@ =~= out@);
            Ok(EncryptedFileContent::from_parts(salt, nonce, tag, ciphertext))
        },
    }
}

/// Encrypts `plaintext` under `password`, with a fresh random salt and nonce.
pub fn encrypt(plaintext: &str, password: &str) -> (r: Result<EncryptedFileContent, StoreError>)
    ensures
        r matches Ok(c) ==> c@ == sealed_spec(plaintext@, password@, c@.salt, c@.nonce) && c@.wf(),
        r matches Ok(c) ==> opens_to(c@, password@, plaintext@),
        r matches Ok(c) ==> c@.ciphertext.len() == encode_utf8(plaintext@).len(),
        r matches Err(e) ==> e == StoreError::EntropyError || (e == StoreError::PlaintextTooLong
            && encode_utf8(plaintext@).len() > P_MAX),
        encode_utf8(plaintext@).len() > P_MAX ==> r is Err,
{
    let salt = generate_salt(SALT_LEN)?;
    let nonce = generate_salt(NONCE_LEN)?;
    seal(plaintext, password, salt, nonce)
}

/// The plaintext that `data` holds under `password`, or `None` when the tag does not
/// verify (a wrong password, or a damaged container) or the plaintext is no UTF-8 text.
pub fn decrypt(data: &EncryptedFileContent, password: &str) -> (r: Option<String>)
    requires
        data@.wf(),
    ensures
        decrypted(data@, password@, r),
        r matches Some(t) ==> encode_utf8(t@).len() == data@.ciphertext.len(),
{
    let key = derive_key(data.salt(), password);
    let aad = aad();
    let mut sealed: Vec<u8> = Vec::new();
    crate::container::append_bytes(&mut sealed, data.ciphertext());
    crate::container::append_bytes(&mut sealed, data.tag());
    let opened = gcm_open(key.as_slice(), data.nonce(), aad.as_slice(), sealed.as_slice());
    match opened {
        None => {
            proof {
                assert forall|s: Seq<char>| !#[trigger] opens_to(data@, password@, s) by {
                    if opens_to(data@, password@, s) {
                        assert(aes256gcm_seal(key@, data@.nonce, aad@, encode_utf8(s)) == sealed@);
                    }
                }
            }
            None
        },
        Some(p) => {
            let ghost pb = p@;
            let text = utf8_string(p);
            proof {
                assert forall|s: Seq<char>| #[trigger] opens_to(data@, password@, s) implies text matches Some(
                    t,
                ) && t@ == s by {
                    assert(aes256gcm_seal(key@, data@.nonce, aad@, encode_utf8(s)) == sealed@);
                    encode_utf8_valid_utf8(s);
                    encode_utf8_decode_utf8(s);
                    let t = text->0;
                    encode_utf8_decode_utf8(t@);
                }
                if text is Some && data@.ciphertext.len() <= P_MAX {
                    let t = text->0;
                    assert(encode_utf8(t@).len() <= P_MAX);
                }
            }
            text
        },
    }
}

/// Round trip: when `c` is what encrypting `plaintext` under `password` produced, any
/// result that decrypting `c` under the same password may give is `plaintext` itself.
pub proof fn lemma_round_trip(c: ContentView, plaintext: Seq<char>, password: Seq<char>, r: Option<String>)
    requires
        opens_to(c, password, plaintext),
        decrypted(c, password, r),
    ensures
        r matches Some(t) && t@ == plaintext,
{
}

} // verus!
