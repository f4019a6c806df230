//! Sealing and opening secrets (registry credentials and the like) with
//! ChaCha20-Poly1305, under a caller-supplied key and 96-bit nonce.
use vstd::prelude::*;

verus! {

/// Key length that ChaCha20-Poly1305 admits, in bytes.
pub const KEY_LEN: usize = 32;

/// Length of the authentication tag appended to a sealed blob, in bytes.
pub const TAG_LEN: usize = 16;

/// The longest plaintext that ChaCha20-Poly1305 seals under one nonce.
pub const MAX_PLAINTEXT_LEN: u64 = 274_877_906_880;

/// The blob (ciphertext followed by its tag) that ChaCha20-Poly1305 makes
/// of `plaintext` under `key` and `nonce`, with empty associated data.
pub uninterp spec fn chacha20_poly1305_sealed(key: Seq<u8>, nonce: Seq<u8>, plaintext: Seq<u8>) -> Seq<u8>;

/// Relies on ring's `UnboundKey::new` for `CHACHA20_POLY1305` (refuses a key
/// that is not 32 bytes long) and `LessSafeKey::seal_in_place_append_tag`
/// with empty associated data (refuses input longer than 274_877_906_880
/// bytes; else encrypts in place and appends the 16-byte tag).
#[verifier::external_body]
fn chacha_seal(key: &[u8], nonce: [u8; 12], plaintext: &[u8]) -> (r: Option<Vec<u8>>)
    ensures
        r is Some <==> (key@.len() == KEY_LEN && plaintext@.len() <= MAX_PLAINTEXT_LEN),
        r matches Some(b) ==> b@ == chacha20_poly1305_sealed(key@, nonce@, plaintext@),
        r matches Some(b) ==> b@.len() == plaintext@.len() + TAG_LEN,
{
    let key = ring::aead::UnboundKey::new(&ring::aead::CHACHA20_POLY1305, key).ok()?;
    let key = ring::aead::LessSafeKey::new(key);
    let mut data = plaintext.to_vec();
    let nonce = ring::aead::Nonce::assume_unique_for_key(nonce);
    key.seal_in_place_append_tag(nonce, ring::aead::Aad::empty(), &mut data).ok()?;
    Some(data)
}

/// The plaintext that an opening gave, if any.
pub open spec fn opened(r: Option<Vec<u8>>) -> Option<Seq<u8>> {
    match r {
        Some(v) => Some(v@),
        None => None,
    }
}

/// Relies on ring's `UnboundKey::new` for `CHACHA20_POLY1305` and
/// `LessSafeKey::open_in_place` with empty associated data: it refuses a key
/// that is not 32 bytes long and a blob shorter than the tag; it gives back
/// the plaintext of a blob that sealing made under the same key and nonce;
/// and what it gives back decrypts a blob whose tag verified, so sealing it
/// again under that key and nonce makes the same blob.
#[verifier::external_body]
fn chacha_open(key: &[u8], nonce: [u8; 12], sealed: &[u8]) -> (r: Option<Vec<u8>>)
    ensures
        r is Some ==> key@.len() == KEY_LEN && sealed@.len() >= TAG_LEN,
        r matches Some(p) ==> p@.len() + TAG_LEN == sealed@.len(),
        r matches Some(q) ==> sealed@ == chacha20_poly1305_sealed(key@, nonce@, q@),
        key@.len() == KEY_LEN ==> forall|p: Seq<u8>|
            p.len() <= MAX_PLAINTEXT_LEN && sealed@ == #[trigger] chacha20_poly1305_sealed(
                key@,
                nonce@,
                p,
            ) ==> opened(r) == Some(p),
{
    let key = ring::aead::UnboundKey::new(&ring::aead::CHACHA20_POLY1305, key).ok()?;
    let key = ring::aead::LessSafeKey::new(key);
    let mut data = sealed.to_vec();
    let nonce = ring::aead::Nonce::assume_unique_for_key(nonce);
    let plain = key.open_in_place(nonce, ring::aead::Aad::empty(), &mut data).ok()?;
    Some(plain.to_vec())
}

/// Why sealing failed.
#[derive(Debug, Clone, Copy, PartialEq, Eq, Structural)]
pub enum SealError {
    /// The key is not `KEY_LEN` bytes long.
    KeyLength,
    /// The plaintext is longer than `MAX_PLAINTEXT_LEN`.
    TooLong,
}

/// A value kept apart so that it is not shown by accident.
pub struct Secret<T> {
    inner: T,
}

impl<T> Secret<T> {
    /// The value held.
    pub closed spec fn held(&self) -> T {
        self.inner
    }

    /// The value held, borrowed.
    pub fn expose(&self) -> (r: &T)
        ensures
            *r == self.held(),
    {
        &self.inner
    }
}

impl<T> From<T> for Secret<T> {
    fn from(inner: T) -> (r: Self)
        ensures
            r.held() == inner,
    {
        Secret { inner }
    }
}

impl<T> vstd::std_specs::convert::FromSpecImpl<T> for Secret<T> {
    open spec fn obeys_from_spec() -> bool {
        true
    }

    closed spec fn from_spec(v: T) -> Self {
        Secret { inner: v }
    }
}

impl<T> core::ops::Deref for Secret<T> {
    type Target = T;

    fn deref(&self) -> (r: &T)
        ensures
            *r == self.held(),
    {
        &self.inner
    }
}

impl Secret<Vec<u8>> {
    /// Seals the held bytes under `key` and `nonce`: the ciphertext followed
    /// by the tag. The nonce must not be used twice with one key; that is
    /// the caller's to ensure.
    pub fn encrypt_with_key(&self, key: &[u8], nonce: [u8; 12]) -> (r: Result<Vec<u8>, SealError>)
        ensures
            key@.len() != KEY_LEN ==> r == Err::<Vec<u8>, SealError>(SealError::KeyLength),
            key@.len() == KEY_LEN && self.held()@.len() > MAX_PLAINTEXT_LEN ==> r == Err::<
                Vec<u8>,
                SealError,
            >(SealError::TooLong),
            key@.len() == KEY_LEN && self.held()@.len() <= MAX_PLAINTEXT_LEN ==> (r matches Ok(b)
                && b@ == chacha20_poly1305_sealed(key@, nonce@, self.held()@) && b@.len()
                == self.held()@.len() + TAG_LEN),
    {
        if key.len() != KEY_LEN {
            return Err(SealError::KeyLength);
        }
        match chacha_seal(key, nonce, self.inner.as_slice()) {
            Some(b) => Ok(b),
            None => Err(SealError::TooLong),
        }
    }

    /// Opens the held blob under `key` and `nonce`. Every failure (a wrong
    /// key or nonce, a tampered or truncated blob, a key of the wrong
    /// length) gives `None`, with nothing to tell them apart. A blob that
    /// `encrypt_with_key` sealed under the same key and nonce opens to the
    /// plaintext it was sealed from, and a plaintext that comes out seals
    /// back to the blob held.
    pub fn decrypt_with_key(&self, key: &[u8], nonce: [u8; 12]) -> (r: Option<Vec<u8>>)
        ensures
            key@.len() == KEY_LEN ==> forall|p: Seq<u8>|
                p.len() <= MAX_PLAINTEXT_LEN && self.held()@ == #[trigger] chacha20_poly1305_sealed(
                    key@,
                    nonce@,
                    p,
                ) ==> opened(r) == Some(p),
            r matches Some(q) ==> self.held()@ == chacha20_poly1305_sealed(key@, nonce@, q@),
            r matches Some(q) ==> key@.len() == KEY_LEN && q@.len() + TAG_LEN == self.held()@.len(),
    {
        chacha_open(key, nonce, self.inner.as_slice())
    }
}

} // verus!
