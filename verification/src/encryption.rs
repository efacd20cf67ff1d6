use vstd::prelude::*;
use vstd::string::*;
use vstd::utf8::*;

use crate::error::StorageError;
use crate::models::{Note, Notebook, Resource, Tag};

verus! {

broadcast use vstd::utf8::group_utf8_lib;

/// Bytes of an AES-GCM nonce.
pub const NONCE_LEN: usize = 12;

/// Most bytes AES-GCM encrypts in one message (2^36).
pub const MAX_PLAINTEXT_BYTES: u64 = 0x10_0000_0000;

/// Bytes of an AES-256 key.
pub const KEY_LEN: usize = 32;

/// Argon2id memory cost in KiB.
pub const ARGON2_MEMORY_KIB: u32 = 65536;

/// Argon2id iterations.
pub const ARGON2_ITERATIONS: u32 = 3;

/// Argon2id parallelism.
pub const ARGON2_PARALLELISM: u32 = 1;

/// The key Argon2id (version 0x13) derives from a password and a salt with the given
/// memory cost, iterations, parallelism and length, if those are accepted.
pub uninterp spec fn argon2id_key(
    password: Seq<u8>,
    salt: Seq<u8>,
    memory_kib: u32,
    iterations: u32,
    parallelism: u32,
    len: usize,
) -> Option<Seq<u8>>;

/// What AES-256-GCM encrypts from a plaintext with a key and nonce, if it can.
pub uninterp spec fn aes_gcm_seal(key: Seq<u8>, nonce: Seq<u8>, plaintext: Seq<u8>) -> Option<
    Seq<u8>,
>;

/// What AES-256-GCM decrypts and authenticates from a ciphertext with a key and nonce,
/// if it can.
pub uninterp spec fn aes_gcm_open(key: Seq<u8>, nonce: Seq<u8>, ciphertext: Seq<u8>) -> Option<
    Seq<u8>,
>;

/// The standard base64 text of bytes.
pub uninterp spec fn base64_encode(bytes: Seq<u8>) -> Seq<char>;

/// The bytes the standard base64 alphabet decodes from a text, if it is valid base64.
pub uninterp spec fn base64_decode(text: Seq<char>) -> Option<Seq<u8>>;

/// Why deriving a key failed: the parameters were refused, or hashing was.
pub enum KdfFailure {
    Params(String),
    Hash(String),
}

/// Derives a key with Argon2id.
///
/// Trusted: calls `argon2::Params::new`, `argon2::Argon2::new` with `Algorithm::Argon2id`
/// and `Version::V0x13`, and `hash_password_into`; the key is only named, and has the
/// requested length.
#[verifier::external_body]
fn argon2id_derive(
    password: &[u8],
    salt: &[u8],
    memory_kib: u32,
    iterations: u32,
    parallelism: u32,
    len: usize,
) -> (r: Result<Vec<u8>, KdfFailure>)
    ensures
        match r {
            Ok(k) => argon2id_key(password@, salt@, memory_kib, iterations, parallelism, len)
                == Some(k@) && k@.len() == len,
            Err(_) => argon2id_key(password@, salt@, memory_kib, iterations, parallelism, len)
                is None,
        },
{
    let params = match argon2::Params::new(memory_kib, iterations, parallelism, Some(len)) {
        Ok(p) => p,
        Err(e) => return Err(KdfFailure::Params(e.to_string())),
    };
    let hasher = argon2::Argon2::new(argon2::Algorithm::Argon2id, argon2::Version::V0x13, params);
    let mut key = vec![0u8; len];
    match hasher.hash_password_into(password, salt, &mut key) {
        Ok(()) => Ok(key),
        Err(e) => Err(KdfFailure::Hash(e.to_string())),
    }
}

/// A fresh random nonce.
///
/// Trusted: calls `aes_gcm::Aes256Gcm::generate_nonce` with `OsRng`; the nonce has twelve
/// bytes, and nothing else is stated of it.
#[verifier::external_body]
fn random_nonce() -> (r: Vec<u8>)
    ensures
        r@.len() == NONCE_LEN,
{
    <aes_gcm::Aes256Gcm as aes_gcm::aead::AeadCore>::generate_nonce(&mut aes_gcm::aead::OsRng).to_vec()
}

/// Encrypts with AES-256-GCM.
///
/// Trusted: calls `aes_gcm::Aes256Gcm::new` on the key and `encrypt` with the nonce; the
/// ciphertext is only named, and, as for any AEAD, decrypting it with the same key and
/// nonce gives the plaintext back. The source refuses a plaintext of more than 2^36
/// bytes and nothing else (the output buffer is a `Vec`, which always grows).
#[verifier::external_body]
fn aes_gcm_encrypt(key: &[u8], nonce: &[u8], plaintext: &[u8]) -> (r: Result<Vec<u8>, String>)
    requires
        key@.len() == KEY_LEN,
        nonce@.len() == NONCE_LEN,
    ensures
        match r {
            Ok(c) => aes_gcm_seal(key@, nonce@, plaintext@) == Some(c@) && aes_gcm_open(
                key@,
                nonce@,
                c@,
            ) == Some(plaintext@),
            Err(_) => aes_gcm_seal(key@, nonce@, plaintext@) is None,
        },
        r is Ok <==> plaintext@.len() <= MAX_PLAINTEXT_BYTES,
{
    let cipher = <aes_gcm::Aes256Gcm as aes_gcm::aead::KeyInit>::new(
        aes_gcm::Key::<aes_gcm::Aes256Gcm>::from_slice(key),
    );
    aes_gcm::aead::Aead::encrypt(&cipher, aes_gcm::Nonce::from_slice(nonce), plaintext).map_err(
        |e| e.to_string(),
    )
}

/// Decrypts with AES-256-GCM.
///
/// Trusted: calls `aes_gcm::Aes256Gcm::new` on the key and `decrypt` with the nonce; the
/// plaintext is only named.
#[verifier::external_body]
fn aes_gcm_decrypt(key: &[u8], nonce: &[u8], ciphertext: &[u8]) -> (r: Result<Vec<u8>, String>)
    requires
        key@.len() == KEY_LEN,
        nonce@.len() == NONCE_LEN,
    ensures
        match r {
            Ok(p) => aes_gcm_open(key@, nonce@, ciphertext@) == Some(p@),
            Err(_) => aes_gcm_open(key@, nonce@, ciphertext@) is None,
        },
{
    let cipher = <aes_gcm::Aes256Gcm as aes_gcm::aead::KeyInit>::new(
        aes_gcm::Key::<aes_gcm::Aes256Gcm>::from_slice(key),
    );
    aes_gcm::aead::Aead::decrypt(&cipher, aes_gcm::Nonce::from_slice(nonce), ciphertext).map_err(
        |e| e.to_string(),
    )
}

/// Encodes bytes as standard base64.
///
/// Trusted: calls `base64::engine::general_purpose::STANDARD.encode`; the text is only
/// named, and decoding it gives the bytes back.
#[verifier::external_body]
fn encode_base64(bytes: &[u8]) -> (r: String)
    ensures
        r@ == base64_encode(bytes@),
        base64_decode(r@) == Some(bytes@),
{
    base64::Engine::encode(&base64::engine::general_purpose::STANDARD, bytes)
}

/// Decodes standard base64.
///
/// Trusted: calls `base64::engine::general_purpose::STANDARD.decode`; the bytes are only
/// named.
#[verifier::external_body]
pub(crate) fn decode_base64(text: &str) -> (r: Result<Vec<u8>, String>)
    ensures
        match r {
            Ok(b) => base64_decode(text@) == Some(b@),
            Err(_) => base64_decode(text@) is None,
        },
{
    base64::Engine::decode(&base64::engine::general_purpose::STANDARD, text).map_err(|e| e.to_string())
}

/// Reads bytes as UTF-8 text (`String::from_utf8`).
#[verifier::external_body]
fn utf8_text(bytes: Vec<u8>) -> (r: Result<String, String>)
    ensures
        match r {
            Ok(s) => valid_utf8(bytes@) && s@ == decode_utf8(bytes@),
            Err(_) => !valid_utf8(bytes@),
        },
{
    String::from_utf8(bytes).map_err(|e| e.to_string())
}

/// The prefix and the text of a message joined.
fn message(prefix: &str, detail: &str) -> (r: String)
    ensures
        r@ == prefix@ + detail@,
{
    let mut m = prefix.to_owned();
    m.append(detail);
    m
}

/// Whether the UTF-8 bytes of a text are few enough for AES-GCM to encrypt in one message.
pub open spec fn fits(text: Seq<char>) -> bool {
    encode_utf8(text).len() <= MAX_PLAINTEXT_BYTES
}

/// The plaintext that `nonce ‖ ciphertext` bytes decrypt to with a key, if they do.
pub open spec fn spec_open_combined(key: Seq<u8>, combined: Seq<u8>) -> Option<Seq<u8>> {
    if combined.len() < NONCE_LEN {
        None
    } else {
        aes_gcm_open(key, combined.take(NONCE_LEN as int), combined.skip(NONCE_LEN as int))
    }
}

/// The text that `base64(nonce ‖ ciphertext)` decrypts to with a key, if it does.
pub open spec fn spec_decrypt_text(key: Seq<u8>, encoded: Seq<char>) -> Option<Seq<char>> {
    match base64_decode(encoded) {
        Some(c) => match spec_open_combined(key, c) {
            Some(p) => if valid_utf8(p) {
                Some(decode_utf8(p))
            } else {
                None
            },
            None => None,
        },
        None => None,
    }
}

/// An AES-256-GCM key for at-rest encryption.
pub struct Cipher {
    key: Vec<u8>,
}

impl View for Cipher {
    type V = Seq<u8>;

    closed spec fn view(&self) -> Seq<u8> {
        self.key@
    }
}

impl Cipher {
    pub closed spec fn wf(&self) -> bool {
        self.key@.len() == KEY_LEN
    }

    /// The cipher of the key Argon2id (64 MiB, 3 iterations, 1 lane, 32 bytes) derives
    /// from a password and a salt; an error when Argon2id refuses them.
    pub fn new(password: &str, salt: &[u8]) -> (r: Result<Cipher, StorageError>)
        ensures
            match r {
                Ok(c) => c.wf() && argon2id_key(
                    password.spec_bytes(),
                    salt@,
                    ARGON2_MEMORY_KIB,
                    ARGON2_ITERATIONS,
                    ARGON2_PARALLELISM,
                    KEY_LEN,
                ) == Some(c@),
                Err(e) => e is InvalidState && argon2id_key(
                    password.spec_bytes(),
                    salt@,
                    ARGON2_MEMORY_KIB,
                    ARGON2_ITERATIONS,
                    ARGON2_PARALLELISM,
                    KEY_LEN,
                ) is None,
            },
    {
        match argon2id_derive(
            password.as_bytes(),
            salt,
            ARGON2_MEMORY_KIB,
            ARGON2_ITERATIONS,
            ARGON2_PARALLELISM,
            KEY_LEN,
        ) {
            Ok(key) => Ok(Cipher { key }),
            Err(KdfFailure::Params(m)) => Err(
                StorageError::InvalidState(message("argon2 params: ", m.as_str())),
            ),
            Err(KdfFailure::Hash(m)) => Err(StorageError::InvalidState(message("kdf: ", m.as_str()))),
        }
    }

    /// Encrypts bytes as `nonce ‖ ciphertext` with a fresh random nonce; what comes out
    /// decrypts back to the bytes. It fails, as an invalid state, exactly when the bytes
    /// are more than AES-GCM encrypts in one message.
    pub fn encrypt_bytes(&self, data: &[u8]) -> (r: Result<Vec<u8>, StorageError>)
        requires
            self.wf(),
        ensures
            match r {
                Ok(c) => c@.len() >= NONCE_LEN && aes_gcm_seal(
                    self@,
                    c@.take(NONCE_LEN as int),
                    data@,
                ) == Some(c@.skip(NONCE_LEN as int)) && spec_open_combined(self@, c@) == Some(
                    data@,
                ),
                Err(e) => e is InvalidState,
            },
            r is Ok <==> data@.len() <= MAX_PLAINTEXT_BYTES,
    {
        let nonce = random_nonce();
        let ct = match aes_gcm_encrypt(self.key.as_slice(), nonce.as_slice(), data) {
            Ok(ct) => ct,
            Err(m) => {
                return Err(StorageError::InvalidState(message("encrypt: ", m.as_str())));
            },
        };
        let mut combined = nonce;
        let ghost n = combined@;
        let mut i: usize = 0;
        while i < ct.len()
            invariant
                0 <= i <= ct@.len(),
                combined@ == n + ct@.take(i as int),
            decreases ct@.len() - i,
        {
            combined.push(ct[i]);
            assert(ct@.take(i + 1) =~= ct@.take(i as int).push(ct@[i as int]));
            i = i + 1;
        }
        assert(ct@.take(i as int) =~= ct@);
        assert(combined@.take(NONCE_LEN as int) =~= n);
        assert(combined@.skip(NONCE_LEN as int) =~= ct@);
        Ok(combined)
    }

    /// Decrypts `nonce ‖ ciphertext` bytes.
    pub fn decrypt_bytes(&self, data: &[u8]) -> (r: Result<Vec<u8>, StorageError>)
        requires
            self.wf(),
        ensures
            match r {
                Ok(p) => spec_open_combined(self@, data@) == Some(p@),
                Err(e) => spec_open_combined(self@, data@) is None && (if data@.len() < NONCE_LEN {
                    e is InvalidState
                } else {
                    e is CorruptedData
                }),
            },
    {
        if data.len() < NONCE_LEN {
            return Err(StorageError::InvalidState("ciphertext too short".to_owned()));
        }
        let nonce = copy_bytes(data, 0, NONCE_LEN);
        let ct = copy_bytes(data, NONCE_LEN, data.len());
        assert(nonce@ =~= data@.take(NONCE_LEN as int));
        assert(ct@ =~= data@.skip(NONCE_LEN as int));
        match aes_gcm_decrypt(self.key.as_slice(), nonce.as_slice(), ct.as_slice()) {
            Ok(p) => Ok(p),
            Err(m) => Err(StorageError::CorruptedData(message("decrypt: ", m.as_str()))),
        }
    }

    /// Encrypts a text as `base64(nonce ‖ ciphertext)` with a fresh random nonce; what
    /// comes out decrypts back to the text. It fails, as an invalid state, exactly when
    /// the text's UTF-8 bytes do not [`fit`](fits).
    pub fn encrypt_str(&self, plaintext: &str) -> (r: Result<String, StorageError>)
        requires
            self.wf(),
        ensures
            match r {
                Ok(e) => spec_decrypt_text(self@, e@) == Some(plaintext@),
                Err(e) => e is InvalidState,
            },
            r is Ok <==> fits(plaintext@),
    {
        let combined = match self.encrypt_bytes(plaintext.as_bytes()) {
            Ok(c) => c,
            Err(e) => {
                return Err(e);
            },
        };
        let text = encode_base64(combined.as_slice());
        proof {
            encode_utf8_valid_utf8(plaintext@);
            encode_utf8_decode_utf8(plaintext@);
        }
        Ok(text)
    }

    /// Decrypts a text written by [`Cipher::encrypt_str`]. Bad base64, too few bytes,
    /// a failed tag check (as a wrong key gives) and bytes that are not UTF-8 are all an
    /// invalid state.
    pub fn decrypt_str(&self, encoded: &str) -> (r: Result<String, StorageError>)
        requires
            self.wf(),
        ensures
            match r {
                Ok(s) => spec_decrypt_text(self@, encoded@) == Some(s@),
                Err(e) => spec_decrypt_text(self@, encoded@) is None && e is InvalidState,
            },
    {
        let combined = match decode_base64(encoded) {
            Ok(c) => c,
            Err(m) => {
                return Err(StorageError::InvalidState(message("base64: ", m.as_str())));
            },
        };
        let plain = match self.decrypt_bytes(combined.as_slice()) {
            Ok(p) => p,
            Err(StorageError::CorruptedData(m)) => {
                return Err(StorageError::InvalidState(m));
            },
            Err(e) => {
                return Err(e);
            },
        };
        match utf8_text(plain) {
            Ok(s) => Ok(s),
            Err(m) => Err(StorageError::InvalidState(message("utf8: ", m.as_str()))),
        }
    }
}

/// The bytes `s[lo..hi]`.
fn copy_bytes(s: &[u8], lo: usize, hi: usize) -> (r: Vec<u8>)
    requires
        lo <= hi <= s@.len(),
    ensures
        r@ == s@.subrange(lo as int, hi as int),
{
    let mut out: Vec<u8> = Vec::new();
    let mut i: usize = lo;
    while i < hi
        invariant
            lo <= i <= hi <= s@.len(),
            out@ == s@.subrange(lo as int, i as int),
        decreases hi - i,
    {
        out.push(s[i]);
        assert(s@.subrange(lo as int, i + 1) =~= s@.subrange(lo as int, i as int).push(s@[i as int]));
        i = i + 1;
    }
    out
}

impl Cipher {
    /// The note with its title and body encrypted.
    pub fn enc_note(&self, n: Note) -> (r: Result<Note, StorageError>)
        requires
            self.wf(),
        ensures
            r matches Ok(m) ==> spec_decrypt_text(self@, m.title@) == Some(n.title@)
                && spec_decrypt_text(self@, m.body@) == Some(n.body@)
                && m == (Note { title: m.title, body: m.body, ..n }),
            r matches Err(e) ==> e is InvalidState,
            r is Ok <==> fits(n.title@) && fits(n.body@),
    {
        let mut n = n;
        n.title = match self.encrypt_str(n.title.as_str()) {
            Ok(t) => t,
            Err(e) => {
                return Err(e);
            },
        };
        n.body = match self.encrypt_str(n.body.as_str()) {
            Ok(t) => t,
            Err(e) => {
                return Err(e);
            },
        };
        Ok(n)
    }

    /// The note with its title and body decrypted.
    pub fn dec_note(&self, n: Note) -> (r: Result<Note, StorageError>)
        requires
            self.wf(),
        ensures
            match r {
                Ok(m) => spec_decrypt_text(self@, n.title@) == Some(m.title@) && spec_decrypt_text(
                    self@,
                    n.body@,
                ) == Some(m.body@) && m == (Note { title: m.title, body: m.body, ..n }),
                Err(e) => e is InvalidState && (spec_decrypt_text(self@, n.title@) is None
                    || spec_decrypt_text(self@, n.body@) is None),
            },
    {
        let mut n = n;
        n.title = match self.decrypt_str(n.title.as_str()) {
            Ok(t) => t,
            Err(e) => {
                return Err(e);
            },
        };
        n.body = match self.decrypt_str(n.body.as_str()) {
            Ok(t) => t,
            Err(e) => {
                return Err(e);
            },
        };
        Ok(n)
    }

    /// The notebook with its title encrypted.
    pub fn enc_notebook(&self, nb: Notebook) -> (r: Result<Notebook, StorageError>)
        requires
            self.wf(),
        ensures
            r matches Ok(m) ==> spec_decrypt_text(self@, m.title@) == Some(nb.title@) && m
                == (Notebook { title: m.title, ..nb }),
            r matches Err(e) ==> e is InvalidState,
            r is Ok <==> fits(nb.title@),
    {
        let mut nb = nb;
        nb.title = match self.encrypt_str(nb.title.as_str()) {
            Ok(t) => t,
            Err(e) => {
                return Err(e);
            },
        };
        Ok(nb)
    }

    /// The notebook with its title decrypted.
    pub fn dec_notebook(&self, nb: Notebook) -> (r: Result<Notebook, StorageError>)
        requires
            self.wf(),
        ensures
            match r {
                Ok(m) => spec_decrypt_text(self@, nb.title@) == Some(m.title@) && m == (Notebook {
                    title: m.title,
                    ..nb
                }),
                Err(e) => e is InvalidState && spec_decrypt_text(self@, nb.title@) is None,
            },
    {
        let mut nb = nb;
        nb.title = match self.decrypt_str(nb.title.as_str()) {
            Ok(t) => t,
            Err(e) => {
                return Err(e);
            },
        };
        Ok(nb)
    }

    /// The tag with its title encrypted.
    pub fn enc_tag(&self, t: Tag) -> (r: Result<Tag, StorageError>)
        requires
            self.wf(),
        ensures
            r matches Ok(m) ==> spec_decrypt_text(self@, m.title@) == Some(t.title@) && m == (Tag {
                title: m.title,
                ..t
            }),
            r matches Err(e) ==> e is InvalidState,
            r is Ok <==> fits(t.title@),
    {
        let mut t = t;
        t.title = match self.encrypt_str(t.title.as_str()) {
            Ok(x) => x,
            Err(e) => {
                return Err(e);
            },
        };
        Ok(t)
    }

    /// The tag with its title decrypted.
    pub fn dec_tag(&self, t: Tag) -> (r: Result<Tag, StorageError>)
        requires
            self.wf(),
        ensures
            match r {
                Ok(m) => spec_decrypt_text(self@, t.title@) == Some(m.title@) && m == (Tag {
                    title: m.title,
                    ..t
                }),
                Err(e) => e is InvalidState && spec_decrypt_text(self@, t.title@) is None,
            },
    {
        let mut t = t;
        t.title = match self.decrypt_str(t.title.as_str()) {
            Ok(x) => x,
            Err(e) => {
                return Err(e);
            },
        };
        Ok(t)
    }

    /// The resource with its title, media type and file name encrypted.
    pub fn enc_resource(&self, r0: Resource) -> (r: Result<Resource, StorageError>)
        requires
            self.wf(),
        ensures
            r matches Ok(m) ==> spec_decrypt_text(self@, m.title@) == Some(r0.title@)
                && spec_decrypt_text(self@, m.mime_type@) == Some(r0.mime_type@) && spec_decrypt_text(
                self@,
                m.file_name@,
            ) == Some(r0.file_name@) && m == (Resource {
                title: m.title,
                mime_type: m.mime_type,
                file_name: m.file_name,
                ..r0
            }),
            r matches Err(e) ==> e is InvalidState,
            r is Ok <==> fits(r0.title@) && fits(r0.mime_type@) && fits(r0.file_name@),
    {
        let mut x = r0;
        x.title = match self.encrypt_str(x.title.as_str()) {
            Ok(t) => t,
            Err(e) => {
                return Err(e);
            },
        };
        x.mime_type = match self.encrypt_str(x.mime_type.as_str()) {
            Ok(t) => t,
            Err(e) => {
                return Err(e);
            },
        };
        x.file_name = match self.encrypt_str(x.file_name.as_str()) {
            Ok(t) => t,
            Err(e) => {
                return Err(e);
            },
        };
        Ok(x)
    }

    /// The resource with its title, media type and file name decrypted.
    pub fn dec_resource(&self, r0: Resource) -> (r: Result<Resource, StorageError>)
        requires
            self.wf(),
        ensures
            match r {
                Ok(m) => spec_decrypt_text(self@, r0.title@) == Some(m.title@) && spec_decrypt_text(
                    self@,
                    r0.mime_type@,
                ) == Some(m.mime_type@) && spec_decrypt_text(self@, r0.file_name@) == Some(
                    m.file_name@,
                ) && m == (Resource {
                    title: m.title,
                    mime_type: m.mime_type,
                    file_name: m.file_name,
                    ..r0
                }),
                Err(e) => e is InvalidState && (spec_decrypt_text(self@, r0.title@) is None
                    || spec_decrypt_text(self@, r0.mime_type@) is None || spec_decrypt_text(
                    self@,
                    r0.file_name@,
                ) is None),
            },
    {
        let mut x = r0;
        x.title = match self.decrypt_str(x.title.as_str()) {
            Ok(t) => t,
            Err(e) => {
                return Err(e);
            },
        };
        x.mime_type = match self.decrypt_str(x.mime_type.as_str()) {
            Ok(t) => t,
            Err(e) => {
                return Err(e);
            },
        };
        x.file_name = match self.decrypt_str(x.file_name.as_str()) {
            Ok(t) => t,
            Err(e) => {
                return Err(e);
            },
        };
        Ok(x)
    }
}


} // verus!
