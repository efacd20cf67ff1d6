use keeplin_core::encryption::Cipher;
use keeplin_core::error::StorageError;
use keeplin_core::models::Note;

#[test]
fn text_encrypts_and_decrypts_back() {
    let c = Cipher::new("secret", b"device-salt-0001").unwrap();
    let e = c.encrypt_str("hello, world").unwrap();
    assert_ne!(e, "hello, world");
    assert_eq!(c.decrypt_str(&e).unwrap(), "hello, world");
    let e2 = c.encrypt_str("hello, world").unwrap();
    assert_ne!(e, e2, "every encryption takes a fresh nonce");
}

#[test]
fn bytes_encrypt_and_decrypt_back() {
    let c = Cipher::new("secret", b"device-salt-0001").unwrap();
    let e = c.encrypt_bytes(&[1, 2, 3]).unwrap();
    assert_eq!(e.len(), 12 + 3 + 16);
    assert_eq!(c.decrypt_bytes(&e).unwrap(), vec![1, 2, 3]);
}

#[test]
fn a_wrong_key_or_bad_input_is_refused() {
    let c = Cipher::new("secret", b"device-salt-0001").unwrap();
    let other = Cipher::new("other", b"device-salt-0001").unwrap();
    let e = c.encrypt_str("x").unwrap();
    assert!(matches!(other.decrypt_str(&e), Err(StorageError::InvalidState(_))));
    let b = c.encrypt_bytes(&[9, 9]).unwrap();
    assert!(matches!(other.decrypt_bytes(&b), Err(StorageError::CorruptedData(_))));
    assert!(matches!(c.decrypt_str("!!!"), Err(StorageError::InvalidState(_))));
    assert!(matches!(c.decrypt_bytes(&[1, 2]), Err(StorageError::InvalidState(_))));
    assert!(matches!(Cipher::new("p", b"short"), Err(StorageError::InvalidState(_))));
}

#[test]
fn a_note_keeps_its_ids_and_hides_its_texts() {
    let c = Cipher::new("secret", b"device-salt-0001").unwrap();
    let n = Note::new("Title", "Body");
    let id = n.id;
    let enc = c.enc_note(n).unwrap();
    assert_eq!(enc.id, id);
    assert_ne!(enc.title, "Title");
    let dec = c.dec_note(enc).unwrap();
    assert_eq!(dec.title, "Title");
    assert_eq!(dec.body, "Body");
}
