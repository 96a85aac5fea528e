use r2n::crypto::{derive_public_key, Cipher, CryptoError, NoiseSession, ReplayWindow};

#[test]
fn inplace_encrypt_roundtrip() {
    let key = [7u8; 32];
    let mut cipher = Cipher::new(&key);
    let mut buffer = [0u8; 100];
    buffer[..9].copy_from_slice(b"hello-r2n");
    let encrypted_len = cipher
        .encrypt_in_place(1, b"aad", &mut buffer, 9)
        .expect("encrypt");
    assert_eq!(encrypted_len, 25);
    assert_ne!(&buffer[..9], b"hello-r2n");
    let decrypted_len = cipher
        .decrypt_in_place(1, b"aad", &mut buffer[..25])
        .expect("decrypt");
    assert_eq!(decrypted_len, 9);
    assert_eq!(&buffer[..9], b"hello-r2n");
}

#[test]
fn sealed_bytes_open_once_and_only_under_their_key() {
    let sender = Cipher::new(&[1u8; 32]);
    let sealed = sender.encrypt(5, b"payload").expect("encrypt");
    assert_eq!(sealed.len(), 7 + 16);
    let mut other = Cipher::new(&[2u8; 32]);
    assert!(matches!(other.decrypt(5, &sealed), Err(CryptoError::Aead)));
    let mut receiver = Cipher::new(&[1u8; 32]);
    assert!(matches!(receiver.decrypt(6, &sealed), Err(CryptoError::Aead)));
    assert_eq!(receiver.decrypt(5, &sealed).expect("decrypt"), b"payload");
    assert!(matches!(receiver.decrypt(5, &sealed), Err(CryptoError::Aead)));
}

#[test]
fn tampered_or_short_bytes_are_refused() {
    let mut cipher = Cipher::new(&[1u8; 32]);
    let mut sealed = cipher.encrypt(9, b"payload").expect("encrypt");
    sealed[0] ^= 1;
    assert!(cipher.decrypt(9, &sealed).is_err());
    sealed[0] ^= 1;
    assert!(cipher.decrypt(9, &sealed[..15]).is_err());
    assert!(cipher.decrypt(9, &sealed).is_ok());
}

#[test]
fn associated_data_is_part_of_the_seal() {
    let mut cipher = Cipher::new(&[3u8; 32]);
    let mut buffer = [0u8; 40];
    buffer[..4].copy_from_slice(b"data");
    let len = cipher.encrypt_in_place(1, b"head", &mut buffer, 4).unwrap();
    let kept = buffer;
    assert!(cipher.decrypt_in_place(1, b"tail", &mut buffer[..len]).is_err());
    assert_eq!(buffer, kept);
    assert_eq!(cipher.decrypt_in_place(1, b"head", &mut buffer[..len]).unwrap(), 4);
}

#[test]
fn window_takes_late_counters_once() {
    let mut w = ReplayWindow { last_nonce: 0, bitmap: 0 };
    assert!(w.check(10));
    w.advance(10);
    assert!(!w.check(10));
    assert!(w.check(9));
    w.advance(9);
    assert!(!w.check(9));
    w.advance(100);
    assert!(!w.check(10));
    assert!(!w.check(36));
    assert!(w.check(37));
}

#[test]
fn public_keys_follow_from_private_ones() {
    let secret = x25519_dalek::StaticSecret::from([4u8; 32]);
    let public = x25519_dalek::PublicKey::from(&secret);
    assert_eq!(derive_public_key(&[4u8; 32]), public.to_bytes());
}

#[test]
fn a_handshake_carries_a_payload_to_the_responder() {
    let initiator_key = [11u8; 32];
    let responder_key = [12u8; 32];
    let mut a = NoiseSession::initiator(&initiator_key, &derive_public_key(&responder_key)).unwrap();
    let mut b = NoiseSession::responder(&responder_key).unwrap();
    let mut message = [0u8; 128];
    let used = a.write_message(&[5u8; 32], &mut message).unwrap();
    let mut payload = [0u8; 128];
    let size = b.read_message(&message[..used], &mut payload).unwrap();
    assert_eq!(size, 32);
    assert_eq!(&payload[..32], &[5u8; 32]);
    let mut reply = [0u8; 128];
    let used = b.write_message(&[], &mut reply).unwrap();
    assert!(b.is_handshake_finished());
    assert!(!a.is_handshake_finished());
    a.read_message(&reply[..used], &mut payload).unwrap();
    assert!(a.is_handshake_finished());
    assert!(a.into_transport_mode().is_ok());
    assert!(b.into_transport_mode().is_ok());
}

#[test]
fn a_handshake_out_of_turn_fails() {
    let mut b = NoiseSession::responder(&[12u8; 32]).unwrap();
    let mut message = [0u8; 128];
    assert!(matches!(b.write_message(&[], &mut message), Err(CryptoError::Snow(_))));
    assert!(matches!(b.read_message(&[0u8; 20], &mut message), Err(CryptoError::Snow(_))));
    assert!(b.into_transport_mode().is_err());
}

#[test]
fn handshake_messages_have_known_sizes() {
    let mut a = NoiseSession::initiator(&[11u8; 32], &derive_public_key(&[12u8; 32])).unwrap();
    let mut b = NoiseSession::responder(&[12u8; 32]).unwrap();
    let mut other = NoiseSession::responder(&[13u8; 32]).unwrap();
    let mut message = [0u8; 128];
    assert!(a.write_message(&[5u8; 33], &mut message).is_err());
    assert!(a.read_message(&[0u8; 128], &mut [0u8; 128]).is_err());
    assert_eq!(a.write_message(&[5u8; 32], &mut message).unwrap(), 128);
    assert!(a.write_message(&[], &mut [0u8; 128]).is_err());
    let mut payload = [0u8; 128];
    assert!(other.read_message(&message, &mut payload).is_err());
    assert!(b.read_message(&message, &mut [0u8; 31]).is_err());
    assert!(!NoiseSession::responder(&[12u8; 32]).unwrap().is_with(&derive_public_key(&[11u8; 32])));
    assert_eq!(b.read_message(&message, &mut payload).unwrap(), 32);
    assert!(b.is_with(&derive_public_key(&[11u8; 32])));
    assert!(!b.is_with(&derive_public_key(&[13u8; 32])));
    assert!(a.is_with(&derive_public_key(&[12u8; 32])));
    let mut reply = [0u8; 70];
    assert_eq!(b.write_message(&[], &mut reply).unwrap(), 48);
    assert_eq!(a.read_message(&reply[..48], &mut payload).unwrap(), 0);
    assert!(a.write_message(&[], &mut message).is_err());
    assert!(a.into_transport_mode().unwrap().is_initiator());
    assert!(!b.into_transport_mode().unwrap().is_initiator());
}
