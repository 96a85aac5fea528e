use r2n::common::RoomId;
use r2n::invite::{verifying_key, InviteData};

fn sample() -> InviteData {
    InviteData {
        version: InviteData::VERSION,
        primary_supernode: "127.0.0.1:7777".to_string(),
        fallback_supernodes: vec!["127.0.0.2:7777".to_string()],
        supernode_addr: "127.0.0.1:7777".to_string(),
        room_id: RoomId([9u8; 16]),
        room_pub_key: [3u8; 32],
        virtual_cidr: Some("10.66.1.0/24".to_string()),
        token: Some("token-123".to_string()),
        expires_at: Some(123456),
        signature: None,
    }
}

#[test]
fn invite_roundtrip_preserves_signature() {
    let signing_key = [7u8; 32];
    let verify_key = verifying_key(&signing_key);
    let mut invite = sample();
    invite.sign(&signing_key);
    assert!(invite.verify(&verify_key));

    let encoded = invite.encode();
    let decoded = InviteData::decode(&encoded).expect("decode invite");
    assert_eq!(decoded.room_id, invite.room_id);
    assert_eq!(decoded.token, invite.token);
    assert_eq!(decoded.virtual_cidr, invite.virtual_cidr);
    assert_eq!(decoded.primary_supernode_addr(), "127.0.0.1:7777");
    assert_eq!(
        decoded.all_supernodes(),
        vec!["127.0.0.1:7777".to_string(), "127.0.0.2:7777".to_string()]
    );
    assert!(decoded.verify(&verify_key));
}

#[test]
fn verifying_key_agrees_with_the_signature_crate() {
    let signing = ed25519_dalek::SigningKey::from_bytes(&[7u8; 32]);
    assert_eq!(verifying_key(&[7u8; 32]), signing.verifying_key().to_bytes());
    assert_ne!(verifying_key(&[7u8; 32]), [7u8; 32]);
}

#[test]
fn changed_or_unsigned_invitations_do_not_verify() {
    let key = [7u8; 32];
    let public = verifying_key(&key);
    let mut invite = sample();
    assert!(!invite.verify(&public));
    invite.signature = Some(vec![1; 63]);
    assert!(!invite.verify(&public));
    invite.signature = None;
    invite.sign(&key);
    assert!(!invite.verify(&verifying_key(&[8u8; 32])));
    invite.token = Some("token-124".to_string());
    assert!(!invite.verify(&public));
    invite.token = Some("token-123".to_string());
    assert!(invite.verify(&public));
}

#[test]
fn text_that_is_no_invitation_is_refused() {
    assert!(InviteData::decode("***").is_none());
    assert!(InviteData::decode("").is_none());
    let code = sample().encode();
    assert!(InviteData::decode(&code[..code.len() - 4]).is_none());
}

#[test]
fn supernodes_are_listed_once_and_blank_ones_left_out() {
    let mut invite = sample();
    invite.primary_supernode = String::new();
    assert_eq!(invite.primary_supernode_addr(), "127.0.0.1:7777");
    invite.fallback_supernodes = vec![
        "".to_string(),
        "127.0.0.1:7777".to_string(),
        "b:1".to_string(),
        "b:1".to_string(),
    ];
    assert_eq!(
        invite.all_supernodes(),
        vec!["127.0.0.1:7777".to_string(), "b:1".to_string()]
    );
}
