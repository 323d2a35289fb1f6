use blobtx::webauthn::WebAuthnContractState;
use p256::ecdsa::signature::Signer;
use sha2::Digest;

fn keypair() -> (p256::ecdsa::SigningKey, Vec<u8>) {
    let signing_key = p256::ecdsa::SigningKey::from_slice(&[7u8; 32]).unwrap();
    let public_key = signing_key
        .verifying_key()
        .to_encoded_point(false)
        .as_bytes()
        .to_vec();
    (signing_key, public_key)
}

fn signed_message(signing_key: &p256::ecdsa::SigningKey, authenticator_data: &[u8], client_data_json: &[u8]) -> Vec<u8> {
    let mut message = authenticator_data.to_vec();
    message.extend_from_slice(&sha2::Sha256::digest(client_data_json));
    let signature: p256::ecdsa::Signature = signing_key.sign(&message);
    signature.to_der().as_bytes().to_vec()
}

#[test]
fn a_valid_signature_bumps_the_counter_and_retires_the_challenge() {
    let (signing_key, public_key) = keypair();
    let mut state = WebAuthnContractState::new();
    state
        .register("dana".to_string(), vec![1, 2, 3], public_key)
        .unwrap();
    state
        .start_authentication("dana".to_string(), vec![9, 9])
        .unwrap();

    let authenticator_data = vec![5u8; 16];
    let client_data_json = b"{\"type\":\"webauthn.get\"}".to_vec();
    let der = signed_message(&signing_key, &authenticator_data, &client_data_json);

    let ok = state
        .verify_authentication(
            "dana".to_string(),
            der,
            authenticator_data.clone(),
            client_data_json.clone(),
        )
        .unwrap();
    assert!(ok);
    assert_eq!(state.users[0].1.counter, 1);
    assert!(state.challenges.is_empty());

    // With the challenge retired, another attempt is refused.
    assert_eq!(
        state.verify_authentication(
            "dana".to_string(),
            vec![],
            authenticator_data,
            client_data_json,
        ),
        Err("No challenge found")
    );
}

#[test]
fn a_signature_by_another_key_is_rejected_without_change() {
    let (_, public_key) = keypair();
    let other_key = p256::ecdsa::SigningKey::from_slice(&[8u8; 32]).unwrap();
    let mut state = WebAuthnContractState::new();
    state
        .register("dana".to_string(), vec![1], public_key)
        .unwrap();
    state
        .start_authentication("dana".to_string(), vec![4])
        .unwrap();

    let authenticator_data = vec![5u8; 16];
    let client_data_json = b"{}".to_vec();
    let der = signed_message(&other_key, &authenticator_data, &client_data_json);

    let ok = state
        .verify_authentication("dana".to_string(), der, authenticator_data, client_data_json)
        .unwrap();
    assert!(!ok);
    assert_eq!(state.users[0].1.counter, 0);
    assert_eq!(state.challenges.len(), 1);
}

#[test]
fn unparseable_key_and_signature_are_named() {
    let (signing_key, public_key) = keypair();
    let mut state = WebAuthnContractState::new();
    state
        .register("dana".to_string(), vec![1], public_key)
        .unwrap();
    state
        .register("eve".to_string(), vec![2], vec![0, 1, 2])
        .unwrap();
    state
        .start_authentication("dana".to_string(), vec![4])
        .unwrap();
    state
        .start_authentication("eve".to_string(), vec![4])
        .unwrap();

    // A malformed stored key is reported when it is used.
    assert_eq!(
        state.verify_authentication("eve".to_string(), vec![], vec![], vec![]),
        Err("Invalid public key")
    );
    // A malformed signature is reported against a good key.
    assert_eq!(
        state.verify_authentication("dana".to_string(), vec![1, 2], vec![], vec![]),
        Err("Invalid signature format")
    );
    let der = signed_message(&signing_key, &[], &[]);
    assert_eq!(
        state.verify_authentication("ghost".to_string(), der, vec![], vec![]),
        Err("User not found")
    );
}

#[test]
fn registration_and_challenges_keep_one_entry_per_user() {
    let (_, public_key) = keypair();
    let mut state = WebAuthnContractState::new();
    state
        .register("dana".to_string(), vec![1], public_key.clone())
        .unwrap();
    assert_eq!(
        state.register("dana".to_string(), vec![2], public_key),
        Err("User already exists")
    );
    assert_eq!(
        state.start_authentication("ghost".to_string(), vec![1]),
        Err("User not found")
    );
    state
        .start_authentication("dana".to_string(), vec![1])
        .unwrap();
    state
        .start_authentication("dana".to_string(), vec![2, 2])
        .unwrap();
    assert_eq!(state.challenges.len(), 1);
    assert_eq!(state.challenges[0].1, vec![2, 2]);
}
