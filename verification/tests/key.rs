use p2pssh::key::{
    invalid_entries, load_authorized_keys, load_or_generate_secret_key, AuthHook, AuthorizedKeys, EndpointId,
    HandshakeOutcome, KeyFileError, PeerIdError, SecretKey, StoredKey,
    KEY_FILE_MODE,
};

const PATH: &str = "/etc/p2pssh/authorized_keys";

fn generate() -> SecretKey {
    match load_or_generate_secret_key(None) {
        Ok(StoredKey::Generated { key }) => key,
        _ => panic!("expected a new key"),
    }
}

fn fixed(byte: u8) -> EndpointId {
    SecretKey::from_bytes([byte; 32]).public()
}

#[test]
fn test_load_authorized_keys_valid() {
    // Generate a valid key
    let key = generate();
    let id = key.public();
    let mut tmp = String::new();
    tmp.push_str(&format!("{}\n", id.to_z32()));
    tmp.push_str("# comment line\n");
    tmp.push_str(&format!("  {}  \n", id.to_z32())); // duplicate, with whitespace

    let keys = load_authorized_keys(PATH, Some(&tmp)).unwrap();
    assert_eq!(keys.len(), 1);
    assert!(keys.contains(&id));
}

#[test]
fn test_load_authorized_keys_empty_file() {
    let result = load_authorized_keys(PATH, Some(""));
    assert!(result.is_err());
    assert!(result.unwrap_err().message().contains("no valid keys"));
}

#[test]
fn test_load_authorized_keys_nonexistent() {
    let keys = load_authorized_keys("/nonexistent/path/to/authorized_keys", None).unwrap();
    assert!(keys.is_empty());
}

#[test]
fn test_load_authorized_keys_invalid_lines() {
    let mut tmp = String::new();
    tmp.push_str("not-a-valid-z32-key\n");
    tmp.push_str(&format!("{}\n", generate().public().to_z32()));

    let keys = load_authorized_keys(PATH, Some(&tmp)).unwrap();
    assert_eq!(keys.len(), 1);
}

#[test]
fn test_auth_hook_allow() {
    let key = generate();
    let id = key.public();
    let mut allowed = AuthorizedKeys::new();
    allowed.insert(id);
    let hook = AuthHook::new(allowed);
    assert!(hook.allowed.contains(&id));
    assert!(matches!(hook.after_handshake(&id), HandshakeOutcome::Accept));
}

#[test]
fn test_auth_hook_deny_unknown() {
    let key1 = generate();
    let key2 = generate();
    let mut allowed = AuthorizedKeys::new();
    allowed.insert(key1.public());
    let hook = AuthHook::new(allowed);
    assert!(!hook.allowed.contains(&key2.public()));
    match hook.after_handshake(&key2.public()) {
        HandshakeOutcome::Reject { error_code, reason } => {
            assert_eq!(error_code, 403);
            assert_eq!(reason, b"unauthorized".to_vec());
        }
        other => panic!("expected a rejection, got {:?}", other),
    }
}

#[test]
fn test_load_or_generate_secret_key_roundtrip() {
    // First call generates
    let key1 = match load_or_generate_secret_key(None).unwrap() {
        StoredKey::Generated { key } => key,
        StoredKey::Loaded { .. } => panic!("expected a new key"),
    };
    let file = key1.to_bytes();
    // Second call loads
    let key2 = match load_or_generate_secret_key(Some(&file)).unwrap() {
        StoredKey::Loaded { key } => key,
        StoredKey::Generated { .. } => panic!("expected the stored key"),
    };
    assert_eq!(key1.public().to_z32(), key2.public().to_z32());
}

#[test]
fn test_load_or_generate_invalid_key_file() {
    let result = load_or_generate_secret_key(Some(b"too-short"));
    match result {
        Ok(_) => panic!("expected an error"),
        Err(e) => assert!(e.message().contains("expected 32 bytes")),
    }
}

#[test]
fn key_file_errors_in_full() {
    for len in [0usize, 9, 31, 33, 1234567] {
        match load_or_generate_secret_key(Some(&vec![7u8; len])) {
            Err(KeyFileError::BadLength { len: n }) => assert_eq!(n, len),
            _ => panic!("expected an error"),
        }
        assert_eq!(
            KeyFileError::BadLength { len }.message(),
            format!("Invalid key file: expected 32 bytes, got {}", len)
        );
    }
    assert_eq!(
        load_authorized_keys("/a b", Some("# none\n\n")).unwrap_err().message(),
        "authorized_keys file exists at /a b but contains no valid keys. \
         Add valid z32-encoded public keys or remove the file to disable authorization."
    );
}

#[test]
fn a_new_key_is_still_to_be_stored() {
    match StoredKey::generated([5; 32]) {
        StoredKey::Generated { key } => assert_eq!(key.to_bytes(), [5; 32]),
        StoredKey::Loaded { .. } => panic!("expected a new key"),
    }
    assert_eq!(KEY_FILE_MODE, 0o600);
}

#[test]
fn generated_keys_differ() {
    assert_ne!(generate().to_bytes(), generate().to_bytes());
}

#[test]
fn public_keys_and_peer_ids_are_those_of_ed25519_and_z_base_32() {
    assert_eq!(
        fixed(1).to_bytes(),
        [
            138, 136, 227, 221, 116, 9, 241, 149, 253, 82, 219, 45, 60, 186, 93, 114, 202, 103, 9,
            191, 29, 148, 18, 27, 243, 116, 136, 1, 180, 15, 111, 92
        ]
    );
    assert_eq!(
        fixed(1).to_z32(),
        "tkrq8zmwb8a3m9k15csu3q17qmfgqnp9dskbrg9uq1rydpyxp7qy"
    );
    assert_eq!(
        fixed(2).to_z32(),
        "orhzqdiexwmi6iidktucgud63ufa5nwtsuzdxe176a8izd6jsqky"
    );
    let zero = EndpointId::from_bytes([0; 32]).unwrap();
    assert_eq!(zero.to_z32(), "y".repeat(52));
}

#[test]
fn a_peer_id_names_its_peer() {
    for key in [fixed(1), fixed(2), generate().public()] {
        let text = key.to_z32();
        assert_eq!(EndpointId::from_z32(&text), Ok(key));
        assert_eq!(text.len(), 52);
    }
}

#[test]
fn only_peer_ids_name_a_peer() {
    // No symbol of the alphabet, or too few symbols.
    assert_eq!(EndpointId::from_z32("not-a-valid-z32-key"), Err(PeerIdError::NotBase32));
    assert_eq!(EndpointId::from_z32("y"), Err(PeerIdError::NotBase32));
    assert_eq!(
        EndpointId::from_z32(&fixed(1).to_z32().to_uppercase()),
        Err(PeerIdError::NotBase32)
    );
    // Bits set past the last byte.
    let trailing = format!("{}b", "y".repeat(51));
    assert_eq!(EndpointId::from_z32(&trailing), Err(PeerIdError::NotBase32));
    // Bytes, but not those of a key.
    assert_eq!(EndpointId::from_z32(""), Err(PeerIdError::NotPublicKey));
    assert_eq!(EndpointId::from_z32("yy"), Err(PeerIdError::NotPublicKey));
    assert_eq!(
        EndpointId::from_z32("yeyyyyyyyyyyyyyyyyyyyyyyyyyyyyyyyyyyyyyyyyyyyyyyyyyy"),
        Err(PeerIdError::NotPublicKey)
    );
    assert_eq!(PeerIdError::NotBase32.message(), "failed to decode base32 string");
    assert_eq!(PeerIdError::NotPublicKey.message(), "data is not a valid public key");
}

#[test]
fn not_all_bytes_are_a_public_key() {
    let mut bytes = [0u8; 32];
    bytes[0] = 2;
    assert!(EndpointId::from_bytes(bytes).is_none());
    bytes[0] = 3;
    assert_eq!(EndpointId::from_bytes(bytes).unwrap().to_bytes(), bytes);
}

#[test]
fn the_file_of_the_readme_lists_two_peers() {
    let content = "# Admin laptop\n\
                   miu6idybyptstd4u9xognugzzxpbrjujhe9q1fcu4sa5i4w6x3ro\n\
                   \n\
                   # Backup server\n\
                   w5qdgcky6dxnn1aqk7c63f86gcw5di871mck3mhd4nyeu78ydj9y\n";
    let keys = load_authorized_keys(PATH, Some(content)).unwrap();
    assert_eq!(keys.len(), 2);
    let shown = "316zwcpy7dxn51mh6cnus9mn97i8uwn8xjsnnx988xx6izdnsuty";
    assert_eq!(EndpointId::from_z32(shown).unwrap().to_z32(), shown);
}

#[test]
fn lines_end_in_any_way_and_white_space_is_dropped() {
    let a = fixed(1).to_z32();
    let b = fixed(2).to_z32();
    for content in [
        format!("{a}\n{b}"),
        format!("{a}\r\n{b}\r\n"),
        format!("\n\n\t{a}\u{3000}\n\u{a0}{b} \n\n"),
        format!("{a}\n#{b}\n{b}\n# {a}\n{a}"),
    ] {
        let keys = load_authorized_keys(PATH, Some(&content)).unwrap();
        assert_eq!(keys.len(), 2);
        assert!(keys.contains(&fixed(1)));
        assert!(keys.contains(&fixed(2)));
        assert!(!keys.contains(&fixed(3)));
    }
    // Two on one line are none, and so is one behind a comment sign.
    assert!(load_authorized_keys(PATH, Some(&format!("{a} {b}"))).is_err());
    assert!(load_authorized_keys(PATH, Some(&format!("  # {a}"))).is_err());
    assert!(load_authorized_keys(PATH, Some(&format!("{a}\r{b}"))).is_err());
}

#[test]
fn a_further_line_adds_only_its_own_peer() {
    let a = fixed(1).to_z32();
    let b = fixed(2).to_z32();
    for (line, count) in [
        ("".to_string(), 1),
        ("# later".to_string(), 1),
        ("rubbish".to_string(), 1),
        (a.clone(), 1),
        (b, 2),
    ] {
        let keys = load_authorized_keys(PATH, Some(&format!("{a}\n{line}"))).unwrap();
        assert_eq!(keys.len(), count);
        assert!(keys.contains(&fixed(1)));
    }
}

#[test]
fn two_texts_list_what_each_lists() {
    let (a, b, c) = (fixed(1).to_z32(), fixed(2).to_z32(), fixed(3).to_z32());
    let keys = load_authorized_keys(PATH, Some(&format!("{a}\n# x\n{b}\n\n{b}\n{c}"))).unwrap();
    assert_eq!(keys.len(), 3);
    for i in 1..4 {
        assert!(keys.contains(&fixed(i)));
    }
}

#[test]
fn no_line_is_passed_over() {
    let a = fixed(1).to_z32();
    let content = format!("# note\n  rubbish \r\n\n{a}\nyy\n{a} {a}");
    let found = invalid_entries(&content);
    assert_eq!(found.len(), 3);
    assert_eq!(found[0].text, "rubbish");
    assert_eq!(found[0].error, PeerIdError::NotBase32);
    assert_eq!(found[1].text, "yy");
    assert_eq!(found[1].error, PeerIdError::NotPublicKey);
    assert_eq!(found[2].text, format!("{a} {a}"));
    assert_eq!(found[2].error, PeerIdError::NotBase32);
    assert_eq!(load_authorized_keys(PATH, Some(&content)).unwrap().len(), 1);
    assert!(invalid_entries("").is_empty());
    assert!(invalid_entries(&format!("\n#x\n{a}\n")).is_empty());
}

#[test]
fn a_set_of_peers() {
    let mut keys = AuthorizedKeys::new();
    assert!(keys.is_empty());
    assert_eq!(keys.len(), 0);
    keys.insert(fixed(1));
    keys.insert(fixed(2));
    keys.insert(fixed(1));
    assert_eq!(keys.len(), 2);
    assert!(!keys.is_empty());
    assert!(fixed(1).same(&fixed(1)));
    assert!(!fixed(1).same(&fixed(2)));
}
