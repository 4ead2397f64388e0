use pigeons::identity::{
    checked_secret_key, decode_secret_key, dot_ssh_secret_key, encode_identity, home_ssh_dir,
    persistent_endpoint_id, EndpointId, IdentityPlan, IdentitySource, KeyParseError, SecretKey,
    SecretKeyError, PUBLIC_KEY_FILE, SECRET_KEY_FILE, SECRET_KEY_MODE,
};

const ID: &str = "ae58ff8833241ac82d6ff7611046ed67b5072d142c588d0063e942d9a75502b6";

#[test]
fn decode_secret_key_round_trips() {
    let key = iroh::SecretKey::generate();
    let encoded = z32::encode(&key.to_bytes());

    let decoded = decode_secret_key(encoded.as_bytes()).unwrap();

    assert_eq!(decoded.to_bytes(), key.to_bytes());
}

/// A short key is reported as what it is.
#[test]
fn decode_secret_key_rejects_truncated_key() {
    let key = iroh::SecretKey::generate();
    let encoded = z32::encode(&key.to_bytes());
    let truncated = &encoded.as_bytes()[..encoded.len() - 8];

    let err = decode_secret_key(truncated).err().unwrap().message();

    assert!(err.contains("expected 32"), "unexpected error: {err}");
    assert_eq!(err, "secret key is 27 bytes, expected 32");
}

#[test]
fn decode_secret_key_rejects_garbage() {
    assert!(decode_secret_key(b"not z32 at all!!").is_err());
    let err = decode_secret_key(b"not z32 at all!!").err().unwrap();
    assert_eq!(err, SecretKeyError::NotZ32(' ', 3));
    assert_eq!(err.message(), "secret key is not valid z32");
}

#[test]
fn key_files_hold_z_base_32() {
    let key = SecretKey::from_bytes([0; 32]);
    let files = encode_identity(&key);
    assert_eq!(files.secret, "y".repeat(52));
    assert_eq!(files.secret, z32::encode(&[0; 32]));
    let id = persistent_endpoint_id(&key);
    assert_eq!(files.public, z32::encode(&id.to_bytes()));
    assert_eq!(z32::decode(files.public.as_bytes()).unwrap(), id.to_bytes());
}

#[test]
fn known_key_texts_are_decoded() {
    let bytes: Vec<u8> = (0..32).collect();
    let text = z32::encode(&bytes);
    assert_eq!(text, "yyyoryarywdyqnyjbefoadeqbhebnrounoktcfaadrpbs8y7daxo");
    let key = decode_secret_key(text.as_bytes()).unwrap();
    assert_eq!(encode_identity(&key).secret, text);
    assert_eq!(
        decode_secret_key(text.as_bytes()).unwrap().to_bytes().to_vec(),
        bytes
    );
    // A file with a newline at its end is no key.
    let line = format!("{text}\n");
    assert_eq!(
        decode_secret_key(line.as_bytes()).err(),
        Some(SecretKeyError::NotZ32('\n', 52))
    );
}

#[test]
fn the_length_of_a_key_is_checked() {
    assert_eq!(
        checked_secret_key(vec![9; 32]).unwrap().to_bytes(),
        [9; 32]
    );
    assert_eq!(
        checked_secret_key(vec![9; 31]).err(),
        Some(SecretKeyError::Length(31))
    );
    assert_eq!(
        checked_secret_key(vec![]).err(),
        Some(SecretKeyError::Length(0))
    );
}

#[test]
fn keys_of_other_lengths_are_rejected() {
    let text = "y".repeat(60);
    for n in 0..=60 {
        let decoded = decode_secret_key(&text.as_bytes()[..n]);
        assert_eq!(decoded.is_ok(), n == 51 || n == 52, "{n} characters");
    }
}

#[test]
fn generated_key_is_reloaded_not_regenerated() {
    let first = dot_ssh_secret_key(true, false, false);
    assert_eq!(first.source, IdentitySource::Generate);
    let generated = SecretKey::from_bytes(iroh::SecretKey::generate().to_bytes());
    let files = encode_identity(&generated);

    let second = dot_ssh_secret_key(true, true, true);
    assert_eq!(second.source, IdentitySource::Load);
    let reloaded = decode_secret_key(files.secret.as_bytes()).unwrap();

    assert_eq!(generated.to_bytes(), reloaded.to_bytes());
}

#[test]
fn half_an_identity_is_none() {
    for (public, secret) in [(false, false), (true, false), (false, true)] {
        assert_eq!(
            dot_ssh_secret_key(false, public, secret),
            IdentityPlan {
                create_dir: true,
                source: IdentitySource::Generate,
            }
        );
    }
}

#[test]
fn the_mode_of_the_secret_key_is_for_its_owner_alone() {
    assert_eq!(SECRET_KEY_MODE, 0o600);
    assert_eq!(SECRET_KEY_FILE, "pigeons_ed25519");
    assert_eq!(PUBLIC_KEY_FILE, "pigeons_ed25519.pub");
}

#[test]
fn endpoint_ids_are_read_and_shown() {
    let id = EndpointId::parse(ID).unwrap();
    assert_eq!(id.to_bytes()[0], 0xae);
    assert_eq!(id.to_bytes()[31], 0xb6);
    assert_eq!(id.to_hex(), ID);
    let key: iroh::PublicKey = ID.parse().unwrap();
    assert_eq!(key.to_string(), ID);
    assert_eq!(key.as_bytes(), &id.to_bytes());
}

#[test]
fn texts_that_are_no_endpoint_ids_are_refused() {
    let cases = [
        ("abc", KeyParseError::Length, "invalid length"),
        (
            "zz58ff8833241ac82d6ff7611046ed67b5072d142c588d0063e942d9a75502b6",
            KeyParseError::Hex,
            "failed to decode hex string",
        ),
        (
            "1111111111111111111111111111111111111111111111111111",
            KeyParseError::Base32,
            "failed to decode base32 string",
        ),
    ];
    for (text, error, message) in cases {
        let found = EndpointId::parse(text).err().unwrap();
        assert_eq!(found, error, "{text}");
        assert_eq!(found.message(), message);
        let theirs = text.parse::<iroh::PublicKey>().err().unwrap();
        assert!(!theirs.to_string().is_empty());
    }
}

/// Not every sequence of bytes is a point on the curve.
#[test]
fn bytes_that_are_no_key_are_refused() {
    let refused = (0..=255u8)
        .map(|b| {
            let mut bytes = [0u8; 32];
            bytes[0] = b;
            bytes.iter().map(|b| format!("{b:02x}")).collect::<String>()
        })
        .filter(|text| text.parse::<iroh::PublicKey>().is_err())
        .collect::<Vec<String>>();
    assert!(!refused.is_empty());
    for text in refused {
        assert_eq!(EndpointId::parse(&text).err(), Some(KeyParseError::Data));
    }
}

#[test]
fn the_endpoint_id_is_the_public_half() {
    for seed in [0u8, 1, 7, 255] {
        let id = persistent_endpoint_id(&SecretKey::from_bytes([seed; 32]));
        let theirs = iroh::SecretKey::from_bytes(&[seed; 32]).public();
        assert_eq!(id.to_bytes(), *theirs.as_bytes());
        assert_eq!(id.to_hex(), theirs.to_string());
        assert_eq!(
            EndpointId::parse(&id.to_hex()).unwrap().to_bytes(),
            id.to_bytes()
        );
    }
}

#[test]
fn the_ssh_directory_is_in_the_home() {
    assert_eq!(home_ssh_dir(true).unwrap(), ".ssh");
    assert_eq!(
        home_ssh_dir(false).err().unwrap().message(),
        "home directory not found"
    );
}
