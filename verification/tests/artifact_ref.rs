use base64::Engine as _;
use terminal_interop::artifact_ref::{
    admit_artifact, after_token_collision, check_entry, check_entry_size, confirm_identity,
    content_digest, enforce_artifact_limit, latest_pointer, latest_reference, parse_token,
    random_token, token_from_random, ArtifactRefV1, ArtifactRefValidationError, FileIdentity,
    Registry, RegistryError, ARTIFACT_REF_SCHEMA_V1, ARTIFACT_REF_URI_PREFIX,
};
use terminal_interop::evidence::MAX_ARTIFACT_INPUT_BYTES_V1;

const BASE64_STANDARD: base64::engine::GeneralPurpose = base64::engine::general_purpose::STANDARD;

fn identity(contents: &[u8]) -> FileIdentity {
    FileIdentity {
        size: contents.len() as u64,
        modified_unix_nanos: Some(5),
        device: Some(1),
        inode: Some(2),
        content_sha256_base64: content_digest(contents),
    }
}

#[test]
fn portable_validation_rejects_non_sha256_digest() {
    let entry = ArtifactRefV1 {
        schema: ARTIFACT_REF_SCHEMA_V1.to_owned(),
        token: "0123456789ABC".to_owned(),
        path_encoding: "unix-bytes-v1".to_owned(),
        path_base64: BASE64_STANDARD.encode(b"/tmp/example.txt"),
        identity: FileIdentity {
            size: 0,
            modified_unix_nanos: None,
            device: None,
            inode: None,
            content_sha256_base64: BASE64_STANDARD.encode([0_u8; 31]),
        },
        registered_at_unix_ms: 0,
    };

    assert_eq!(entry.validate(), Err(ArtifactRefValidationError::InvalidDigest));
}

#[test]
fn rejects_paths_and_ambiguous_tokens_as_references() {
    assert!(parse_token("/tmp/file").is_err());
    assert!(parse_token("@OOOOOOOOOOOOO").is_err());
    assert!(parse_token("@123").is_err());
}

#[test]
fn reference_forms_name_the_same_token() {
    assert_eq!(parse_token("0123456789ABC").expect("bare"), "0123456789ABC");
    assert_eq!(parse_token("@0123456789ABC").expect("short"), "0123456789ABC");
    assert_eq!(
        parse_token(&format!("{ARTIFACT_REF_URI_PREFIX}0123456789ABC")).expect("uri"),
        "0123456789ABC"
    );
    assert!(matches!(parse_token("@@0123456789ABC"), Err(RegistryError::InvalidReference)));
}

#[test]
fn token_letters_are_read_in_either_case() {
    assert_eq!(parse_token("@0123456789abc").expect("lowercase short"), "0123456789ABC");
    assert_eq!(parse_token("0123456789aBc").expect("mixed bare"), "0123456789ABC");
    assert_eq!(
        parse_token(&format!("{ARTIFACT_REF_URI_PREFIX}fzzzzzzzzzzzz")).expect("lowercase uri"),
        "FZZZZZZZZZZZZ"
    );
    assert!(parse_token("@0123456789abo").is_err());
    assert!(parse_token("@0123456789abi").is_err());
    assert!(parse_token("@0123456789abu").is_err());
}

#[test]
fn random_tokens_follow_the_big_endian_value() {
    assert_eq!(token_from_random([0; 8]), "0000000000000");
    assert_eq!(token_from_random([0, 0, 0, 0, 0, 0, 0, 31]), "000000000000Z");
    assert_eq!(token_from_random([0, 0, 0, 0, 0, 0, 0, 32]), "0000000000010");
    assert_eq!(token_from_random([0xff; 8]), "FZZZZZZZZZZZZ");
    let token = random_token().expect("random source");
    assert_eq!(parse_token(&format!("@{token}")).expect("generated token parses"), token);
}

#[test]
fn registered_entry_validates_and_resolves_to_its_path() {
    let path = b"/tmp/artifact.txt";
    let entry = ArtifactRefV1::new("0123456789ABC".to_owned(), path, identity(b"hello"), 42);
    assert!(entry.validate().is_ok());
    assert_eq!(entry.short_ref(), "@0123456789ABC");
    assert_eq!(entry.uri(), "terminal-interop://artifact/0123456789ABC");
    assert_eq!(check_entry("0123456789ABC", &entry).expect("resolves"), path.to_vec());
    assert!(matches!(check_entry("ABCDEFGHJKMNP", &entry), Err(RegistryError::InvalidReference)));
}

#[test]
fn validation_failures_in_checking_order() {
    let base = ArtifactRefV1::new("0123456789ABC".to_owned(), b"/tmp/a", identity(b"x"), 0);
    let mut schema = base.clone();
    schema.schema = "urn:x".to_owned();
    assert_eq!(
        schema.validate().expect_err("schema").message(),
        "unsupported artifact reference schema: \"urn:x\""
    );
    let mut token = base.clone();
    token.token = "OOOOOOOOOOOOO".to_owned();
    assert_eq!(token.validate(), Err(ArtifactRefValidationError::InvalidToken));
    let mut relative = base.clone();
    relative.path_base64 = BASE64_STANDARD.encode(b"tmp/a");
    assert_eq!(relative.validate(), Err(ArtifactRefValidationError::InvalidPath));
    let mut windows = base.clone();
    windows.path_encoding = "utf8-v1".to_owned();
    windows.path_base64 = BASE64_STANDARD.encode(b"C:\\a.txt");
    assert!(windows.validate().is_ok());
    windows.path_base64 = BASE64_STANDARD.encode(b"C:\xff\\a");
    assert_eq!(windows.validate(), Err(ArtifactRefValidationError::InvalidPath));
    let mut unknown = base.clone();
    unknown.path_encoding = "latin1".to_owned();
    assert_eq!(
        unknown.validate(),
        Err(ArtifactRefValidationError::UnsupportedPathEncoding("latin1".to_owned()))
    );
    assert!(matches!(
        check_entry("0123456789ABC", &unknown),
        Err(RegistryError::UnsupportedPathEncoding(e)) if e == "latin1"
    ));
    let mut large = base;
    large.identity.size = MAX_ARTIFACT_INPUT_BYTES_V1 as u64 + 1;
    let error = large.validate().expect_err("too large");
    assert_eq!(
        error.message(),
        "artifact reference size 33554433 exceeds the 33554432-byte v1 limit"
    );
}

#[test]
fn content_digest_is_base64_sha256() {
    assert_eq!(content_digest(b"hello"), "LPJNul+wow4m6DsqxbninhsWHlwfp0JecwQzYpOLmCQ=");
}

#[test]
fn registry_paths() {
    let registry = Registry::new(b"/state".to_vec());
    assert_eq!(registry.root(), b"/state");
    assert_eq!(registry.refs_dir(), b"/state/refs".to_vec());
    assert_eq!(registry.entry_path("0123456789ABC"), b"/state/refs/0123456789ABC.json".to_vec());
    assert_eq!(registry.latest_path(), b"/state/latest".to_vec());
}

#[test]
fn registry_discovery_order() {
    let explicit = Registry::discover(Some(b"/s"), Some(b"/x"), Some(b"/h")).expect("explicit");
    assert_eq!(explicit.root(), b"/s");
    let xdg = Registry::discover(None, Some(b"/x"), Some(b"/h")).expect("xdg");
    assert_eq!(xdg.root(), b"/x/terminal-interop");
    let home = Registry::discover(None, None, Some(b"/h/")).expect("home");
    assert_eq!(home.root(), b"/h/.local/state/terminal-interop");
    assert!(matches!(
        Registry::discover(None, None, None),
        Err(RegistryError::StateDirectoryUnavailable)
    ));
}

#[test]
fn rejects_oversized_or_irregular_artifacts() {
    let limit = MAX_ARTIFACT_INPUT_BYTES_V1 as u64;
    assert!(enforce_artifact_limit(limit).is_ok());
    assert!(matches!(
        enforce_artifact_limit(limit + 1),
        Err(RegistryError::ArtifactLimit { actual, limit: l }) if actual == limit + 1 && l == MAX_ARTIFACT_INPUT_BYTES_V1
    ));
    assert!(matches!(admit_artifact(b"/dev", false, 0), Err(RegistryError::NotRegularFile(p)) if p == b"/dev".to_vec()));
    assert!(admit_artifact(b"/a", true, 1).is_ok());
    assert!(check_entry_size(65536).is_ok());
    assert!(matches!(check_entry_size(65537), Err(RegistryError::EntryLimit)));
    assert!(after_token_collision(15).is_ok());
    assert!(matches!(after_token_collision(16), Err(RegistryError::TokenExhausted)));
}

#[test]
fn changed_files_do_not_rebind() {
    let recorded = identity(b"first");
    assert!(confirm_identity("0123456789ABC", &recorded, &identity(b"first"), true).is_ok());
    assert!(matches!(
        confirm_identity("0123456789ABC", &recorded, &identity(b"different size"), true),
        Err(RegistryError::IdentityChanged(t)) if t == "0123456789ABC"
    ));
    assert!(confirm_identity("0123456789ABC", &recorded, &identity(b"first"), false).is_err());
}

#[test]
fn latest_pointer_round_trip() {
    let text = latest_pointer("0123456789ABC");
    assert_eq!(text, "@0123456789ABC\n");
    let reference = latest_reference(&text);
    assert_eq!(reference, "@0123456789ABC");
    assert_eq!(parse_token(&reference).expect("pointer names token"), "0123456789ABC");
    assert_eq!(latest_reference("\u{3000} x \t"), "x");
    assert_eq!(latest_reference("   "), "");
}

#[test]
fn registry_error_messages() {
    assert_eq!(
        RegistryError::NotFound("0123456789ABC".to_owned()).message(),
        "artifact reference does not exist: @0123456789ABC"
    );
    assert_eq!(
        RegistryError::ArtifactLimit { actual: 9, limit: 8 }.message(),
        "artifact has 9 bytes; reference profile limit is 8"
    );
}

#[test]
fn random_tokens_differ() {
    let first = random_token().expect("random source");
    let second = random_token().expect("random source");
    assert_ne!(first, second);
}
