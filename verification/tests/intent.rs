use terminal_interop::intent::{
    admit_request, check_receipt, check_runtime_directory, decode_frame_header, encode_frame, endpoint_mismatch_receipt,
    runtime_root, socket_path, EncodedPathV1, EndpointId, IntentAction, IntentDeliveryState,
    IntentError, IntentReadyV1, IntentReceiptV1, OpenIntentV1, PathEncoding,
    INTENT_URI_PREFIX_V1, OPEN_INTENT_SCHEMA_V1,
};

#[test]
fn open_uri_round_trip_preserves_the_exact_absolute_path() {
    let endpoint = EndpointId::parse("0123456789abcdef0123456789abcdef")
        .expect("fixture endpoint should be valid");
    let intent = OpenIntentV1::from_path(endpoint, b"/tmp/agent artifact#1.png")
        .expect("absolute fixture path should encode");
    let uri = intent.uri().expect("fixture intent should produce a URI");
    let parsed = OpenIntentV1::parse_uri(&uri).expect("generated URI should parse");
    assert_eq!(parsed, intent);
    assert_eq!(
        parsed.path().expect("parsed fixture path should decode"),
        b"/tmp/agent artifact#1.png".to_vec()
    );
}

#[test]
fn uri_rejects_relative_nul_and_extra_components() {
    let endpoint = EndpointId::parse("0123456789abcdef0123456789abcdef")
        .expect("fixture endpoint should be valid");
    assert!(OpenIntentV1::from_path(endpoint, b"relative.png").is_err());
    assert!(
        OpenIntentV1::parse_uri(
            "terminal-interop-intent://v1/open/0123456789abcdef0123456789abcdef/L3RtcC9h?x=1"
        )
        .is_err()
    );
    assert!(
        OpenIntentV1::parse_uri(
            "terminal-interop-intent://v1/open/0123456789abcdef0123456789abcdef/L3RtcC8AYQ"
        )
        .is_err()
    );
}

#[test]
fn uri_has_the_prefix_endpoint_and_url_safe_path() {
    let endpoint = EndpointId::parse("0123456789abcdef0123456789abcdef").expect("endpoint");
    let intent = OpenIntentV1::from_path(endpoint, b"/tmp/a").expect("path");
    assert_eq!(intent.target.value, "L3RtcC9h");
    assert_eq!(intent.schema, OPEN_INTENT_SCHEMA_V1);
    assert_eq!(intent.action, IntentAction::OpenArtifact);
    assert_eq!(intent.target.encoding, PathEncoding::UnixBytesBase64urlV1);
    assert_eq!(
        intent.uri().expect("uri"),
        format!("{INTENT_URI_PREFIX_V1}0123456789abcdef0123456789abcdef/L3RtcC9h")
    );
}

#[test]
fn endpoint_parsing_is_canonical_lowercase_hex() {
    assert!(EndpointId::parse("0123456789abcdef0123456789abcdef").is_ok());
    assert!(matches!(
        EndpointId::parse("0123456789ABCDEF0123456789abcdef"),
        Err(IntentError::InvalidEndpoint)
    ));
    assert!(EndpointId::parse("0123456789abcdef").is_err());
    assert!(EndpointId::parse("").is_err());
}

#[test]
fn generated_endpoints_are_canonical_and_parse() {
    let endpoint = EndpointId::generate().expect("random source");
    assert_eq!(endpoint.as_str().len(), 32);
    assert!(EndpointId::parse(endpoint.as_str()).is_ok());
    let fixed = EndpointId::from_bytes(&[0x01, 0xab, 0xff]);
    assert_eq!(fixed.as_str(), "01abff");
}

#[test]
fn parse_uri_errors_in_checking_order() {
    let good = "0123456789abcdef0123456789abcdef";
    assert!(matches!(
        OpenIntentV1::parse_uri("terminal-interop-intent://v1/open/x#y"),
        Err(IntentError::UnsupportedUriComponent)
    ));
    assert!(matches!(
        OpenIntentV1::parse_uri("terminal-interop-intent://v2/open/x"),
        Err(IntentError::InvalidUri)
    ));
    assert!(matches!(
        OpenIntentV1::parse_uri("terminal-interop-intent://v1/open/nothex/L3RtcC9h"),
        Err(IntentError::InvalidEndpoint)
    ));
    assert!(matches!(
        OpenIntentV1::parse_uri(&format!("{INTENT_URI_PREFIX_V1}{good}")),
        Err(IntentError::InvalidUri)
    ));
    assert!(matches!(
        OpenIntentV1::parse_uri(&format!("{INTENT_URI_PREFIX_V1}{good}/")),
        Err(IntentError::InvalidUri)
    ));
    assert!(matches!(
        OpenIntentV1::parse_uri(&format!("{INTENT_URI_PREFIX_V1}{good}/L3RtcC9h/more")),
        Err(IntentError::InvalidUri)
    ));
    assert!(matches!(
        OpenIntentV1::parse_uri(&format!("{INTENT_URI_PREFIX_V1}{good}/!!")),
        Err(IntentError::InvalidTargetEncoding)
    ));
    assert!(matches!(
        OpenIntentV1::parse_uri(&format!("{INTENT_URI_PREFIX_V1}{good}/cmVs")),
        Err(IntentError::TargetNotAbsolute)
    ));
}

#[test]
fn path_checks_schema_and_encoding() {
    let endpoint = EndpointId::parse("0123456789abcdef0123456789abcdef").expect("endpoint");
    let mut intent = OpenIntentV1::from_path(endpoint, b"/tmp/a").expect("path");
    intent.target.encoding = PathEncoding::Utf8Base64urlV1;
    assert!(matches!(intent.path(), Err(IntentError::UnsupportedPathEncoding)));
    intent.schema = "urn:other".to_owned();
    match intent.path() {
        Err(IntentError::UnsupportedSchema(schema)) => assert_eq!(schema, "urn:other"),
        other => panic!("unexpected {other:?}"),
    }
    let oversized = vec![b'/'; 16 * 1024 + 1];
    let endpoint = EndpointId::parse("0123456789abcdef0123456789abcdef").expect("endpoint");
    assert!(matches!(
        OpenIntentV1::from_path(endpoint, &oversized),
        Err(IntentError::InvalidTargetBytes)
    ));
}

#[test]
fn receipts_and_readiness_records() {
    let endpoint = EndpointId::parse("fedcba9876543210fedcba9876543210").expect("endpoint");
    let forwarded = IntentReceiptV1::forwarded(endpoint.clone());
    assert_eq!(forwarded.state, IntentDeliveryState::Forwarded);
    assert_eq!(forwarded.detail, "intent was forwarded to the bound local consumer");
    let rejected = IntentReceiptV1::rejected(endpoint.clone(), "no");
    assert_eq!(rejected.state, IntentDeliveryState::Rejected);
    assert_eq!(rejected.detail, "no");
    let ready = IntentReadyV1::new(endpoint.clone());
    assert_eq!(ready.uri_prefix, format!("{INTENT_URI_PREFIX_V1}fedcba9876543210fedcba9876543210/"));
    let mismatch = endpoint_mismatch_receipt(&endpoint);
    assert_eq!(mismatch.detail, "request endpoint does not match the bound consumer");
}

#[test]
fn frames_carry_a_big_endian_length() {
    let frame = encode_frame(b"hello").expect("small frame");
    assert_eq!(frame, b"\x00\x00\x00\x05hello".to_vec());
    assert_eq!(decode_frame_header([0, 0, 0, 5]).expect("header"), 5);
    assert_eq!(decode_frame_header([0, 1, 0, 0]).expect("largest frame"), 65536);
    assert!(matches!(decode_frame_header([0, 1, 0, 1]), Err(IntentError::FrameTooLarge)));
    assert!(matches!(encode_frame(&vec![0u8; 65537]), Err(IntentError::FrameTooLarge)));
    let large = encode_frame(&vec![7u8; 65536]).expect("largest frame");
    let header = [large[0], large[1], large[2], large[3]];
    assert_eq!(decode_frame_header(header).expect("round trip"), 65536);
}

#[test]
fn socket_paths_and_runtime_root() {
    let endpoint = EndpointId::parse("0123456789abcdef0123456789abcdef").expect("endpoint");
    let root = runtime_root(Some(b"/run/user/1000")).expect("absolute runtime directory");
    assert_eq!(root, b"/run/user/1000/terminal-interop/intent-v1".to_vec());
    assert!(matches!(runtime_root(Some(b"relative")), Err(IntentError::RuntimeDirectoryUnavailable)));
    assert!(matches!(runtime_root(None), Err(IntentError::RuntimeDirectoryUnavailable)));
    let socket = socket_path(&root, &endpoint).expect("short path");
    assert_eq!(
        socket,
        b"/run/user/1000/terminal-interop/intent-v1/0123456789abcdef0123456789abcdef.sock".to_vec()
    );
    let long_root = vec![b'/'; 80];
    match socket_path(&long_root, &endpoint) {
        Err(IntentError::SocketPathTooLong(path)) => assert_eq!(path.len(), 80 + 37),
        other => panic!("unexpected {other:?}"),
    }
}

#[test]
fn requests_and_receipts_must_name_the_bound_endpoint() {
    let bound = EndpointId::parse("0123456789abcdef0123456789abcdef").expect("endpoint");
    let other = EndpointId::parse("fedcba9876543210fedcba9876543210").expect("endpoint");
    let intent = OpenIntentV1::from_path(bound.clone(), b"/tmp/image.png").expect("intent");
    assert_eq!(admit_request(&bound, &intent).expect("admitted"), b"/tmp/image.png".to_vec());
    assert!(matches!(admit_request(&other, &intent), Err(IntentError::EndpointMismatch)));
    assert!(check_receipt(&intent, IntentReceiptV1::forwarded(bound)).is_ok());
    assert!(matches!(
        check_receipt(&intent, IntentReceiptV1::forwarded(other)),
        Err(IntentError::EndpointMismatch)
    ));
}

#[test]
fn error_messages() {
    assert_eq!(IntentError::InvalidUri.message(), "intent URI is invalid");
    assert_eq!(
        IntentError::InvalidTargetBytes.message(),
        "intent target is empty, contains NUL, or exceeds the 16384-byte bound"
    );
    assert_eq!(
        IntentError::SocketPathTooLong(b"/tmp/\xff.sock".to_vec()).message(),
        "intent socket path is too long: /tmp/\u{fffd}.sock"
    );
    let _ = EncodedPathV1 { encoding: PathEncoding::Utf8Base64urlV1, value: String::new() };
}

#[test]
fn generated_endpoints_differ() {
    let first = EndpointId::generate().expect("random source");
    let second = EndpointId::generate().expect("random source");
    assert_ne!(first.as_str(), second.as_str());
    assert_ne!(first.as_str(), "00000000000000000000000000000000");
}

#[test]
fn runtime_directory_must_be_private() {
    let root: &[u8] = b"/run/user/1000/ti";
    assert!(check_runtime_directory(root, true, 0o40700).is_ok());
    for (is_dir, mode) in [(true, 0o40755u32), (true, 0o40710), (false, 0o700)] {
        match check_runtime_directory(root, is_dir, mode) {
            Err(IntentError::RuntimeDirectoryNotPrivate(path)) => assert_eq!(path, root.to_vec()),
            other => panic!("expected a private-directory refusal, got {other:?}"),
        }
    }
}
