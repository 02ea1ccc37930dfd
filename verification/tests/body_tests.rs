use kairos_proxy::body::BodyReader;
use kairos_proxy::errors::GatewayError;

#[test]
fn request_body_size_limit_enforced() {
    // limit crossed mid-stream on a single large chunk: rejected at
    // once, before any parsing could happen
    let mut reader = BodyReader::new(100);
    let first = vec![b'x'; 60];
    assert!(reader.push_chunk(&first).is_ok());
    let second = vec![b'y'; 200];
    let r = reader.push_chunk(&second);
    assert_eq!(r.err(), Some(GatewayError::PayloadTooLarge));
    assert_eq!(reader.len(), 0, "buffered bytes are discarded on failure");
}

#[test]
fn request_body_within_limit_succeeds() {
    let mut reader = BodyReader::new(1000);
    let body = br#"{"metrics": [{"name": "cpu.test"}]}"#;
    assert!(body.len() < 1000, "test body should be under 1000 bytes");
    assert!(reader.push_chunk(body).is_ok());
    assert_eq!(reader.into_bytes(), body.to_vec());
}

#[test]
fn body_accumulates_chunks_in_order() {
    let mut reader = BodyReader::new(32);
    assert!(reader.push_chunk(b"abc").is_ok());
    assert!(reader.push_chunk(b"").is_ok());
    assert!(reader.push_chunk(b"def").is_ok());
    assert_eq!(reader.into_bytes(), b"abcdef".to_vec());
}

#[test]
fn body_exactly_at_limit_is_accepted() {
    let mut reader = BodyReader::new(6);
    assert!(reader.push_chunk(b"abc").is_ok());
    assert!(reader.push_chunk(b"def").is_ok());
    assert_eq!(reader.len(), 6);
    let mut reader2 = BodyReader::new(6);
    assert!(reader2.push_chunk(b"abc").is_ok());
    assert_eq!(
        reader2.push_chunk(b"defg").err(),
        Some(GatewayError::PayloadTooLarge)
    );
}
