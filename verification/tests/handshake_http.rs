//! Tests of the handshake parser, validator and accept-key computation.

use rsws::protocol::handshake::{validate_origin, HandshakeRequest, HandshakeResponse};
use rsws::{compute_accept_key, Error};

#[test]
fn test_compute_accept_key_rfc_example() {
    let key = "dGhlIHNhbXBsZSBub25jZQ==";
    let expected = "s3pPLMBiTxaQ9kYGzzhZRbK+xOo=";
    assert_eq!(compute_accept_key(key), expected);
}

#[test]
fn test_parse_valid_request() {
    let request = b"GET /chat HTTP/1.1\r\n\
        Host: server.example.com\r\n\
        Upgrade: websocket\r\n\
        Connection: Upgrade\r\n\
        Sec-WebSocket-Key: dGhlIHNhbXBsZSBub25jZQ==\r\n\
        Sec-WebSocket-Version: 13\r\n\
        Origin: http://example.com\r\n\
        Sec-WebSocket-Protocol: chat, superchat\r\n\
        \r\n";

    let req = HandshakeRequest::parse(request).unwrap();
    assert_eq!(req.path, "/chat");
    assert_eq!(req.host, "server.example.com");
    assert_eq!(req.key, "dGhlIHNhbXBsZSBub25jZQ==");
    assert_eq!(req.version, 13);
    assert_eq!(req.origin, Some("http://example.com".to_string()));
    assert_eq!(req.protocols, vec!["chat", "superchat"]);
}

#[test]
fn test_parse_request_missing_key() {
    let request = b"GET /chat HTTP/1.1\r\n\
        Host: server.example.com\r\n\
        Upgrade: websocket\r\n\
        Connection: Upgrade\r\n\
        Sec-WebSocket-Version: 13\r\n\
        \r\n";

    let result = HandshakeRequest::parse(request);
    assert!(result.is_err());
    let err = result.unwrap_err();
    assert!(matches!(err, Error::InvalidHandshake(msg) if msg.contains("Sec-WebSocket-Key")));
}

#[test]
fn test_parse_request_missing_upgrade() {
    let request = b"GET /chat HTTP/1.1\r\n\
        Host: server.example.com\r\n\
        Connection: Upgrade\r\n\
        Sec-WebSocket-Key: dGhlIHNhbXBsZSBub25jZQ==\r\n\
        Sec-WebSocket-Version: 13\r\n\
        \r\n";

    let result = HandshakeRequest::parse(request);
    assert!(result.is_err());
    let err = result.unwrap_err();
    assert!(matches!(err, Error::InvalidHandshake(msg) if msg.contains("Upgrade")));
}

#[test]
fn test_parse_request_wrong_version() {
    let request = b"GET /chat HTTP/1.1\r\n\
        Host: server.example.com\r\n\
        Upgrade: websocket\r\n\
        Connection: Upgrade\r\n\
        Sec-WebSocket-Key: dGhlIHNhbXBsZSBub25jZQ==\r\n\
        Sec-WebSocket-Version: 8\r\n\
        \r\n";

    let req = HandshakeRequest::parse(request).unwrap();
    let result = req.validate();
    assert!(result.is_err());
    let err = result.unwrap_err();
    assert!(matches!(err, Error::InvalidHandshake(msg) if msg.contains("version")));
}

#[test]
fn test_validate_request() {
    let valid_req = HandshakeRequest {
        path: "/chat".to_string(),
        host: "example.com".to_string(),
        key: "dGhlIHNhbXBsZSBub25jZQ==".to_string(),
        version: 13,
        origin: None,
        protocols: vec![],
        extensions: vec![],
    };
    assert!(valid_req.validate().is_ok());

    let invalid_key_req = HandshakeRequest {
        key: "c2hvcnQ=".to_string(),
        ..valid_req.clone()
    };
    assert!(invalid_key_req.validate().is_err());

    let invalid_version_req = HandshakeRequest {
        version: 12,
        ..valid_req.clone()
    };
    assert!(invalid_version_req.validate().is_err());
}

#[test]
fn test_response_from_request() {
    let req = HandshakeRequest {
        path: "/chat".to_string(),
        host: "example.com".to_string(),
        key: "dGhlIHNhbXBsZSBub25jZQ==".to_string(),
        version: 13,
        origin: None,
        protocols: vec!["chat".to_string(), "superchat".to_string()],
        extensions: vec![],
    };

    let resp = HandshakeResponse::from_request(&req);
    assert_eq!(resp.accept, "s3pPLMBiTxaQ9kYGzzhZRbK+xOo=");
    assert_eq!(resp.protocol, Some("chat".to_string()));
}

#[test]
fn test_response_write() {
    let resp = HandshakeResponse {
        accept: "s3pPLMBiTxaQ9kYGzzhZRbK+xOo=".to_string(),
        protocol: Some("chat".to_string()),
        extensions: vec![],
    };

    let mut buf = Vec::new();
    resp.write(&mut buf).unwrap();
    let response_str = String::from_utf8(buf).unwrap();

    assert!(response_str.contains("HTTP/1.1 101 Switching Protocols"));
    assert!(response_str.contains("Upgrade: websocket"));
    assert!(response_str.contains("Connection: Upgrade"));
    assert!(response_str.contains("Sec-WebSocket-Accept: s3pPLMBiTxaQ9kYGzzhZRbK+xOo="));
    assert!(response_str.contains("Sec-WebSocket-Protocol: chat"));
    assert!(response_str.ends_with("\r\n\r\n"));
}

#[test]
fn test_parse_response() {
    let response = b"HTTP/1.1 101 Switching Protocols\r\n\
        Upgrade: websocket\r\n\
        Connection: Upgrade\r\n\
        Sec-WebSocket-Accept: s3pPLMBiTxaQ9kYGzzhZRbK+xOo=\r\n\
        Sec-WebSocket-Protocol: chat\r\n\
        \r\n";

    let resp = HandshakeResponse::parse(response).unwrap();
    assert_eq!(resp.accept, "s3pPLMBiTxaQ9kYGzzhZRbK+xOo=");
    assert_eq!(resp.protocol, Some("chat".to_string()));
}

#[test]
fn test_roundtrip() {
    let request = b"GET /chat HTTP/1.1\r\n\
        Host: server.example.com\r\n\
        Upgrade: websocket\r\n\
        Connection: Upgrade\r\n\
        Sec-WebSocket-Key: dGhlIHNhbXBsZSBub25jZQ==\r\n\
        Sec-WebSocket-Version: 13\r\n\
        \r\n";

    let req = HandshakeRequest::parse(request).unwrap();
    assert!(req.validate().is_ok());

    let resp = HandshakeResponse::from_request(&req);

    let mut buf = Vec::new();
    resp.write(&mut buf).unwrap();

    let parsed_resp = HandshakeResponse::parse(&buf).unwrap();

    let expected_accept = compute_accept_key(&req.key);
    assert_eq!(parsed_resp.accept, expected_accept);
    assert_eq!(parsed_resp.accept, "s3pPLMBiTxaQ9kYGzzhZRbK+xOo=");
}

#[test]
fn test_origin_allowed() {
    let allowed = vec![
        "https://example.com".to_string(),
        "https://app.example.com".to_string(),
    ];
    assert!(validate_origin(Some("https://example.com"), &allowed).is_ok());
    assert!(validate_origin(Some("https://app.example.com"), &allowed).is_ok());
}

#[test]
fn test_origin_not_allowed() {
    let allowed = vec!["https://example.com".to_string()];
    let result = validate_origin(Some("https://evil.com"), &allowed);
    assert!(matches!(result, Err(Error::OriginNotAllowed { .. })));
}

#[test]
fn test_origin_missing_when_required() {
    let allowed = vec!["https://example.com".to_string()];
    let result = validate_origin(None, &allowed);
    assert!(matches!(result, Err(Error::OriginNotAllowed { .. })));
}

#[test]
fn test_origin_validation_disabled() {
    let allowed: Vec<String> = vec![];
    assert!(validate_origin(Some("https://anything.com"), &allowed).is_ok());
    assert!(validate_origin(None, &allowed).is_ok());
}

#[test]
fn test_case_insensitive_headers() {
    let request = b"GET /chat HTTP/1.1\r\n\
        HOST: server.example.com\r\n\
        UPGRADE: WebSocket\r\n\
        CONNECTION: upgrade\r\n\
        SEC-WEBSOCKET-KEY: dGhlIHNhbXBsZSBub25jZQ==\r\n\
        SEC-WEBSOCKET-VERSION: 13\r\n\
        \r\n";

    let req = HandshakeRequest::parse(request).unwrap();
    assert_eq!(req.host, "server.example.com");
    assert_eq!(req.key, "dGhlIHNhbXBsZSBub25jZQ==");
    assert!(req.validate().is_ok());
}

#[test]
fn test_duplicate_host_header_rejected() {
    let request = b"GET / HTTP/1.1\r\n\
Host: example.com\r\n\
Host: evil.com\r\n\
Upgrade: websocket\r\n\
Connection: Upgrade\r\n\
Sec-WebSocket-Key: dGhlIHNhbXBsZSBub25jZQ==\r\n\
Sec-WebSocket-Version: 13\r\n\r\n";

    let result = HandshakeRequest::parse(request);
    assert!(matches!(
        result,
        Err(Error::InvalidHandshake(msg)) if msg.contains("Duplicate")
    ));
}

#[test]
fn test_handshake_too_large() {
    let large_data = vec![b'A'; 10000];
    let result = HandshakeRequest::parse_with_limit(&large_data, 8192);
    assert!(matches!(result, Err(Error::HandshakeTooLarge { .. })));
}

#[test]
fn test_handshake_at_limit() {
    let valid = b"GET / HTTP/1.1\r\nHost: x\r\nUpgrade: websocket\r\nConnection: Upgrade\r\nSec-WebSocket-Key: dGhlIHNhbXBsZSBub25jZQ==\r\nSec-WebSocket-Version: 13\r\n\r\n";
    let result = HandshakeRequest::parse_with_limit(valid, 8192);
    assert!(result.is_ok());
}

#[test]
fn test_invalid_http_method() {
    let request = b"POST /chat HTTP/1.1\r\n\
        Host: server.example.com\r\n\
        Upgrade: websocket\r\n\
        Connection: Upgrade\r\n\
        Sec-WebSocket-Key: dGhlIHNhbXBsZSBub25jZQ==\r\n\
        Sec-WebSocket-Version: 13\r\n\
        \r\n";

    let result = HandshakeRequest::parse(request);
    assert!(result.is_err());
    let err = result.unwrap_err();
    assert!(matches!(err, Error::InvalidHandshake(msg) if msg.contains("GET")));
}

#[test]
fn test_invalid_http_version() {
    let request = b"GET /chat HTTP/1.0\r\n\
        Host: server.example.com\r\n\
        Upgrade: websocket\r\n\
        Connection: Upgrade\r\n\
        Sec-WebSocket-Key: dGhlIHNhbXBsZSBub25jZQ==\r\n\
        Sec-WebSocket-Version: 13\r\n\
        \r\n";

    let result = HandshakeRequest::parse(request);
    assert!(result.is_err());
    let err = result.unwrap_err();
    assert!(matches!(err, Error::InvalidHandshake(msg) if msg.contains("HTTP/1.1")));
}

#[test]
fn test_missing_host_header() {
    let request = b"GET /chat HTTP/1.1\r\n\
        Upgrade: websocket\r\n\
        Connection: Upgrade\r\n\
        Sec-WebSocket-Key: dGhlIHNhbXBsZSBub25jZQ==\r\n\
        Sec-WebSocket-Version: 13\r\n\
        \r\n";

    let result = HandshakeRequest::parse(request);
    assert!(result.is_err());
    let err = result.unwrap_err();
    assert!(matches!(err, Error::InvalidHandshake(msg) if msg.contains("Host")));
}

#[test]
fn test_response_missing_accept() {
    let response = b"HTTP/1.1 101 Switching Protocols\r\n\
        Upgrade: websocket\r\n\
        Connection: Upgrade\r\n\
        \r\n";

    let result = HandshakeResponse::parse(response);
    assert!(result.is_err());
    let err = result.unwrap_err();
    assert!(matches!(err, Error::InvalidHandshake(msg) if msg.contains("Sec-WebSocket-Accept")));
}

#[test]
fn test_crlf_in_protocol_rejected() {
    let response = HandshakeResponse {
        accept: "dGhlIHNhbXBsZSBub25jZQ==".to_string(),
        protocol: Some("chat\r\nX-Injected: evil".to_string()),
        extensions: vec![],
    };
    let mut buf = Vec::new();
    let result = response.write(&mut buf);
    assert!(matches!(result, Err(Error::InvalidHeaderValue { .. })));
}

#[test]
fn test_crlf_in_extension_rejected() {
    let response = HandshakeResponse {
        accept: "dGhlIHNhbXBsZSBub25jZQ==".to_string(),
        protocol: None,
        extensions: vec!["permessage-deflate\nX-Evil: bad".to_string()],
    };
    let mut buf = Vec::new();
    let result = response.write(&mut buf);
    assert!(matches!(result, Err(Error::InvalidHeaderValue { .. })));
}

#[test]
fn test_valid_protocol_accepted() {
    let response = HandshakeResponse {
        accept: "dGhlIHNhbXBsZSBub25jZQ==".to_string(),
        protocol: Some("chat".to_string()),
        extensions: vec!["permessage-deflate".to_string()],
    };
    let mut buf = Vec::new();
    let result = response.write(&mut buf);
    assert!(result.is_ok());
    assert!(!buf.is_empty());
}
