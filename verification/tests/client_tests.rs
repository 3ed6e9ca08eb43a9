use agent_box_common::portal::{PortalError, PortalResponse, RequestMethod, ResponseResult};
use agent_box_common::portal_client::{check_requested_mime, ClientError, PortalClient};

#[test]
fn with_socket_sets_path() {
    let c = PortalClient::with_socket("/tmp/example.sock");
    assert_eq!(c.socket_path, "/tmp/example.sock");
}

// Further cases of this library.

#[test]
fn socket_sources_in_order() {
    let c = PortalClient::from_sources(Some("/tmp/from-env.sock".to_string()), Some("/cfg.sock".to_string()));
    assert_eq!(c.socket_path, "/tmp/from-env.sock");
    let c = PortalClient::from_sources(None, Some("/cfg.sock".to_string()));
    assert_eq!(c.socket_path, "/cfg.sock");
    let c = PortalClient::from_sources(None, None);
    assert!(c.socket_path.ends_with("/agent-portal/portal.sock"));
}

#[test]
fn clipboard_response_is_read() {
    let c = PortalClient::with_socket("/s");
    let req = c.clipboard_request(5, Some("why".to_string()));
    assert_eq!(req.version, 1);
    assert_eq!(req.id, 5);
    assert!(matches!(req.method, RequestMethod::ClipboardReadImage { reason: Some(ref r) } if r == "why"));

    let ok = PortalResponse::ok(5, ResponseResult::ClipboardImage { mime: "image/png".to_string(), bytes: vec![1, 2] });
    let img = c.clipboard_read_image(ok).unwrap();
    assert_eq!(img.mime, "image/png");
    assert_eq!(img.bytes, vec![1, 2]);

    let refused = PortalResponse::err(5, "denied", "request denied by policy");
    match c.clipboard_read_image(refused) {
        Err(ClientError::Refused(t)) => assert_eq!(t, "denied: request denied by policy"),
        other => panic!("unexpected: {other:?}"),
    }

    let other = PortalResponse::ok(5, ResponseResult::Pong { now_unix_ms: 1 });
    assert!(matches!(c.clipboard_read_image(other), Err(ClientError::Unexpected(ResponseResult::Pong { .. }))));

    let missing = PortalResponse { version: 1, id: 5, ok: true, result: None, error: None };
    match c.check_response(missing) {
        Err(ClientError::Refused(t)) => assert_eq!(t, "missing response result"),
        other => panic!("unexpected: {other:?}"),
    }
    let unknown = PortalResponse { version: 1, id: 5, ok: false, result: None, error: None };
    match c.check_response(unknown) {
        Err(ClientError::Refused(t)) => assert_eq!(t, "unknown error"),
        other => panic!("unexpected: {other:?}"),
    }
    let coded = PortalResponse {
        version: 1,
        id: 5,
        ok: false,
        result: None,
        error: Some(PortalError { code: "x".to_string(), message: "y".to_string() }),
    };
    assert!(matches!(c.check_response(coded), Err(ClientError::Refused(t)) if t == "x: y"));
}

#[test]
fn requested_mime_must_match() {
    assert!(check_requested_mime(None, "image/png").is_ok());
    assert!(check_requested_mime(Some("image/png"), "image/png").is_ok());
    assert_eq!(
        check_requested_mime(Some("image/jpeg"), "image/png").unwrap_err(),
        "requested mime image/jpeg not currently available (got image/png)"
    );
}

#[test]
fn from_env_prefers_agent_portal_socket() {
    // The value of `AGENT_PORTAL_SOCKET` comes first, before the configuration's.
    let c = PortalClient::from_sources(Some("/tmp/from-env.sock".to_string()), Some("/cfg.sock".to_string()));
    assert_eq!(c.socket_path, "/tmp/from-env.sock");
}
