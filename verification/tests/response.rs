use asn_worker::error::{Error, INTERNAL_SERVER_ERROR_MESSAGE};
use asn_worker::log::request_log_line;
use asn_worker::response::{ok_response, Json, StatusCode};

#[test]
fn status_codes() {
    assert_eq!(StatusCode::ok().as_u16(), 200);
    assert_eq!(StatusCode::internal_server_error().as_u16(), 500);
    assert_eq!(StatusCode::from_u16(404).map(|s| s.as_u16()), Some(404));
    assert_eq!(StatusCode::from_u16(100).map(|s| s.as_u16()), Some(100));
    assert_eq!(StatusCode::from_u16(999).map(|s| s.as_u16()), Some(999));
    assert!(StatusCode::from_u16(99).is_none());
    assert!(StatusCode::from_u16(1000).is_none());
    assert!(StatusCode::from_u16(0).is_none());
}

#[test]
fn with_status_code_keeps_value() {
    let r = Json(vec![1, 2, 3]).with_status_code(StatusCode::from_u16(201).unwrap());
    assert_eq!(r.status_code.as_u16(), 201);
    assert_eq!(r.value.0, vec![1, 2, 3]);
    let ok = ok_response("body");
    assert_eq!(ok.status_code.as_u16(), 200);
    assert_eq!(ok.value.0, "body");
}

fn parts(e: Error) -> (u16, u16, String) {
    let r = e.into_response();
    (r.status_code.as_u16(), r.value.0.code, r.value.0.message)
}

#[test]
fn error_responses() {
    let rejection = Error::JsonRejection {
        status: StatusCode::from_u16(415).unwrap(),
        body_text: "Expected request with `Content-Type: application/json`".to_string(),
    };
    assert_eq!(
        parts(rejection),
        (415, 415, "Expected request with `Content-Type: application/json`".to_string())
    );
    assert_eq!(parts(Error::SerdeJsonError("bad json".to_string())), (500, 500, "bad json".to_string()));
    assert_eq!(parts(Error::WorkerError("worker".to_string())), (500, 500, "worker".to_string()));
    assert_eq!(parts(Error::KvError("kv".to_string())), (500, 500, "kv".to_string()));
    assert_eq!(parts(Error::DbErr("db".to_string())), (500, 500, "db".to_string()));
    assert_eq!(parts(Error::ReqwestError("fetch".to_string())), (500, 500, "fetch".to_string()));
    assert_eq!(
        parts(Error::InternalServerError),
        (500, 500, "Internal Server Error".to_string())
    );
    assert_eq!(INTERNAL_SERVER_ERROR_MESSAGE, "Internal Server Error");
}

#[test]
fn log_lines() {
    assert_eq!(
        request_log_line(Some("203.0.113.9"), "GET", "/api/asns", "HTTP/1.1", "2024-01-01T00:00:00Z"),
        "203.0.113.9 [GET] /api/asns HTTP/1.1 2024-01-01T00:00:00Z"
    );
    assert_eq!(
        request_log_line(None, "POST", "/", "HTTP/2.0", "d"),
        "- [POST] / HTTP/2.0 d"
    );
}
