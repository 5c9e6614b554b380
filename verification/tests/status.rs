use micro_http::error::Error;
use micro_http::status::Status;

fn all() -> Vec<(Status, u16, &'static str)> {
    vec![
        (Status::OK, 200, "200 OK"),
        (Status::Created, 201, "201 Created"),
        (Status::Accepted, 202, "202 Accepted"),
        (Status::NoContent, 204, "204 No Content"),
        (Status::MovedPermanently, 301, "301 Moved Permanently"),
        (Status::Found, 302, "302 Found"),
        (Status::SeeOther, 303, "303 See Other"),
        (Status::NotModified, 304, "304 Not Modified"),
        (Status::TemporaryRedirect, 307, "307 Temporary Redirect"),
        (Status::PermanentRedirect, 308, "308 Permanent Redirect"),
        (Status::BadRequest, 400, "400 Bad Request"),
        (Status::Unauthorized, 401, "401 Unauthorized"),
        (Status::Forbidden, 403, "403 Forbidden"),
        (Status::NotFound, 404, "404 Not Found"),
        (Status::MethodNotAllowed, 405, "405 Method Not Allowed"),
        (Status::Conflict, 409, "409 Conflict"),
        (Status::Gone, 410, "410 Gone"),
        (Status::UnsupportedMediaType, 415, "415 Unsupported Media Type"),
        (Status::TooManyRequests, 429, "429 Too Many Requests"),
        (Status::InternalServerError, 500, "500 Internal Server Error"),
        (Status::NotImplemented, 501, "501 Not Implemented"),
        (Status::BadGateway, 502, "502 Bad Gateway"),
        (Status::ServiceUnavailable, 503, "503 Service Unavailable"),
        (Status::GatewayTimeout, 504, "504 Gateway Timeout"),
    ]
}

#[test]
fn status_texts_and_codes() {
    for (status, code, text) in all() {
        assert_eq!(status.code(), code);
        assert_eq!(status.to_str(), text);
    }
}

#[test]
fn status_round_trip() {
    for (status, code, text) in all() {
        assert_eq!(Status::from_code(code), Ok(status));
        assert_eq!(Status::from_str(text), Ok(status));
        assert_eq!(Status::from_str(status.to_str()), Ok(status));
        assert_eq!(Status::from_code(status.code()), Ok(status));
    }
}

#[test]
fn status_texts_are_distinct() {
    let all = all();
    for (i, a) in all.iter().enumerate() {
        for (j, b) in all.iter().enumerate() {
            assert_eq!(a.0.to_str() == b.0.to_str(), i == j);
            assert_eq!(a.0.code() == b.0.code(), i == j);
        }
    }
}

#[test]
fn unknown_status_is_refused() {
    assert_eq!(Status::from_code(0), Err(Error::UnknownStatus));
    assert_eq!(Status::from_code(299), Err(Error::UnknownStatus));
    assert_eq!(Status::from_code(418), Err(Error::UnknownStatus));
    assert_eq!(Status::from_code(u16::MAX), Err(Error::UnknownStatus));
    assert_eq!(Status::from_str(""), Err(Error::UnknownStatus));
    assert_eq!(Status::from_str("200"), Err(Error::UnknownStatus));
    assert_eq!(Status::from_str("200 ok"), Err(Error::UnknownStatus));
    assert_eq!(Status::from_str("200 OK "), Err(Error::UnknownStatus));
    assert_eq!(Status::from_str("404 Not found"), Err(Error::UnknownStatus));
    assert_eq!(Status::from_str("299 Nope"), Err(Error::UnknownStatus));
}

#[test]
fn error_messages() {
    assert_eq!(Error::InvalidRoute.message(), "Route must start with /");
    assert_eq!(Error::MalformedRequest.message(), "Malformed request");
    assert_eq!(Error::UnknownMethod.message(), "Unknown method");
    assert_eq!(Error::UnknownStatus.message(), "Unknown status");
}
