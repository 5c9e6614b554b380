//! HTTP status codes and their text on the status line.

use crate::error::Error;
use crate::text::chars_of;
use crate::text::decimal;
use crate::text::lemma_decimal_injective;
use crate::text::spells;
use vstd::prelude::*;

verus! {

/// The status of a response.
#[derive(Clone, Copy, Debug, PartialEq, Eq, Structural)]
pub enum Status {
    OK,
    Created,
    Accepted,
    NoContent,
    MovedPermanently,
    Found,
    SeeOther,
    NotModified,
    TemporaryRedirect,
    PermanentRedirect,
    BadRequest,
    Unauthorized,
    Forbidden,
    NotFound,
    MethodNotAllowed,
    Conflict,
    Gone,
    UnsupportedMediaType,
    TooManyRequests,
    InternalServerError,
    NotImplemented,
    BadGateway,
    ServiceUnavailable,
    GatewayTimeout,
}

impl Status {
    /// The three-digit code of the status.
    pub open spec fn spec_code(&self) -> u16 {
        match self {
            Status::OK => 200,
            Status::Created => 201,
            Status::Accepted => 202,
            Status::NoContent => 204,
            Status::MovedPermanently => 301,
            Status::Found => 302,
            Status::SeeOther => 303,
            Status::NotModified => 304,
            Status::TemporaryRedirect => 307,
            Status::PermanentRedirect => 308,
            Status::BadRequest => 400,
            Status::Unauthorized => 401,
            Status::Forbidden => 403,
            Status::NotFound => 404,
            Status::MethodNotAllowed => 405,
            Status::Conflict => 409,
            Status::Gone => 410,
            Status::UnsupportedMediaType => 415,
            Status::TooManyRequests => 429,
            Status::InternalServerError => 500,
            Status::NotImplemented => 501,
            Status::BadGateway => 502,
            Status::ServiceUnavailable => 503,
            Status::GatewayTimeout => 504,
        }
    }

    /// The text of the status on the wire: the code, a space and the reason
    /// phrase.
    pub open spec fn text(self) -> Seq<char> {
        match self {
            Status::OK => "200 OK"@,
            Status::Created => "201 Created"@,
            Status::Accepted => "202 Accepted"@,
            Status::NoContent => "204 No Content"@,
            Status::MovedPermanently => "301 Moved Permanently"@,
            Status::Found => "302 Found"@,
            Status::SeeOther => "303 See Other"@,
            Status::NotModified => "304 Not Modified"@,
            Status::TemporaryRedirect => "307 Temporary Redirect"@,
            Status::PermanentRedirect => "308 Permanent Redirect"@,
            Status::BadRequest => "400 Bad Request"@,
            Status::Unauthorized => "401 Unauthorized"@,
            Status::Forbidden => "403 Forbidden"@,
            Status::NotFound => "404 Not Found"@,
            Status::MethodNotAllowed => "405 Method Not Allowed"@,
            Status::Conflict => "409 Conflict"@,
            Status::Gone => "410 Gone"@,
            Status::UnsupportedMediaType => "415 Unsupported Media Type"@,
            Status::TooManyRequests => "429 Too Many Requests"@,
            Status::InternalServerError => "500 Internal Server Error"@,
            Status::NotImplemented => "501 Not Implemented"@,
            Status::BadGateway => "502 Bad Gateway"@,
            Status::ServiceUnavailable => "503 Service Unavailable"@,
            Status::GatewayTimeout => "504 Gateway Timeout"@,
        }
    }

    /// The status with the code `code`, if there is one.
    pub open spec fn with_code(code: u16) -> Option<Status> {
        if exists|s: Status| s.spec_code() == code {
            Some(choose|s: Status| s.spec_code() == code)
        } else {
            None
        }
    }

    /// The status whose wire text is `text`, if there is one.
    pub open spec fn from_text(text: Seq<char>) -> Option<Status> {
        if exists|s: Status| s.text() == text {
            Some(choose|s: Status| s.text() == text)
        } else {
            None
        }
    }

    /// The three-digit code of the status.
    #[verifier::when_used_as_spec(spec_code)]
    pub fn code(&self) -> (code: u16)
        ensures
            code == self.spec_code(),
    {
        match self {
            Status::OK => 200,
            Status::Created => 201,
            Status::Accepted => 202,
            Status::NoContent => 204,
            Status::MovedPermanently => 301,
            Status::Found => 302,
            Status::SeeOther => 303,
            Status::NotModified => 304,
            Status::TemporaryRedirect => 307,
            Status::PermanentRedirect => 308,
            Status::BadRequest => 400,
            Status::Unauthorized => 401,
            Status::Forbidden => 403,
            Status::NotFound => 404,
            Status::MethodNotAllowed => 405,
            Status::Conflict => 409,
            Status::Gone => 410,
            Status::UnsupportedMediaType => 415,
            Status::TooManyRequests => 429,
            Status::InternalServerError => 500,
            Status::NotImplemented => 501,
            Status::BadGateway => 502,
            Status::ServiceUnavailable => 503,
            Status::GatewayTimeout => 504,
        }
    }

    /// The text of the status on the wire, such as `200 OK`.
    pub fn to_str(&self) -> (s: &'static str)
        ensures
            s@ == self.text(),
    {
        match self {
            Status::OK => "200 OK",
            Status::Created => "201 Created",
            Status::Accepted => "202 Accepted",
            Status::NoContent => "204 No Content",
            Status::MovedPermanently => "301 Moved Permanently",
            Status::Found => "302 Found",
            Status::SeeOther => "303 See Other",
            Status::NotModified => "304 Not Modified",
            Status::TemporaryRedirect => "307 Temporary Redirect",
            Status::PermanentRedirect => "308 Permanent Redirect",
            Status::BadRequest => "400 Bad Request",
            Status::Unauthorized => "401 Unauthorized",
            Status::Forbidden => "403 Forbidden",
            Status::NotFound => "404 Not Found",
            Status::MethodNotAllowed => "405 Method Not Allowed",
            Status::Conflict => "409 Conflict",
            Status::Gone => "410 Gone",
            Status::UnsupportedMediaType => "415 Unsupported Media Type",
            Status::TooManyRequests => "429 Too Many Requests",
            Status::InternalServerError => "500 Internal Server Error",
            Status::NotImplemented => "501 Not Implemented",
            Status::BadGateway => "502 Bad Gateway",
            Status::ServiceUnavailable => "503 Service Unavailable",
            Status::GatewayTimeout => "504 Gateway Timeout",
        }
    }

    /// The status with the given code. A code that no status has is refused.
    pub fn from_code(code: u16) -> (r: Result<Status, Error>)
        ensures
            r == match Status::with_code(code) {
                Some(s) => Ok::<Status, Error>(s),
                None => Err::<Status, Error>(Error::UnknownStatus),
            },
    {
        let r = if code == 200 {
            Ok(Status::OK)
        } else if code == 201 {
            Ok(Status::Created)
        } else if code == 202 {
            Ok(Status::Accepted)
        } else if code == 204 {
            Ok(Status::NoContent)
        } else if code == 301 {
            Ok(Status::MovedPermanently)
        } else if code == 302 {
            Ok(Status::Found)
        } else if code == 303 {
            Ok(Status::SeeOther)
        } else if code == 304 {
            Ok(Status::NotModified)
        } else if code == 307 {
            Ok(Status::TemporaryRedirect)
        } else if code == 308 {
            Ok(Status::PermanentRedirect)
        } else if code == 400 {
            Ok(Status::BadRequest)
        } else if code == 401 {
            Ok(Status::Unauthorized)
        } else if code == 403 {
            Ok(Status::Forbidden)
        } else if code == 404 {
            Ok(Status::NotFound)
        } else if code == 405 {
            Ok(Status::MethodNotAllowed)
        } else if code == 409 {
            Ok(Status::Conflict)
        } else if code == 410 {
            Ok(Status::Gone)
        } else if code == 415 {
            Ok(Status::UnsupportedMediaType)
        } else if code == 429 {
            Ok(Status::TooManyRequests)
        } else if code == 500 {
            Ok(Status::InternalServerError)
        } else if code == 501 {
            Ok(Status::NotImplemented)
        } else if code == 502 {
            Ok(Status::BadGateway)
        } else if code == 503 {
            Ok(Status::ServiceUnavailable)
        } else if code == 504 {
            Ok(Status::GatewayTimeout)
        } else {
            Err(Error::UnknownStatus)
        };
        proof {
            match r {
                Ok(s) => {
                    assert(s.spec_code() == code);
                    lemma_status_code_injective(s, choose|s: Status| s.spec_code() == code);
                },
                Err(_) => {
                    assert forall|s: Status| s.spec_code() != code by {
                        match s {
                            _ => {},
                        }
                    }
                },
            }
        }
        r
    }

    /// The status whose wire text is exactly `text`. A text that is the text
    /// of no status is refused.
    pub fn from_str(text: &str) -> (r: Result<Status, Error>)
        ensures
            r == match Status::from_text(text@) {
                Some(s) => Ok::<Status, Error>(s),
                None => Err::<Status, Error>(Error::UnknownStatus),
            },
    {
        let chars = chars_of(text);
        let r = if spells(&chars, "200 OK") {
            Ok(Status::OK)
        } else if spells(&chars, "201 Created") {
            Ok(Status::Created)
        } else if spells(&chars, "202 Accepted") {
            Ok(Status::Accepted)
        } else if spells(&chars, "204 No Content") {
            Ok(Status::NoContent)
        } else if spells(&chars, "301 Moved Permanently") {
            Ok(Status::MovedPermanently)
        } else if spells(&chars, "302 Found") {
            Ok(Status::Found)
        } else if spells(&chars, "303 See Other") {
            Ok(Status::SeeOther)
        } else if spells(&chars, "304 Not Modified") {
            Ok(Status::NotModified)
        } else if spells(&chars, "307 Temporary Redirect") {
            Ok(Status::TemporaryRedirect)
        } else if spells(&chars, "308 Permanent Redirect") {
            Ok(Status::PermanentRedirect)
        } else if spells(&chars, "400 Bad Request") {
            Ok(Status::BadRequest)
        } else if spells(&chars, "401 Unauthorized") {
            Ok(Status::Unauthorized)
        } else if spells(&chars, "403 Forbidden") {
            Ok(Status::Forbidden)
        } else if spells(&chars, "404 Not Found") {
            Ok(Status::NotFound)
        } else if spells(&chars, "405 Method Not Allowed") {
            Ok(Status::MethodNotAllowed)
        } else if spells(&chars, "409 Conflict") {
            Ok(Status::Conflict)
        } else if spells(&chars, "410 Gone") {
            Ok(Status::Gone)
        } else if spells(&chars, "415 Unsupported Media Type") {
            Ok(Status::UnsupportedMediaType)
        } else if spells(&chars, "429 Too Many Requests") {
            Ok(Status::TooManyRequests)
        } else if spells(&chars, "500 Internal Server Error") {
            Ok(Status::InternalServerError)
        } else if spells(&chars, "501 Not Implemented") {
            Ok(Status::NotImplemented)
        } else if spells(&chars, "502 Bad Gateway") {
            Ok(Status::BadGateway)
        } else if spells(&chars, "503 Service Unavailable") {
            Ok(Status::ServiceUnavailable)
        } else if spells(&chars, "504 Gateway Timeout") {
            Ok(Status::GatewayTimeout)
        } else {
            Err(Error::UnknownStatus)
        };
        proof {
            match r {
                Ok(s) => {
                    assert(s.text() == text@);
                    lemma_status_text_injective(s, choose|s: Status| s.text() == text@);
                },
                Err(_) => {
                    assert forall|s: Status| s.text() != text@ by {
                        match s {
                            _ => {},
                        }
                    }
                },
            }
        }
        r
    }
}

/// Every status text starts with the three digits of its code and a space.
pub proof fn lemma_status_text_starts_with_code(s: Status)
    ensures
        s.text().len() > 4,
        s.text().take(3) == decimal(s.spec_code() as nat),
        s.text()[3] == ' ',
{
    reveal_strlit("200 OK");
    reveal_strlit("201 Created");
    reveal_strlit("202 Accepted");
    reveal_strlit("204 No Content");
    reveal_strlit("301 Moved Permanently");
    reveal_strlit("302 Found");
    reveal_strlit("303 See Other");
    reveal_strlit("304 Not Modified");
    reveal_strlit("307 Temporary Redirect");
    reveal_strlit("308 Permanent Redirect");
    reveal_strlit("400 Bad Request");
    reveal_strlit("401 Unauthorized");
    reveal_strlit("403 Forbidden");
    reveal_strlit("404 Not Found");
    reveal_strlit("405 Method Not Allowed");
    reveal_strlit("409 Conflict");
    reveal_strlit("410 Gone");
    reveal_strlit("415 Unsupported Media Type");
    reveal_strlit("429 Too Many Requests");
    reveal_strlit("500 Internal Server Error");
    reveal_strlit("501 Not Implemented");
    reveal_strlit("502 Bad Gateway");
    reveal_strlit("503 Service Unavailable");
    reveal_strlit("504 Gateway Timeout");
    reveal_with_fuel(decimal, 3);
    assert(s.text().take(3) =~= decimal(s.spec_code() as nat));
}

/// No two statuses share a code.
pub proof fn lemma_status_code_injective(a: Status, b: Status)
    requires
        a.spec_code() == b.spec_code(),
    ensures
        a == b,
{
}

/// No two statuses share a wire text: the rendering of a status can be read
/// back without ambiguity.
pub proof fn lemma_status_text_injective(a: Status, b: Status)
    requires
        a.text() == b.text(),
    ensures
        a == b,
{
    lemma_status_text_starts_with_code(a);
    lemma_status_text_starts_with_code(b);
    lemma_decimal_injective(a.spec_code() as nat, b.spec_code() as nat);
}

/// Reading back the code or the wire text of a status gives the status.
pub proof fn lemma_status_round_trip(s: Status)
    ensures
        Status::with_code(s.spec_code()) == Some(s),
        Status::from_text(s.text()) == Some(s),
{
    lemma_status_code_injective(s, choose|other: Status| other.spec_code() == s.spec_code());
    lemma_status_text_injective(s, choose|other: Status| other.text() == s.text());
}

} // verus!
