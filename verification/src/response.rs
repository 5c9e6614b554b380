//! The response under construction and its text on the wire.

use crate::date::rfc2822_text;
use crate::date::HttpDate;
use crate::status::Status;
use crate::text::decimal;
use crate::text::push_decimal;
use vstd::prelude::*;
use vstd::string::StringExecFns;

verus! {

/// A header: its name and its value.
pub type HeaderText = (Seq<char>, Seq<char>);

/// That no name stands twice in `headers`.
pub open spec fn distinct_keys(headers: Seq<HeaderText>) -> bool {
    forall|i: int, j: int|
        0 <= i < headers.len() && 0 <= j < headers.len() && i != j ==> headers[i].0 != headers[j].0
}

/// That the first header named `key` stands at `i`.
pub open spec fn first_header_at(headers: Seq<HeaderText>, key: Seq<char>, i: int) -> bool {
    &&& 0 <= i < headers.len()
    &&& headers[i].0 == key
    &&& forall|j: int| 0 <= j < i ==> headers[j].0 != key
}

/// Whether a header named `key` stands in `headers`.
pub open spec fn has_header(headers: Seq<HeaderText>, key: Seq<char>) -> bool {
    exists|i: int| first_header_at(headers, key, i)
}

/// The place of the first header named `key`, where there is one.
pub open spec fn header_index(headers: Seq<HeaderText>, key: Seq<char>) -> int {
    choose|i: int| first_header_at(headers, key, i)
}

/// The value of the header named `key`.
pub open spec fn header_value(headers: Seq<HeaderText>, key: Seq<char>) -> Option<Seq<char>> {
    if has_header(headers, key) {
        Some(headers[header_index(headers, key)].1)
    } else {
        None
    }
}

/// `headers` after `key` is set to `value`: the first header of that name
/// keeps its place and takes the new value, a new name goes to the end.
pub open spec fn set_header(headers: Seq<HeaderText>, key: Seq<char>, value: Seq<char>) -> Seq<
    HeaderText,
> {
    if has_header(headers, key) {
        headers.update(header_index(headers, key), (key, value))
    } else {
        headers.push((key, value))
    }
}

/// The text of a cookie: `key=value`, then the attributes that are present, in
/// the order `Expires`, `Secure`, `HttpOnly`. `expires` is the date as it is
/// to be written.
pub open spec fn cookie_text(
    key: Seq<char>,
    value: Seq<char>,
    expires: Option<Seq<char>>,
    secure: bool,
    http_only: bool,
) -> Seq<char> {
    key + "="@ + value + (match expires {
        Some(date) => "; Expires="@ + date,
        None => Seq::empty(),
    }) + (if secure {
        "; Secure"@
    } else {
        Seq::empty()
    }) + (if http_only {
        "; HttpOnly"@
    } else {
        Seq::empty()
    })
}

/// The number of bytes that `content` takes in UTF-8.
pub open spec fn byte_len(content: Seq<char>) -> nat {
    vstd::utf8::encode_utf8(content).len()
}

/// The line of one header.
pub open spec fn header_line(header: HeaderText) -> Seq<char> {
    header.0 + ": "@ + header.1 + "\r\n"@
}

/// The lines of `headers`, in their order.
pub open spec fn header_lines(headers: Seq<HeaderText>) -> Seq<char>
    decreases headers.len(),
{
    if headers.len() == 0 {
        Seq::empty()
    } else {
        header_lines(headers.drop_last()) + header_line(headers.last())
    }
}

/// The `Set-Cookie` line of one cookie.
pub open spec fn cookie_line(cookie: Seq<char>) -> Seq<char> {
    "Set-Cookie: "@ + cookie + "\r\n"@
}

/// The `Set-Cookie` lines of `cookies`, in their order.
pub open spec fn cookie_lines(cookies: Seq<Seq<char>>) -> Seq<char>
    decreases cookies.len(),
{
    if cookies.len() == 0 {
        Seq::empty()
    } else {
        cookie_lines(cookies.drop_last()) + cookie_line(cookies.last())
    }
}

/// The status line and the `Content-Length` line, which open every response.
pub open spec fn opening_lines(status: Status, content: Seq<char>) -> Seq<char> {
    "HTTP/1.1 "@ + status.text() + "\r\nContent-Length: "@ + decimal(byte_len(content)) + "\r\n"@
}

/// What a response holds.
pub struct ResponseView {
    pub status: Status,
    /// The headers in the order in which their names were first set.
    pub headers: Seq<HeaderText>,
    /// The cookies, each already rendered, in the order in which they came.
    pub cookies: Seq<Seq<char>>,
    pub content: Seq<char>,
}

impl ResponseView {
    /// The response that `Response::new` makes.
    pub open spec fn empty() -> ResponseView {
        ResponseView {
            status: Status::OK,
            headers: Seq::empty(),
            cookies: Seq::empty(),
            content: Seq::empty(),
        }
    }

    /// The response with another status.
    pub open spec fn with_status(self, status: Status) -> ResponseView {
        ResponseView { status, ..self }
    }

    /// The response with the header `key` set to `value`.
    pub open spec fn with_header(self, key: Seq<char>, value: Seq<char>) -> ResponseView {
        ResponseView { headers: set_header(self.headers, key, value), ..self }
    }

    /// The response with one more cookie after those it has.
    pub open spec fn with_cookie(self, cookie: Seq<char>) -> ResponseView {
        ResponseView { cookies: self.cookies.push(cookie), ..self }
    }

    /// The response with another content.
    pub open spec fn with_content(self, content: Seq<char>) -> ResponseView {
        ResponseView { content, ..self }
    }

    /// The response on the wire: status line, `Content-Length`, the headers,
    /// the cookies, an empty line, and the content as it is.
    pub open spec fn wire_text(self) -> Seq<char> {
        opening_lines(self.status, self.content) + header_lines(self.headers) + cookie_lines(
            self.cookies,
        ) + "\r\n"@ + self.content
    }
}

/// Setting a header keeps the names distinct, gives the name its new value
/// and leaves the value of every other name as it was. The number of headers
/// grows by one for a new name and stays for a known one.
pub proof fn lemma_set_header(
    headers: Seq<HeaderText>,
    key: Seq<char>,
    value: Seq<char>,
    other: Seq<char>,
)
    requires
        distinct_keys(headers),
    ensures
        distinct_keys(set_header(headers, key, value)),
        header_value(set_header(headers, key, value), key) == Some(value),
        other != key ==> header_value(set_header(headers, key, value), other) == header_value(
            headers,
            other,
        ),
        set_header(headers, key, value).len() == if has_header(headers, key) {
            headers.len()
        } else {
            headers.len() + 1
        },
{
    let after = set_header(headers, key, value);
    let at: int = if has_header(headers, key) {
        header_index(headers, key)
    } else {
        headers.len() as int
    };
    lemma_header_places(headers, key);
    assert(first_header_at(after, key, at));
    lemma_header_places(after, key);
    if other != key {
        lemma_header_places(headers, other);
        lemma_header_places(after, other);
        if has_header(headers, other) {
            let i: int = header_index(headers, other);
            assert(first_header_at(after, other, i));
        } else if has_header(after, other) {
            let i: int = header_index(after, other);
            assert(headers[i].0 == other);
        }
    }
}

/// A header name stands at the place of its first header and, among distinct
/// names, nowhere else; a name without a header stands nowhere.
proof fn lemma_header_places(headers: Seq<HeaderText>, key: Seq<char>)
    ensures
        has_header(headers, key) ==> first_header_at(headers, key, header_index(headers, key)),
        has_header(headers, key) && distinct_keys(headers) ==> forall|i: int|
            0 <= i < headers.len() && headers[i].0 == key ==> i == header_index(headers, key),
        !has_header(headers, key) ==> forall|i: int|
            0 <= i < headers.len() ==> headers[i].0 != key,
{
    if !has_header(headers, key) {
        assert forall|i: int| 0 <= i < headers.len() implies headers[i].0 != key by {
            if headers[i].0 == key {
                lemma_first_header_exists(headers, key, i);
            }
        }
    }
}

/// Where a header named `key` stands at `i`, a first header of that name
/// stands at `i` or before it.
proof fn lemma_first_header_exists(headers: Seq<HeaderText>, key: Seq<char>, i: int)
    requires
        0 <= i < headers.len(),
        headers[i].0 == key,
    ensures
        has_header(headers, key),
    decreases i,
{
    if forall|j: int| 0 <= j < i ==> headers[j].0 != key {
        assert(first_header_at(headers, key, i));
    } else {
        let j: int = choose|j: int| 0 <= j < i && headers[j].0 == key;
        lemma_first_header_exists(headers, key, j);
    }
}

/// Of two values set for one header name the last one stays, in the place of
/// the first.
pub proof fn lemma_last_header_wins(
    headers: Seq<HeaderText>,
    key: Seq<char>,
    first: Seq<char>,
    last: Seq<char>,
)
    requires
        distinct_keys(headers),
    ensures
        set_header(set_header(headers, key, first), key, last) == set_header(headers, key, last),
{
    let once = set_header(headers, key, first);
    lemma_set_header(headers, key, first, key);
    let at: int = if has_header(headers, key) {
        header_index(headers, key)
    } else {
        headers.len() as int
    };
    lemma_header_places(headers, key);
    assert(first_header_at(once, key, at));
    lemma_header_places(once, key);
    assert(set_header(once, key, last) =~= set_header(headers, key, last));
}

/// Of two statuses set one after the other the last one is sent.
pub proof fn lemma_last_status_wins(r: ResponseView, first: Status, last: Status)
    ensures
        r.with_status(first).with_status(last) == r.with_status(last),
{
}

/// Of two contents set one after the other the last one is sent, and
/// `Content-Length` is the number of its bytes.
pub proof fn lemma_last_content_wins(r: ResponseView, first: Seq<char>, last: Seq<char>)
    ensures
        r.with_content(first).with_content(last) == r.with_content(last),
        r.with_content(first).with_content(last).wire_text() == "HTTP/1.1 "@ + r.status.text()
            + "\r\nContent-Length: "@ + decimal(byte_len(last)) + "\r\n"@ + header_lines(r.headers)
            + cookie_lines(r.cookies) + "\r\n"@ + last,
{
}

/// A content of ASCII characters takes one byte for each character.
pub proof fn lemma_byte_len_of_ascii(content: Seq<char>)
    requires
        vstd::utf8::is_ascii_chars(content),
    ensures
        byte_len(content) == content.len(),
{
    vstd::utf8::is_ascii_chars_encode_utf8(content);
}

/// What is needed to set one cookie.
pub struct Cookie<'a> {
    pub key: &'a str,
    pub value: &'a str,
    pub expires: Option<HttpDate>,
    pub secure: bool,
    pub http_only: bool,
}

/// Writes a cookie whose expiry date, if it has one, is already rendered.
pub fn cookie_string(
    key: &str,
    value: &str,
    expires: Option<&str>,
    secure: bool,
    http_only: bool,
) -> (cookie: String)
    ensures
        cookie@ == cookie_text(
            key@,
            value@,
            match expires {
                Some(date) => Some(date@),
                None => None,
            },
            secure,
            http_only,
        ),
{
    let mut cookie = String::new();
    cookie.append(key);
    cookie.append("=");
    cookie.append(value);
    if let Some(date) = expires {
        cookie.append("; Expires=");
        cookie.append(date);
    }
    if secure {
        cookie.append("; Secure");
    }
    if http_only {
        cookie.append("; HttpOnly");
    }
    cookie
}

impl<'a> Cookie<'a> {
    /// The text of the cookie as it follows `Set-Cookie: `.
    pub open spec fn text(&self) -> Seq<char> {
        cookie_text(
            self.key@,
            self.value@,
            match self.expires {
                Some(date) => Some(rfc2822_text(date.secs(), date.nanos())),
                None => None,
            },
            self.secure,
            self.http_only,
        )
    }

    /// Renders the cookie, with its expiry date in the RFC 2822 form.
    pub fn to_string(&self) -> (cookie: String)
        ensures
            cookie@ == self.text(),
    {
        match &self.expires {
            Some(date) => {
                let date = date.to_rfc2822();
                cookie_string(self.key, self.value, Some(date.as_str()), self.secure, self.http_only)
            },
            None => cookie_string(self.key, self.value, None, self.secure, self.http_only),
        }
    }
}

/// An HTTP response under construction: a status, headers with distinct
/// names, cookies in the order in which they were added, and the content.
#[derive(Debug)]
pub struct Response {
    status: Status,
    headers: Vec<(String, String)>,
    cookies: Vec<String>,
    content: String,
}

/// The names and values that `headers` holds.
spec fn header_texts(headers: Seq<(String, String)>) -> Seq<HeaderText> {
    headers.map_values(|h: (String, String)| (h.0@, h.1@))
}

/// The texts that `cookies` holds.
spec fn cookie_texts(cookies: Seq<String>) -> Seq<Seq<char>> {
    cookies.map_values(|c: String| c@)
}

impl View for Response {
    type V = ResponseView;

    closed spec fn view(&self) -> ResponseView {
        ResponseView {
            status: self.status,
            headers: header_texts(self.headers@),
            cookies: cookie_texts(self.cookies@),
            content: self.content@,
        }
    }
}

impl Response {
    #[verifier::type_invariant]
    spec fn header_names_are_distinct(self) -> bool {
        distinct_keys(header_texts(self.headers@))
    }

    /// A response with status `200 OK`, no header, no cookie and no content.
    pub fn new() -> (response: Self)
        ensures
            response@ == ResponseView::empty(),
            distinct_keys(response@.headers),
    {
        let response = Self {
            status: Status::OK,
            headers: Vec::new(),
            cookies: Vec::new(),
            content: String::new(),
        };
        assert(response@.headers =~= Seq::empty());
        assert(response@.cookies =~= Seq::empty());
        response
    }

    /// Sets the status; the last status set is the one that is sent.
    pub fn with_status(&mut self, status: Status) -> (ret: &mut Self)
        ensures
            ret@ == old(self)@.with_status(status),
            distinct_keys(ret@.headers),
            *final(self) == *final(ret),
    {
        proof {
            use_type_invariant(&*self);
        }
        self.status = status;
        self
    }

    /// Sets the header `key` to `value`. A header of that name keeps its
    /// place among the headers and takes the new value; a new name is added
    /// after the others.
    pub fn with_header(&mut self, key: &str, value: &str) -> (ret: &mut Self)
        ensures
            ret@ == old(self)@.with_header(key@, value@),
            distinct_keys(ret@.headers),
            *final(self) == *final(ret),
    {
        proof {
            use_type_invariant(&*self);
        }
        let key = key.to_owned();
        let value = value.to_owned();
        let mut headers: Vec<(String, String)> = Vec::new();
        std::mem::swap(&mut self.headers, &mut headers);
        let ghost before = header_texts(headers@);
        let mut i: usize = 0;
        while i < headers.len() && !(headers[i].0 == key)
            invariant
                i <= headers.len(),
                forall|k: int| 0 <= k < i ==> before[k].0 != key@,
                before == header_texts(headers@),
            decreases headers.len() - i,
        {
            i = i + 1;
        }
        if i < headers.len() {
            proof {
                assert(first_header_at(before, key@, i as int));
                lemma_header_places(before, key@);
                assert(header_texts(headers@.update(i as int, (key, value))) =~= before.update(
                    i as int,
                    (key@, value@),
                ));
            }
            headers.set(i, (key, value));
        } else {
            proof {
                assert forall|k: int| !first_header_at(before, key@, k) by {
                    if first_header_at(before, key@, k) {
                        assert(before[k].0 != key@);
                    }
                }
                assert(header_texts(headers@.push((key, value))) =~= before.push((key@, value@)));
            }
            headers.push((key, value));
        }
        self.headers = headers;
        self
    }

    /// Adds a cookie after those that the response already holds. The cookie
    /// is rendered now; nothing of it is kept but its text.
    pub fn with_cookie(&mut self, cookie: Cookie) -> (ret: &mut Self)
        ensures
            ret@ == old(self)@.with_cookie(cookie.text()),
            distinct_keys(ret@.headers),
            *final(self) == *final(ret),
    {
        proof {
            use_type_invariant(&*self);
        }
        let cookie = cookie.to_string();
        let mut cookies: Vec<String> = Vec::new();
        std::mem::swap(&mut self.cookies, &mut cookies);
        proof {
            assert(cookie_texts(cookies@.push(cookie)) =~= cookie_texts(cookies@).push(cookie@));
        }
        cookies.push(cookie);
        self.cookies = cookies;
        self
    }

    /// Sets the content; the last content set is the one that is sent.
    pub fn with_content(&mut self, content: String) -> (ret: &mut Self)
        ensures
            ret@ == old(self)@.with_content(content@),
            distinct_keys(ret@.headers),
            *final(self) == *final(ret),
    {
        proof {
            use_type_invariant(&*self);
        }
        self.content = content;
        self
    }

    /// The response as it goes over the wire. `Content-Length` is the number
    /// of bytes of the content as it is now. The response itself is left as
    /// it was, so that a second call returns the same text.
    pub fn data(&mut self) -> (out: String)
        ensures
            out@ == old(self)@.wire_text(),
            final(self)@ == old(self)@,
            distinct_keys(final(self)@.headers),
    {
        proof {
            use_type_invariant(&*self);
        }
        let mut out = String::new();
        out.append("HTTP/1.1 ");
        out.append(self.status.to_str());
        out.append("\r\nContent-Length: ");
        push_decimal(&mut out, self.content.as_str().as_bytes().len());
        out.append("\r\n");

        let ghost opening = out@;
        let ghost headers = header_texts(self.headers@);
        let mut i: usize = 0;
        while i < self.headers.len()
            invariant
                i <= self.headers.len(),
                headers == header_texts(self.headers@),
                out@ == opening + header_lines(headers.take(i as int)),
            decreases self.headers.len() - i,
        {
            proof {
                assert(headers.take(i + 1).drop_last() =~= headers.take(i as int));
            }
            out.append(self.headers[i].0.as_str());
            out.append(": ");
            out.append(self.headers[i].1.as_str());
            out.append("\r\n");
            i = i + 1;
        }
        proof {
            assert(headers.take(i as int) =~= headers);
        }

        let ghost head = out@;
        let ghost cookies = cookie_texts(self.cookies@);
        let mut j: usize = 0;
        while j < self.cookies.len()
            invariant
                j <= self.cookies.len(),
                cookies == cookie_texts(self.cookies@),
                out@ == head + cookie_lines(cookies.take(j as int)),
            decreases self.cookies.len() - j,
        {
            proof {
                assert(cookies.take(j + 1).drop_last() =~= cookies.take(j as int));
            }
            out.append("Set-Cookie: ");
            out.append(self.cookies[j].as_str());
            out.append("\r\n");
            j = j + 1;
        }
        proof {
            assert(cookies.take(j as int) =~= cookies);
        }

        out.append("\r\n");
        out.append(self.content.as_str());
        out
    }
}

} // verus!
