//! HTTP methods, and the request as it is read from the lines of a
//! connection.

use crate::error::Error;
use crate::text::chars_of;
use crate::text::find_from;
use crate::text::join;
use crate::text::lemma_join_three;
use crate::text::lemma_split_join;
use crate::text::lemma_split_of_join;
use crate::text::split;
use crate::text::spells;
use vstd::hash_map::StringHashMap;
use vstd::prelude::*;
use vstd::string::StrSliceExecFns;
use vstd::string::StringExecFns;

verus! {

/// The method of a request.
#[derive(Clone, Copy, Debug, PartialEq, Eq, Structural)]
pub enum Method {
    GET,
    POST,
    PUT,
    DELETE,
    PATCH,
    HEAD,
    OPTIONS,
    CONNECT,
    TRACE,
}

impl Method {
    /// The token of the method on the wire.
    pub open spec fn token(self) -> Seq<char> {
        match self {
            Method::GET => "GET"@,
            Method::POST => "POST"@,
            Method::PUT => "PUT"@,
            Method::DELETE => "DELETE"@,
            Method::PATCH => "PATCH"@,
            Method::HEAD => "HEAD"@,
            Method::OPTIONS => "OPTIONS"@,
            Method::CONNECT => "CONNECT"@,
            Method::TRACE => "TRACE"@,
        }
    }

    /// The method that `token` names, if it names one.
    pub open spec fn from_token(token: Seq<char>) -> Option<Method> {
        if exists|m: Method| m.token() == token {
            Some(choose|m: Method| m.token() == token)
        } else {
            None
        }
    }

    /// The token of the method on the wire, in upper case.
    pub fn to_str(&self) -> (s: &'static str)
        ensures
            s@ == self.token(),
    {
        match self {
            Method::GET => "GET",
            Method::POST => "POST",
            Method::PUT => "PUT",
            Method::DELETE => "DELETE",
            Method::PATCH => "PATCH",
            Method::HEAD => "HEAD",
            Method::OPTIONS => "OPTIONS",
            Method::CONNECT => "CONNECT",
            Method::TRACE => "TRACE",
        }
    }

    /// The method that `token` names. Tokens are matched as they are, in
    /// upper case.
    pub fn from_str(token: &str) -> (r: Result<Method, Error>)
        ensures
            r == match Method::from_token(token@) {
                Some(m) => Ok::<Method, Error>(m),
                None => Err::<Method, Error>(Error::UnknownMethod),
            },
    {
        let chars = chars_of(token);
        let r = if spells(&chars, "GET") {
            Ok(Method::GET)
        } else if spells(&chars, "POST") {
            Ok(Method::POST)
        } else if spells(&chars, "PUT") {
            Ok(Method::PUT)
        } else if spells(&chars, "DELETE") {
            Ok(Method::DELETE)
        } else if spells(&chars, "PATCH") {
            Ok(Method::PATCH)
        } else if spells(&chars, "HEAD") {
            Ok(Method::HEAD)
        } else if spells(&chars, "OPTIONS") {
            Ok(Method::OPTIONS)
        } else if spells(&chars, "CONNECT") {
            Ok(Method::CONNECT)
        } else if spells(&chars, "TRACE") {
            Ok(Method::TRACE)
        } else {
            Err(Error::UnknownMethod)
        };
        proof {
            match r {
                Ok(m) => {
                    assert(m.token() == token@);
                    lemma_method_token_injective(m, choose|m: Method| m.token() == token@);
                },
                Err(_) => {
                    assert forall|m: Method| m.token() != token@ by {
                        match m {
                            _ => {},
                        }
                    }
                },
            }
        }
        r
    }
}

/// A method token is not empty and holds no space, carriage return or line
/// feed.
pub proof fn lemma_method_token_is_plain(m: Method)
    ensures
        m.token().len() > 0,
        forall|i: int| 0 <= i < m.token().len() ==> 'A' <= #[trigger] m.token()[i] <= 'Z',
{
    reveal_strlit("GET");
    reveal_strlit("POST");
    reveal_strlit("PUT");
    reveal_strlit("DELETE");
    reveal_strlit("PATCH");
    reveal_strlit("HEAD");
    reveal_strlit("OPTIONS");
    reveal_strlit("CONNECT");
    reveal_strlit("TRACE");
}

/// No two methods share a token.
pub proof fn lemma_method_token_injective(a: Method, b: Method)
    requires
        a.token() == b.token(),
    ensures
        a == b,
{
    reveal_strlit("GET");
    reveal_strlit("POST");
    reveal_strlit("PUT");
    reveal_strlit("DELETE");
    reveal_strlit("PATCH");
    reveal_strlit("HEAD");
    reveal_strlit("OPTIONS");
    reveal_strlit("CONNECT");
    reveal_strlit("TRACE");
    let s: Seq<char> = a.token();
    let t: Seq<char> = b.token();
    assert(s.len() == t.len() && s[0] == t[0]);
}

/// Reading back the token of a method gives the method.
pub proof fn lemma_method_round_trip(m: Method)
    ensures
        Method::from_token(m.token()) == Some(m),
{
    lemma_method_token_injective(m, choose|other: Method| other.token() == m.token());
}

/// The key under which a route is registered and a request is looked up: the
/// method token, the path and the version, joined by single spaces.
pub open spec fn route_key_text(method: Method, path: Seq<char>, version: Seq<char>) -> Seq<char> {
    method.token() + seq![' '] + path + seq![' '] + version
}

/// That `line` is the request line of `method`, `path` and `version`: the
/// three tokens joined by single spaces, with no space inside the path or the
/// version.
pub open spec fn is_request_line(
    line: Seq<char>,
    method: Method,
    path: Seq<char>,
    version: Seq<char>,
) -> bool {
    &&& line == route_key_text(method, path, version)
    &&& !path.contains(' ')
    &&& !version.contains(' ')
}

/// The method, path and version of a request line. A line that does not
/// consist of exactly three tokens between single spaces, or whose first token
/// names no method, has none.
pub open spec fn parse_request_line(line: Seq<char>) -> Option<(Method, Seq<char>, Seq<char>)> {
    if exists|m: Method, p: Seq<char>, v: Seq<char>| is_request_line(line, m, p, v) {
        Some(choose|m: Method, p: Seq<char>, v: Seq<char>| is_request_line(line, m, p, v))
    } else {
        None
    }
}

/// That the separator of a header line, a colon and a space, stands at `i`.
pub open spec fn separator_at(line: Seq<char>, i: int) -> bool {
    0 <= i && i + 1 < line.len() && line[i] == ':' && line[i + 1] == ' '
}

/// That the first separator of `line` stands at `i`.
pub open spec fn first_separator_at(line: Seq<char>, i: int) -> bool {
    separator_at(line, i) && forall|j: int| 0 <= j < i ==> !separator_at(line, j)
}

/// The name and the value of a header line: what stands before and after the
/// first separator. A line without a separator has none.
pub open spec fn parse_header_line(line: Seq<char>) -> Option<(Seq<char>, Seq<char>)> {
    if exists|i: int| first_separator_at(line, i) {
        let i = choose|i: int| first_separator_at(line, i);
        Some((line.take(i), line.skip(i + 2)))
    } else {
        None
    }
}

/// The headers that `lines` set, each name with the value of its last line.
/// There are none if one of the lines is no header line.
pub open spec fn parse_header_lines(lines: Seq<Seq<char>>) -> Option<Map<Seq<char>, Seq<char>>>
    decreases lines.len(),
{
    if lines.len() == 0 {
        Some(Map::empty())
    } else {
        match (parse_header_lines(lines.drop_last()), parse_header_line(lines.last())) {
            (Some(headers), Some((key, value))) => Some(headers.insert(key, value)),
            _ => None,
        }
    }
}

/// That the head of a request takes the first `n` of `lines`: none of them is
/// empty, and they end with the lines or right before an empty line.
pub open spec fn is_head_len(lines: Seq<Seq<char>>, n: int) -> bool {
    &&& 0 <= n <= lines.len()
    &&& forall|k: int| 0 <= k < n ==> lines[k].len() > 0
    &&& n < lines.len() ==> lines[n].len() == 0
}

/// The head of a request: its lines up to the first empty line, which is left
/// out with all that follows it.
pub open spec fn head(lines: Seq<Seq<char>>) -> Seq<Seq<char>> {
    lines.take(choose|n: int| is_head_len(lines, n))
}

/// What a request holds.
pub struct RequestView {
    pub method: Method,
    pub path: Seq<char>,
    pub version: Seq<char>,
    /// Each header name with its value.
    pub headers: Map<Seq<char>, Seq<char>>,
}

impl RequestView {
    /// The key under which the handler of the request is looked up.
    pub open spec fn route_key(self) -> Seq<char> {
        route_key_text(self.method, self.path, self.version)
    }
}

/// The request that `lines` carry: the first line of the head is the request
/// line, the others are header lines. There is none if the head is empty or
/// one of its lines is malformed.
pub open spec fn parse_request(lines: Seq<Seq<char>>) -> Option<RequestView> {
    let head = head(lines);
    if head.len() == 0 {
        None
    } else {
        match (parse_request_line(head[0]), parse_header_lines(head.skip(1))) {
            (Some((method, path, version)), Some(headers)) => Some(
                RequestView { method, path, version, headers },
            ),
            _ => None,
        }
    }
}

/// In a request line the two separating spaces stand right after the method
/// token and right after the path, and there is no other space.
pub proof fn lemma_request_line_spaces(
    line: Seq<char>,
    method: Method,
    path: Seq<char>,
    version: Seq<char>,
)
    requires
        is_request_line(line, method, path, version),
    ensures
        ({
            let a: int = method.token().len() as int;
            let b: int = a + 1 + path.len();
            &&& line.len() == b + 1 + version.len()
            &&& line.take(a) == method.token()
            &&& line.subrange(a + 1, b) == path
            &&& line.skip(b + 1) == version
            &&& forall|k: int| 0 <= k < line.len() ==> (line[k] == ' ' <==> (k == a || k == b))
        }),
{
    lemma_method_token_is_plain(method);
    let token = method.token();
    let a: int = token.len() as int;
    let b: int = a + 1 + path.len();
    assert(line.take(a) =~= token);
    assert(line.subrange(a + 1, b) =~= path);
    assert(line.skip(b + 1) =~= version);
    assert forall|k: int| 0 <= k < line.len() implies (line[k] == ' ' <==> (k == a || k == b)) by {
        if k < a {
            assert(line[k] == token[k]);
        } else if a < k < b {
            assert(line[k] == path[k - a - 1]);
            assert(path.contains(path[k - a - 1]));
        } else if k > b {
            assert(line[k] == version[k - b - 1]);
            assert(version.contains(version[k - b - 1]));
        }
    }
}

/// A line is the request line of one method, path and version at most.
pub proof fn lemma_request_line_unique(
    line: Seq<char>,
    method_a: Method,
    path_a: Seq<char>,
    version_a: Seq<char>,
    method_b: Method,
    path_b: Seq<char>,
    version_b: Seq<char>,
)
    requires
        is_request_line(line, method_a, path_a, version_a),
        is_request_line(line, method_b, path_b, version_b),
    ensures
        method_a == method_b,
        path_a == path_b,
        version_a == version_b,
{
    lemma_request_line_spaces(line, method_a, path_a, version_a);
    lemma_request_line_spaces(line, method_b, path_b, version_b);
    let end_a: int = method_a.token().len() as int;
    let end_b: int = method_b.token().len() as int;
    let next_a: int = end_a + 1 + path_a.len();
    let next_b: int = end_b + 1 + path_b.len();
    assert(line[end_a] == ' ' && line[end_b] == ' ' && line[next_a] == ' ' && line[next_b] == ' ');
    assert(end_a == end_b && next_a == next_b);
    lemma_method_token_injective(method_a, method_b);
}

/// The request line written for a method, a path and a version without
/// spaces is read back as that method, path and version.
pub proof fn lemma_request_line_round_trip(method: Method, path: Seq<char>, version: Seq<char>)
    requires
        !path.contains(' '),
        !version.contains(' '),
    ensures
        parse_request_line(route_key_text(method, path, version)) == Some((method, path, version)),
{
    let line = route_key_text(method, path, version);
    assert(is_request_line(line, method, path, version));
    let (m, p, v) = choose|m: Method, p: Seq<char>, v: Seq<char>| is_request_line(line, m, p, v);
    lemma_request_line_unique(line, method, path, version, m, p, v);
}

/// The method, path and version that the tokens of a line stand for: there
/// are three tokens, and the first names a method.
pub open spec fn request_line_of_tokens(tokens: Seq<Seq<char>>) -> Option<
    (Method, Seq<char>, Seq<char>),
> {
    if tokens.len() == 3 {
        match Method::from_token(tokens[0]) {
            Some(method) => Some((method, tokens[1], tokens[2])),
            None => None,
        }
    } else {
        None
    }
}

/// A request line is read by splitting it at every single space: it must
/// fall into exactly three tokens, of which the first names a method. A line
/// of two tokens or of four, or one with two spaces in a row between its
/// tokens, is no request line.
pub proof fn lemma_request_line_is_three_tokens(line: Seq<char>)
    ensures
        parse_request_line(line) == request_line_of_tokens(split(line, ' ')),
{
    let tokens = split(line, ' ');
    lemma_split_join(line, ' ');
    match request_line_of_tokens(tokens) {
        Some((method, path, version)) => {
            lemma_method_round_trip(method);
            let named: Method = choose|m: Method| m.token() == tokens[0];
            assert(named.token() == tokens[0]);
            lemma_join_three(tokens, ' ');
            assert(line =~= route_key_text(method, path, version));
            assert(is_request_line(line, method, path, version));
            let (m, p, v) = choose|m: Method, p: Seq<char>, v: Seq<char>|
                is_request_line(line, m, p, v);
            lemma_request_line_unique(line, method, path, version, m, p, v);
        },
        None => {
            if parse_request_line(line) is Some {
                let (m, p, v) = parse_request_line(line)->0;
                assert(is_request_line(line, m, p, v));
                lemma_method_token_is_plain(m);
                lemma_method_round_trip(m);
                let parts = seq![m.token(), p, v];
                assert(!m.token().contains(' ')) by {
                    if m.token().contains(' ') {
                        let k: int = choose|k: int| 0 <= k < m.token().len() && m.token()[k] == ' ';
                        assert('A' <= m.token()[k]);
                    }
                }
                lemma_join_three(parts, ' ');
                assert(join(parts, ' ') =~= line);
                lemma_split_of_join(parts, ' ');
            }
        },
    }
}

/// The route key of what a request line is read as is the request line
/// itself.
pub proof fn lemma_route_key_is_request_line(line: Seq<char>)
    ensures
        parse_request_line(line) matches Some((method, path, version)) ==> route_key_text(
            method,
            path,
            version,
        ) == line,
{
}

/// Two route keys with the same version are equal only if they were made from
/// the same method and the same path, whatever the path holds.
pub proof fn lemma_route_key_injective(
    method_a: Method,
    path_a: Seq<char>,
    method_b: Method,
    path_b: Seq<char>,
    version: Seq<char>,
)
    requires
        route_key_text(method_a, path_a, version) == route_key_text(method_b, path_b, version),
    ensures
        method_a == method_b,
        path_a == path_b,
{
    lemma_method_token_is_plain(method_a);
    lemma_method_token_is_plain(method_b);
    let key_a = route_key_text(method_a, path_a, version);
    let key_b = route_key_text(method_b, path_b, version);
    let end_a: int = method_a.token().len() as int;
    let end_b: int = method_b.token().len() as int;
    assert(key_a[end_a] == ' ');
    assert(key_b[end_b] == ' ');
    if end_a < end_b {
        assert(key_b[end_a] == method_b.token()[end_a]);
    }
    if end_b < end_a {
        assert(key_a[end_b] == method_a.token()[end_b]);
    }
    assert(key_a.take(end_a) =~= method_a.token());
    assert(key_b.take(end_b) =~= method_b.token());
    lemma_method_token_injective(method_a, method_b);
    assert(key_a.len() == end_a + path_a.len() + version.len() + 2);
    assert(key_b.len() == end_b + path_b.len() + version.len() + 2);
    assert(key_a.subrange(end_a + 1, end_a + 1 + path_a.len()) =~= path_a);
    assert(key_b.subrange(end_b + 1, end_b + 1 + path_b.len()) =~= path_b);
}

/// The texts of `lines`.
pub open spec fn line_texts(lines: Seq<String>) -> Seq<Seq<char>> {
    lines.map_values(|line: String| line@)
}

/// A line that is no header line leaves the lines it stands in without
/// headers.
pub proof fn lemma_bad_header_line(lines: Seq<Seq<char>>, k: int)
    requires
        0 <= k < lines.len(),
        parse_header_line(lines[k]) is None,
    ensures
        parse_header_lines(lines) is None,
    decreases lines.len(),
{
    if k < lines.len() - 1 {
        lemma_bad_header_line(lines.drop_last(), k);
    }
}

/// Whether `line` ends the head of a request: it is the empty line. A reader
/// of a connection stops after this line, since nothing that follows it is
/// part of the request.
pub fn is_end_of_head(line: &str) -> (end: bool)
    ensures
        end == (line@.len() == 0),
{
    line.is_empty()
}

/// Lines that were read up to and including the first empty line carry the
/// request that all lines before the empty one make up.
pub proof fn lemma_head_of_lines_read(lines: Seq<Seq<char>>)
    requires
        lines.len() > 0,
        lines.last().len() == 0,
        forall|k: int| 0 <= k < lines.len() - 1 ==> lines[k].len() > 0,
    ensures
        head(lines) == lines.drop_last(),
        forall|more: Seq<Seq<char>>| parse_request(lines + more) == parse_request(lines),
{
    lemma_head_is_prefix(lines, lines.len() - 1);
    assert(lines.take(lines.len() - 1) =~= lines.drop_last());
    assert forall|more: Seq<Seq<char>>| parse_request(lines + more) == parse_request(lines) by {
        let all = lines + more;
        assert(all[lines.len() - 1] == lines.last());
        assert forall|k: int| 0 <= k < lines.len() - 1 implies all[k].len() > 0 by {
            assert(all[k] == lines[k]);
        }
        lemma_head_is_prefix(all, lines.len() - 1);
        assert(all.take(lines.len() - 1) =~= lines.drop_last());
    }
}

/// The head of `lines` is their first `n` lines wherever those are not empty
/// and are followed by an empty line or by nothing.
pub proof fn lemma_head_is_prefix(lines: Seq<Seq<char>>, n: int)
    requires
        is_head_len(lines, n),
    ensures
        head(lines) == lines.take(n),
{
    let chosen: int = choose|k: int| is_head_len(lines, k);
    if chosen < n {
        assert(lines[chosen].len() > 0);
    }
    if n < chosen {
        assert(lines[n].len() > 0);
    }
}

/// Writes the route key of a method, a path and a version. Requests and
/// registered routes get their keys from here, so that the two agree.
pub fn route_key(method: Method, path: &str, version: &str) -> (key: String)
    ensures
        key@ == route_key_text(method, path@, version@),
{
    proof {
        reveal_strlit(" ");
        assert(" "@ =~= seq![' ']);
    }
    let mut key = String::new();
    key.append(method.to_str());
    key.append(" ");
    key.append(path);
    key.append(" ");
    key.append(version);
    key
}

/// Reads a request line into its method, path and version.
fn read_request_line(line: &str) -> (parts: Option<(Method, String, String)>)
    ensures
        match parts {
            Some((method, path, version)) => parse_request_line(line@) == Some(
                (method, path@, version@),
            ),
            None => parse_request_line(line@) is None,
        },
{
    let chars = chars_of(line);
    let n = chars.len();
    // The first three spaces of the line, or `n` in place of each that is
    // missing: a request line has the first two and not the third.
    let a = match find_from(&chars, ' ', 0) {
        Some(a) => a,
        None => n,
    };
    let b = match find_from(&chars, ' ', if a < n { a + 1 } else { n }) {
        Some(b) => b,
        None => n,
    };
    let c = match find_from(&chars, ' ', if b < n { b + 1 } else { n }) {
        Some(c) => c,
        None => n,
    };
    if b == n || c < n {
        proof {
            assert forall|m: Method, p: Seq<char>, v: Seq<char>| !is_request_line(line@, m, p, v) by {
                if is_request_line(line@, m, p, v) {
                    lemma_request_line_spaces(line@, m, p, v);
                    let first: int = m.token().len() as int;
                    let second: int = first + 1 + p.len();
                    assert(chars[first] == ' ' && chars[second] == ' ');
                    if c < n {
                        assert(chars[a as int] == ' ' && chars[b as int] == ' ' && chars[c as int]
                            == ' ');
                    }
                }
            }
        }
        return None;
    }
    let token = line.substring_char(0, a);
    match Method::from_str(token) {
        Ok(method) => {
            let path = line.substring_char(a + 1, b).to_owned();
            let version = line.substring_char(b + 1, n).to_owned();
            proof {
                assert(line@ =~= route_key_text(method, path@, version@));
                assert(!path@.contains(' ')) by {
                    if path@.contains(' ') {
                        let k: int = choose|k: int| 0 <= k < path@.len() && path@[k] == ' ';
                        assert(chars[a + 1 + k] == ' ');
                    }
                }
                assert(!version@.contains(' ')) by {
                    if version@.contains(' ') {
                        let k: int = choose|k: int| 0 <= k < version@.len() && version@[k] == ' ';
                        assert(chars[b + 1 + k] == ' ');
                    }
                }
                assert(is_request_line(line@, method, path@, version@));
                let (m, p, v) = choose|m: Method, p: Seq<char>, v: Seq<char>|
                    is_request_line(line@, m, p, v);
                lemma_request_line_unique(line@, method, path@, version@, m, p, v);
            }
            Some((method, path, version))
        },
        Err(_) => {
            proof {
                assert forall|m: Method, p: Seq<char>, v: Seq<char>| !is_request_line(
                    line@,
                    m,
                    p,
                    v,
                ) by {
                    if is_request_line(line@, m, p, v) {
                        lemma_request_line_spaces(line@, m, p, v);
                        assert(chars[a as int] == ' ');
                        assert(chars[m.token().len() as int] == ' ');
                        assert(m.token() == token@);
                    }
                }
            }
            None
        },
    }
}

/// Reads a header line into its name and its value.
fn read_header_line(line: &str) -> (parts: Option<(String, String)>)
    ensures
        match parts {
            Some((key, value)) => parse_header_line(line@) == Some((key@, value@)),
            None => parse_header_line(line@) is None,
        },
{
    let chars = chars_of(line);
    let n = chars.len();
    let mut found = find_from(&chars, ':', 0);
    loop
        invariant
            n == chars.len(),
            chars@ == line@,
            match found {
                Some(i) => i < n && chars[i as int] == ':' && forall|j: int|
                    0 <= j < i ==> !separator_at(chars@, j),
                None => forall|j: int| 0 <= j < n ==> !separator_at(chars@, j),
            },
        decreases
                match found {
                    Some(i) => n - i,
                    None => 0,
                },
    {
        match found {
            Some(i) => {
                if i + 1 < n && chars[i + 1] == ' ' {
                    let key = line.substring_char(0, i).to_owned();
                    let value = line.substring_char(i + 2, n).to_owned();
                    proof {
                        assert(first_separator_at(line@, i as int));
                        let k: int = choose|k: int| first_separator_at(line@, k);
                        assert(k == i) by {
                            if k < i {
                                assert(!separator_at(chars@, k));
                            }
                        }
                        assert(key@ =~= line@.take(i as int));
                        assert(value@ =~= line@.skip(i + 2));
                    }
                    return Some((key, value));
                }
                found = find_from(&chars, ':', i + 1);
            },
            None => {
                proof {
                    assert forall|k: int| !first_separator_at(line@, k) by {
                        if first_separator_at(line@, k) {
                            assert(separator_at(chars@, k));
                        }
                    }
                }
                return None;
            },
        }
    }
}

/// A request as it was read from a connection: the method, the path and the
/// version of its request line, its headers, and the route key made of the
/// first three.
pub struct Request {
    method: Method,
    path: String,
    version: String,
    headers: StringHashMap<String>,
    route_key: String,
}

/// The texts of the values that `headers` holds.
spec fn header_values(headers: Map<Seq<char>, String>) -> Map<Seq<char>, Seq<char>> {
    headers.map_values(|value: String| value@)
}

impl View for Request {
    type V = RequestView;

    closed spec fn view(&self) -> RequestView {
        RequestView {
            method: self.method,
            path: self.path@,
            version: self.version@,
            headers: header_values(self.headers@),
        }
    }
}

impl Request {
    #[verifier::type_invariant]
    spec fn route_key_is_derived(self) -> bool {
        self.route_key@ == route_key_text(self.method, self.path@, self.version@)
    }

    /// Reads a request from the lines of a connection, each without its line
    /// terminator. The first line is the request line; the lines after it, up
    /// to the first empty line or the end, are header lines, and a name that
    /// comes twice keeps its last value. What follows the empty line is not
    /// read.
    pub fn new(lines: &Vec<String>) -> (r: Result<Request, Error>)
        ensures
            match r {
                Ok(request) => parse_request(line_texts(lines@)) == Some(request@),
                Err(e) => e == Error::MalformedRequest && parse_request(line_texts(lines@)) is None,
            },
    {
        let ghost texts = line_texts(lines@);
        let mut n: usize = 0;
        while n < lines.len() && !is_end_of_head(lines[n].as_str())
            invariant
                n <= lines.len(),
                texts == line_texts(lines@),
                forall|k: int| 0 <= k < n ==> texts[k].len() > 0,
            decreases lines.len() - n,
        {
            n = n + 1;
        }
        let ghost head = texts.take(n as int);
        proof {
            lemma_head_is_prefix(texts, n as int);
        }
        if n == 0 {
            return Err(Error::MalformedRequest);
        }
        let (method, path, version) = match read_request_line(lines[0].as_str()) {
            Some(parts) => parts,
            None => {
                return Err(Error::MalformedRequest);
            },
        };
        let mut headers: StringHashMap<String> = StringHashMap::new();
        let mut i: usize = 1;
        proof {
            assert(head.skip(1).take(0) =~= Seq::<Seq<char>>::empty());
            assert(header_values(headers@) =~= Map::<Seq<char>, Seq<char>>::empty());
        }
        while i < n
            invariant
                1 <= i <= n <= lines.len(),
                texts == line_texts(lines@),
                head == texts.take(n as int),
                head == crate::request::head(texts),
                parse_header_lines(head.skip(1).take(i - 1)) == Some(header_values(headers@)),
            decreases n - i,
        {
            let ghost before = head.skip(1).take(i - 1);
            let ghost after = head.skip(1).take(i as int);
            proof {
                assert(after.drop_last() =~= before);
                assert(after.last() == lines[i as int]@);
            }
            match read_header_line(lines[i].as_str()) {
                Some((key, value)) => {
                    proof {
                        assert(header_values(headers@.insert(key@, value)) =~= header_values(
                            headers@,
                        ).insert(key@, value@));
                    }
                    headers.insert(key, value);
                },
                None => {
                    proof {
                        assert(head.skip(1)[i - 1] == lines[i as int]@);
                        lemma_bad_header_line(head.skip(1), i - 1);
                    }
                    return Err(Error::MalformedRequest);
                },
            }
            i = i + 1;
        }
        proof {
            assert(head.skip(1).take(n - 1) =~= head.skip(1));
        }
        let route_key = route_key(method, path.as_str(), version.as_str());
        Ok(Request { method, path, version, headers, route_key })
    }

    /// The method of the request.
    pub fn get_method(&self) -> (method: Method)
        ensures
            method == self@.method,
    {
        self.method
    }

    /// The path of the request, as it stood on the request line.
    pub fn get_path(&self) -> (path: &str)
        ensures
            path@ == self@.path,
    {
        self.path.as_str()
    }

    /// The version token of the request line.
    pub fn get_version(&self) -> (version: &str)
        ensures
            version@ == self@.version,
    {
        self.version.as_str()
    }

    /// The value of the header `name`, if the request has such a header.
    /// Names are compared as they are.
    pub fn get_header(&self, name: &str) -> (value: Option<&str>)
        ensures
            match value {
                Some(v) => self@.headers.contains_key(name@) && v@ == self@.headers[name@],
                None => !self@.headers.contains_key(name@),
            },
    {
        match self.headers.get(name) {
            Some(v) => Some(v.as_str()),
            None => None,
        }
    }

    /// The key under which the handler of the request is looked up.
    pub fn get_route_key(&self) -> (key: &str)
        ensures
            key@ == self@.route_key(),
    {
        proof {
            use_type_invariant(self);
        }
        self.route_key.as_str()
    }
}

} // verus!
