//! Requests and responses: parsing a request from its wire text and
//! rendering requests and responses back to text.
use vstd::prelude::*;
use vstd::string::StrSliceExecFns;
use vstd::string::StringExecFns;
use vstd::utf8::{decode_utf8, valid_utf8};
use crate::headers::{entries_block, entries_insert, entries_map, entries_text, keys_unique, HeaderMap};
use crate::status::{registered_reason, HttpStatus};
use crate::text::{
    lemma_split_piece, matches_at, append_decimal, chars_of, decimal, find, find_in, lemma_find_bounds, pieces, split, split_in,
    str_eq,
};

verus! {

/// The request methods this library knows.
#[derive(Debug, Clone, Copy, PartialEq, Eq, Structural)]
pub enum HttpMethod {
    GET,
    PUT,
    POST,
    HEAD,
    OPTIONS,
}

/// The protocol versions this library knows.
#[derive(Debug, Clone, Copy, PartialEq, Eq, Structural)]
pub enum HttpVersion {
    Http1_1,
}

/// Why a request could not be parsed; each stage of parsing has its own kind.
#[derive(Debug, Clone, Copy, PartialEq, Eq, Structural)]
pub enum ParseError {
    /// No blank line ends the head of the message.
    MissingSeparator,
    /// The start line is not three space-separated tokens with a non-empty route.
    MalformedStartLine,
    /// The method token is not a known method.
    UnknownMethod,
    /// The version token is not a supported version.
    UnsupportedVersion,
    /// A header line holds no `": "`.
    MalformedHeaderLine,
}

/// The wire token of a method.
pub open spec fn method_text(m: HttpMethod) -> Seq<char> {
    match m {
        HttpMethod::GET => seq!['G', 'E', 'T'],
        HttpMethod::PUT => seq!['P', 'U', 'T'],
        HttpMethod::POST => seq!['P', 'O', 'S', 'T'],
        HttpMethod::HEAD => seq!['H', 'E', 'A', 'D'],
        HttpMethod::OPTIONS => seq!['O', 'P', 'T', 'I', 'O', 'N', 'S'],
    }
}

/// The method whose wire token is `t`, matched exactly.
pub open spec fn method_of(t: Seq<char>) -> Option<HttpMethod> {
    if t == method_text(HttpMethod::GET) {
        Some(HttpMethod::GET)
    } else if t == method_text(HttpMethod::PUT) {
        Some(HttpMethod::PUT)
    } else if t == method_text(HttpMethod::POST) {
        Some(HttpMethod::POST)
    } else if t == method_text(HttpMethod::HEAD) {
        Some(HttpMethod::HEAD)
    } else if t == method_text(HttpMethod::OPTIONS) {
        Some(HttpMethod::OPTIONS)
    } else {
        None
    }
}

/// The wire token of a version.
pub open spec fn version_text(v: HttpVersion) -> Seq<char> {
    match v {
        HttpVersion::Http1_1 => seq!['H', 'T', 'T', 'P', '/', '1', '.', '1'],
    }
}

/// The version whose wire token is `t`, matched exactly.
pub open spec fn version_of(t: Seq<char>) -> Option<HttpVersion> {
    if t == version_text(HttpVersion::Http1_1) {
        Some(HttpVersion::Http1_1)
    } else {
        None
    }
}

impl HttpMethod {
    /// The wire token of the method.
    pub fn as_str(&self) -> (r: &'static str)
        ensures
            r@ == method_text(*self),
    {
        proof {
            reveal_strlit("GET");
            reveal_strlit("PUT");
            reveal_strlit("POST");
            reveal_strlit("HEAD");
            reveal_strlit("OPTIONS");
        }
        match self {
            HttpMethod::GET => "GET",
            HttpMethod::PUT => "PUT",
            HttpMethod::POST => "POST",
            HttpMethod::HEAD => "HEAD",
            HttpMethod::OPTIONS => "OPTIONS",
        }
    }

    /// The method whose wire token is `s`, matched exactly and case-sensitively.
    pub fn from_str(s: &str) -> (r: Result<HttpMethod, ParseError>)
        ensures
            match r {
                Ok(m) => method_of(s@) == Some(m),
                Err(e) => method_of(s@) is None && e == ParseError::UnknownMethod,
            },
    {
        proof {
            reveal_strlit("GET");
            reveal_strlit("PUT");
            reveal_strlit("POST");
            reveal_strlit("HEAD");
            reveal_strlit("OPTIONS");
            assert("GET"@ =~= method_text(HttpMethod::GET));
            assert("PUT"@ =~= method_text(HttpMethod::PUT));
            assert("POST"@ =~= method_text(HttpMethod::POST));
            assert("HEAD"@ =~= method_text(HttpMethod::HEAD));
            assert("OPTIONS"@ =~= method_text(HttpMethod::OPTIONS));
        }
        if str_eq(s, "GET") {
            Ok(HttpMethod::GET)
        } else if str_eq(s, "PUT") {
            Ok(HttpMethod::PUT)
        } else if str_eq(s, "POST") {
            Ok(HttpMethod::POST)
        } else if str_eq(s, "HEAD") {
            Ok(HttpMethod::HEAD)
        } else if str_eq(s, "OPTIONS") {
            Ok(HttpMethod::OPTIONS)
        } else {
            Err(ParseError::UnknownMethod)
        }
    }
}

impl HttpVersion {
    /// The wire token of the version.
    pub fn as_str(&self) -> (r: &'static str)
        ensures
            r@ == version_text(*self),
    {
        proof {
            reveal_strlit("HTTP/1.1");
        }
        match self {
            HttpVersion::Http1_1 => "HTTP/1.1",
        }
    }

    /// The version whose wire token is `s`, matched exactly.
    pub fn from_str(s: &str) -> (r: Result<HttpVersion, ParseError>)
        ensures
            match r {
                Ok(v) => version_of(s@) == Some(v),
                Err(e) => version_of(s@) is None && e == ParseError::UnsupportedVersion,
            },
    {
        proof {
            reveal_strlit("HTTP/1.1");
            assert("HTTP/1.1"@ =~= version_text(HttpVersion::Http1_1));
        }
        if str_eq(s, "HTTP/1.1") {
            Ok(HttpVersion::Http1_1)
        } else {
            Err(ParseError::UnsupportedVersion)
        }
    }
}


/// The blank line that ends the head of a message.
pub open spec fn blank_line() -> Seq<char> {
    seq!['\r', '\n', '\r', '\n']
}

/// The line break between the lines of the head.
pub open spec fn line_break() -> Seq<char> {
    seq!['\r', '\n']
}

/// The separator of the start line's tokens.
pub open spec fn space() -> Seq<char> {
    seq![' ']
}

/// The separator between a header's name and its value.
pub open spec fn header_separator() -> Seq<char> {
    seq![':', ' ']
}

/// The head of a message: what comes before the first blank line.
pub open spec fn head_of(s: Seq<char>) -> Seq<char> {
    s.take(find(s, blank_line()))
}

/// The body of a message: all that follows the first blank line.
pub open spec fn body_of(s: Seq<char>) -> Seq<char> {
    s.skip(find(s, blank_line()) + 4)
}

/// The lines of the head; the first is the start line.
pub open spec fn lines_of(s: Seq<char>) -> Seq<Seq<char>> {
    split(head_of(s), line_break())
}

/// The space-separated tokens of the start line.
pub open spec fn start_tokens(s: Seq<char>) -> Seq<Seq<char>> {
    split(lines_of(s)[0], space())
}

/// The header lines: the lines of the head after the start line.
pub open spec fn header_lines(s: Seq<char>) -> Seq<Seq<char>> {
    lines_of(s).drop_first()
}

/// A header line's name: what comes before its first `": "`.
pub open spec fn header_name(l: Seq<char>) -> Seq<char> {
    l.take(find(l, header_separator()))
}

/// A header line's value: what follows its first `": "`.
pub open spec fn header_value(l: Seq<char>) -> Seq<char> {
    l.skip(find(l, header_separator()) + 2)
}

/// The mapping that a list of header lines gives, taken in order: a later
/// line for a name replaces an earlier one.
pub open spec fn headers_of(lines: Seq<Seq<char>>) -> Map<Seq<char>, Seq<char>>
    decreases lines.len(),
{
    if lines.len() == 0 {
        Map::empty()
    } else {
        headers_of(lines.drop_last()).insert(
            header_name(lines.last()),
            header_value(lines.last()),
        )
    }
}

/// The first stage at which parsing `s` fails, if any.
pub open spec fn parse_error(s: Seq<char>) -> Option<ParseError> {
    if find(s, blank_line()) < 0 {
        Some(ParseError::MissingSeparator)
    } else if start_tokens(s).len() != 3 || start_tokens(s)[1].len() == 0 {
        Some(ParseError::MalformedStartLine)
    } else if method_of(start_tokens(s)[0]) is None {
        Some(ParseError::UnknownMethod)
    } else if version_of(start_tokens(s)[2]) is None {
        Some(ParseError::UnsupportedVersion)
    } else if exists|k: int|
        1 <= k < lines_of(s).len() && find(#[trigger] lines_of(s)[k], header_separator()) < 0 {
        Some(ParseError::MalformedHeaderLine)
    } else {
        None
    }
}

pub proof fn lemma_split_nonempty(s: Seq<char>, sep: Seq<char>)
    ensures
        split(s, sep).len() >= 1,
{
}

/// The route of a message whose start line has three tokens and a non-empty
/// route is a route token.
pub proof fn lemma_start_route_token(s: Seq<char>)
    requires
        find(s, blank_line()) >= 0,
        start_tokens(s).len() == 3,
        start_tokens(s)[1].len() > 0,
    ensures
        is_route_token(start_tokens(s)[1]),
{
    let route = start_tokens(s)[1];
    lemma_split_nonempty(head_of(s), line_break());
    let line = lines_of(s)[0];
    lemma_split_piece(line, space(), 1);
    lemma_split_piece(head_of(s), line_break(), 0);
    assert forall|j: int| 0 <= j < route.len() implies #[trigger] route[j] != ' ' by {
        if route[j] == ' ' {
            assert(route.subrange(j, j + 1) =~= space());
            assert(matches_at(route, space(), j));
        }
    }
    let a = choose|a: int| matches_at(line, route, a);
    assert forall|j: int| 0 <= j < route.len() - 1 implies !(#[trigger] route[j] == '\r' && route[j
        + 1] == '\n') by {
        if route[j] == '\r' && route[j + 1] == '\n' {
            assert(line[a + j] == route[j] && line[a + j + 1] == route[j + 1]);
            assert(line.subrange(a + j, a + j + 2) =~= line_break());
            assert(matches_at(line, line_break(), a + j));
        }
    }
}

/// A request: method, route, version, headers and body.
#[derive(Debug)]
pub struct HttpRequest {
    version: HttpVersion,
    method: HttpMethod,
    route: String,
    body: String,
    headers: HeaderMap,
}

/// `r` is what parsing the text `s` gives: the first failing stage's error,
/// or else the request made of the start line's tokens, the mapping of the
/// header lines and the body.
pub open spec fn parses_to(s: Seq<char>, r: Result<HttpRequest, ParseError>) -> bool {
    match r {
        Ok(req) => {
            &&& parse_error(s) is None
            &&& req.wf()
            &&& method_of(start_tokens(s)[0]) == Some(req.spec_method())
            &&& req.spec_route() == start_tokens(s)[1]
            &&& version_of(start_tokens(s)[2]) == Some(req.spec_version())
            &&& req.spec_headers() == headers_of(header_lines(s))
            &&& req.spec_body() == body_of(s)
        },
        Err(e) => parse_error(s) == Some(e),
    }
}

/// The text that lossy UTF-8 decoding gives for the bytes `b`.
pub uninterp spec fn lossy_text(b: Seq<u8>) -> Seq<char>;

/// Relies on `String::from_utf8_lossy`: the text depends on the bytes alone,
/// and bytes that are valid UTF-8 decode as they stand.
#[verifier::external_body]
fn decode_lossy(b: &[u8]) -> (r: String)
    ensures
        r@ == lossy_text(b@),
        valid_utf8(b@) ==> r@ == decode_utf8(b@),
{
    String::from_utf8_lossy(b).into_owned()
}

/// A route token: non-empty, with no space and no line break.
pub open spec fn is_route_token(r: Seq<char>) -> bool {
    &&& r.len() > 0
    &&& forall|j: int| 0 <= j < r.len() ==> #[trigger] r[j] != ' '
    &&& forall|j: int| 0 <= j < r.len() - 1 ==> !(#[trigger] r[j] == '\r' && r[j + 1] == '\n')
}

/// Another name for a parsed request message.
pub type HttpMessage = HttpRequest;

impl HttpRequest {
    pub closed spec fn spec_version(&self) -> HttpVersion {
        self.version
    }

    pub closed spec fn spec_method(&self) -> HttpMethod {
        self.method
    }

    pub closed spec fn spec_route(&self) -> Seq<char> {
        self.route@
    }

    pub closed spec fn spec_body(&self) -> Seq<char> {
        self.body@
    }

    /// The header entries, in the order in which they are rendered.
    pub closed spec fn spec_entries(&self) -> Seq<(Seq<char>, Seq<char>)> {
        self.headers.entries()
    }

    /// The header mapping that the entries stand for.
    pub open spec fn spec_headers(&self) -> Map<Seq<char>, Seq<char>> {
        entries_map(self.spec_entries())
    }

    /// The route is a token and the header names are unique.
    pub open spec fn wf(&self) -> bool {
        is_route_token(self.spec_route()) && keys_unique(self.spec_entries())
    }

    /// A request of the given parts.
    pub fn from_parts(
        version: HttpVersion,
        method: HttpMethod,
        route: String,
        body: String,
        headers: HeaderMap,
    ) -> (r: HttpRequest)
        requires
            is_route_token(route@),
            headers.wf(),
        ensures
            r.wf(),
            r.spec_version() == version,
            r.spec_method() == method,
            r.spec_route() == route@,
            r.spec_body() == body@,
            r.spec_entries() == headers.entries(),
            r.spec_headers() == headers@,
    {
        HttpRequest { version, method, route, body, headers }
    }

    /// Parses a request from its wire text.
    ///
    /// The head ends at the first blank line and all that follows is the body.
    /// The head's first line is the start line, three tokens split on single
    /// spaces: method, route, version. Each further line is a header, split on
    /// its first `": "`; a later header of a name replaces an earlier one.
    /// The checks come in that order and the first that fails gives the error.
    pub fn from_str(s: &str) -> (r: Result<HttpRequest, ParseError>)
        ensures
            parses_to(s@, r),
    {
        let v = chars_of(s);
        let n = v.len();
        let blank = vec!['\r', '\n', '\r', '\n'];
        assert(blank@ =~= blank_line());
        let sep = match find_in(&v, &blank, 0, n) {
            None => {
                assert(v@.subrange(0, n as int) =~= s@);
                return Err(ParseError::MissingSeparator);
            },
            Some(i) => i,
        };
        proof {
            assert(v@.subrange(0, n as int) =~= s@);
            lemma_find_bounds(s@, blank_line());
            assert(v@.subrange(0, sep as int) =~= head_of(s@));
            assert(v@.subrange(sep + 4, n as int) =~= body_of(s@));
        }
        let crlf = vec!['\r', '\n'];
        assert(crlf@ =~= line_break());
        let lines = split_in(&v, &crlf, 0, sep);
        assert(forall|j: int| 0 <= j < lines.len() ==> 0 <= #[trigger] lines@[j].0 <= lines@[j].1 <= sep);
        proof {
            lemma_split_nonempty(head_of(s@), line_break());
            assert(pieces(v@, lines@)[0] == lines_of(s@)[0]);
        }
        let (ls, le) = lines[0];
        let sp = vec![' '];
        assert(sp@ =~= space());
        let tokens = split_in(&v, &sp, ls, le);
        assert(pieces(v@, tokens@) == start_tokens(s@));
        if tokens.len() != 3 || tokens[1].0 == tokens[1].1 {
            proof {
                if tokens.len() == 3 {
                    assert(pieces(v@, tokens@)[1].len() == 0);
                }
            }
            return Err(ParseError::MalformedStartLine);
        }
        assert(pieces(v@, tokens@)[0] == start_tokens(s@)[0]);
        assert(pieces(v@, tokens@)[1] == start_tokens(s@)[1]);
        assert(pieces(v@, tokens@)[2] == start_tokens(s@)[2]);
        let method = match HttpMethod::from_str(s.substring_char(tokens[0].0, tokens[0].1)) {
            Ok(m) => m,
            Err(e) => {
                return Err(e);
            },
        };
        let version = match HttpVersion::from_str(s.substring_char(tokens[2].0, tokens[2].1)) {
            Ok(ver) => ver,
            Err(e) => {
                return Err(e);
            },
        };
        proof {
            lemma_start_route_token(s@);
        }
        let colon = vec![':', ' '];
        assert(colon@ =~= header_separator());
        let mut headers = HeaderMap::new();
        let mut k: usize = 1;
        while k < lines.len()
            invariant
                1 <= k <= lines.len(),
                n == v@.len() == s@.len(),
                v@ == s@,
                colon@ == header_separator(),
                pieces(v@, lines@) == lines_of(s@),
                forall|j: int| 0 <= j < lines.len() ==> 0 <= #[trigger] lines@[j].0 <= lines@[j].1 <= sep,
                sep + 4 <= n,
                find(s@, blank_line()) == sep,
                body_of(s@) == v@.subrange(sep + 4, n as int),
                tokens.len() == 3,
                pieces(v@, tokens@) == start_tokens(s@),
                forall|j: int| 0 <= j < tokens.len() ==> #[trigger] tokens@[j].0 <= tokens@[j].1 <= n,
                is_route_token(start_tokens(s@)[1]),
                method_of(start_tokens(s@)[0]) == Some(method),
                version_of(start_tokens(s@)[2]) == Some(version),
                headers.wf(),
                headers@ == headers_of(header_lines(s@).take(k - 1)),
                forall|j: int| 1 <= j < k ==> find(#[trigger] lines_of(s@)[j], header_separator()) >= 0,
            decreases lines.len() - k,
        {
            let (a, b) = lines[k];
            assert(pieces(v@, lines@)[k as int] == v@.subrange(a as int, b as int));
            let ghost line = lines_of(s@)[k as int];
            match find_in(&v, &colon, a, b) {
                None => {
                    assert(find(lines_of(s@)[k as int], header_separator()) < 0);
                    return Err(ParseError::MalformedHeaderLine);
                },
                Some(c) => {
                    proof {
                        lemma_find_bounds(line, header_separator());
                    }
                    let name = s.substring_char(a, c).to_owned();
                    let value = s.substring_char(c + 2, b).to_owned();
                    proof {
                        assert(name@ =~= header_name(line));
                        assert(value@ =~= header_value(line));
                        let hl = header_lines(s@);
                        assert(hl[k - 1] == line);
                        assert(hl.take(k as int).drop_last() =~= hl.take(k - 1));
                    }
                    headers.insert(name, value);
                },
            }
            k = k + 1;
        }
        proof {
            assert(header_lines(s@).take(k - 1) =~= header_lines(s@));
        }
        let route = s.substring_char(tokens[1].0, tokens[1].1).to_owned();
        let body = s.substring_char(sep + 4, n).to_owned();
        Ok(HttpRequest { version, method, route, body, headers })
    }

    /// Parses a request from its wire text, as `from_str` does.
    pub fn new(request: String) -> (r: Result<HttpRequest, ParseError>)
        ensures
            parses_to(request@, r),
    {
        HttpRequest::from_str(request.as_str())
    }

    /// Parses a request from raw bytes. Invalid UTF-8 sequences are replaced
    /// during decoding, not rejected; the text is then parsed as by `from_str`.
    pub fn parse(raw: &[u8]) -> (r: Result<HttpRequest, ParseError>)
        ensures
            parses_to(lossy_text(raw@), r),
            valid_utf8(raw@) ==> parses_to(decode_utf8(raw@), r),
    {
        let text = decode_lossy(raw);
        HttpRequest::from_str(text.as_str())
    }
}


/// The wire text of a request of these parts.
pub open spec fn request_text(
    method: HttpMethod,
    route: Seq<char>,
    version: HttpVersion,
    entries: Seq<(Seq<char>, Seq<char>)>,
    body: Seq<char>,
) -> Seq<char> {
    method_text(method) + space() + route + space() + version_text(version) + line_break()
        + entries_block(entries) + blank_line() + body
}

/// The wire text of a response of these parts.
pub open spec fn response_text(
    version: HttpVersion,
    status: HttpStatus,
    entries: Seq<(Seq<char>, Seq<char>)>,
    body: Seq<char>,
) -> Seq<char> {
    version_text(version) + space() + status.spec_text() + line_break() + entries_text(entries)
        + line_break() + body
}

impl HttpRequest {
    pub fn version(&self) -> (r: HttpVersion)
        ensures
            r == self.spec_version(),
    {
        self.version
    }

    pub fn method(&self) -> (r: HttpMethod)
        ensures
            r == self.spec_method(),
    {
        self.method
    }

    pub fn route(&self) -> (r: &String)
        ensures
            r@ == self.spec_route(),
    {
        &self.route
    }

    pub fn body(&self) -> (r: &String)
        ensures
            r@ == self.spec_body(),
    {
        &self.body
    }

    /// The value of the header `name`, if the request has it.
    pub fn header(&self, name: &str) -> (r: Option<&String>)
        requires
            self.wf(),
        ensures
            match r {
                Some(v) => self.spec_headers().contains_key(name@) && self.spec_headers()[name@]
                    == v@,
                None => !self.spec_headers().contains_key(name@),
            },
    {
        self.headers.get(name)
    }

    /// Renders the request: the start line, a line break, the header lines
    /// `name: value` in entry order with a line break between two of them,
    /// a blank line and the body.
    pub fn to_string(&self) -> (r: String)
        ensures
            r@ == request_text(
                self.spec_method(),
                self.spec_route(),
                self.spec_version(),
                self.spec_entries(),
                self.spec_body(),
            ),
    {
        let mut r = String::new();
        r.append(self.method.as_str());
        r.append(" ");
        r.append(self.route.as_str());
        r.append(" ");
        r.append(self.version.as_str());
        r.append("\r\n");
        self.headers.append_block(&mut r);
        r.append("\r\n\r\n");
        r.append(self.body.as_str());
        proof {
            reveal_strlit(" ");
            reveal_strlit("\r\n");
            reveal_strlit("\r\n\r\n");
            assert(r@ =~= request_text(
                self.method,
                self.route@,
                self.version,
                self.headers.entries(),
                self.body@,
            ));
        }
        r
    }
}

/// A response: version, status, headers and body.
#[derive(Debug)]
pub struct HttpResponse {
    version: HttpVersion,
    status: HttpStatus,
    headers: HeaderMap,
    body: String,
}

impl HttpResponse {
    pub closed spec fn spec_version(&self) -> HttpVersion {
        self.version
    }

    pub closed spec fn spec_status(&self) -> HttpStatus {
        self.status
    }

    /// The header entries, in the order in which they are rendered.
    pub closed spec fn spec_entries(&self) -> Seq<(Seq<char>, Seq<char>)> {
        self.headers.entries()
    }

    /// The header mapping that the entries stand for.
    pub open spec fn spec_headers(&self) -> Map<Seq<char>, Seq<char>> {
        entries_map(self.spec_entries())
    }

    pub closed spec fn spec_body(&self) -> Seq<char> {
        self.body@
    }

    /// The header names are unique.
    pub open spec fn wf(&self) -> bool {
        keys_unique(self.spec_entries())
    }

    /// A response of version HTTP/1.1 and status 200 OK, with no headers and an empty body.
    pub fn new() -> (r: HttpResponse)
        ensures
            r.wf(),
            r.spec_version() == HttpVersion::Http1_1,
            r.spec_status().spec_code() == 200,
            registered_reason(200) == Some(r.spec_status().spec_reason()),
            r.spec_entries().len() == 0,
            r.spec_headers() == Map::<Seq<char>, Seq<char>>::empty(),
            r.spec_body().len() == 0,
    {
        HttpResponse {
            version: HttpVersion::Http1_1,
            status: HttpStatus::ok(),
            headers: HeaderMap::new(),
            body: String::new(),
        }
    }

    /// Replaces the status.
    pub fn status(&mut self, status: HttpStatus)
        ensures
            final(self).spec_status() == status,
            final(self).spec_version() == old(self).spec_version(),
            final(self).spec_entries() == old(self).spec_entries(),
            final(self).spec_headers() == old(self).spec_headers(),
            final(self).spec_body() == old(self).spec_body(),
            final(self).wf() == old(self).wf(),
    {
        self.status = status;
    }

    /// Replaces the body.
    pub fn set_body(&mut self, body: String)
        ensures
            final(self).spec_body() == body@,
            final(self).spec_version() == old(self).spec_version(),
            final(self).spec_status() == old(self).spec_status(),
            final(self).spec_entries() == old(self).spec_entries(),
            final(self).spec_headers() == old(self).spec_headers(),
            final(self).wf() == old(self).wf(),
    {
        self.body = body;
    }

    /// Sets the header `name` to `value`; a header of that name keeps its place.
    pub fn set_header(&mut self, name: String, value: String)
        requires
            old(self).wf(),
        ensures
            final(self).wf(),
            final(self).spec_headers() == old(self).spec_headers().insert(name@, value@),
            final(self).spec_entries() == entries_insert(old(self).spec_entries(), name@, value@),
            final(self).spec_version() == old(self).spec_version(),
            final(self).spec_status() == old(self).spec_status(),
            final(self).spec_body() == old(self).spec_body(),
    {
        self.headers.insert(name, value);
    }

    pub fn get_status(&self) -> (r: HttpStatus)
        ensures
            r == self.spec_status(),
    {
        self.status
    }

    pub fn body(&self) -> (r: &String)
        ensures
            r@ == self.spec_body(),
    {
        &self.body
    }

    /// Renders the response: `<version> <code> <reason>`, a line break, each
    /// header as `name: value` and a line break, a blank line and the body.
    pub fn to_string(&self) -> (r: String)
        ensures
            r@ == response_text(self.spec_version(), self.spec_status(), self.spec_entries(), self.spec_body()),
            registered_reason(self.spec_status().spec_code()) == Some(self.spec_status().spec_reason()),
    {
        let mut r = String::new();
        r.append(self.version.as_str());
        r.append(" ");
        let status_line = self.status.to_string();
        r.append(status_line.as_str());
        r.append("\r\n");
        self.headers.append_lines(&mut r);
        r.append("\r\n");
        r.append(self.body.as_str());
        proof {
            reveal_strlit(" ");
            reveal_strlit("\r\n");
            assert(r@ =~= response_text(self.version, self.status, self.headers.entries(), self.body@));
        }
        r
    }
}

} // verus!
