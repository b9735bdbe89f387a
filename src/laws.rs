//! Laws that tie the parser's result to the text it is given.
use vstd::prelude::*;
use crate::message::{
    blank_line, body_of, head_of, header_lines, header_name, header_separator, header_value, headers_of,
    line_break, lines_of, method_of, method_text, parse_error, space, start_tokens, version_of,
    version_text, HttpMethod, HttpRequest, HttpVersion, ParseError, parses_to,
};
use crate::text::{
    find, lemma_find_absent, lemma_find_bounds, lemma_find_first, lemma_split_concat, matches_at,
    split,
};

verus! {

/// No carriage return in `s` is followed by a line feed.
pub open spec fn no_crlf(s: Seq<char>) -> bool {
    forall|j: int| 0 <= j < s.len() - 1 ==> !(#[trigger] s[j] == '\r' && s[j + 1] == '\n')
}

proof fn lemma_method_text(m: HttpMethod)
    ensures
        method_of(method_text(m)) == Some(m),
        method_text(m).len() > 0,
        forall|j: int| 0 <= j < method_text(m).len() ==> method_text(m)[j] != ' ' && method_text(m)[j] != '\r',
{
    let t = method_text(m);
    assert(method_text(HttpMethod::GET)[0] == 'G');
    assert(method_text(HttpMethod::PUT)[1] == 'U');
    assert(method_text(HttpMethod::POST)[1] == 'O');
    assert(method_text(HttpMethod::HEAD)[0] == 'H');
    assert(method_text(HttpMethod::OPTIONS)[0] == 'O');
    assert(method_text(HttpMethod::POST).len() == 4);
    assert(method_text(HttpMethod::HEAD).len() == 4);
}

/// A request of only a start line `M R HTTP/1.1` and a blank line, where `M`
/// is a known method and the route `R` is non-empty, holds no space and no
/// line break, parses: the request has method `M`, route `R`, version
/// HTTP/1.1, no headers and an empty body.
#[verifier::rlimit(50)]
pub proof fn lemma_parse_bare_request(m: HttpMethod, route: Seq<char>)
    requires
        route.len() > 0,
        forall|j: int| 0 <= j < route.len() ==> route[j] != ' ',
        no_crlf(route),
    ensures
        ({
            let s = method_text(m) + space() + route + space() + version_text(HttpVersion::Http1_1)
                + blank_line();
            &&& parse_error(s) is None
            &&& method_of(start_tokens(s)[0]) == Some(m)
            &&& start_tokens(s)[1] == route
            &&& version_of(start_tokens(s)[2]) == Some(HttpVersion::Http1_1)
            &&& headers_of(header_lines(s)) == Map::<Seq<char>, Seq<char>>::empty()
            &&& body_of(s).len() == 0
            &&& forall|r: Result<HttpRequest, ParseError>|
                parses_to(s, r) ==> {
                    &&& r is Ok
                    &&& r->Ok_0.spec_method() == m
                    &&& r->Ok_0.spec_route() == route
                    &&& r->Ok_0.spec_version() == HttpVersion::Http1_1
                    &&& r->Ok_0.spec_headers() == Map::<Seq<char>, Seq<char>>::empty()
                    &&& r->Ok_0.spec_body().len() == 0
                }
        }),
{
    lemma_method_text(m);
    let mt = method_text(m);
    let vt = version_text(HttpVersion::Http1_1);
    let rest2 = vt;
    let rest1 = route + space() + vt;
    let line = mt + space() + rest1;
    let s = line + blank_line();
    assert(s =~= mt + space() + route + space() + vt + blank_line());
    let l = line.len() as int;
    let ml = mt.len() as int;
    let rl = route.len() as int;
    // The blank line first occurs at the end of the start line.
    assert forall|j: int| 0 <= j < l implies !matches_at(s, blank_line(), j) by {
        if matches_at(s, blank_line(), j) {
            assert(s.subrange(j, j + 4)[0] == '\r');
            assert(s.subrange(j, j + 4)[1] == '\n');
            assert(s[j] == '\r' && s[j + 1] == '\n');
            if j < ml {
            } else if j == ml {
            } else if j < ml + 1 + rl {
                let r = j - ml - 1;
                if r < rl - 1 {
                    assert(route[r] == s[j] && route[r + 1] == s[j + 1]);
                } else {
                    assert(s[j + 1] == ' ');
                }
            } else if j == ml + 1 + rl {
            } else {
                assert(vt[j - ml - 2 - rl] == s[j]);
            }
        }
    }
    assert(s.subrange(l, l + 4) =~= blank_line());
    lemma_find_first(s, blank_line(), l);
    assert(s.take(l) =~= line);
    assert(s.skip(l + 4) =~= Seq::<char>::empty());
    // The head is the start line alone.
    assert forall|j: int| 0 <= j implies !matches_at(line, line_break(), j) by {
        if matches_at(line, line_break(), j) {
            assert(line.subrange(j, j + 2)[0] == '\r');
            assert(line.subrange(j, j + 2)[1] == '\n');
            assert(s[j] == line[j] && s[j + 1] == line[j + 1]);
            assert(s.subrange(j, j + 4)[0] == s[j]);
            assert(s.subrange(j, j + 4)[1] == s[j + 1]);
            if j + 4 <= s.len() {
                assert(matches_at(s, blank_line(), j) || s.subrange(j, j + 4) != blank_line());
            }
            assert(line[j] == '\r');
            if j < ml {
            } else if j == ml {
            } else if j < ml + 1 + rl {
                let r = j - ml - 1;
                if r < rl - 1 {
                    assert(route[r] == line[j] && route[r + 1] == line[j + 1]);
                } else {
                    assert(line[j + 1] == ' ');
                }
            } else if j == ml + 1 + rl {
            } else {
                assert(vt[j - ml - 2 - rl] == line[j]);
            }
        }
    }
    lemma_find_absent(line, line_break());
    assert(lines_of(s) == seq![line]);
    assert(header_lines(s) =~= Seq::<Seq<char>>::empty());
    // The start line splits into the method, the route and the version.
    assert forall|j: int| 0 <= j < ml implies !matches_at(line, space(), j) by {
        assert(line.subrange(j, j + 1)[0] == line[j]);
    }
    assert(line.subrange(ml, ml + 1) =~= space());
    lemma_find_first(line, space(), ml);
    assert(line.take(ml) =~= mt);
    assert(line.skip(ml + 1) =~= rest1);
    assert forall|j: int| 0 <= j < rl implies !matches_at(rest1, space(), j) by {
        assert(rest1.subrange(j, j + 1)[0] == rest1[j]);
    }
    assert(rest1.subrange(rl, rl + 1) =~= space());
    lemma_find_first(rest1, space(), rl);
    assert(rest1.take(rl) =~= route);
    assert(rest1.skip(rl + 1) =~= rest2);
    assert forall|j: int| 0 <= j implies !matches_at(rest2, space(), j) by {
        if matches_at(rest2, space(), j) {
            assert(rest2.subrange(j, j + 1)[0] == rest2[j]);
        }
    }
    lemma_find_absent(rest2, space());
    assert(split(rest2, space()) == seq![rest2]);
    assert(split(rest1, space()) =~= seq![route, rest2]);
    assert(start_tokens(s) =~= seq![mt, route, vt]);
    assert(version_of(vt) == Some(HttpVersion::Http1_1));
}

proof fn lemma_headers_of_entry(lines: Seq<Seq<char>>, k: int)
    requires
        0 <= k < lines.len(),
        forall|j: int| k < j < lines.len() ==> header_name(lines[j]) != header_name(lines[k]),
    ensures
        headers_of(lines).contains_key(header_name(lines[k])),
        headers_of(lines)[header_name(lines[k])] == header_value(lines[k]),
    decreases lines.len(),
{
    if k < lines.len() - 1 {
        lemma_headers_of_entry(lines.drop_last(), k);
        assert(lines.drop_last()[k] == lines[k]);
    }
}

/// In a message, a header line `K: V` whose name `K` holds no `": "`, and
/// which no later header line of the same name follows, maps `K` to `V` in the
/// header mapping.
pub proof fn lemma_header_line_in_mapping(s: Seq<char>, k: int, key: Seq<char>, value: Seq<char>)
    requires
        0 <= k < header_lines(s).len(),
        header_lines(s)[k] == key + header_separator() + value,
        find(key, header_separator()) < 0,
        forall|j: int|
            k < j < header_lines(s).len() ==> header_name(#[trigger] header_lines(s)[j]) != key,
    ensures
        headers_of(header_lines(s)).contains_key(key),
        headers_of(header_lines(s))[key] == value,
{
    let line = key + header_separator() + value;
    let kl = key.len() as int;
    lemma_find_bounds(key, header_separator());
    assert forall|j: int| 0 <= j < kl implies !matches_at(line, header_separator(), j) by {
        if matches_at(line, header_separator(), j) {
            assert(line.subrange(j, j + 2)[0] == line[j]);
            assert(line.subrange(j, j + 2)[1] == line[j + 1]);
            if j + 1 < kl {
                assert(key.subrange(j, j + 2) =~= header_separator());
                assert(matches_at(key, header_separator(), j));
            } else {
                assert(line[j + 1] == ':');
            }
        }
    }
    assert(line.subrange(kl, kl + 2) =~= header_separator());
    lemma_find_first(line, header_separator(), kl);
    assert(header_name(line) =~= key);
    assert(header_value(line) =~= value);
    lemma_headers_of_entry(header_lines(s), k);
}


/// A header line `K: V` put last before the blank line of a message maps `K`
/// to `V` in the header mapping, and so in the request that parsing gives.
/// `K` holds no `": "`, neither `K` nor `V` holds a carriage return, and what
/// precedes the line holds no blank line and does not end in a line break.
pub proof fn lemma_header_line_before_blank(
    pre: Seq<char>,
    key: Seq<char>,
    value: Seq<char>,
    body: Seq<char>,
)
    requires
        find(pre, blank_line()) < 0,
        !(pre.len() >= 2 && pre[pre.len() - 2] == '\r' && pre[pre.len() - 1] == '\n'),
        find(key, header_separator()) < 0,
        forall|j: int| 0 <= j < key.len() ==> #[trigger] key[j] != '\r',
        forall|j: int| 0 <= j < value.len() ==> #[trigger] value[j] != '\r',
    ensures
        ({
            let s = pre + line_break() + key + header_separator() + value + blank_line() + body;
            &&& find(s, blank_line()) >= 0
            &&& headers_of(header_lines(s)).contains_key(key)
            &&& headers_of(header_lines(s))[key] == value
            &&& forall|r: Result<HttpRequest, ParseError>|
                parses_to(s, r) && r is Ok ==> r->Ok_0.spec_headers().contains_key(key)
                    && r->Ok_0.spec_headers()[key] == value
        }),
{
    let line = key + header_separator() + value;
    let head = pre + line_break() + line;
    let s = head + blank_line() + body;
    assert(s =~= pre + line_break() + key + header_separator() + value + blank_line() + body);
    let p = pre.len() as int;
    let hl = head.len() as int;
    assert forall|j: int| 0 <= j < line.len() implies #[trigger] line[j] != '\r' by {
        if j < key.len() {
            assert(line[j] == key[j]);
        } else if j < key.len() + 2 {
        } else {
            assert(line[j] == value[j - key.len() - 2]);
        }
    }
    lemma_find_bounds(pre, blank_line());
    // The first blank line is the one after the header line.
    assert forall|j: int| 0 <= j < hl implies !matches_at(s, blank_line(), j) by {
        if matches_at(s, blank_line(), j) {
            let w = s.subrange(j, j + 4);
            assert(w[0] == s[j] && w[1] == s[j + 1] && w[2] == s[j + 2] && w[3] == s[j + 3]);
            if j + 4 <= p {
                assert(pre.subrange(j, j + 4) =~= w);
                assert(matches_at(pre, blank_line(), j));
            } else if j == p - 3 {
                assert(s[j + 3] == '\r');
            } else if j == p - 2 {
                assert(s[j] == pre[p - 2] && s[j + 1] == pre[p - 1]);
            } else if j == p - 1 {
                assert(s[j + 1] == '\r');
            } else if j == p {
                assert(s[j + 2] == line[0]);
            } else if j == p + 1 {
                assert(s[j] == '\n');
            } else {
                assert(s[j] == line[j - p - 2]);
            }
        }
    }
    assert(s.subrange(hl, hl + 4) =~= blank_line());
    lemma_find_first(s, blank_line(), hl);
    assert(head_of(s) =~= head);
    // The header line is the last line of the head.
    assert forall|j: int| p - 2 < j < p implies !#[trigger] matches_at(head, line_break(), j) by {
        if matches_at(head, line_break(), j) {
            assert(head.subrange(j, j + 2)[1] == head[j + 1]);
            assert(head[p] == '\r');
        }
    }
    lemma_split_concat(pre, line_break(), line);
    assert forall|j: int| 0 <= j implies !matches_at(line, line_break(), j) by {
        if matches_at(line, line_break(), j) {
            assert(line.subrange(j, j + 2)[0] == line[j]);
        }
    }
    lemma_find_absent(line, line_break());
    assert(split(line, line_break()) == seq![line]);
    crate::message::lemma_split_nonempty(pre, line_break());
    let lines = lines_of(s);
    assert(lines == split(pre, line_break()) + seq![line]);
    let k = header_lines(s).len() - 1;
    assert(header_lines(s)[k] == line);
    lemma_header_line_in_mapping(s, k, key, value);
}

} // verus!
