//! Parsing one raw HTTP request into method, path, version, headers and body.

use vstd::prelude::*;

use crate::bytes::{copy_range, find_byte, index_of, lemma_index_of_bounds, trim_trailing_nul, trimmed_len};

verus! {

pub const LF: u8 = 10;

pub const CR: u8 = 13;

pub const SP: u8 = 32;

pub const COLON: u8 = 58;

#[derive(Clone, Copy, Debug, PartialEq, Eq, Structural)]
pub enum Method {
    Get,
    Post,
    Unknown,
}

#[derive(Clone, Copy, Debug, PartialEq, Eq, Structural)]
pub enum ParseError {
    /// Nothing but zero bytes was received.
    Empty,
    /// A header line lacks the `": "` separator.
    MalformedHeader,
}

/// One header line: its name as received and its value.
#[derive(Debug)]
pub struct Header {
    pub name: Vec<u8>,
    pub content: Vec<u8>,
}

/// A parsed request. Missing request-line tokens are empty.
#[derive(Debug)]
pub struct HTTPRequest {
    pub method: Method,
    pub headers: Vec<Header>,
    pub path: Vec<u8>,
    pub version: Vec<u8>,
    pub content: Vec<u8>,
}

/// The mathematical content of a request.
pub struct RequestModel {
    pub method: Method,
    pub headers: Seq<(Seq<u8>, Seq<u8>)>,
    pub path: Seq<u8>,
    pub version: Seq<u8>,
    pub body: Seq<u8>,
}

pub open spec fn header_model(h: Header) -> (Seq<u8>, Seq<u8>) {
    (h.name@, h.content@)
}

pub open spec fn headers_model(hs: Seq<Header>) -> Seq<(Seq<u8>, Seq<u8>)> {
    hs.map_values(|h: Header| header_model(h))
}

impl View for HTTPRequest {
    type V = RequestModel;

    open spec fn view(&self) -> RequestModel {
        RequestModel {
            method: self.method,
            headers: headers_model(self.headers@),
            path: self.path@,
            version: self.version@,
            body: self.content@,
        }
    }
}

/// The line that starts at `pos`, without its `\n` or `\r\n` terminator.
pub open spec fn line_at(s: Seq<u8>, pos: int) -> Seq<u8> {
    let j = index_of(s, pos, LF);
    if pos < j && j < s.len() && s[j - 1] == CR {
        s.subrange(pos, j - 1)
    } else {
        s.subrange(pos, j)
    }
}

/// Where the line after the one at `pos` starts.
pub open spec fn next_line(s: Seq<u8>, pos: int) -> int {
    let j = index_of(s, pos, LF);
    if j < s.len() {
        j + 1
    } else {
        s.len() as int
    }
}

/// Position of the first `": "` at or after `i`, or `s.len()`.
pub open spec fn header_sep(s: Seq<u8>, i: int) -> int
    decreases s.len() - i,
{
    if i + 1 >= s.len() {
        s.len() as int
    } else if s[i] == COLON && s[i + 1] == SP {
        i
    } else {
        header_sep(s, i + 1)
    }
}

/// A header line split on its first `": "`.
pub open spec fn split_header(line: Seq<u8>) -> Option<(Seq<u8>, Seq<u8>)> {
    let k = header_sep(line, 0);
    if k < line.len() {
        Some((line.subrange(0, k), line.subrange(k + 2, line.len() as int)))
    } else {
        None
    }
}

/// Headers from the line at `pos` up to the first empty line, and the bytes
/// after that empty line as the body; `None` on a header without separator.
pub open spec fn parse_headers(s: Seq<u8>, pos: int) -> Option<(Seq<(Seq<u8>, Seq<u8>)>, Seq<u8>)>
    decreases s.len() - pos,
    via parse_headers_decreases
{
    if pos < 0 || pos >= s.len() {
        Some((seq![], seq![]))
    } else if line_at(s, pos).len() == 0 {
        Some((seq![], s.subrange(next_line(s, pos), s.len() as int)))
    } else {
        match split_header(line_at(s, pos)) {
            None => None,
            Some(h) => match parse_headers(s, next_line(s, pos)) {
                None => None,
                Some(rest) => Some((seq![h] + rest.0, rest.1)),
            },
        }
    }
}

#[via_fn]
proof fn parse_headers_decreases(s: Seq<u8>, pos: int) {
    if 0 <= pos < s.len() {
        lemma_index_of_bounds(s, pos, LF);
    }
}

/// The `k`-th space-separated token of `s` from `start`, empty when missing.
pub open spec fn token_from(s: Seq<u8>, start: int, k: nat) -> Seq<u8>
    decreases k,
{
    let j = index_of(s, start, SP);
    if k == 0 {
        s.subrange(start, j)
    } else if j < s.len() {
        token_from(s, j + 1, (k - 1) as nat)
    } else {
        seq![]
    }
}

pub open spec fn token(s: Seq<u8>, k: nat) -> Seq<u8> {
    token_from(s, 0, k)
}

pub open spec fn get_word() -> Seq<u8> {
    seq![71u8, 69u8, 84u8]
}

pub open spec fn post_word() -> Seq<u8> {
    seq![80u8, 79u8, 83u8, 84u8]
}

pub open spec fn method_of(t: Seq<u8>) -> Method {
    if t == get_word() {
        Method::Get
    } else if t == post_word() {
        Method::Post
    } else {
        Method::Unknown
    }
}

/// The request that the bytes `s` (already free of trailing zero bytes) hold.
pub open spec fn parse_request(s: Seq<u8>) -> Result<RequestModel, ParseError> {
    if s.len() == 0 {
        Err(ParseError::Empty)
    } else {
        let head = line_at(s, 0);
        match parse_headers(s, next_line(s, 0)) {
            None => Err(ParseError::MalformedHeader),
            Some(hb) => Ok(
                RequestModel {
                    method: method_of(token(head, 0)),
                    headers: hb.0,
                    path: token(head, 1),
                    version: token(head, 2),
                    body: hb.1,
                },
            ),
        }
    }
}

/// Whether `s` holds no byte `b`.
pub open spec fn lacks(s: Seq<u8>, b: u8) -> bool {
    forall|i: int| 0 <= i < s.len() ==> s[i] != b
}

/// The bytes of a request whose line is `<m> <p> <v>`, followed by `rest`
/// (the header lines, the blank line and the body).
pub open spec fn request_bytes(m: Seq<u8>, p: Seq<u8>, v: Seq<u8>, rest: Seq<u8>) -> Seq<u8> {
    m + seq![SP] + p + seq![SP] + v + seq![CR, LF] + rest
}

pub proof fn lemma_index_of_at(s: Seq<u8>, i: int, k: int, b: u8)
    requires
        0 <= i <= k <= s.len(),
        forall|j: int| i <= j < k ==> s[j] != b,
        k == s.len() || s[k] == b,
    ensures
        index_of(s, i, b) == k,
    decreases k - i,
{
    if i < k {
        lemma_index_of_at(s, i + 1, k, b);
    }
}

proof fn lemma_index_of_shift(pre: Seq<u8>, rest: Seq<u8>, i: int, b: u8)
    requires
        0 <= i <= rest.len(),
    ensures
        index_of(pre + rest, pre.len() + i, b) == pre.len() + index_of(rest, i, b),
    decreases rest.len() - i,
{
    if i < rest.len() {
        assert((pre + rest)[pre.len() + i] == rest[i]);
        if rest[i] != b {
            lemma_index_of_shift(pre, rest, i + 1, b);
        }
    }
}

pub proof fn lemma_parse_headers_shift(pre: Seq<u8>, rest: Seq<u8>, i: int)
    requires
        0 <= i <= rest.len(),
    ensures
        parse_headers(pre + rest, pre.len() + i) == parse_headers(rest, i),
    decreases rest.len() - i,
{
    let s = pre + rest;
    let k = pre.len() + i;
    if i < rest.len() {
        lemma_index_of_shift(pre, rest, i, LF);
        lemma_index_of_bounds(rest, i, LF);
        let j = index_of(rest, i, LF);
        if i < j && j < rest.len() {
            assert(s[pre.len() + j - 1] == rest[j - 1]);
        }
        if i < j && j < rest.len() && rest[j - 1] == CR {
            assert(s.subrange(k, pre.len() + j - 1) =~= rest.subrange(i, j - 1));
        } else {
            assert(s.subrange(k, pre.len() + j) =~= rest.subrange(i, j));
        }
        assert(line_at(s, k) == line_at(rest, i));
        assert(next_line(s, k) == pre.len() + next_line(rest, i));
        if line_at(rest, i).len() == 0 {
            assert(s.subrange(next_line(s, k), s.len() as int) =~= rest.subrange(
                next_line(rest, i),
                rest.len() as int,
            ));
        } else {
            lemma_parse_headers_shift(pre, rest, next_line(rest, i));
        }
    } else {
        assert(k == s.len());
    }
}

/// Tokens without spaces or line feeds, and a header section that parses
/// and does not end in a zero byte.
pub open spec fn plain_request(m: Seq<u8>, p: Seq<u8>, v: Seq<u8>, rest: Seq<u8>) -> bool {
    &&& lacks(m, SP)
    &&& lacks(p, SP)
    &&& lacks(v, SP)
    &&& lacks(m, LF)
    &&& lacks(p, LF)
    &&& lacks(v, LF)
    &&& parse_headers(rest, 0) is Some
    &&& (rest.len() == 0 || rest.last() != 0)
}

/// A request `<m> <p> <v>` CR LF `rest`, whose tokens hold no space or line
/// feed and whose header section parses, yields method `m`, path `p`,
/// version `v`, and the headers and body that `rest` holds.
pub proof fn raw_request_parses(m: Seq<u8>, p: Seq<u8>, v: Seq<u8>, rest: Seq<u8>)
    requires
        lacks(m, SP),
        lacks(p, SP),
        lacks(v, SP),
        lacks(m, LF),
        lacks(p, LF),
        lacks(v, LF),
        parse_headers(rest, 0) is Some,
        rest.len() == 0 || rest.last() != 0,
    ensures
        parse_request(trim_trailing_nul(request_bytes(m, p, v, rest))) == Ok::<RequestModel, ParseError>(
            RequestModel {
                method: method_of(m),
                headers: parse_headers(rest, 0)->Some_0.0,
                path: p,
                version: v,
                body: parse_headers(rest, 0)->Some_0.1,
            },
        ),
{
    let line = m + seq![SP] + p + seq![SP] + v;
    let pre = line + seq![CR, LF];
    let data = request_bytes(m, p, v, rest);
    assert(data =~= pre + rest);
    assert(data.len() > 0);
    if rest.len() == 0 {
        assert(data.last() == LF);
    } else {
        assert(data.last() == rest.last());
    }
    assert(trim_trailing_nul(data) == data);
    let a = m.len() as int;
    let c = a + 1 + p.len();
    assert(forall|j: int| 0 <= j < line.len() ==> line[j] != LF && #[trigger] data[j] == line[j]) by {
        assert forall|j: int| 0 <= j < line.len() implies line[j] != LF && #[trigger] data[j] == line[j] by {
            if j < a {
                assert(line[j] == m[j]);
            } else if j == a || j == c {
            } else if j < c {
                assert(line[j] == p[j - a - 1]);
            } else {
                assert(line[j] == v[j - c - 1]);
            }
        }
    }
    assert(data[line.len() as int] == CR);
    assert(data[line.len() as int + 1] == LF);
    lemma_index_of_at(data, 0, line.len() as int + 1, LF);
    assert(line_at(data, 0) =~= line);
    assert(next_line(data, 0) == pre.len());
    lemma_parse_headers_shift(pre, rest, 0);
    assert(forall|j: int| 0 <= j < a ==> line[j] == m[j] && m[j] != SP);
    assert(line[a] == SP);
    lemma_index_of_at(line, 0, a, SP);
    assert(line.subrange(0, a) =~= m);
    assert(forall|j: int| a + 1 <= j < c ==> line[j] == p[j - a - 1] && p[j - a - 1] != SP);
    assert(line[c] == SP);
    lemma_index_of_at(line, a + 1, c, SP);
    assert(line.subrange(a + 1, c) =~= p);
    assert(forall|j: int| c + 1 <= j < line.len() ==> line[j] == v[j - c - 1] && v[j - c - 1] != SP);
    lemma_index_of_at(line, c + 1, line.len() as int, SP);
    assert(line.subrange(c + 1, line.len() as int) =~= v);
    assert(token(line, 0) == m);
    assert(a < line.len());
    assert(token_from(line, 0, 1) == token_from(line, a + 1, 0));
    assert(token(line, 1) == p);
    assert(token_from(line, a + 1, 1) == token_from(line, c + 1, 0));
    assert(c < line.len());
    assert(token_from(line, 0, 2) == token_from(line, a + 1, 1));
    assert(token(line, 2) == v);
}

/// Prepends `acc` to the headers of a parse result.
pub open spec fn with_prefix(
    acc: Seq<(Seq<u8>, Seq<u8>)>,
    r: Option<(Seq<(Seq<u8>, Seq<u8>)>, Seq<u8>)>,
) -> Option<(Seq<(Seq<u8>, Seq<u8>)>, Seq<u8>)> {
    match r {
        None => None,
        Some(p) => Some((acc + p.0, p.1)),
    }
}

proof fn lemma_with_prefix_push(
    acc: Seq<(Seq<u8>, Seq<u8>)>,
    h: (Seq<u8>, Seq<u8>),
    x: Option<(Seq<(Seq<u8>, Seq<u8>)>, Seq<u8>)>,
)
    ensures
        with_prefix(acc, with_prefix(seq![h], x)) == with_prefix(acc.push(h), x),
{
    if let Some(p) = x {
        assert(acc + (seq![h] + p.0) =~= acc.push(h) + p.0);
    }
}

/// Whether `a` and `b` hold the same bytes.
pub fn bytes_eq(a: &[u8], b: &[u8]) -> (r: bool)
    ensures
        r == (a@ == b@),
{
    if a.len() != b.len() {
        return false;
    }
    let mut i: usize = 0;
    while i < a.len()
        invariant
            a@.len() == b@.len(),
            i <= a@.len(),
            forall|k: int| 0 <= k < i ==> a@[k] == b@[k],
        decreases a@.len() - i,
    {
        if a[i] != b[i] {
            return false;
        }
        i = i + 1;
    }
    assert(a@ =~= b@);
    true
}

/// End of the line content at `pos`, and the start of the next line.
fn line_bounds(s: &[u8], pos: usize) -> (r: (usize, usize))
    requires
        pos < s@.len(),
    ensures
        pos <= r.0 <= s@.len(),
        pos < r.1 <= s@.len(),
        s@.subrange(pos as int, r.0 as int) == line_at(s@, pos as int),
        r.1 == next_line(s@, pos as int),
{
    let j = find_byte(s, pos, LF);
    proof {
        lemma_index_of_bounds(s@, pos as int, LF);
    }
    let end = if pos < j && j < s.len() && s[j - 1] == CR {
        j - 1
    } else {
        j
    };
    let next = if j < s.len() {
        j + 1
    } else {
        s.len()
    };
    (end, next)
}

/// Position of the first `": "` in `s`, or `s.len()`.
fn find_header_sep(s: &[u8]) -> (r: usize)
    ensures
        r == header_sep(s@, 0),
        r < s@.len() ==> r + 1 < s@.len(),
        r <= s@.len(),
{
    let mut i: usize = 0;
    while s.len() > 0 && i < s.len() - 1
        invariant
            header_sep(s@, 0) == header_sep(s@, i as int),
            i <= s@.len(),
        decreases s@.len() - i,
    {
        if s[i] == COLON && s[i + 1] == SP {
            return i;
        }
        i = i + 1;
    }
    s.len()
}

/// Splits one header line on its first `": "`.
fn parse_header_line(line: &[u8]) -> (r: Option<Header>)
    ensures
        match split_header(line@) {
            None => r is None,
            Some(h) => r is Some && header_model(r->Some_0) == h,
        },
{
    let k = find_header_sep(line);
    if k < line.len() {
        let name = copy_range(line, 0, k);
        let content = copy_range(line, k + 2, line.len());
        Some(Header { name, content })
    } else {
        None
    }
}

/// The `k`-th space-separated token of `s`, empty when there are fewer.
pub fn token_of(s: &[u8], k: usize) -> (r: Vec<u8>)
    ensures
        r@ == token(s@, k as nat),
{
    let mut start: usize = 0;
    let mut kk: usize = k;
    loop
        invariant
            start <= s@.len(),
            token(s@, k as nat) == token_from(s@, start as int, kk as nat),
        decreases kk,
    {
        let j = find_byte(s, start, SP);
        if kk == 0 {
            return copy_range(s, start, j);
        }
        if j < s.len() {
            start = j + 1;
            kk = kk - 1;
        } else {
            return Vec::new();
        }
    }
}

/// The method that a request-line token names.
pub fn method_from(t: &[u8]) -> (r: Method)
    ensures
        r == method_of(t@),
{
    let get: Vec<u8> = vec![71u8, 69u8, 84u8];
    let post: Vec<u8> = vec![80u8, 79u8, 83u8, 84u8];
    assert(get@ =~= get_word());
    assert(post@ =~= post_word());
    if bytes_eq(t, get.as_slice()) {
        Method::Get
    } else if bytes_eq(t, post.as_slice()) {
        Method::Post
    } else {
        Method::Unknown
    }
}

impl HTTPRequest {
    /// Parses the bytes read from a connection. Trailing zero bytes are
    /// dropped first; the body is the exact byte span after the first empty
    /// line.
    pub fn new(data: &[u8]) -> (r: Result<HTTPRequest, ParseError>)
        ensures
            match parse_request(trim_trailing_nul(data@)) {
                Ok(m) => r is Ok && r->Ok_0@ == m,
                Err(e) => r == Err::<HTTPRequest, ParseError>(e),
            },
    {
        let n = trimmed_len(data);
        let sv = copy_range(data, 0, n);
        let s = sv.as_slice();
        if s.len() == 0 {
            return Err(ParseError::Empty);
        }
        let (head_end, first) = line_bounds(s, 0);
        let head = copy_range(s, 0, head_end);
        let method = method_from(token_of(head.as_slice(), 0).as_slice());
        let path = token_of(head.as_slice(), 1);
        let version = token_of(head.as_slice(), 2);
        assert(s@ == trim_trailing_nul(data@));
        assert(head@ == line_at(s@, 0));
        let mut headers: Vec<Header> = Vec::new();
        let mut pos: usize = first;
        assert(with_prefix(headers_model(headers@), parse_headers(s@, pos as int)) =~= parse_headers(
            s@,
            first as int,
        )) by {
            if let Some(p) = parse_headers(s@, pos as int) {
                assert(headers_model(headers@) + p.0 =~= p.0);
            }
        }
        while pos < s.len()
            invariant
                pos <= s@.len(),
                s@.len() > 0,
                s@ == trim_trailing_nul(data@),
                head@ == line_at(s@, 0),
                first == next_line(s@, 0),
                method == method_of(token(head@, 0)),
                path@ == token(head@, 1),
                version@ == token(head@, 2),
                with_prefix(headers_model(headers@), parse_headers(s@, pos as int)) == parse_headers(
                    s@,
                    first as int,
                ),
            decreases s@.len() - pos,
        {
            let (end, next) = line_bounds(s, pos);
            assert(line_at(s@, pos as int) =~= s@.subrange(pos as int, end as int));
            if end == pos {
                assert(parse_headers(s@, pos as int) == Some((
                    Seq::<(Seq<u8>, Seq<u8>)>::empty(),
                    s@.subrange(next as int, s@.len() as int),
                )));
                let content = copy_range(s, next, s.len());
                let req = HTTPRequest { method, headers, path, version, content };
                assert(headers_model(headers@) + seq![] =~= headers_model(headers@));
                return Ok(req);
            }
            let line = copy_range(s, pos, end);
            match parse_header_line(line.as_slice()) {
                None => {
                    assert(parse_headers(s@, pos as int) is None);
                    return Err(ParseError::MalformedHeader);
                },
                Some(h) => {
                    proof {
                        lemma_with_prefix_push(
                            headers_model(headers@),
                            header_model(h),
                            parse_headers(s@, next as int),
                        );
                    }
                    let ghost before = headers@;
                    headers.push(h);
                    assert(headers_model(headers@) =~= headers_model(before).push(header_model(h)));
                    pos = next;
                },
            }
        }
        assert(headers_model(headers@) + seq![] =~= headers_model(headers@));
        Ok(HTTPRequest { method, headers, path, version, content: Vec::new() })
    }
}

} // verus!
