//! Routing a parsed request to a reply or to file work, and finishing
//! replies once the file work is done.

use vstd::prelude::*;

use nom::AsBytes;

use crate::bytes::{append_all, copy_range, trim_trailing_nul};
use crate::request::{bytes_eq, headers_model, parse_request, HTTPRequest, Header, Method, RequestModel};
use crate::response::{octet_stream, response_spec, send, send_file_content, text_plain, StatusCode};

verus! {

/// Size of the buffer that one request is read into.
pub const BUFFER_SIZE: usize = 4096;

pub const SLASH: u8 = 47;

pub const DOT: u8 = 46;

/// Path prefix of the echo route.
pub open spec fn echo_prefix() -> Seq<u8> {
    seq![47u8, 101u8, 99u8, 104u8, 111u8, 47u8]
}

fn echo_prefix_bytes() -> (r: Vec<u8>)
    ensures
        r@ == echo_prefix(),
{
    let r: Vec<u8> = vec![47u8, 101u8, 99u8, 104u8, 111u8, 47u8];
    assert(r@ =~= echo_prefix());
    r
}

/// Path prefix of the file route.
pub open spec fn files_prefix() -> Seq<u8> {
    seq![47u8, 102u8, 105u8, 108u8, 101u8, 115u8, 47u8]
}

fn files_prefix_bytes() -> (r: Vec<u8>)
    ensures
        r@ == files_prefix(),
{
    let r: Vec<u8> = vec![47u8, 102u8, 105u8, 108u8, 101u8, 115u8, 47u8];
    assert(r@ =~= files_prefix());
    r
}

/// The root path.
pub open spec fn root_path() -> Seq<u8> {
    seq![47u8]
}

fn root_path_bytes() -> (r: Vec<u8>)
    ensures
        r@ == root_path(),
{
    let r: Vec<u8> = vec![47u8];
    assert(r@ =~= root_path());
    r
}

/// Command-line flag naming the base directory.
pub open spec fn directory_flag() -> Seq<u8> {
    seq![45u8, 45u8, 100u8, 105u8, 114u8, 101u8, 99u8, 116u8, 111u8, 114u8, 121u8]
}

fn directory_flag_bytes() -> (r: Vec<u8>)
    ensures
        r@ == directory_flag(),
{
    let r: Vec<u8> = vec![45u8, 45u8, 100u8, 105u8, 114u8, 101u8, 99u8, 116u8, 111u8, 114u8, 121u8];
    assert(r@ =~= directory_flag());
    r
}

/// Protocol version of replies to a request that names none.
pub open spec fn default_version() -> Seq<u8> {
    seq![72u8, 84u8, 84u8, 80u8, 47u8, 49u8, 46u8, 49u8]
}

/// The version a reply carries: the request's own, or the default when empty.
pub open spec fn reply_version(v: Seq<u8>) -> Seq<u8> {
    if v.len() == 0 {
        default_version()
    } else {
        v
    }
}

pub fn reply_version_of(v: &[u8]) -> (r: Vec<u8>)
    ensures
        r@ == reply_version(v@),
{
    if v.len() == 0 {
        let r: Vec<u8> = vec![72u8, 84u8, 84u8, 80u8, 47u8, 49u8, 46u8, 49u8];
        assert(r@ =~= default_version());
        r
    } else {
        copy_range(v, 0, v.len())
    }
}

/// What the connection handler does next.
#[derive(Debug, PartialEq, Eq)]
pub enum Action {
    /// Send nothing and close the connection.
    Close,
    /// Write these response bytes.
    Send(Vec<u8>),
    /// Read the file at `path`, then finish with `read_file_response`.
    ReadFile { path: Vec<u8>, version: Vec<u8> },
    /// Store `contents` at `path`, then finish with `write_file_response`.
    WriteFile { path: Vec<u8>, contents: Vec<u8>, version: Vec<u8> },
}

pub enum ActionModel {
    Close,
    Send(Seq<u8>),
    ReadFile(Seq<u8>, Seq<u8>),
    WriteFile(Seq<u8>, Seq<u8>, Seq<u8>),
}

impl View for Action {
    type V = ActionModel;

    open spec fn view(&self) -> ActionModel {
        match self {
            Action::Close => ActionModel::Close,
            Action::Send(b) => ActionModel::Send(b@),
            Action::ReadFile { path, version } => ActionModel::ReadFile(path@, version@),
            Action::WriteFile { path, contents, version } => ActionModel::WriteFile(
                path@,
                contents@,
                version@,
            ),
        }
    }
}

/// How reading a file turned out.
#[derive(Debug)]
pub enum FileRead {
    Contents(Vec<u8>),
    Missing,
    Failed,
}

pub open spec fn starts_with(s: Seq<u8>, p: Seq<u8>) -> bool {
    p.len() <= s.len() && s.subrange(0, p.len() as int) == p
}

pub open spec fn ascii_lower(b: u8) -> u8 {
    if 65 <= b <= 90 {
        (b + 32) as u8
    } else {
        b
    }
}

/// Equality up to ASCII letter case.
pub open spec fn eq_ignore_case(a: Seq<u8>, b: Seq<u8>) -> bool {
    a.len() == b.len() && forall|i: int| 0 <= i < a.len() ==> ascii_lower(a[i]) == ascii_lower(b[i])
}

/// The value of the first header from index `i` whose name matches `key`
/// up to ASCII case.
pub open spec fn header_lookup(hs: Seq<(Seq<u8>, Seq<u8>)>, key: Seq<u8>, i: int) -> Option<Seq<u8>>
    decreases hs.len() - i,
{
    if i < 0 || i >= hs.len() {
        None
    } else if eq_ignore_case(hs[i].0, key) {
        Some(hs[i].1)
    } else {
        header_lookup(hs, key, i + 1)
    }
}

/// The path without its leading `/`, or empty when it has none.
pub open spec fn reflection_key(path: Seq<u8>) -> Seq<u8> {
    if path.len() > 0 && path[0] == SLASH {
        path.subrange(1, path.len() as int)
    } else {
        seq![]
    }
}

/// Whether a `..` segment starts at `i` in a `/`-separated name.
pub open spec fn parent_segment_at(name: Seq<u8>, i: int) -> bool {
    0 <= i && i + 2 <= name.len() && name[i] == DOT && name[i + 1] == DOT && (i == 0 || name[i - 1]
        == SLASH) && (i + 2 == name.len() || name[i + 2] == SLASH)
}

/// Whether a `..` segment occurs in a `/`-separated name.
pub open spec fn has_parent_segment(name: Seq<u8>) -> bool {
    exists|i: int| #[trigger] parent_segment_at(name, i)
}

/// `<base>/<name>`.
pub open spec fn resolve(base: Seq<u8>, name: Seq<u8>) -> Seq<u8> {
    base + seq![SLASH] + name
}

pub open spec fn text_reply(version: Seq<u8>, code: StatusCode, body: Seq<u8>) -> ActionModel {
    ActionModel::Send(response_spec(version, code, body, text_plain()))
}

/// The routing decision for a request, first match in order: echo, files,
/// root, header reflection. Replies carry the request's version, or
/// `HTTP/1.1` when it names none.
pub open spec fn route(q: RequestModel, base: Seq<u8>) -> ActionModel {
    let v = reply_version(q.version);
    if starts_with(q.path, echo_prefix()) {
        text_reply(v, StatusCode::Success, q.path.subrange(6, q.path.len() as int))
    } else if starts_with(q.path, files_prefix()) {
        let name = q.path.subrange(7, q.path.len() as int);
        if has_parent_segment(name) || q.method == Method::Unknown {
            text_reply(v, StatusCode::NotFound, seq![])
        } else if q.method == Method::Get {
            ActionModel::ReadFile(resolve(base, name), v)
        } else {
            ActionModel::WriteFile(resolve(base, name), q.body, v)
        }
    } else if q.path == root_path() {
        text_reply(v, StatusCode::Success, seq![])
    } else {
        match header_lookup(q.headers, reflection_key(q.path), 0) {
            Some(value) => text_reply(v, StatusCode::Success, value),
            None => text_reply(v, StatusCode::NotFound, seq![]),
        }
    }
}

/// What the handler does with the first `read` bytes of its buffer.
pub open spec fn handle_spec(data: Seq<u8>, base: Seq<u8>) -> ActionModel {
    if data.len() == 0 {
        ActionModel::Close
    } else {
        match parse_request(trim_trailing_nul(data)) {
            Ok(q) => route(q, base),
            Err(_) => ActionModel::Close,
        }
    }
}

/// Relies on nom's `AsBytes` for `[u8]`, which hands back the bytes unchanged.
#[verifier::external_body]
fn buffer_bytes(buffer: &[u8; BUFFER_SIZE]) -> (r: &[u8])
    ensures
        r@ == buffer@,
{
    buffer.as_bytes()
}

pub fn starts_with_bytes(s: &[u8], p: &[u8]) -> (r: bool)
    ensures
        r == starts_with(s@, p@),
{
    if p.len() > s.len() {
        return false;
    }
    let head = copy_range(s, 0, p.len());
    bytes_eq(head.as_slice(), p)
}

pub fn to_ascii_lower(b: u8) -> (r: u8)
    ensures
        r == ascii_lower(b),
{
    if 65 <= b && b <= 90 {
        b + 32
    } else {
        b
    }
}

/// Whether `a` and `b` are equal up to ASCII letter case.
pub fn eq_ignore_ascii_case(a: &[u8], b: &[u8]) -> (r: bool)
    ensures
        r == eq_ignore_case(a@, b@),
{
    if a.len() != b.len() {
        return false;
    }
    let mut i: usize = 0;
    while i < a.len()
        invariant
            a@.len() == b@.len(),
            i <= a@.len(),
            forall|k: int| 0 <= k < i ==> ascii_lower(a@[k]) == ascii_lower(b@[k]),
        decreases a@.len() - i,
    {
        if to_ascii_lower(a[i]) != to_ascii_lower(b[i]) {
            return false;
        }
        i = i + 1;
    }
    true
}

pub fn contains_parent_segment(name: &[u8]) -> (r: bool)
    ensures
        r == has_parent_segment(name@),
{
    let mut i: usize = 0;
    while i < name.len()
        invariant
            i <= name@.len(),
            forall|k: int| 0 <= k < i ==> !#[trigger] parent_segment_at(name@, k),
        decreases name@.len() - i,
    {
        if name.len() - i >= 2 && name[i] == DOT && name[i + 1] == DOT && (i == 0 || name[i - 1]
            == SLASH) && (name.len() - i == 2 || name[i + 2] == SLASH) {
            assert(parent_segment_at(name@, i as int));
            return true;
        }
        i = i + 1;
    }
    assert forall|k: int| !#[trigger] parent_segment_at(name@, k) by {
        if 0 <= k < i {
        }
    }
    false
}

fn find_header(headers: &Vec<Header>, key: &[u8]) -> (r: Option<usize>)
    ensures
        match header_lookup(headers_model(headers@), key@, 0) {
            None => r is None,
            Some(v) => r is Some && r->Some_0 < headers@.len() && headers@[r->Some_0 as int].content@ == v,
        },
{
    let ghost hs = headers_model(headers@);
    let mut i: usize = 0;
    while i < headers.len()
        invariant
            i <= headers@.len(),
            hs == headers_model(headers@),
            header_lookup(hs, key@, 0) == header_lookup(hs, key@, i as int),
        decreases headers@.len() - i,
    {
        if eq_ignore_ascii_case(headers[i].name.as_slice(), key) {
            return Some(i);
        }
        i = i + 1;
    }
    None
}

/// The routing decision for a parsed request; `base` is the directory that
/// file names are resolved under.
pub fn route_request(req: &HTTPRequest, base: &[u8]) -> (r: Action)
    ensures
        r@ == route(req@, base@),
{
    let path = req.path.as_slice();
    let v = reply_version_of(req.version.as_slice());
    let version = v.as_slice();
    if starts_with_bytes(path, echo_prefix_bytes().as_slice()) {
        let suffix = copy_range(path, 6, path.len());
        return Action::Send(send(version, StatusCode::Success, suffix.as_slice()));
    }
    if starts_with_bytes(path, files_prefix_bytes().as_slice()) {
        let name = copy_range(path, 7, path.len());
        let empty: Vec<u8> = Vec::new();
        if contains_parent_segment(name.as_slice()) || req.method == Method::Unknown {
            return Action::Send(send(version, StatusCode::NotFound, empty.as_slice()));
        }
        let mut full: Vec<u8> = Vec::new();
        append_all(&mut full, base);
        full.push(SLASH);
        append_all(&mut full, name.as_slice());
        assert(full@ =~= resolve(base@, name@));
        if req.method == Method::Get {
            return Action::ReadFile { path: full, version: v };
        }
        let contents = copy_range(req.content.as_slice(), 0, req.content.len());
        assert(contents@ =~= req.content@);
        return Action::WriteFile { path: full, contents, version: v };
    }
    let empty: Vec<u8> = Vec::new();
    if bytes_eq(path, root_path_bytes().as_slice()) {
        return Action::Send(send(version, StatusCode::Success, empty.as_slice()));
    }
    let key = if path.len() > 0 && path[0] == SLASH {
        copy_range(path, 1, path.len())
    } else {
        Vec::new()
    };
    assert(key@ =~= reflection_key(path@));
    match find_header(&req.headers, key.as_slice()) {
        Some(i) => Action::Send(send(version, StatusCode::Success, req.headers[i].content.as_slice())),
        None => Action::Send(send(version, StatusCode::NotFound, empty.as_slice())),
    }
}

/// Handles the bytes of one read: nothing read or an unparseable request
/// closes the connection; otherwise the request is routed.
pub fn handle_read(buffer: &[u8; BUFFER_SIZE], read: usize, base: &[u8]) -> (r: Action)
    requires
        read <= BUFFER_SIZE,
    ensures
        r@ == handle_spec(buffer@.subrange(0, read as int), base@),
{
    if read == 0 {
        return Action::Close;
    }
    let data = copy_range(buffer_bytes(buffer), 0, read);
    match HTTPRequest::new(data.as_slice()) {
        Ok(req) => route_request(&req, base),
        Err(_) => Action::Close,
    }
}

/// The reply to a file read that returned `contents`.
pub open spec fn read_reply(version: Seq<u8>, contents: Seq<u8>) -> Seq<u8> {
    response_spec(version, StatusCode::Success, contents, octet_stream())
}

/// The argument after the first `--directory` at or after index `i`, or
/// empty when there is none.
pub open spec fn directory_from(args: Seq<Vec<u8>>, i: int) -> Seq<u8>
    decreases args.len() - i,
{
    if i < 0 || i + 1 >= args.len() {
        seq![]
    } else if args[i]@ == directory_flag() {
        args[i + 1]@
    } else {
        directory_from(args, i + 1)
    }
}

/// The base directory named on the command line, empty when absent.
pub fn base_directory(args: &Vec<Vec<u8>>) -> (r: Vec<u8>)
    ensures
        r@ == directory_from(args@, 0),
{
    let flag = directory_flag_bytes();
    let mut i: usize = 0;
    while args.len() > 0 && i < args.len() - 1
        invariant
            i <= args@.len(),
            flag@ == directory_flag(),
            directory_from(args@, 0) == directory_from(args@, i as int),
        decreases args@.len() - i,
    {
        if bytes_eq(args[i].as_slice(), flag.as_slice()) {
            let v = &args[i + 1];
            return copy_range(v.as_slice(), 0, v.len());
        }
        i = i + 1;
    }
    Vec::new()
}

/// The reply once a requested file has been read, found missing, or failed
/// to read.
pub fn read_file_response(version: &[u8], outcome: FileRead) -> (r: Vec<u8>)
    ensures
        r@ == match outcome {
            FileRead::Contents(c) => read_reply(version@, c@),
            FileRead::Missing => response_spec(version@, StatusCode::NotFound, seq![], text_plain()),
            FileRead::Failed => response_spec(
                version@,
                StatusCode::InternalServerError,
                seq![],
                text_plain(),
            ),
        },
{
    let empty: Vec<u8> = Vec::new();
    match outcome {
        FileRead::Contents(c) => send_file_content(version, StatusCode::Success, c.as_slice()),
        FileRead::Missing => send(version, StatusCode::NotFound, empty.as_slice()),
        FileRead::Failed => send(version, StatusCode::InternalServerError, empty.as_slice()),
    }
}

/// The reply once a posted body has been stored, or storing it failed.
pub fn write_file_response(version: &[u8], written: bool) -> (r: Vec<u8>)
    ensures
        r@ == response_spec(
            version@,
            if written {
                StatusCode::Created
            } else {
                StatusCode::InternalServerError
            },
            seq![],
            text_plain(),
        ),
{
    let empty: Vec<u8> = Vec::new();
    if written {
        send(version, StatusCode::Created, empty.as_slice())
    } else {
        send(version, StatusCode::InternalServerError, empty.as_slice())
    }
}

} // verus!
